use capn::config::{Config, GitConfig, Unit, VerifyGitCommitsConfig};
use capn::error::CapnError;
use capn::fs::Fs;
use capn::gpg::MockGpg;
use capn::in_memory::{InMemoryGit, StoredCommit, StoredFile, StoredRef};
use capn::oid::ObjectId;
use capn::{pre_push, pre_receive, prepare_commit_msg, PrePush, PrepareCommitMsg};

const ZERO: &str = "0000000000000000000000000000000000000000";

fn hex_id(digit: char) -> String {
    std::iter::repeat(digit).take(40).collect()
}

fn oid(digit: char) -> ObjectId {
    ObjectId::from_hex(&hex_id(digit)).unwrap()
}

fn test_repo() -> InMemoryGit {
    InMemoryGit {
        commits: vec![
            StoredCommit {
                id: oid('a'),
                author_email: Some("alice@example.com".to_string()),
                committer_email: Some("alice@example.com".to_string()),
                is_identical_tree_to_any_parent: false,
                is_trivial_merge: false,
                parents: vec![],
                valid_signature_fingerprints: vec!["FP1".to_string()],
            },
            StoredCommit {
                id: oid('b'),
                author_email: Some("alice@example.com".to_string()),
                committer_email: Some("alice@example.com".to_string()),
                is_identical_tree_to_any_parent: false,
                is_trivial_merge: false,
                parents: vec![oid('a')],
                valid_signature_fingerprints: vec!["FP1".to_string()],
            },
        ],
        refs: vec![StoredRef {
            name: "refs/heads/master".to_string(),
            target: oid('a'),
            is_tag: false,
        }],
        tags: vec![],
        files: vec![StoredFile {
            path: "TEAM_FINGERPRINTS".to_string(),
            contents: "FP1,Alice,alice@example.com".to_string(),
        }],
        head_ref: "refs/heads/master".to_string(),
        head_shorthand: "master".to_string(),
        mainlines: vec!["HEAD".to_string()],
    }
}

fn config() -> Config {
    Config {
        git: GitConfig::default(),
        prepend_branch_name: Some(Unit {}),
        verify_git_commits: Some(VerifyGitCommitsConfig {
            author_domain: "example.com".to_string(),
            committer_domain: "example.com".to_string(),
            keyserver: "hkp://keyserver.invalid".to_string(),
            team_fingerprints_file: "TEAM_FINGERPRINTS".to_string(),
            recv_keys_par: true,
            verify_email_addresses: true,
            verify_commit_signatures: true,
            verify_different_authors: true,
            verify_rebased: false,
            override_tag_pattern: Some("capn-override-*".to_string()),
            override_tags_required: 1,
        }),
    }
}

#[test]
fn pre_receive_verifies_a_signed_update() {
    let git = test_repo();
    let result =
        pre_receive(&git, MockGpg, &config(), &hex_id('a'), &hex_id('b'), "refs/heads/master")
            .unwrap();
    assert!(result.is_ok(), "expected a pass, got {:?}", result);
}

#[test]
fn pre_receive_rejects_malformed_ids() {
    let git = test_repo();
    let result = pre_receive(&git, MockGpg, &config(), "nonsense", ZERO, "refs/heads/master");
    assert!(result.is_err());
}

#[test]
fn pre_push_verifies_a_signed_update() {
    let git = test_repo();
    let opts = PrePush {
        remote_name: "origin".to_string(),
        remote_location: "server:repo.git".to_string(),
    };
    // the pre-push hook sees local ref and sha first, remote sha last
    let result = pre_push(
        &git,
        MockGpg,
        &opts,
        &config(),
        "refs/heads/master",
        &hex_id('b'),
        "refs/heads/master",
        &hex_id('a'),
    )
    .unwrap();
    assert!(result.is_ok(), "expected a pass, got {:?}", result);
}

struct RecordingFs;

impl Fs for RecordingFs {
    fn prepend_string_to_file(_s: String, _filename: String) -> Result<(), CapnError> {
        Ok(())
    }
}

struct FailingFs;

impl Fs for FailingFs {
    fn prepend_string_to_file(_s: String, _filename: String) -> Result<(), CapnError> {
        Err(CapnError::new("the hook must not touch the file here"))
    }
}

#[test]
fn prepare_commit_msg_prepends_on_fresh_messages() {
    let git = test_repo();
    let opt = PrepareCommitMsg {
        commit_file: "COMMIT_EDITMSG".to_string(),
        commit_source: None,
        existing_commit: None,
    };
    let result = prepare_commit_msg::<RecordingFs, InMemoryGit>(&git, opt, config()).unwrap();
    assert!(result.is_ok());
}

#[test]
fn prepare_commit_msg_leaves_sourced_messages_alone() {
    // a message with a source (merge, amendment) is not touched: the failing
    // double would error if it were called
    let git = test_repo();
    let opt = PrepareCommitMsg {
        commit_file: "COMMIT_EDITMSG".to_string(),
        commit_source: Some("merge".to_string()),
        existing_commit: None,
    };
    let result = prepare_commit_msg::<FailingFs, InMemoryGit>(&git, opt, config()).unwrap();
    assert!(result.is_ok());
}

#[test]
fn object_ids_round_trip_through_hex() {
    let id = ObjectId::from_hex("eb5e0185546b0bb1a13feec6b9ee8b39985fea42").unwrap();
    assert_eq!(id.to_hex(), "eb5e0185546b0bb1a13feec6b9ee8b39985fea42");
    let upper = ObjectId::from_hex("EB5E0185546B0BB1A13FEEC6B9EE8B39985FEA42").unwrap();
    assert_eq!(upper.to_hex(), "eb5e0185546b0bb1a13feec6b9ee8b39985fea42");
}
