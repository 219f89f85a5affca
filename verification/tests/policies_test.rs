use capn::config::VerifyGitCommitsConfig;
use capn::git::Tag;
use capn::gpg::MockGpg;
use capn::in_memory::{InMemoryGit, StoredCommit, StoredFile, StoredRef, StoredTag};
use capn::oid::ObjectId;
use capn::policies::verify_git_commits;
use capn::policies::policy_result::PolicyResult;
use capn::reference_update::ReferenceUpdate;

const ZERO: &str = "0000000000000000000000000000000000000000";

fn hex_id(digit: char) -> String {
    std::iter::repeat(digit).take(40).collect()
}

fn oid(digit: char) -> ObjectId {
    ObjectId::from_hex(&hex_id(digit)).unwrap()
}

fn commit(digit: char, parents: &[char], signer: Option<&str>, author: &str) -> StoredCommit {
    StoredCommit {
        id: oid(digit),
        author_email: Some(author.to_string()),
        committer_email: Some(author.to_string()),
        is_identical_tree_to_any_parent: false,
        is_trivial_merge: false,
        parents: parents.iter().map(|&p| oid(p)).collect(),
        valid_signature_fingerprints: signer.iter().map(|s| s.to_string()).collect(),
    }
}

fn roster() -> StoredFile {
    StoredFile {
        path: "TEAM_FINGERPRINTS".to_string(),
        contents: "FP1,Alice,alice@example.com\nFP2,Bob,bob@example.com".to_string(),
    }
}

fn repo(commits: Vec<StoredCommit>, refs: Vec<StoredRef>, tags: Vec<StoredTag>) -> InMemoryGit {
    InMemoryGit {
        commits,
        refs,
        tags,
        files: vec![roster()],
        head_ref: "refs/heads/master".to_string(),
        head_shorthand: "master".to_string(),
        mainlines: vec!["HEAD".to_string()],
    }
}

fn branch(name: &str, digit: char) -> StoredRef {
    StoredRef { name: name.to_string(), target: oid(digit), is_tag: false }
}

fn config() -> VerifyGitCommitsConfig {
    VerifyGitCommitsConfig {
        author_domain: "example.com".to_string(),
        committer_domain: "example.com".to_string(),
        keyserver: "hkp://keyserver.invalid".to_string(),
        team_fingerprints_file: "TEAM_FINGERPRINTS".to_string(),
        recv_keys_par: true,
        verify_email_addresses: true,
        verify_commit_signatures: true,
        verify_different_authors: true,
        verify_rebased: false,
        override_tag_pattern: Some("capn-override-*".to_string()),
        override_tags_required: 1,
    }
}

fn update(old: &str, new: &str, ref_name: &str) -> ReferenceUpdate {
    ReferenceUpdate::from_git_hook_format(old, new, ref_name).unwrap()
}

fn override_tag(tag_digit: char, target: char, name: &str, tagger: &str, fp: &str) -> StoredTag {
    StoredTag {
        target: oid(target),
        tag: Tag {
            id: oid(tag_digit),
            name: name.to_string(),
            tagger_email: Some(tagger.to_string()),
        },
        valid_signature_fingerprints: vec![fp.to_string()],
    }
}

#[test]
fn happy_path_new_branch_with_signed_commit() {
    // one base commit on the mainline, one signed commit on a new branch
    let git = repo(
        vec![
            commit('a', &[], Some("FP1"), "alice@example.com"),
            commit('b', &['a'], Some("FP1"), "alice@example.com"),
        ],
        vec![branch("refs/heads/master", 'a')],
        vec![],
    );
    let ref_update = update(ZERO, &hex_id('b'), "refs/heads/feature");
    let result = verify_git_commits(&git, MockGpg, &config(), &ref_update).unwrap();
    assert!(result.is_ok(), "expected a pass, got {:?}", result);
}

#[test]
fn unsigned_commit_rejected() {
    let git = repo(
        vec![
            commit('a', &[], Some("FP1"), "alice@example.com"),
            commit('b', &['a'], None, "alice@example.com"),
        ],
        vec![branch("refs/heads/master", 'a')],
        vec![],
    );
    let ref_update = update(&hex_id('a'), &hex_id('b'), "refs/heads/master");
    let result = verify_git_commits(&git, MockGpg, &config(), &ref_update).unwrap();
    match result {
        PolicyResult::UnsignedCommit(id) => assert!(id == oid('b')),
        other => panic!("expected an unsigned-commit failure, got {:?}", other),
    }
}

#[test]
fn override_tags_accept_unsigned_commit() {
    // the commit itself is unsigned, but two distinct taggers signed
    // matching override tags on it
    let git = repo(
        vec![
            commit('a', &[], Some("FP1"), "alice@example.com"),
            commit('b', &['a'], None, "alice@example.com"),
        ],
        vec![branch("refs/heads/master", 'a')],
        vec![
            override_tag('1', 'b', "capn-override-alice", "alice@example.com", "FP1"),
            override_tag('2', 'b', "capn-override-bob", "bob@example.com", "FP2"),
        ],
    );
    let mut cfg = config();
    cfg.override_tags_required = 2;
    let ref_update = update(&hex_id('a'), &hex_id('b'), "refs/heads/master");
    let result = verify_git_commits(&git, MockGpg, &cfg, &ref_update).unwrap();
    assert!(result.is_ok(), "expected a pass, got {:?}", result);
}

#[test]
fn override_rejected_when_too_few_distinct_taggers() {
    let git = repo(
        vec![
            commit('a', &[], Some("FP1"), "alice@example.com"),
            commit('b', &['a'], None, "alice@example.com"),
        ],
        vec![branch("refs/heads/master", 'a')],
        vec![override_tag('1', 'b', "capn-override-alice", "alice@example.com", "FP1")],
    );
    let mut cfg = config();
    cfg.override_tags_required = 2;
    let ref_update = update(&hex_id('a'), &hex_id('b'), "refs/heads/master");
    let result = verify_git_commits(&git, MockGpg, &cfg, &ref_update).unwrap();
    assert!(result.is_err());
}

#[test]
fn merge_without_second_author_rejected_on_mainline() {
    // a merge commit whose branch commits all share one author
    let mut merge = commit('d', &['a', 'c'], Some("FP1"), "alice@example.com");
    merge.is_trivial_merge = false;
    let git = repo(
        vec![
            commit('a', &[], Some("FP1"), "alice@example.com"),
            commit('c', &['a'], Some("FP1"), "alice@example.com"),
            merge,
        ],
        vec![branch("refs/heads/master", 'a')],
        vec![],
    );
    let ref_update = update(&hex_id('a'), &hex_id('d'), "refs/heads/master");
    let result = verify_git_commits(&git, MockGpg, &config(), &ref_update).unwrap();
    match result {
        PolicyResult::NotEnoughAuthors(id) => assert!(id == oid('d')),
        other => panic!("expected a not-enough-authors failure, got {:?}", other),
    }
}

#[test]
fn merge_with_two_authors_accepted_on_mainline() {
    let git = repo(
        vec![
            commit('a', &[], Some("FP1"), "alice@example.com"),
            commit('c', &['a'], Some("FP2"), "bob@example.com"),
            commit('d', &['a', 'c'], Some("FP1"), "alice@example.com"),
        ],
        vec![branch("refs/heads/master", 'a')],
        vec![],
    );
    let ref_update = update(&hex_id('a'), &hex_id('d'), "refs/heads/master");
    let result = verify_git_commits(&git, MockGpg, &config(), &ref_update).unwrap();
    assert!(result.is_ok(), "expected a pass, got {:?}", result);
}

#[test]
fn single_author_merge_accepted_off_mainline() {
    let git = repo(
        vec![
            commit('a', &[], Some("FP1"), "alice@example.com"),
            commit('c', &['a'], Some("FP1"), "alice@example.com"),
            commit('d', &['a', 'c'], Some("FP1"), "alice@example.com"),
        ],
        vec![branch("refs/heads/master", 'a'), branch("refs/heads/side", 'a')],
        vec![],
    );
    let ref_update = update(&hex_id('a'), &hex_id('d'), "refs/heads/side");
    let result = verify_git_commits(&git, MockGpg, &config(), &ref_update).unwrap();
    assert!(result.is_ok(), "expected a pass, got {:?}", result);
}

#[test]
fn invalid_committer_domain_rejected_despite_valid_signature() {
    let mut c = commit('b', &['a'], Some("FP2"), "alice@example.com");
    c.committer_email = Some("bob@other.org".to_string());
    let git = repo(
        vec![commit('a', &[], Some("FP1"), "alice@example.com"), c],
        vec![branch("refs/heads/master", 'a')],
        vec![],
    );
    let ref_update = update(&hex_id('a'), &hex_id('b'), "refs/heads/master");
    let result = verify_git_commits(&git, MockGpg, &config(), &ref_update).unwrap();
    match result {
        PolicyResult::InvalidCommitterEmail(id, email) => {
            assert!(id == oid('b'));
            assert_eq!(email, "bob@other.org");
        },
        other => panic!("expected an invalid-committer-email failure, got {:?}", other),
    }
}

#[test]
fn missing_author_email_rejected() {
    let mut c = commit('b', &['a'], Some("FP1"), "alice@example.com");
    c.author_email = None;
    let git = repo(
        vec![commit('a', &[], Some("FP1"), "alice@example.com"), c],
        vec![branch("refs/heads/master", 'a')],
        vec![],
    );
    let ref_update = update(&hex_id('a'), &hex_id('b'), "refs/heads/master");
    let result = verify_git_commits(&git, MockGpg, &config(), &ref_update).unwrap();
    match result {
        PolicyResult::MissingAuthorEmail(id) => assert!(id == oid('b')),
        other => panic!("expected a missing-author-email failure, got {:?}", other),
    }
}

#[test]
fn force_push_bypasses_rebase_check() {
    // the new tip does not descend from the old tip: a history rewrite,
    // deliberately outside the rebase rule
    let git = repo(
        vec![
            commit('e', &[], Some("FP1"), "alice@example.com"),
            commit('a', &['e'], Some("FP1"), "alice@example.com"),
            commit('b', &['e'], Some("FP1"), "alice@example.com"),
            commit('c', &['e'], Some("FP2"), "bob@example.com"),
            commit('d', &['b', 'c'], Some("FP1"), "alice@example.com"),
        ],
        vec![branch("refs/heads/master", 'a')],
        vec![],
    );
    let mut cfg = config();
    cfg.verify_rebased = true;
    let ref_update = update(&hex_id('a'), &hex_id('d'), "refs/heads/master");
    let result = verify_git_commits(&git, MockGpg, &cfg, &ref_update).unwrap();
    assert!(result.is_ok(), "expected a pass, got {:?}", result);
}

#[test]
fn unrebased_merge_rejected_on_mainline() {
    // master moved from a to e beside the branch; the merge's branch parent
    // does not descend from the old tip
    let git = repo(
        vec![
            commit('a', &[], Some("FP1"), "alice@example.com"),
            commit('c', &['a'], Some("FP2"), "bob@example.com"),
            commit('d', &['a', 'c'], Some("FP1"), "alice@example.com"),
        ],
        vec![branch("refs/heads/master", 'a')],
        vec![],
    );
    let mut cfg = config();
    cfg.verify_rebased = true;
    let ref_update = update(&hex_id('a'), &hex_id('d'), "refs/heads/master");
    // parents of d are a (the old tip itself) and c (descends from a): rebased
    let result = verify_git_commits(&git, MockGpg, &cfg, &ref_update).unwrap();
    assert!(result.is_ok(), "expected a pass, got {:?}", result);

    // now merge in a branch hanging off an unrelated root: not rebased
    let git2 = repo(
        vec![
            commit('e', &[], Some("FP1"), "alice@example.com"),
            commit('a', &['e'], Some("FP1"), "alice@example.com"),
            commit('c', &['e'], Some("FP2"), "bob@example.com"),
            commit('d', &['a', 'c'], Some("FP1"), "alice@example.com"),
        ],
        vec![branch("refs/heads/master", 'a')],
        vec![],
    );
    let ref_update2 = update(&hex_id('a'), &hex_id('d'), "refs/heads/master");
    let result2 = verify_git_commits(&git2, MockGpg, &cfg, &ref_update2).unwrap();
    match result2 {
        PolicyResult::NotRebased(id) => assert!(id == oid('d')),
        other => panic!("expected a not-rebased failure, got {:?}", other),
    }
}

#[test]
fn deletion_passes_without_consulting_the_roster() {
    // no roster file at all: a deletion must still pass, untouched
    let git = InMemoryGit {
        commits: vec![],
        refs: vec![],
        tags: vec![],
        files: vec![],
        head_ref: "refs/heads/master".to_string(),
        head_shorthand: "master".to_string(),
        mainlines: vec!["HEAD".to_string()],
    };
    let ref_update = update(&hex_id('a'), ZERO, "refs/heads/master");
    let result = verify_git_commits(&git, MockGpg, &config(), &ref_update).unwrap();
    assert!(result.is_ok());
}

#[test]
fn tag_push_passes_without_consulting_the_roster() {
    // a push to a tag ref is out of scope for commit policy, even with no
    // roster file present
    let git = InMemoryGit {
        commits: vec![],
        refs: vec![],
        tags: vec![],
        files: vec![],
        head_ref: "refs/heads/master".to_string(),
        head_shorthand: "master".to_string(),
        mainlines: vec!["HEAD".to_string()],
    };
    let ref_update = update(ZERO, &hex_id('b'), "refs/tags/v1");
    let result = verify_git_commits(&git, MockGpg, &config(), &ref_update).unwrap();
    assert!(result.is_ok());
}

#[test]
fn verify_is_idempotent_on_unchanged_inputs() {
    let git = repo(
        vec![
            commit('a', &[], Some("FP1"), "alice@example.com"),
            commit('b', &['a'], None, "alice@example.com"),
        ],
        vec![branch("refs/heads/master", 'a')],
        vec![],
    );
    let cfg = config();
    let ref_update = update(&hex_id('a'), &hex_id('b'), "refs/heads/master");
    let first = verify_git_commits(&git, MockGpg, &cfg, &ref_update).unwrap();
    let second = verify_git_commits(&git, MockGpg, &cfg, &ref_update).unwrap();
    match (&first, &second) {
        (PolicyResult::UnsignedCommit(x), PolicyResult::UnsignedCommit(y)) => assert!(x == y),
        other => panic!("expected the same unsigned-commit failure twice, got {:?}", other),
    }
}

#[test]
fn identical_tree_commit_needs_no_signature() {
    let mut c = commit('b', &['a'], None, "alice@example.com");
    c.is_identical_tree_to_any_parent = true;
    let git = repo(
        vec![commit('a', &[], Some("FP1"), "alice@example.com"), c],
        vec![branch("refs/heads/master", 'a')],
        vec![],
    );
    let ref_update = update(&hex_id('a'), &hex_id('b'), "refs/heads/master");
    let result = verify_git_commits(&git, MockGpg, &config(), &ref_update).unwrap();
    assert!(result.is_ok(), "expected a pass, got {:?}", result);
}

#[test]
fn trivial_merge_commit_needs_no_signature() {
    let mut m = commit('d', &['a', 'c'], None, "alice@example.com");
    m.is_trivial_merge = true;
    let git = repo(
        vec![
            commit('a', &[], Some("FP1"), "alice@example.com"),
            commit('c', &['a'], Some("FP2"), "bob@example.com"),
            m,
        ],
        vec![branch("refs/heads/master", 'a')],
        vec![],
    );
    let ref_update = update(&hex_id('a'), &hex_id('d'), "refs/heads/master");
    let result = verify_git_commits(&git, MockGpg, &config(), &ref_update).unwrap();
    assert!(result.is_ok(), "expected a pass, got {:?}", result);
}

#[test]
fn commits_already_on_a_mainline_are_not_rechecked() {
    // the new branch head b sits on the mainline valid-* branch: nothing new
    let git = InMemoryGit {
        commits: vec![
            commit('a', &[], Some("FP1"), "alice@example.com"),
            commit('b', &['a'], None, "alice@example.com"),
        ],
        refs: vec![branch("refs/heads/master", 'a'), branch("refs/heads/valid-branch", 'b')],
        tags: vec![],
        files: vec![roster()],
        head_ref: "refs/heads/master".to_string(),
        head_shorthand: "master".to_string(),
        mainlines: vec!["HEAD".to_string(), "valid-*".to_string()],
    };
    let ref_update = update(ZERO, &hex_id('b'), "refs/heads/other");
    let result = verify_git_commits(&git, MockGpg, &config(), &ref_update).unwrap();
    assert!(result.is_ok(), "expected a pass, got {:?}", result);
}

#[test]
fn trivial_flag_on_a_non_merge_commit_is_ignored() {
    // only a two-parent commit can be a trivial merge; a stray flag on an
    // ordinary commit earns no exemption
    let mut c = commit('b', &['a'], None, "alice@example.com");
    c.is_trivial_merge = true;
    let git = repo(
        vec![commit('a', &[], Some("FP1"), "alice@example.com"), c],
        vec![branch("refs/heads/master", 'a')],
        vec![],
    );
    let ref_update = update(&hex_id('a'), &hex_id('b'), "refs/heads/master");
    let result = verify_git_commits(&git, MockGpg, &config(), &ref_update).unwrap();
    match result {
        PolicyResult::UnsignedCommit(id) => assert!(id == oid('b')),
        other => panic!("expected an unsigned-commit failure, got {:?}", other),
    }
}

#[test]
fn email_offence_outranks_signature_offence() {
    // the commit is both unsigned and has a committer outside the domain;
    // the email policy folds first, so its failure is the verdict
    let mut c = commit('b', &['a'], None, "alice@example.com");
    c.committer_email = Some("bob@other.org".to_string());
    let git = repo(
        vec![commit('a', &[], Some("FP1"), "alice@example.com"), c],
        vec![branch("refs/heads/master", 'a')],
        vec![],
    );
    let ref_update = update(&hex_id('a'), &hex_id('b'), "refs/heads/master");
    let result = verify_git_commits(&git, MockGpg, &config(), &ref_update).unwrap();
    match result {
        PolicyResult::InvalidCommitterEmail(id, email) => {
            assert!(id == oid('b'));
            assert_eq!(email, "bob@other.org");
        },
        other => panic!("expected the email failure to outrank the signature failure, got {:?}", other),
    }
}
