use capn::git::Git;
use capn::in_memory::{InMemoryGit, StoredCommit, StoredRef, StoredTag};
use capn::git::Tag;
use capn::oid::ObjectId;

// The test repository:
//
// *   dddd... (same-author) merge of the valid branch into master's history
// |\
// | * bbbb... (valid-branch) a commit on a branch
// |/
// * aaaa... (HEAD -> master) the base commit

fn hex_id(digit: char) -> String {
    std::iter::repeat(digit).take(40).collect()
}

fn oid(digit: char) -> ObjectId {
    ObjectId::from_hex(&hex_id(digit)).unwrap()
}

fn commit(digit: char, parents: &[char]) -> StoredCommit {
    StoredCommit {
        id: oid(digit),
        author_email: Some("alice@example.com".to_string()),
        committer_email: Some("alice@example.com".to_string()),
        is_identical_tree_to_any_parent: false,
        is_trivial_merge: false,
        parents: parents.iter().map(|&p| oid(p)).collect(),
        valid_signature_fingerprints: vec![],
    }
}

fn test_repo(mainlines: Vec<&str>) -> InMemoryGit {
    InMemoryGit {
        commits: vec![commit('a', &[]), commit('b', &['a']), commit('d', &['a', 'b'])],
        refs: vec![
            StoredRef { name: "refs/heads/master".to_string(), target: oid('a'), is_tag: false },
            StoredRef {
                name: "refs/heads/valid-branch".to_string(),
                target: oid('b'),
                is_tag: false,
            },
            StoredRef {
                name: "refs/heads/tagged-branch".to_string(),
                target: oid('b'),
                is_tag: false,
            },
            StoredRef { name: "refs/tags/lightweight-tag".to_string(), target: oid('a'), is_tag: true },
        ],
        tags: vec![StoredTag {
            target: oid('a'),
            tag: Tag {
                id: oid('9'),
                name: "capn-override-test-user-1".to_string(),
                tagger_email: Some("alice@example.com".to_string()),
            },
            valid_signature_fingerprints: vec![],
        }],
        files: vec![],
        head_ref: "refs/heads/master".to_string(),
        head_shorthand: "master".to_string(),
        mainlines: mainlines.into_iter().map(|s| s.to_string()).collect(),
    }
}

#[test]
fn is_mainline_with_default_config_only_identifies_head_branch() {
    let git = test_repo(vec!["HEAD"]);
    assert_eq!(git.is_mainline("refs/heads/master").unwrap(), true);
    assert_eq!(git.is_mainline("refs/heads/tagged-branch").unwrap(), false);
}

#[test]
fn is_mainline_with_glob_config_does_not_identify_head_branch() {
    let git = test_repo(vec!["tagged-*"]);
    assert_eq!(git.is_mainline("refs/heads/master").unwrap(), false);
    assert_eq!(git.is_mainline("refs/heads/tagged-branch").unwrap(), true);
}

#[test]
fn is_mainline_with_literal_config_does_not_identify_head_branch() {
    let git = test_repo(vec!["tagged-branch"]);
    assert_eq!(git.is_mainline("refs/heads/master").unwrap(), false);
    assert_eq!(git.is_mainline("refs/heads/tagged-branch").unwrap(), true);
}

#[test]
fn is_mainline_with_multiple_glob_config_identifies_all_matches() {
    let git = test_repo(vec!["HEAD", "tagged-*"]);
    assert_eq!(git.is_mainline("refs/heads/master").unwrap(), true);
    assert_eq!(git.is_mainline("refs/heads/tagged-branch").unwrap(), true);
}

#[test]
fn identifies_existing_branch_as_not_a_tag() {
    let git = test_repo(vec!["HEAD"]);
    assert_eq!(git.is_tag("refs/heads/master").ok(), Some(false));
}

#[test]
fn identifies_new_branch_as_not_a_tag() {
    let git = test_repo(vec!["HEAD"]);
    assert_eq!(git.is_tag("refs/heads/new-brach-that-does-not-exist").ok(), Some(false));
}

#[test]
fn identifies_existing_lightweight_tag_as_a_tag() {
    let git = test_repo(vec!["HEAD"]);
    assert_eq!(git.is_tag("refs/tags/lightweight-tag").ok(), Some(true));
}

#[test]
fn identifies_new_tag_as_a_tag() {
    let git = test_repo(vec!["HEAD"]);
    assert_eq!(git.is_tag("refs/tags/new-tag-that-does-not-exist").ok(), Some(true));
}

#[test]
fn finds_all_commits_ahead_of_head_with_default_config() {
    let git = test_repo(vec!["HEAD"]);
    let commits = git.find_new_commits(&vec![oid('a')], &vec![oid('d')], &None).unwrap();
    assert_eq!(commits.len(), 2);
}

#[test]
fn finds_only_commits_in_none_of_the_mainlines_with_glob_configuration() {
    let git = test_repo(vec!["HEAD", "valid-*"]);
    let commits = git.find_new_commits(&vec![oid('a')], &vec![oid('d')], &None).unwrap();
    assert_eq!(commits.len(), 1);
}

#[test]
fn finds_only_commits_in_none_of_the_mainlines_with_literal_branch_name_configuration() {
    let git = test_repo(vec!["HEAD", "valid-branch"]);
    let commits = git.find_new_commits(&vec![oid('a')], &vec![oid('d')], &None).unwrap();
    assert_eq!(commits.len(), 1);
}

#[test]
fn finds_only_commits_in_none_of_the_mainlines_with_missing_branch_in_configuration() {
    let git = test_repo(vec!["HEAD", "this-branch-does-not-exist-asdfg"]);
    let commits = git.find_new_commits(&vec![oid('a')], &vec![oid('d')], &None).unwrap();
    assert_eq!(commits.len(), 2);
}

#[test]
fn zero_ids_are_ignored_in_a_walk() {
    let git = test_repo(vec!["HEAD"]);
    let zero = ObjectId::from_hex("0000000000000000000000000000000000000000").unwrap();
    let commits = git.find_new_commits(&vec![zero], &vec![oid('d')], &None).unwrap();
    // nothing is excluded but the mainline base, so the merge and the branch
    // commit are new
    assert_eq!(commits.len(), 2);
}

#[test]
fn walks_report_commit_records_from_the_store() {
    let git = test_repo(vec!["HEAD"]);
    let commits = git.find_new_commits(&vec![oid('a')], &vec![oid('d')], &None).unwrap();
    let merge = commits.iter().find(|c| c.id == oid('d')).unwrap();
    assert!(merge.is_merge_commit);
    assert_eq!(merge.parents.len(), 2);
    assert_eq!(merge.author_email.as_deref(), Some("alice@example.com"));
}

#[test]
fn find_commit_filters_tags_by_the_override_pattern() {
    let git = test_repo(vec!["HEAD"]);
    let with_all = git.find_commit(&oid('a'), &None).unwrap();
    assert_eq!(with_all.tags.len(), 1);
    let with_match = git.find_commit(&oid('a'), &Some("capn-override-*".to_string())).unwrap();
    assert_eq!(with_match.tags.len(), 1);
    let without = git.find_commit(&oid('a'), &Some("release-*".to_string())).unwrap();
    assert_eq!(without.tags.len(), 0);
}

#[test]
fn descendants_are_strict() {
    let git = test_repo(vec!["HEAD"]);
    assert_eq!(git.is_descendent_of(&oid('d'), &oid('a')).ok(), Some(true));
    assert_eq!(git.is_descendent_of(&oid('a'), &oid('d')).ok(), Some(false));
    assert_eq!(git.is_descendent_of(&oid('a'), &oid('a')).ok(), Some(false));
}
