use capn::oid::ObjectId;
use capn::policies::policy_result::{fold_policy_results, PolicyResult};

fn oid(digit: char) -> ObjectId {
    let hex: String = std::iter::repeat(digit).take(40).collect();
    ObjectId::from_hex(&hex).unwrap()
}

#[test]
fn and_keeps_the_first_failure() {
    let first = PolicyResult::UnsignedCommit(oid('a'));
    let second = PolicyResult::NotRebased(oid('b'));
    match first.and(second) {
        PolicyResult::UnsignedCommit(id) => assert!(id == oid('a')),
        other => panic!("expected the first failure to win, got {:?}", other),
    }
}

#[test]
fn and_passes_through_on_a_pass() {
    let second = PolicyResult::NotRebased(oid('b'));
    match PolicyResult::Pass.and(second) {
        PolicyResult::NotRebased(id) => assert!(id == oid('b')),
        other => panic!("expected the second result, got {:?}", other),
    }
    assert!(PolicyResult::Pass.and(PolicyResult::Pass).is_ok());
}

#[test]
fn fold_yields_the_earliest_failure() {
    let results = vec![
        PolicyResult::Pass,
        PolicyResult::UnsignedCommit(oid('a')),
        PolicyResult::NotEnoughAuthors(oid('b')),
    ];
    match fold_policy_results(results) {
        PolicyResult::UnsignedCommit(id) => assert!(id == oid('a')),
        other => panic!("expected the failure at the earlier position, got {:?}", other),
    }
}

#[test]
fn fold_of_all_passes_is_a_pass() {
    let results = vec![PolicyResult::Pass, PolicyResult::Pass];
    assert!(fold_policy_results(results).is_ok());
    assert!(fold_policy_results(Vec::new()).is_ok());
}

#[test]
fn is_ok_and_is_err_partition_the_verdicts() {
    assert!(PolicyResult::Pass.is_ok());
    assert!(!PolicyResult::Pass.is_err());
    let failure = PolicyResult::MissingAuthorEmail(oid('c'));
    assert!(!failure.is_ok());
    assert!(failure.is_err());
}
