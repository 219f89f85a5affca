use capn::oid::ObjectId;
use capn::reference_update::ReferenceUpdate;

const ZERO: &str = "0000000000000000000000000000000000000000";

#[test]
fn example_deleting_branch() {
    let old_commit_id = ObjectId::from_hex("eb5e0185546b0bb1a13feec6b9ee8b39985fea42").unwrap();
    let ref_name = "refs/heads/master";
    let ref_update = ReferenceUpdate::from_git_hook_format(
        "eb5e0185546b0bb1a13feec6b9ee8b39985fea42",
        ZERO,
        ref_name,
    )
    .unwrap();
    assert_eq!(
        ref_update,
        ReferenceUpdate::Delete {
            old_commit_id: old_commit_id.clone(),
            ref_name: ref_name.to_string()
        }
    );
    assert_eq!(ref_update.old_commit_id(), Some(old_commit_id));
    assert_eq!(ref_update.new_commit_id(), None);
    assert_eq!(ref_update.ref_name(), ref_name);
}

#[test]
fn example_creating_branch() {
    let new_commit_id = ObjectId::from_hex("eb5e0185546b0bb1a13feec6b9ee8b39985fea42").unwrap();
    let ref_name = "refs/heads/master";
    let ref_update = ReferenceUpdate::from_git_hook_format(
        ZERO,
        "eb5e0185546b0bb1a13feec6b9ee8b39985fea42",
        ref_name,
    )
    .unwrap();
    assert_eq!(
        ref_update,
        ReferenceUpdate::New {
            new_commit_id: new_commit_id.clone(),
            ref_name: ref_name.to_string()
        }
    );
    assert_eq!(ref_update.old_commit_id(), None);
    assert_eq!(ref_update.new_commit_id(), Some(new_commit_id));
    assert_eq!(ref_update.ref_name(), ref_name);
}

#[test]
fn example_updating_branch() {
    let old_commit_id = ObjectId::from_hex("eb5e0185546b0bb1a13feec6b9ee8b39985fea42").unwrap();
    let new_commit_id = ObjectId::from_hex("6004dfdb071c71e5e76ad55b924b576487e1c485").unwrap();

    let ref_name = "refs/heads/master";
    let ref_update = ReferenceUpdate::from_git_hook_format(
        "eb5e0185546b0bb1a13feec6b9ee8b39985fea42",
        "6004dfdb071c71e5e76ad55b924b576487e1c485",
        ref_name,
    )
    .unwrap();
    assert_eq!(
        ref_update,
        ReferenceUpdate::Update {
            old_commit_id: old_commit_id.clone(),
            new_commit_id: new_commit_id.clone(),
            ref_name: ref_name.to_string()
        }
    );
    assert_eq!(ref_update.old_commit_id(), Some(old_commit_id));
    assert_eq!(ref_update.new_commit_id(), Some(new_commit_id));
    assert_eq!(ref_update.ref_name(), ref_name);
}

#[test]
fn both_zero_ids_are_rejected() {
    assert!(ReferenceUpdate::from_git_hook_format(ZERO, ZERO, "refs/heads/master").is_err());
}

#[test]
fn malformed_hex_id_is_rejected() {
    assert!(ReferenceUpdate::from_git_hook_format("012345", ZERO, "refs/heads/master").is_err());
    assert!(ReferenceUpdate::from_git_hook_format(
        "zz5e0185546b0bb1a13feec6b9ee8b39985fea42",
        ZERO,
        "refs/heads/master"
    )
    .is_err());
}
