use capn::gpg::{missing_key_fingerprints, Gpg, MockGpg};
use capn::keyring::Keyring;

#[test]
fn missing_key_fingerprints_resolves_only_unfetched_emails() {
    let mut keyring = Keyring::from_team_fingerprints_file(
        "FP1,Alice,alice@example.com\nFP2,Bob,bob@example.com".to_string(),
    );
    keyring.mark_public_keys_available(&vec!["bob@example.com".to_string()]);

    let needed = missing_key_fingerprints(
        &keyring,
        &vec![
            "alice@example.com".to_string(),
            "bob@example.com".to_string(),
            "carol@example.com".to_string(),
        ],
    );
    assert_eq!(needed, vec!["FP1".to_string()]);
}

#[test]
fn mock_gpg_marks_requested_emails_available() {
    let mut keyring =
        Keyring::from_team_fingerprints_file("FP1,Alice,alice@example.com".to_string());
    assert!(keyring.requires_public_key_download("alice@example.com"));

    let result = MockGpg.receive_keys(&mut keyring, &vec!["alice@example.com".to_string()]);
    assert!(result.is_ok());
    assert!(!keyring.requires_public_key_download("alice@example.com"));
}
