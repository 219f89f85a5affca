use capn::keyring::Keyring;

#[test]
fn roster_lines_with_three_fields_are_loaded() {
    let keyring = Keyring::from_team_fingerprints_file(
        "FP1,Alice,alice@example.com\nFP2,Bob,bob@example.com".to_string(),
    );
    assert_eq!(
        keyring.fingerprint_id_from_email("alice@example.com"),
        Some("FP1".to_string())
    );
    assert_eq!(
        keyring.fingerprint_id_from_email("bob@example.com"),
        Some("FP2".to_string())
    );
    assert_eq!(keyring.fingerprint_id_from_email("carol@example.com"), None);
}

#[test]
fn malformed_roster_lines_are_dropped() {
    let keyring = Keyring::from_team_fingerprints_file(
        "just-a-fingerprint\nFP1,Alice,alice@example.com\nFP2,too,many,fields\n".to_string(),
    );
    assert_eq!(
        keyring.fingerprint_id_from_email("alice@example.com"),
        Some("FP1".to_string())
    );
    assert_eq!(keyring.fingerprint_id_from_email("many"), None);
    assert_eq!(keyring.fingerprints.len(), 1);
}

#[test]
fn whitespace_is_stripped_from_fingerprints() {
    let keyring = Keyring::from_team_fingerprints_file(
        "AB12 CD34 EF56,Alice,alice@example.com".to_string(),
    );
    assert_eq!(
        keyring.fingerprint_id_from_email("alice@example.com"),
        Some("AB12CD34EF56".to_string())
    );
}

#[test]
fn last_entry_wins_on_duplicate_email() {
    let keyring = Keyring::from_team_fingerprints_file(
        "FP1,Alice,alice@example.com\nFP9,Alice Again,alice@example.com".to_string(),
    );
    assert_eq!(
        keyring.fingerprint_id_from_email("alice@example.com"),
        Some("FP9".to_string())
    );
}

#[test]
fn requires_public_key_download_tracks_availability() {
    let mut keyring =
        Keyring::from_team_fingerprints_file("FP1,Alice,alice@example.com".to_string());
    assert!(keyring.requires_public_key_download("alice@example.com"));
    assert!(!keyring.requires_public_key_download("unknown@example.com"));

    keyring.mark_public_keys_available(&vec![
        "alice@example.com".to_string(),
        "unknown@example.com".to_string(),
    ]);
    assert!(!keyring.requires_public_key_download("alice@example.com"));
    assert!(!keyring.requires_public_key_download("unknown@example.com"));
}
