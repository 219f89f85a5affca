use capn::git::diagnostics_attest;
use capn::glob::glob_matches;
use capn::text::{split_string, str_contains, str_ends_with, str_starts_with, strip_whitespace};

#[test]
fn split_behaves_like_str_split() {
    assert_eq!(split_string("a,b,c", ','), vec!["a", "b", "c"]);
    assert_eq!(split_string("", ','), vec![""]);
    assert_eq!(split_string("a,,c,", ','), vec!["a", "", "c", ""]);
}

#[test]
fn strip_whitespace_removes_blanks_and_tabs() {
    assert_eq!(strip_whitespace("AB12 CD34\tEF56"), "AB12CD34EF56");
    assert_eq!(strip_whitespace("   "), "");
    assert_eq!(strip_whitespace("abc"), "abc");
}

#[test]
fn suffix_and_prefix_tests_are_exact() {
    assert!(str_ends_with("alice@example.com", "@example.com"));
    assert!(!str_ends_with("alice@example.org", "@example.com"));
    assert!(!str_ends_with("a", "@example.com"));
    assert!(str_starts_with("refs/tags/v1", "refs/tags"));
    assert!(!str_starts_with("refs/heads/main", "refs/tags"));
}

#[test]
fn glob_star_and_question_mark() {
    assert!(glob_matches("capn-override-*", "capn-override-alice"));
    assert!(glob_matches("*", ""));
    assert!(glob_matches("refs/heads/valid-*", "refs/heads/valid-branch"));
    assert!(!glob_matches("refs/heads/valid-*", "refs/heads/other"));
    assert!(glob_matches("v?", "v1"));
    assert!(!glob_matches("v?", "v12"));
    assert!(glob_matches("release", "release"));
    assert!(!glob_matches("release", "releases"));
}

#[test]
fn substring_test_is_exact() {
    assert!(str_contains("abcdef", "cde"));
    assert!(str_contains("abcdef", ""));
    assert!(str_contains("abcdef", "abcdef"));
    assert!(!str_contains("abcdef", "cdf"));
    assert!(!str_contains("ab", "abc"));
}

#[test]
fn signature_diagnostics_are_scanned_line_by_line() {
    let output = "[GNUPG:] NEWSIG\n[GNUPG:] GOODSIG 1234 Alice\n[GNUPG:] VALIDSIG FP1 2020-01-01\n[GNUPG:] TRUST_ULTIMATE";
    assert!(diagnostics_attest(output, "FP1"));
    assert!(!diagnostics_attest(output, "FP2"));
    assert!(!diagnostics_attest("", "FP1"));
    // the marker and fingerprint must sit on one line
    assert!(!diagnostics_attest("[GNUPG:] VALIDSIG\nFP1", "FP1"));
}
