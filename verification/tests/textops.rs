use wallet_flow::amount::parse_amount;
use wallet_flow::errors::Failure;
use wallet_flow::text::{clean_address, copy_strings, str_eq, str_lt, strip_key_marker};

#[test]
fn clean_address_trims_surrounding_whitespace() {
    assert_eq!(clean_address("  zvknam1abc  \n"), "zvknam1abc");
    assert_eq!(clean_address("\t key \r\n"), "key");
    assert_eq!(clean_address("plain"), "plain");
    assert_eq!(clean_address("   "), "");
    assert_eq!(clean_address(""), "");
}

#[test]
fn clean_address_keeps_inner_whitespace() {
    assert_eq!(clean_address(" a b "), "a b");
}

#[test]
fn str_eq_compares_characters() {
    assert!(str_eq("abc", "abc"));
    assert!(!str_eq("abc", "abd"));
    assert!(!str_eq("abc", "ab"));
    assert!(str_eq("", ""));
}

#[test]
fn str_lt_is_lexicographic() {
    assert!(str_lt("[alpha]", "[beta]"));
    assert!(!str_lt("[beta]", "[alpha]"));
    assert!(str_lt("ab", "abc"));
    assert!(!str_lt("abc", "abc"));
    assert!(str_lt("", "a"));
}

#[test]
fn strip_key_marker_removes_every_occurrence() {
    assert_eq!(strip_key_marker("ED25519_PK_PREFIXtpknam1qabc"), "tpknam1qabc");
    assert_eq!(strip_key_marker("xxED25519_PK_PREFIXyy"), "xxyy");
    assert_eq!(
        strip_key_marker("ED25519_PK_PREFIXaED25519_PK_PREFIXb"),
        "ab"
    );
    assert_eq!(strip_key_marker("no marker here"), "no marker here");
    assert_eq!(strip_key_marker(""), "");
}

#[test]
fn strip_key_marker_matches_replace() {
    let raw = "ED25519_PK_PREFIXtpknam1qzz";
    assert_eq!(strip_key_marker(raw), raw.replace("ED25519_PK_PREFIX", ""));
}

#[test]
fn copy_strings_copies_exactly() {
    let v = vec!["a".to_string(), "bb".to_string()];
    let c = copy_strings(&v);
    assert_eq!(v, c);
}

#[test]
fn parse_amount_reads_decimal_strings() {
    assert_eq!(parse_amount("10"), Ok(10));
    assert_eq!(parse_amount("1"), Ok(1));
    assert_eq!(parse_amount("0"), Ok(0));
    assert_eq!(parse_amount("007"), Ok(7));
    assert_eq!(parse_amount("18446744073709551615"), Ok(u64::MAX));
}

#[test]
fn parse_amount_rejects_malformed_input() {
    assert_eq!(parse_amount(""), Err(Failure::InvalidInput));
    assert_eq!(parse_amount("12a"), Err(Failure::InvalidInput));
    assert_eq!(parse_amount("-1"), Err(Failure::InvalidInput));
    assert_eq!(parse_amount("1.5"), Err(Failure::InvalidInput));
    assert_eq!(parse_amount(" 1"), Err(Failure::InvalidInput));
    assert_eq!(parse_amount("18446744073709551616"), Err(Failure::InvalidInput));
}

#[test]
fn failure_transience_follows_the_taxonomy() {
    assert!(Failure::NetworkFailure.is_transient());
    assert!(!Failure::NotFound.is_transient());
    assert!(!Failure::InvalidInput.is_transient());
    assert!(!Failure::ChainRejection.is_transient());
    assert!(!Failure::StorageFailure.is_transient());
}
