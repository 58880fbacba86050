use audio_checker::hash::{sha256_hex, to_lower_hex};
use audio_checker::text::{eq_ignore_ascii_case, is_blank, push_decimal, push_signed_decimal, same_text};
use sha2::{Digest, Sha256};

#[test]
fn text_equality() {
    assert!(same_text("pre_sync", "pre_sync"));
    assert!(!same_text("pre_sync", "pre-sync"));
    assert!(!same_text("abc", "abcd"));
    assert!(same_text("", ""));
}

#[test]
fn ascii_case_insensitive_equality() {
    assert!(eq_ignore_ascii_case("PaSs", "pass"));
    assert!(eq_ignore_ascii_case("ABCdef01", "abcDEF01"));
    assert!(!eq_ignore_ascii_case("pass", "passe"));
    assert!(!eq_ignore_ascii_case("É", "é"));
}

#[test]
fn blank_text() {
    assert!(is_blank(""));
    assert!(is_blank(" \t\n\u{3000}\u{a0}"));
    assert!(!is_blank(" x "));
}

#[test]
fn decimal_text() {
    let mut s = String::from("n=");
    push_decimal(&mut s, 0);
    assert_eq!(s, "n=0");
    let mut s = String::new();
    push_decimal(&mut s, 18_446_744_073_709_551_615);
    assert_eq!(s, "18446744073709551615");
    let mut s = String::new();
    push_signed_decimal(&mut s, i64::MIN);
    assert_eq!(s, "-9223372036854775808");
    let mut s = String::new();
    push_signed_decimal(&mut s, -40);
    assert_eq!(s, "-40");
}

#[test]
fn lower_hex_text() {
    assert_eq!(to_lower_hex(&[0x00, 0x0f, 0xa0, 0xff]), "000fa0ff");
    assert_eq!(to_lower_hex(&[]), "");
}

#[test]
fn sha256_of_known_text() {
    assert_eq!(
        sha256_hex(b"hello world"),
        "b94d27b9934d3e08a52e52d7da7dabfac484efe37a5380ee9088f7ace2efcde9"
    );
    let data = vec![7u8; 1000];
    let expected = format!("{:x}", Sha256::digest(&data));
    assert_eq!(sha256_hex(&data), expected);
    assert_ne!(sha256_hex(&data), to_lower_hex(&data[..32]));
}
