use monkey::token::{lookup_identifier, FUNCTION, LET};
use monkey::utils::{is_digit, is_letter};

#[test]
fn test_lookup_ident() {
    assert_eq!(FUNCTION, lookup_identifier("fn"));
    assert_eq!(LET, lookup_identifier("let"));
}

#[test]
fn test_is_letter() {
    let text = "qwertyuiopasdfghjklzxcvbnmQWERTYUIOPASDFGHJKLZXCVBNM_";
    for ch in text.chars() {
        assert!(is_letter(&ch.to_string()), "fail to check {}", ch);
    }
}

#[test]
fn test_is_digit() {
    let digits = "0123456789";
    for ch in digits.chars() {
        assert!(is_digit(&ch.to_string()), "fail to check {}", ch);
    }
}
