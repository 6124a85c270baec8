use clicky::text::{chars_of, contains, same_text, string_of, trim};

#[test]
fn trim_removes_surrounding_whitespace() {
    assert_eq!(trim("  hello world \n"), "hello world");
    assert_eq!(trim("\t\r\n"), "");
    assert_eq!(trim(""), "");
    assert_eq!(trim("x"), "x");
}

#[test]
fn trim_removes_unicode_whitespace() {
    // U+3000 IDEOGRAPHIC SPACE and U+00A0 NO-BREAK SPACE are White_Space.
    assert_eq!(trim("\u{3000}abc\u{a0}"), "abc");
}

#[test]
fn trim_keeps_inner_whitespace() {
    assert_eq!(trim(" a  b "), "a  b");
}

#[test]
fn contains_finds_substrings() {
    assert!(contains("connection refused", "refused"));
    assert!(contains("abc", ""));
    assert!(contains("abc", "abc"));
    assert!(!contains("abc", "abcd"));
    assert!(!contains("", "a"));
    assert!(!contains("refuse", "refused"));
}

#[test]
fn same_text_compares_characters() {
    assert!(same_text("success", "success"));
    assert!(!same_text("success", "Success"));
    assert!(!same_text("a", "ab"));
}

#[test]
fn chars_round_trip() {
    let v = chars_of("héllo");
    assert_eq!(v, vec!['h', 'é', 'l', 'l', 'o']);
    assert_eq!(string_of(&v), "héllo");
}

#[test]
fn trim_keeps_plain_text() {
    assert_eq!(trim("ab"), "ab");
    assert_eq!(trim("\u{85}\u{2028}a b\u{205f}"), "a b");
    assert_eq!(trim("\u{200b}x"), "\u{200b}x");
}
