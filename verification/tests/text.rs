use cli_proxy::text::{chars_of, contains, decimal_text, same, same_opt, starts_with};

#[test]
fn starts_with_compares_characters() {
    assert!(starts_with("abc", ""));
    assert!(starts_with("abc", "ab"));
    assert!(starts_with("abc", "abc"));
    assert!(!starts_with("abc", "abcd"));
    assert!(!starts_with("abc", "b"));
    assert!(starts_with("\u{1f600}x", "\u{1f600}"));
}

#[test]
fn same_compares_whole_strings() {
    assert!(same("", ""));
    assert!(same("alice", "alice"));
    assert!(!same("alice", "alic"));
    assert!(!same("alic", "alice"));
    assert!(!same("\u{e4}", "a"));
    assert!(same_opt(None, None));
    assert!(!same_opt(Some(""), None));
    assert!(same_opt(Some("x"), Some("x")));
}

#[test]
fn contains_finds_anywhere() {
    assert!(contains("it would block now", "would block"));
    assert!(contains("would block", "would block"));
    assert!(contains("wwould block", "would block"));
    assert!(!contains("would bloc", "would block"));
    assert!(!contains("WouldBlock", "would block"));
    assert!(contains("x", ""));
    assert!(contains("", ""));
}

#[test]
fn decimal_writes_digits() {
    assert_eq!(decimal_text(0), "0");
    assert_eq!(decimal_text(9), "9");
    assert_eq!(decimal_text(10), "10");
    assert_eq!(decimal_text(10485760), "10485760");
    assert_eq!(decimal_text(4294967295), "4294967295");
}

#[test]
fn chars_are_in_order() {
    assert_eq!(chars_of("a\u{e4}b"), vec!['a', '\u{e4}', 'b']);
}
