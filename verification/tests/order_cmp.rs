use rustlibs::order::str_lex_le;

#[test]
fn empty_is_least() {
    assert!(str_lex_le("", ""));
    assert!(str_lex_le("", "a"));
    assert!(!str_lex_le("a", ""));
}

#[test]
fn compares_by_first_differing_character() {
    assert!(str_lex_le("apple", "banana"));
    assert!(!str_lex_le("banana", "apple"));
    assert!(str_lex_le("20240101", "20240215"));
    assert!(!str_lex_le("20240215", "20240101"));
}

#[test]
fn prefix_comes_first() {
    assert!(str_lex_le("abc", "abcd"));
    assert!(!str_lex_le("abcd", "abc"));
    assert!(str_lex_le("abc", "abc"));
}

#[test]
fn orders_non_ascii_by_scalar_value() {
    assert!(str_lex_le("a", "\u{e9}"));
    assert!(!str_lex_le("\u{e9}", "a"));
    assert!(str_lex_le("\u{e9}", "\u{e9}"));
}
