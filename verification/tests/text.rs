use rtx::text::{
    bool_string, clone_strings, decimal_string, from_chars, holds_char, join_text, split_text,
    to_chars, trim,
};

#[test]
fn numbers_are_written_in_decimal() {
    assert_eq!(decimal_string(0), "0");
    assert_eq!(decimal_string(7), "7");
    assert_eq!(decimal_string(10), "10");
    assert_eq!(decimal_string(10080), "10080");
    assert_eq!(decimal_string(u64::MAX), "18446744073709551615");
    for n in [1u64, 9, 11, 99, 100, 101, 12345678901234567] {
        assert_eq!(decimal_string(n), n.to_string());
    }
}

#[test]
fn booleans_are_written_out() {
    assert_eq!(bool_string(true), "true");
    assert_eq!(bool_string(false), "false");
}

#[test]
fn white_space_is_trimmed() {
    assert_eq!(trim(""), "");
    assert_eq!(trim("   "), "");
    assert_eq!(trim("a"), "a");
    assert_eq!(trim("  a b \n"), "a b");
    assert_eq!(trim("\t\u{a0}x\u{2003}"), "x");
    for text in ["", " ", "x", " x", "x ", "\n\nx y\r\n", "ü "] {
        assert_eq!(trim(text), text.trim());
    }
}

#[test]
fn characters_go_in_and_out() {
    assert_eq!(to_chars("aü\n"), vec!['a', 'ü', '\n']);
    assert_eq!(from_chars(&vec!['a', 'ü', '\n']), "aü\n");
    assert_eq!(from_chars(&to_chars("")), "");
    let list = vec!["a".to_string(), "".to_string()];
    assert_eq!(clone_strings(&list), list);
}

#[test]
fn texts_are_split_at_any_separator() {
    assert_eq!(split_text("a\nb\n", '\n'), vec!["a", "b", ""]);
    assert_eq!(split_text("abc", '\n'), vec!["abc"]);
    assert_eq!(join_text(&vec!["a".to_string(), "b".to_string()], ','), "a,b");
    assert!(holds_char("a,b", ','));
    assert!(!holds_char("a,b", ';'));
}
