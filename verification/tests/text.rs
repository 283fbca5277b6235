use deepseek_harness::text::{
    after_prefix, begins_with, chars_of, decimal_string, first_word_of, is_control, is_whitespace,
    string_of, trim,
};

#[test]
fn white_space_agrees_with_std_on_every_character() {
    for c in '\0'..=char::MAX {
        assert_eq!(is_whitespace(c), c.is_whitespace(), "{:?}", c);
    }
}

#[test]
fn control_characters_agree_with_std_on_every_character() {
    for c in '\0'..=char::MAX {
        assert_eq!(is_control(c), c.is_control(), "{:?}", c);
    }
}

#[test]
fn decimal_agrees_with_std() {
    for n in [0u64, 1, 9, 10, 11, 99, 100, 3080, 9_999, 10_000, 1_700_000_000, u64::MAX] {
        assert_eq!(decimal_string(n), n.to_string());
    }
}

#[test]
fn decimals_of_different_numbers_differ() {
    assert_ne!(decimal_string(1), decimal_string(10));
    assert_ne!(decimal_string(12), decimal_string(21));
}

#[test]
fn trim_agrees_with_std() {
    for s in ["", " ", "a", " a ", "\t\u{a0}a b\u{3000}\n", "\u{200b}a", "a\u{2028}"] {
        assert_eq!(trim(s), s.trim());
        assert_eq!(trim(&trim(s)), trim(s));
    }
}

#[test]
fn first_word_agrees_with_std() {
    for s in ["", "  ", "one", " one two", "one\u{2003}two", "\n\none\ttwo three"] {
        assert_eq!(first_word_of(s).as_deref(), s.split_whitespace().next());
    }
}

#[test]
fn prefixes() {
    assert!(begins_with("https://x", "https://"));
    assert!(!begins_with("http:/", "http://"));
    assert!(begins_with("x", ""));
    assert_eq!(after_prefix("dsh web: y", "dsh web: ").as_deref(), Some("y"));
    assert_eq!(after_prefix("dsh", "dsh web: "), None);
    assert_eq!(after_prefix("\u{e9}t\u{e9}", "\u{e9}").as_deref(), Some("t\u{e9}"));
}

#[test]
fn strings_from_characters() {
    let chars = chars_of("na\u{ef}ve");
    assert_eq!(chars, vec!['n', 'a', '\u{ef}', 'v', 'e']);
    assert_eq!(string_of(&chars, 1, 4), "a\u{ef}v");
    assert_eq!(string_of(&chars, 2, 2), "");
}
