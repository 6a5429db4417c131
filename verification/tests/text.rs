use grok_hooks::text::{
    chars_of, has_text, is_white_space, join_spaced, lower_is, same_text, trimmed, word_at_end,
};

#[test]
fn characters_and_equality() {
    assert_eq!(chars_of("a\u{e9}b"), vec!['a', '\u{e9}', 'b']);
    assert!(same_text("hooks", "hooks"));
    assert!(!same_text("hooks", "Hooks"));
}

#[test]
fn trimming_takes_white_space_from_both_ends() {
    assert_eq!(trimmed("  a b\t\n"), "a b");
    assert_eq!(trimmed("\u{3000}\u{85}x\u{2028}"), "x");
    assert_eq!(trimmed(" \r\n "), "");
    assert_eq!(trimmed("\u{200b}x"), "\u{200b}x");
    assert_eq!(trimmed("plain"), "plain");
}

#[test]
fn white_space_agrees_with_std() {
    for code in 0u32..0x11_0000 {
        if let Some(c) = char::from_u32(code) {
            assert_eq!(is_white_space(c), c.is_whitespace());
        }
    }
}

#[test]
fn the_last_word() {
    assert_eq!(word_at_end("one two\u{a0}three "), "three");
    assert_eq!(word_at_end("one"), "one");
    assert_eq!(word_at_end("  "), "");
    assert_eq!(word_at_end("x \u{e9}t\u{e9}"), "\u{e9}t\u{e9}");
}

#[test]
fn letter_case_is_ascii_only() {
    assert!(lower_is("End_Turn", "end_turn"));
    assert!(lower_is("", ""));
    assert!(!lower_is("\u{c9}", "\u{e9}"));
    assert!(!lower_is("end", "end_turn"));
}

#[test]
fn searching() {
    assert!(has_text("see [hcom 1]", "[hcom"));
    assert!(has_text("x", ""));
    assert!(has_text("aab", "ab"));
    assert!(!has_text("ab", "abc"));
    assert!(!has_text("hcom", "hcom "));
}

#[test]
fn joining() {
    assert_eq!(join_spaced(&vec![]), "");
    assert_eq!(join_spaced(&vec!["a".to_string()]), "a");
    assert_eq!(join_spaced(&vec!["a".to_string(), "".to_string(), "b".to_string()]), "a  b");
}
