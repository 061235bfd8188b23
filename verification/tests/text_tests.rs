use quick_notes::text::same_text;
use quick_notes::text::{
    contains_text, editor_text, is_blank_text, replace_newlines_text, trim_text, truncate_at_word,
};

#[test]
fn truncate_keeps_short_text() {
    assert_eq!(truncate_at_word("short note", 100), "short note");
    assert_eq!(truncate_at_word("exactly", 7), "exactly");
}

#[test]
fn truncate_cuts_at_last_space() {
    assert_eq!(truncate_at_word("hello world foo", 8), "hello...");
    assert_eq!(truncate_at_word("one two three four", 13), "one two...");
}

#[test]
fn truncate_without_space_cuts_at_limit() {
    assert_eq!(truncate_at_word("abcdefghij", 4), "abcd...");
    assert_eq!(truncate_at_word("abc", 0), "...");
}

#[test]
fn truncate_counts_characters_not_bytes() {
    assert_eq!(truncate_at_word("日本語のテキスト", 3), "日本語...");
    assert_eq!(truncate_at_word("héllo wörld", 9), "héllo...");
}

#[test]
fn truncate_space_at_limit_boundary() {
    // The space right after the cut is not part of the cut.
    assert_eq!(truncate_at_word("abcd efgh", 4), "abcd...");
    // A leading space gives an empty prefix.
    assert_eq!(truncate_at_word(" abcdef", 4), "...");
}

#[test]
fn editor_text_drops_trailing_newlines_only() {
    assert_eq!(editor_text("abc\n\n"), "abc");
    assert_eq!(editor_text("a\nb\n"), "a\nb");
    assert_eq!(editor_text("\n"), "");
    assert_eq!(editor_text("  x  "), "  x  ");
}

#[test]
fn trim_removes_unicode_whitespace() {
    assert_eq!(trim_text("  hi there \n"), "hi there");
    assert_eq!(trim_text("\u{3000}x\u{a0}"), "x");
    assert_eq!(trim_text(" \t\n"), "");
    assert_eq!(trim_text("\u{2009}a b\u{85}"), "a b");
}

#[test]
fn blank_text() {
    assert!(is_blank_text(""));
    assert!(is_blank_text(" \n\t\r\u{0b}\u{0c}\u{2028}"));
    assert!(!is_blank_text(" a "));
    assert!(!is_blank_text("\u{200b}"));
}

#[test]
fn blank_text_agrees_with_std_trim() {
    for s in ["", " ", "x", " \u{1680} ", "\u{200a}", "\u{200b}", "a\u{3000}", "\u{feff}"] {
        assert_eq!(is_blank_text(s), s.trim().is_empty(), "{:?}", s);
        assert_eq!(trim_text(s), s.trim(), "{:?}", s);
    }
}

#[test]
fn newlines_become_markers() {
    assert_eq!(replace_newlines_text("a\nb"), "a ↵ b");
    assert_eq!(replace_newlines_text("\n\n"), " ↵  ↵ ");
    assert_eq!(replace_newlines_text("plain"), "plain");
}

#[test]
fn substring_search() {
    assert!(contains_text("hello world", "o w"));
    assert!(contains_text("hello", ""));
    assert!(contains_text("", ""));
    assert!(!contains_text("hello", "hello!"));
    assert!(!contains_text("abc", "ac"));
    assert!(contains_text("日本語", "本"));
}

#[test]
fn same_text_compares_characters() {
    assert!(same_text("abc", "abc"));
    assert!(same_text("", ""));
    assert!(!same_text("abc", "abd"));
    assert!(!same_text("ab", "abc"));
}
