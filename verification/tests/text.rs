//! Texts: white space, order, numbers and cuts.
use aionui_team::text::{
    before_text, blank, cut_within, decimal_text, same_text, split_at_first, text_len,
};

#[test]
fn blank_texts_hold_white_space_only() {
    assert!(blank(""));
    assert!(blank(" \t\r\n\u{a0}\u{1680}\u{2003}\u{2028}\u{3000}\u{85}"));
    assert!(!blank(" x "));
    assert!(!blank("\u{200b}"), "a zero width space is no white space");
}

#[test]
fn texts_are_ordered_as_strings_are() {
    let all = ["", "a", "ab", "b", "é", "z", "日", "\u{10000}"];
    for x in all {
        for y in all {
            assert_eq!(before_text(x, y), x < y, "{x:?} {y:?}");
            assert_eq!(same_text(x, y), x == y);
        }
    }
}

#[test]
fn numbers_are_written_in_decimal() {
    for n in [0usize, 9, 10, 4096, usize::MAX] {
        assert_eq!(decimal_text(n), n.to_string());
    }
}

#[test]
fn cuts_fall_between_characters() {
    assert_eq!(cut_within("héllo", 2), "h");
    assert_eq!(cut_within("héllo", 3), "hé");
    assert_eq!(cut_within("héllo", 100), "héllo");
    assert_eq!(cut_within("日本", 2), "");
    assert_eq!(text_len("日本"), 6);
}

#[test]
fn the_first_occurrence_splits() {
    assert_eq!(split_at_first("aXbXc", "X"), Some(("a", "XbXc")));
    assert_eq!(split_at_first("日本", "本"), Some(("日", "本")));
    assert_eq!(split_at_first("abc", "abcd"), None);
    assert_eq!(split_at_first("aab", "ab"), Some(("a", "ab")));
}
