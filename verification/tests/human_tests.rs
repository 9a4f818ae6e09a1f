use paperlint::output::human::{crop_snippet, slice_columns, truncate_text};

#[test]
fn short_text_is_not_truncated() {
    assert_eq!(truncate_text("abc", 3), "abc");
    assert_eq!(truncate_text("中文", 4), "中文");
}

#[test]
fn truncation_keeps_whole_graphemes_and_adds_an_ellipsis() {
    assert_eq!(truncate_text("e\u{301}e\u{301}e\u{301}", 2), "e\u{301}…");
    assert_eq!(truncate_text("中文字符", 5), "中文…");
    assert_eq!(truncate_text("abcdef", 1), "…");
}

#[test]
fn column_slices_never_split_a_wide_character() {
    let slice = slice_columns("中文字", 1, 5);
    assert_eq!(slice.text, "文");
    assert_eq!((slice.start, slice.end), (2, 4));
}

#[test]
fn long_lines_are_cropped_around_the_span() {
    let text = "a".repeat(200);
    let snippet = crop_snippet(&text, 100, 5, false);
    assert_eq!(snippet.text, format!("…{}…", "a".repeat(78)));
    assert_eq!(snippet.marker_start, 37);
    assert_eq!(snippet.marker_width, 5);
    assert!(!snippet.continues);
}

#[test]
fn wide_spans_get_a_capped_marker_that_continues() {
    let text = "b".repeat(60);
    let snippet = crop_snippet(&text, 10, 40, false);
    assert_eq!(snippet.text, text);
    assert_eq!(snippet.marker_start, 10);
    assert_eq!(snippet.marker_width, 24);
    assert!(snippet.continues);
}
