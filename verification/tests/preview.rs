use sidepar::text::make_preview;

#[test]
fn preview_trims_short_text() {
    assert_eq!(make_preview("  hello world \n\t", 80), "hello world");
}

#[test]
fn preview_keeps_text_of_exact_length() {
    assert_eq!(make_preview("abcde", 5), "abcde");
}

#[test]
fn preview_cuts_long_text_with_dots() {
    assert_eq!(make_preview("abcdefgh", 5), "abcde...");
}

#[test]
fn preview_cuts_by_characters_not_bytes() {
    assert_eq!(make_preview("剪贴板历史记录", 3), "剪贴板...");
}

#[test]
fn preview_counts_characters_after_trimming() {
    assert_eq!(make_preview("   abc   ", 3), "abc");
}

#[test]
fn preview_of_blank_text_is_empty() {
    assert_eq!(make_preview(" \t\r\n ", 80), "");
    assert_eq!(make_preview("", 80), "");
}

#[test]
fn preview_trims_unicode_white_space() {
    assert_eq!(make_preview("\u{3000}\u{a0}text\u{2029}\u{85}", 80), "text");
}

#[test]
fn preview_keeps_inner_white_space() {
    assert_eq!(make_preview(" a \n b ", 80), "a \n b");
}

#[test]
fn preview_with_zero_limit_is_only_dots() {
    assert_eq!(make_preview("x", 0), "...");
    assert_eq!(make_preview("  ", 0), "");
}

#[test]
fn preview_of_long_copy_matches_limit() {
    let text: String = std::iter::repeat('x').take(200).collect();
    let preview = make_preview(&text, 80);
    assert_eq!(preview.chars().count(), 83);
    assert!(preview.ends_with("..."));
}
