use nyheter::summary::summarize;

#[test]
fn tags_and_newline_removed() {
    assert_eq!(summarize("Hello <b>world</b>\nGoodbye"), "Hello worldGoodbye");
}

#[test]
fn unterminated_trailing_tag_removed() {
    assert_eq!(summarize("<div>unterminated tag <span"), "unterminated tag");
}

#[test]
fn long_text_truncated_with_ellipsis() {
    let input = "a".repeat(150);
    let expected = format!("{}...", "a".repeat(97));
    assert_eq!(summarize(&input), expected);
}

#[test]
fn exactly_hundred_characters_truncated() {
    let input = "x".repeat(100);
    let expected = format!("{}...", "x".repeat(97));
    assert_eq!(summarize(&input), expected);
}

#[test]
fn ninety_nine_characters_unchanged() {
    let input = "x".repeat(99);
    assert_eq!(summarize(&input), input);
}

#[test]
fn markup_and_whitespace_collapse_to_empty() {
    assert_eq!(summarize("   <i></i>   "), "");
}

#[test]
fn empty_input_stays_empty() {
    assert_eq!(summarize(""), "");
}

#[test]
fn plain_short_text_is_only_trimmed() {
    assert_eq!(summarize("  plain text  "), "plain text");
}

#[test]
fn newline_inside_tag_still_removed() {
    assert_eq!(summarize("a<b\n>c"), "ac");
}

#[test]
fn entities_left_untouched() {
    assert_eq!(summarize("Tom &amp; Jerry"), "Tom &amp; Jerry");
}

#[test]
fn lone_closing_bracket_kept() {
    assert_eq!(summarize("a > b"), "a > b");
}

#[test]
fn cleaned_long_text_has_hundred_chars_and_ellipsis() {
    let input = format!("<p>{}</p>\n", "b".repeat(120));
    let output = summarize(&input);
    assert_eq!(output.chars().count(), 100);
    assert!(output.ends_with("..."));
    assert_eq!(output, format!("{}...", "b".repeat(97)));
}

#[test]
fn exactly_hundred_after_cleanup_truncated() {
    let input = format!("  <b>{}</b>  ", "y".repeat(100));
    let expected = format!("{}...", "y".repeat(97));
    assert_eq!(summarize(&input), expected);
}

#[test]
fn multibyte_characters_never_split() {
    let input = "é".repeat(150);
    let output = summarize(&input);
    assert_eq!(output.chars().count(), 100);
    assert_eq!(output, format!("{}...", "é".repeat(97)));
}

#[test]
fn wide_characters_counted_per_character() {
    let input = "漢".repeat(99);
    assert_eq!(summarize(&input), input);
}

#[test]
fn summarize_idempotent_on_short_text() {
    let input = "Some <em>short</em> text\nwith markup  ";
    let once = summarize(input);
    assert_eq!(summarize(&once), once);
}

#[test]
fn summarize_idempotent_on_truncated_text() {
    let input = "z".repeat(250);
    let once = summarize(&input);
    assert_eq!(summarize(&once), once);
}
