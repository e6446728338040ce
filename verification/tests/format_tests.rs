use erunner::format::{append_extension, limited_string, padded_string};

#[test]
fn short_text_passes_through_unchanged() {
    assert_eq!(limited_string("hello", 10, 5, false), "hello");
}

#[test]
fn a_long_line_is_clipped_with_an_ellipsis() {
    assert_eq!(limited_string("hello world!", 8, 1, false), "hello...");
}

#[test]
fn lines_beyond_the_row_limit_become_an_ellipsis() {
    assert_eq!(limited_string("a\nb\nc\nd", 10, 2, false), "a\nb\n...");
}

#[test]
fn wrapping_cuts_rows_at_the_column_limit() {
    assert_eq!(limited_string("abcdef", 2, 2, true), "ab\ncd\n...");
}

#[test]
fn wrapping_within_the_limits_keeps_everything() {
    assert_eq!(limited_string("abcd", 2, 5, true), "ab\ncd");
}

#[test]
fn padding_prefixes_every_line_with_two_spaces() {
    assert_eq!(padded_string("x\ny", 10, 5, false), "  x\n  y");
}

#[test]
fn append_extension_joins_with_a_dot() {
    assert_eq!(append_extension("out", String::from("main.c")), "main.c.out");
}
