use doter::text::{line_col_to_offset, normalize_line_endings};

#[test]
fn normalize_rewrites_crlf_and_cr() {
    let input: Vec<u8> = b"a\r\nb\rc\n".to_vec();
    let out = normalize_line_endings(&input);
    assert_eq!(out, b"a\nb\nc\n".to_vec());
}

#[test]
fn normalize_is_noop_on_lf_only_text() {
    let input: Vec<u8> = b"alpha\nbeta\ngamma\n".to_vec();
    let out = normalize_line_endings(&input);
    assert_eq!(out, input);
}

#[test]
fn normalize_twice_equals_once() {
    let input: Vec<u8> = b"a\r\r\nb\r".to_vec();
    let once = normalize_line_endings(&input);
    let twice = normalize_line_endings(&once);
    assert_eq!(once, twice);
    assert_eq!(once, b"a\n\nb\n".to_vec());
}

#[test]
fn normalize_empty() {
    let input: Vec<u8> = Vec::new();
    assert_eq!(normalize_line_endings(&input), Vec::<u8>::new());
}

#[test]
fn offset_of_first_column_is_line_start() {
    let text: Vec<u8> = b"ab\ncde\nf".to_vec();
    assert_eq!(line_col_to_offset(&text, 1, 1), 0);
    assert_eq!(line_col_to_offset(&text, 2, 1), 3);
    assert_eq!(line_col_to_offset(&text, 3, 1), 7);
}

#[test]
fn offset_adds_column_minus_one() {
    let text: Vec<u8> = b"ab\ncde\nf".to_vec();
    assert_eq!(line_col_to_offset(&text, 2, 3), 5);
    assert_eq!(line_col_to_offset(&text, 1, 2), 1);
}

#[test]
fn offset_treats_column_zero_as_line_start() {
    let text: Vec<u8> = b"ab\ncde\nf".to_vec();
    assert_eq!(line_col_to_offset(&text, 2, 0), 3);
}

#[test]
fn offset_line_zero_falls_back_to_start() {
    let text: Vec<u8> = b"ab\ncde\nf".to_vec();
    assert_eq!(line_col_to_offset(&text, 0, 5), 0);
}

#[test]
fn offset_line_past_end_falls_back_to_start() {
    let text: Vec<u8> = b"ab\ncde\nf".to_vec();
    assert_eq!(line_col_to_offset(&text, 99, 1), 0);
}

#[test]
fn offset_is_clamped_to_text_length() {
    let text: Vec<u8> = b"ab\ncde\nf".to_vec();
    assert_eq!(line_col_to_offset(&text, 3, 99), 8);
}

#[test]
fn offset_on_text_with_trailing_line_feed() {
    let text: Vec<u8> = b"x\n".to_vec();
    assert_eq!(line_col_to_offset(&text, 2, 1), 2);
}

#[test]
fn offset_on_empty_text() {
    let text: Vec<u8> = Vec::new();
    assert_eq!(line_col_to_offset(&text, 1, 1), 0);
    assert_eq!(line_col_to_offset(&text, 1, 7), 0);
}
