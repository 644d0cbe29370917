//! Tests of the line/offset index.

use emmylua_core::line_index::LineIndex;

#[test]
fn line_starts_and_ascii_flags() {
    // "ab\ncdé\n" with a combining accent: line starts at byte offsets 0,
    // 3 and 9; the second line holds a multi-byte character.
    let text = "ab\ncde\u{301}\n";
    let li = LineIndex::parse(text.as_bytes());
    assert_eq!(li.line_count(), 3);
    assert_eq!(li.get_line_offset(0), Some(0));
    assert_eq!(li.get_line_offset(1), Some(3));
    assert_eq!(li.get_line_offset(2), Some(9));
    assert_eq!(li.get_line_offset(3), None);
    assert!(li.is_line_only_ascii(0));
    assert!(!li.is_line_only_ascii(1));
    assert!(li.is_line_only_ascii(2));
    // An out-of-range line is reported as not pure ASCII.
    assert!(!li.is_line_only_ascii(9));
    // Offset 5 lies in the middle of the second line.
    assert_eq!(li.get_line(5), Some(1));
    assert_eq!(li.get_line_with_start_offset(5), Some((1, 3)));
}

#[test]
fn line_lookup_edges() {
    let li = LineIndex::parse(b"a\nbb\nccc");
    assert_eq!(li.line_count(), 3);
    // An exact match returns that line.
    assert_eq!(li.get_line(0), Some(0));
    assert_eq!(li.get_line(2), Some(1));
    assert_eq!(li.get_line(5), Some(2));
    // An offset past the end still lands on the last line.
    assert_eq!(li.get_line(100), Some(2));
    // The final unterminated line gets a flag too.
    assert!(li.is_line_only_ascii(2));
}

#[test]
fn empty_text_has_one_line() {
    let li = LineIndex::parse(b"");
    assert_eq!(li.line_count(), 1);
    assert_eq!(li.get_line_offset(0), Some(0));
    assert_eq!(li.get_line(0), Some(0));
    assert!(li.is_line_only_ascii(0));
}

#[test]
fn newline_only_lines() {
    let li = LineIndex::parse(b"\n\n");
    assert_eq!(li.line_count(), 3);
    assert_eq!(li.get_line_offset(0), Some(0));
    assert_eq!(li.get_line_offset(1), Some(1));
    assert_eq!(li.get_line_offset(2), Some(2));
    assert_eq!(li.get_line(1), Some(1));
}
