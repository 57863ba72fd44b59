use lux::buffer::Buffer;

#[test]
fn insert_remove_and_text_roundtrip() {
    let mut buffer = Buffer::new();
    assert_eq!(buffer.text_string(), "");
    buffer.insert(0, "hello");
    buffer.insert(5, " world");
    assert_eq!(buffer.text_string(), "hello world");
    buffer.remove(5..6);
    assert_eq!(buffer.text_string(), "helloworld");
}

#[test]
fn len_lines_counts_newlines() {
    let mut buffer = Buffer::new();
    assert_eq!(buffer.len_lines(), 1);
    buffer.insert(0, "a\nb\nc");
    assert_eq!(buffer.len_lines(), 3);
}

#[test]
fn line_iterates_valid_lines_and_returns_none_for_invalid() {
    let mut buffer = Buffer::new();
    buffer.insert(0, "a\nb");
    assert!(buffer.line(0).is_some());
    assert!(buffer.line(1).is_some());
    assert!(buffer.line(2).is_none());
    let first = buffer.line(0).unwrap();
    assert_eq!(first, "a\n");
}

#[test]
fn path_is_none_for_new_buffer() {
    let buffer = Buffer::new();
    assert!(buffer.path().is_none());
}

#[test]
fn from_contents_keeps_text_and_path() {
    let buffer = Buffer::from_contents("/tmp/sample.txt", "line one\nline two");
    assert_eq!(buffer.text_string(), "line one\nline two");
    assert_eq!(buffer.path().map(|p| p.as_str()), Some("/tmp/sample.txt"));
    assert_eq!(buffer.len_lines(), 2);
    assert_eq!(buffer.line(1).unwrap(), "line two");
}

#[test]
fn set_path_names_the_buffer() {
    let mut buffer = Buffer::new();
    buffer.set_path("/ws/a.rs");
    assert_eq!(buffer.path().map(|p| p.as_str()), Some("/ws/a.rs"));
}

#[test]
fn positions_map_to_lines_and_back() {
    let buffer = Buffer::from_contents("/x", "ab\ncdef\ngh");
    assert_eq!(buffer.len_chars(), 10);
    assert_eq!(buffer.char_at(3), 'c');
    assert_eq!(buffer.char_to_line(0), 0);
    assert_eq!(buffer.char_to_line(3), 1);
    assert_eq!(buffer.char_to_line(10), 2);
    assert_eq!(buffer.line_to_char(1), 3);
    assert_eq!(buffer.line_to_char(2), 8);
    assert_eq!(buffer.slice_string(3, 7), "cdef");
}

#[test]
fn crlf_is_one_line_break() {
    let buffer = Buffer::from_contents("/x", "a\r\nb");
    assert_eq!(buffer.len_lines(), 2);
    assert_eq!(buffer.line(0).unwrap(), "a\r\n");
    assert_eq!(buffer.line_to_char(1), 3);
}

#[test]
fn multibyte_text_counts_characters() {
    let mut buffer = Buffer::new();
    buffer.insert(0, "héllo wörld");
    assert_eq!(buffer.len_chars(), 11);
    buffer.remove(1..2);
    assert_eq!(buffer.text_string(), "hllo wörld");
    assert_eq!(buffer.char_at(6), 'ö');
}
