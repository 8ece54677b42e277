use sao2::source::{Found, SourceFile, Span};

#[test]
fn precomputes_one_based_locations_using_byte_offsets() {
    let source = SourceFile::new("test.sao2".to_owned(), "one\n\tαx\nthree".to_owned());
    assert_eq!(source.line_and_column(0), (1, 1));
    assert_eq!(source.line_and_column(5), (2, 5));
    assert_eq!(source.line_and_column(7), (2, 6));
    assert_eq!(source.line_and_column(source.text.len()), (3, 6));
}

#[test]
fn renders_a_caret_safely_at_crlf_boundaries() {
    let source = SourceFile::new("test.sao2".to_owned(), "bad\r\nnext".to_owned());
    let excerpt = source.diagnostic_excerpt(Span::empty(3));
    assert_eq!(excerpt.column, 4);
    assert_eq!(excerpt.source_line, "bad");
    assert_eq!(excerpt.caret_width, 1);
}

#[test]
fn renders_empty_and_boundary_spans_on_the_selected_line() {
    let source = SourceFile::new("test.sao2".to_owned(), "abc\ndef\n".to_owned());
    let first = source.diagnostic_excerpt(Span::empty(0));
    assert_eq!((first.line, first.column, first.caret_offset, first.caret_width), (1, 1, 0, 1));
    let interior = source.diagnostic_excerpt(Span::empty(1));
    assert_eq!((interior.line, interior.column, interior.caret_offset, interior.caret_width), (1, 2, 1, 1));
    let end = source.diagnostic_excerpt(Span::empty(source.text.len()));
    assert_eq!((end.line, end.column, end.caret_offset, end.caret_width), (3, 1, 0, 1));
    let crossing = source.diagnostic_excerpt(Span::new(1, 5));
    assert_eq!((crossing.line, crossing.column, crossing.caret_offset, crossing.caret_width), (1, 2, 1, 2));
    assert_eq!(crossing.source_line, "abc");
}

#[test]
fn expands_tabs_for_lines_and_carets() {
    let source = SourceFile::new("test.sao2".to_owned(), "a\tbc".to_owned());
    let before_tab = source.diagnostic_excerpt(Span::new(1, 2));
    assert_eq!(before_tab.source_line, "a    bc");
    assert_eq!((before_tab.column, before_tab.caret_offset, before_tab.caret_width), (2, 1, 4));
    let after_tab = source.diagnostic_excerpt(Span::empty(2));
    assert_eq!((after_tab.column, after_tab.caret_offset, after_tab.caret_width), (6, 5, 1));
}

#[test]
fn clamps_unicode_boundaries_and_out_of_range_offsets() {
    let source = SourceFile::new("test.sao2".to_owned(), "αβ".to_owned());
    let inside = source.diagnostic_excerpt(Span::new(1, 3));
    assert_eq!((inside.column, inside.caret_offset, inside.caret_width), (1, 0, 1));
    let beyond = source.diagnostic_excerpt(Span::new(99, 120));
    assert_eq!((beyond.line, beyond.column, beyond.caret_offset, beyond.caret_width), (1, 3, 2, 1));
}

#[test]
fn handles_empty_files_and_crlf_carriage_returns_without_rendering_them() {
    let empty = SourceFile::new("empty.sao2".to_owned(), String::new());
    let excerpt = empty.diagnostic_excerpt(Span::empty(100));
    assert_eq!((excerpt.line, excerpt.column, excerpt.caret_offset, excerpt.caret_width), (1, 1, 0, 1));

    let crlf = SourceFile::new("crlf.sao2".to_owned(), "bad\r\nnext".to_owned());
    let after_cr = crlf.diagnostic_excerpt(Span::empty(4));
    assert_eq!((after_cr.line, after_cr.column, after_cr.caret_offset), (1, 4, 3));
    assert_eq!(after_cr.source_line, "bad");
}

#[test]
fn loads_utf8_and_preserves_path() {
    let source = SourceFile::load("valid".to_owned(), Found::Regular(b"print(\"hello\");".to_vec())).unwrap();
    assert_eq!(source.path, "valid");
    assert_eq!(source.text, "print(\"hello\");");
}

#[test]
fn rejects_invalid_utf8() {
    let error = SourceFile::load("invalid-utf8".to_owned(), Found::Regular(vec![0xff, 0xfe])).unwrap_err();
    assert!(error.to_string().contains("not valid UTF-8 at byte 0"));
}

#[test]
fn counts_the_valid_bytes_before_malformed_text() {
    let error = SourceFile::load("late".to_owned(), Found::Regular(vec![b'a', 0xce, 0xb1, 0xce])).unwrap_err();
    assert!(error.to_string().contains("source file 'late' is not valid UTF-8 at byte 3"));
    let source = SourceFile::load("fine".to_owned(), Found::Regular(vec![b'a', 0xce, 0xb1])).unwrap();
    assert_eq!(source.text, "a\u{3b1}");
}

#[test]
fn rejects_missing_files_and_directories() {
    let missing = SourceFile::load("missing".to_owned(), Found::Inaccessible("no such file".to_owned())).unwrap_err();
    assert!(missing.to_string().contains("cannot access 'missing': no such file"));
    assert_eq!(missing.exit_code(), 1);
    let directory = SourceFile::load("tmp".to_owned(), Found::NotRegular).unwrap_err();
    assert!(directory.to_string().contains("source path 'tmp' is not a regular file"));
    assert_eq!(directory.exit_code(), 1);
    let unread = SourceFile::load("locked".to_owned(), Found::Unreadable("denied".to_owned())).unwrap_err();
    assert!(unread.to_string().contains("cannot read 'locked': denied"));
    assert_eq!(unread.exit_code(), 1);
}
