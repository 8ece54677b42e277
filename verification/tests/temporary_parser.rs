use sao2::source::SourceFile;
use sao2::temporary_parser::parse;

fn source(text: &str) -> SourceFile {
    SourceFile::new("test.sao2".to_owned(), text.to_owned())
}

#[test]
fn parses_print_and_records_statement_span() {
    let parsed = parse(&source("  print(\"hello\");  ")).unwrap();
    assert_eq!(parsed.bytes, b"hello");
    assert_eq!(parsed.span, 2..17);
}

#[test]
fn permits_whitespace_and_comments_between_tokens() {
    let parsed = parse(&source(
        "/* lead */ print // one\n ( /* two */ \"ok\" ) ; // end",
    ))
    .unwrap();
    assert_eq!(parsed.bytes, b"ok");
}

#[test]
fn decodes_every_supported_escape() {
    let parsed = parse(&source(r#"print("\\\"\'\n\r\t\0\x41");"#)).unwrap();
    assert_eq!(parsed.bytes, b"\\\"'\n\r\t\0A");
}

#[test]
fn accepts_empty_and_embedded_zero_strings() {
    assert_eq!(parse(&source(r#"print("");"#)).unwrap().bytes, b"");
    assert_eq!(parse(&source(r#"print("a\0b");"#)).unwrap().bytes, b"a\0b");
}

#[test]
fn rejects_non_ascii_literal_and_escape() {
    assert!(parse(&source("print(\"é\");")).is_err());
    assert!(parse(&source(r#"print("\x80");"#)).is_err());
}

#[test]
fn rejects_malformed_input_with_locations() {
    let cases = [
        ("print(123);", "1:7: expected string literal"),
        ("print(\"x\")", "1:11: expected ';'"),
        ("print(\"x\"); extra", "1:13: unexpected trailing input"),
        ("print(\"x", "1:9: unterminated string literal"),
        (r#"print("\q");"#, "1:9: unknown escape sequence"),
        ("/* never closed", "1:1: unterminated block comment"),
    ];

    for (text, expected) in cases {
        let diagnostic = parse(&source(text)).unwrap_err().to_string();
        assert!(diagnostic.contains(expected), "{diagnostic:?}");
    }
}
