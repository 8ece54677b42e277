use sao2::lexer::{lex, TokenKind};
use sao2::source::{SourceFile, Span};

fn source(text: &str) -> SourceFile {
    SourceFile::new("test.sao2".to_owned(), text.to_owned())
}

fn kinds(text: &str) -> Vec<TokenKind> {
    lex(&source(text))
        .unwrap()
        .into_iter()
        .map(|token| token.kind)
        .collect()
}

#[test]
fn recognizes_every_keyword_only_as_a_complete_token() {
    assert_eq!(
        kinds(
            "type fn var return break continue if else while for in switch is true false int float str bool char typeName inner"
        ),
        vec![
            TokenKind::Type,
            TokenKind::Fn,
            TokenKind::Var,
            TokenKind::Return,
            TokenKind::Break,
            TokenKind::Continue,
            TokenKind::If,
            TokenKind::Else,
            TokenKind::While,
            TokenKind::For,
            TokenKind::In,
            TokenKind::Switch,
            TokenKind::Is,
            TokenKind::True,
            TokenKind::False,
            TokenKind::Int,
            TokenKind::FloatType,
            TokenKind::Str,
            TokenKind::Bool,
            TokenKind::Char,
            TokenKind::Identifier,
            TokenKind::Identifier,
            TokenKind::Eof,
        ]
    );
}

#[test]
fn recognizes_every_operator_and_delimiter_with_longest_match() {
    assert_eq!(
        kinds(
            "( ) { } [ ] , ; : . = + - * / % & | ^ ! ~ < > ? := == != <= >= || && << >> += -= *= /= %= &= |= ^= <<= >>="
        ),
        vec![
            TokenKind::LeftParen,
            TokenKind::RightParen,
            TokenKind::LeftBrace,
            TokenKind::RightBrace,
            TokenKind::LeftBracket,
            TokenKind::RightBracket,
            TokenKind::Comma,
            TokenKind::Semicolon,
            TokenKind::Colon,
            TokenKind::Dot,
            TokenKind::Equal,
            TokenKind::Plus,
            TokenKind::Minus,
            TokenKind::Star,
            TokenKind::Slash,
            TokenKind::Percent,
            TokenKind::Ampersand,
            TokenKind::Pipe,
            TokenKind::Caret,
            TokenKind::Bang,
            TokenKind::Tilde,
            TokenKind::Less,
            TokenKind::Greater,
            TokenKind::Question,
            TokenKind::Declare,
            TokenKind::EqualEqual,
            TokenKind::BangEqual,
            TokenKind::LessEqual,
            TokenKind::GreaterEqual,
            TokenKind::LogicalOr,
            TokenKind::LogicalAnd,
            TokenKind::ShiftLeft,
            TokenKind::ShiftRight,
            TokenKind::PlusEqual,
            TokenKind::MinusEqual,
            TokenKind::StarEqual,
            TokenKind::SlashEqual,
            TokenKind::PercentEqual,
            TokenKind::AmpersandEqual,
            TokenKind::PipeEqual,
            TokenKind::CaretEqual,
            TokenKind::ShiftLeftEqual,
            TokenKind::ShiftRightEqual,
            TokenKind::Eof,
        ]
    );
}

#[test]
fn records_half_open_byte_spans_and_eof() {
    let tokens = lex(&source("α fn_name")).unwrap_err();
    assert!(tokens.to_string().contains("1:1"));

    let tokens = lex(&source("fn name")).unwrap();
    assert_eq!(tokens[0].span, Span::new(0, 2));
    assert_eq!(tokens[1].span, Span::new(3, 7));
    assert_eq!(tokens[2].span, Span::empty(7));
}

#[test]
fn discards_whitespace_and_nonnested_comments() {
    assert_eq!(
        kinds(" /* outer /* not nested */ fn // rest\r\n name"),
        vec![TokenKind::Fn, TokenKind::Identifier, TokenKind::Eof]
    );
}

#[test]
fn decodes_string_and_character_escapes() {
    assert_eq!(
        kinds(r#""\\\"\'\n\r\t\0\x41" '\n' 'A'"#),
        vec![
            TokenKind::String(b"\\\"'\n\r\t\0A".to_vec()),
            TokenKind::Character(b'\n'),
            TokenKind::Character(b'A'),
            TokenKind::Eof,
        ]
    );
}

#[test]
fn recognizes_valid_numeric_forms_and_keeps_signs_separate() {
    assert_eq!(
        kinds("42 1_000 0xff 0xca_fe 0b1010 1.0 1_0.2_5 1e10 2.5e-3 -42 +1"),
        vec![
            TokenKind::Integer,
            TokenKind::Integer,
            TokenKind::Integer,
            TokenKind::Integer,
            TokenKind::Integer,
            TokenKind::Float,
            TokenKind::Float,
            TokenKind::Float,
            TokenKind::Float,
            TokenKind::Minus,
            TokenKind::Integer,
            TokenKind::Plus,
            TokenKind::Integer,
            TokenKind::Eof,
        ]
    );
}

#[test]
fn rejects_malformed_numbers() {
    for (text, message) in [
        ("1_", "numeric separators"),
        ("1__0", "numeric separators"),
        ("0x", "invalid hexadecimal"),
        ("0x_1", "numeric separators"),
        ("0b102", "invalid binary"),
        ("0Xff", "prefix must be lowercase"),
        ("0B10", "prefix must be lowercase"),
        ("1.", "digits after"),
        (".5", "digits before"),
        ("1e+", "exponent requires digits"),
    ] {
        let diagnostic = lex(&source(text)).unwrap_err().to_string();
        assert!(diagnostic.contains(message), "{text:?}: {diagnostic}");
    }
}

#[test]
fn rejects_malformed_literals_and_comments() {
    for (text, message) in [
        (r#""\q""#, "unknown escape"),
        (r#""\x8""#, "two hexadecimal"),
        (r#""\x80""#, "must be ASCII"),
        ("\"unterminated", "unterminated string"),
        ("'ab'", "exactly one"),
        ("'é'", "must be ASCII"),
        ("/* unterminated", "unterminated block comment"),
    ] {
        let diagnostic = lex(&source(text)).unwrap_err().to_string();
        assert!(diagnostic.contains(message), "{text:?}: {diagnostic}");
    }
}

#[test]
fn comment_markers_inside_literals_are_plain_content() {
    assert_eq!(
        kinds(r#""// not a comment" "/* neither */" '/'"#),
        vec![
            TokenKind::String(b"// not a comment".to_vec()),
            TokenKind::String(b"/* neither */".to_vec()),
            TokenKind::Character(b'/'),
            TokenKind::Eof,
        ]
    );
}

#[test]
fn collects_independent_errors_in_source_order_and_stops_at_twenty() {
    let diagnostics = lex(&source(&"@ ".repeat(25))).unwrap_err();
    assert_eq!(diagnostics.len(), 20);
    let rendered = diagnostics.to_string();
    assert_eq!(rendered.matches("unexpected character").count(), 20);
    assert!(rendered.find("1:1").unwrap() < rendered.find("1:3").unwrap());
}

#[test]
fn distinguishes_tuple_member_access_from_a_leading_dot_float() {
    assert_eq!(
        kinds("value.0.1 1.member 1.0.member"),
        vec![
            TokenKind::Identifier,
            TokenKind::Dot,
            TokenKind::Integer,
            TokenKind::Dot,
            TokenKind::Integer,
            TokenKind::Integer,
            TokenKind::Dot,
            TokenKind::Identifier,
            TokenKind::Float,
            TokenKind::Dot,
            TokenKind::Identifier,
            TokenKind::Eof,
        ]
    );
    assert!(lex(&source(".5")).is_err());
}

#[test]
fn tokens_stand_one_behind_the_other_and_end_with_the_text() {
    let text = "fn f(x int) { x <<= 0x1F; /* note */ \"a\\n\" } // end";
    let tokens = lex(&source(text)).unwrap();
    let mut end = 0;
    for token in &tokens[..tokens.len() - 1] {
        assert!(end <= token.span.start && token.span.start < token.span.end);
        end = token.span.end;
    }
    let last = tokens.last().unwrap();
    assert_eq!(last.kind, TokenKind::Eof);
    assert_eq!(last.span, Span::empty(text.len()));
}

#[test]
fn a_failed_lex_reports_a_bounded_number_of_places_in_the_text() {
    let text = "@ ".repeat(30);
    let errors = lex(&source(&text)).unwrap_err().into_sorted();
    assert_eq!(errors.len(), 20);
    for error in &errors {
        let span = error.primary_span().unwrap();
        assert!(span.start <= span.end && span.end <= text.len());
    }
    let one = lex(&source("\"\\x80")).unwrap_err();
    assert!(one.len() >= 1);
}

#[test]
fn literals_stand_for_ascii() {
    for token in lex(&source("\"a\\x7f\" 'z' \"\"")).unwrap() {
        match token.kind {
            TokenKind::String(bytes) => assert!(bytes.iter().all(|byte| *byte < 0x80)),
            TokenKind::Character(byte) => assert!(byte < 0x80),
            _ => {}
        }
    }
    assert!(lex(&source("\"\u{e9}\"")).is_err());
}
