//! The lexer: source text to tokens.

pub mod laws;

use crate::diagnostic::{Diagnostic, DiagnosticView, Diagnostics, MAX_SOURCE_ERRORS, reported, source_error};
use crate::source::{SourceFile, Span, lemma_ascii_boundary};
use crate::text::{same_text, slice};
use vstd::prelude::*;
use vstd::string::*;
use vstd::utf8::*;

verus! {

#[derive(Clone, Debug, Eq, PartialEq)]
pub struct Token {
    pub kind: TokenKind,
    pub span: Span,
}

#[derive(Clone, Debug, Eq, PartialEq)]
pub enum TokenKind {
    Identifier,
    Integer,
    Float,
    String(Vec<u8>),
    Character(u8),
    Type,
    Fn,
    Var,
    Return,
    Break,
    Continue,
    If,
    Else,
    While,
    For,
    In,
    Switch,
    Is,
    True,
    False,
    Int,
    FloatType,
    Str,
    Bool,
    Char,
    LeftParen,
    RightParen,
    LeftBrace,
    RightBrace,
    LeftBracket,
    RightBracket,
    Comma,
    Semicolon,
    Colon,
    Dot,
    Equal,
    Plus,
    Minus,
    Star,
    Slash,
    Percent,
    Ampersand,
    Pipe,
    Caret,
    Bang,
    Tilde,
    Less,
    Greater,
    Question,
    Declare,
    EqualEqual,
    BangEqual,
    LessEqual,
    GreaterEqual,
    LogicalOr,
    LogicalAnd,
    ShiftLeft,
    ShiftRight,
    PlusEqual,
    MinusEqual,
    StarEqual,
    SlashEqual,
    PercentEqual,
    AmpersandEqual,
    PipeEqual,
    CaretEqual,
    ShiftLeftEqual,
    ShiftRightEqual,
    Eof,
}

/// The kind of a token with the bytes of a string literal as a sequence.
pub enum KindView {
    Plain(TokenKind),
    Text(Seq<u8>),
}

/// The contents of a token.
pub struct TokenView {
    pub kind: KindView,
    pub span: Span,
}

impl TokenKind {
    pub open spec fn view(&self) -> KindView {
        match self {
            TokenKind::String(bytes) => KindView::Text(bytes@),
            other => KindView::Plain(*other),
        }
    }
}

impl Token {
    pub open spec fn view(&self) -> TokenView {
        TokenView { kind: self.kind@, span: self.span }
    }
}

/// The contents of a sequence of tokens.
pub open spec fn token_views(tokens: Seq<Token>) -> Seq<TokenView> {
    tokens.map_values(|token: Token| token@)
}

/// An error at a span.
pub struct Report {
    pub span: Span,
    pub message: Seq<char>,
}

/// What scanning one lexeme gives: where it ends, the token kind if it is a token, and the
/// errors in it.
pub struct Scan {
    pub end: int,
    pub kind: Option<KindView>,
    pub errors: Seq<Report>,
}

/// How many bytes there are from `at` on.
pub open spec fn left(bytes: Seq<u8>, at: int) -> nat {
    if at < bytes.len() {
        (bytes.len() - at) as nat
    } else {
        0
    }
}

pub open spec fn span_between(start: int, end: int) -> Span {
    Span { start: start as usize, end: end as usize, tree: 0 }
}

pub open spec fn token_scan(end: int, kind: KindView) -> Scan {
    Scan { end, kind: Some(kind), errors: seq![] }
}

pub open spec fn error_scan(start: int, end: int, message: Seq<char>) -> Scan {
    Scan { end, kind: None, errors: seq![Report { span: span_between(start, end), message }] }
}

/// Whether the byte at `at` exists and equals `byte`.
pub open spec fn byte_is(bytes: Seq<u8>, at: int, byte: u8) -> bool {
    0 <= at < bytes.len() && bytes[at] == byte
}

pub open spec fn bytes_are(bytes: Seq<u8>, at: int, first: u8, second: u8) -> bool {
    byte_is(bytes, at, first) && byte_is(bytes, at + 1, second)
}

pub open spec fn decimal_digit(byte: u8) -> bool {
    48 <= byte <= 57
}

pub open spec fn letter(byte: u8) -> bool {
    65 <= byte <= 90 || 97 <= byte <= 122
}

pub open spec fn identifier_start(byte: u8) -> bool {
    letter(byte) || byte == 95
}

pub open spec fn identifier_continue(byte: u8) -> bool {
    letter(byte) || decimal_digit(byte) || byte == 95
}

/// The value of a hexadecimal digit.
pub open spec fn hex_value(byte: u8) -> Option<u32> {
    if 48 <= byte <= 57 {
        Some((byte - 48) as u32)
    } else if 97 <= byte <= 102 {
        Some((byte - 97 + 10) as u32)
    } else if 65 <= byte <= 70 {
        Some((byte - 65 + 10) as u32)
    } else {
        None
    }
}

/// Whether the byte is a digit in the given radix.
pub open spec fn radix_digit(byte: u8, radix: u32) -> bool {
    match hex_value(byte) {
        Some(value) => value < radix,
        None => false,
    }
}

pub open spec fn has_radix_digit(bytes: Seq<u8>, at: int, radix: u32) -> bool {
    0 <= at < bytes.len() && radix_digit(bytes[at], radix)
}

/// Where the run of identifier characters at `from` ends.
pub open spec fn word_end(bytes: Seq<u8>, from: int) -> int
    decreases bytes.len() - from,
{
    if from < bytes.len() && identifier_continue(bytes[from]) {
        word_end(bytes, from + 1)
    } else {
        from
    }
}

/// Where the run of digits and separators at `from` ends.
pub open spec fn digits_end(bytes: Seq<u8>, from: int, radix: u32) -> int
    decreases bytes.len() - from,
{
    if from < bytes.len() && (radix_digit(bytes[from], radix) || bytes[from] == 95) {
        digits_end(bytes, from + 1, radix)
    } else {
        from
    }
}

/// Whether every separator in a run of digits stands between two digits.
pub open spec fn separators_valid(bytes: Seq<u8>, from: int, end: int, radix: u32) -> bool {
    forall|i: int|
        from <= i < end && #[trigger] bytes[i] == 95 ==> from < i && has_radix_digit(bytes, i - 1, radix)
            && has_radix_digit(bytes, i + 1, radix)
}

pub open spec fn digits_valid(bytes: Seq<u8>, from: int, radix: u32) -> bool {
    separators_valid(bytes, from, digits_end(bytes, from, radix), radix)
}

/// The keyword that a word spells, or an identifier.
pub open spec fn word_kind(word: Seq<char>) -> TokenKind {
    if word == "type"@ {
        TokenKind::Type
    } else if word == "fn"@ {
        TokenKind::Fn
    } else if word == "var"@ {
        TokenKind::Var
    } else if word == "return"@ {
        TokenKind::Return
    } else if word == "break"@ {
        TokenKind::Break
    } else if word == "continue"@ {
        TokenKind::Continue
    } else if word == "if"@ {
        TokenKind::If
    } else if word == "else"@ {
        TokenKind::Else
    } else if word == "while"@ {
        TokenKind::While
    } else if word == "for"@ {
        TokenKind::For
    } else if word == "in"@ {
        TokenKind::In
    } else if word == "switch"@ {
        TokenKind::Switch
    } else if word == "is"@ {
        TokenKind::Is
    } else if word == "true"@ {
        TokenKind::True
    } else if word == "false"@ {
        TokenKind::False
    } else if word == "int"@ {
        TokenKind::Int
    } else if word == "float"@ {
        TokenKind::FloatType
    } else if word == "str"@ {
        TokenKind::Str
    } else if word == "bool"@ {
        TokenKind::Bool
    } else if word == "char"@ {
        TokenKind::Char
    } else {
        TokenKind::Identifier
    }
}

pub open spec fn scan_word(bytes: Seq<u8>, start: int) -> Scan {
    let end = word_end(bytes, start + 1);
    token_scan(end, word_kind(decode_utf8(bytes.subrange(start, end)))@)
}

pub open spec fn separator_message() -> Seq<char> {
    "numeric separators must appear between digits"@
}

/// An integer with a base prefix, whose digits start two bytes behind `start`.
pub open spec fn scan_based(bytes: Seq<u8>, start: int, radix: u32, description: Seq<char>) -> Scan {
    let digits = digits_end(bytes, start + 2, radix);
    let end = word_end(bytes, digits);
    if digits == start + 2 || end > digits {
        error_scan(start, end, "invalid "@ + description + " integer literal"@)
    } else if !digits_valid(bytes, start + 2, radix) {
        error_scan(start, end, separator_message())
    } else {
        token_scan(end, TokenKind::Integer@)
    }
}

pub open spec fn scan_uppercase_base(bytes: Seq<u8>, start: int, description: Seq<char>) -> Scan {
    error_scan(start, word_end(bytes, start + 2), description + " integer prefix must be lowercase"@)
}

/// Digits behind a member dot: never a floating-point literal.
pub open spec fn scan_member_number(bytes: Seq<u8>, start: int) -> Scan {
    let end = digits_end(bytes, start, 10);
    if digits_valid(bytes, start, 10) {
        token_scan(end, TokenKind::Integer@)
    } else {
        error_scan(start, end, separator_message())
    }
}

/// The rest of a number behind its digits and, if it has one, its fraction.
pub open spec fn scan_exponent(bytes: Seq<u8>, start: int, at: int, valid: bool, fraction: bool) -> Scan {
    if byte_is(bytes, at, 101) || byte_is(bytes, at, 69) {
        let digits = if byte_is(bytes, at + 1, 43) || byte_is(bytes, at + 1, 45) {
            at + 2
        } else {
            at + 1
        };
        if !has_radix_digit(bytes, digits, 10) {
            error_scan(start, digits, "floating-point exponent requires digits"@)
        } else {
            let end = digits_end(bytes, digits, 10);
            if valid && digits_valid(bytes, digits, 10) {
                token_scan(end, TokenKind::Float@)
            } else {
                error_scan(start, end, separator_message())
            }
        }
    } else if valid {
        token_scan(at, if fraction { TokenKind::Float@ } else { TokenKind::Integer@ })
    } else {
        error_scan(start, at, separator_message())
    }
}

/// An integer or floating-point literal; behind a dot only the digits of a tuple member.
pub open spec fn scan_number(bytes: Seq<u8>, start: int, after_dot: bool) -> Scan {
    if bytes_are(bytes, start, 48, 88) {
        scan_uppercase_base(bytes, start, "hexadecimal"@)
    } else if bytes_are(bytes, start, 48, 66) {
        scan_uppercase_base(bytes, start, "binary"@)
    } else if bytes_are(bytes, start, 48, 120) {
        scan_based(bytes, start, 16, "hexadecimal"@)
    } else if bytes_are(bytes, start, 48, 98) {
        scan_based(bytes, start, 2, "binary"@)
    } else if after_dot {
        scan_member_number(bytes, start)
    } else {
        let whole = digits_end(bytes, start, 10);
        let valid = digits_valid(bytes, start, 10);
        if byte_is(bytes, whole, 46) && has_radix_digit(bytes, whole + 1, 10) {
            scan_exponent(
                bytes,
                start,
                digits_end(bytes, whole + 1, 10),
                valid && digits_valid(bytes, whole + 1, 10),
                true,
            )
        } else if byte_is(bytes, whole, 46) && !(whole + 1 < bytes.len() && identifier_start(bytes[whole + 1])) {
            error_scan(start, whole + 1, "floating-point literal requires digits after '.'"@)
        } else {
            scan_exponent(bytes, start, whole, valid, false)
        }
    }
}

pub open spec fn scan_leading_dot(bytes: Seq<u8>, start: int) -> Scan {
    error_scan(start, digits_end(bytes, start + 1, 10), "floating-point literal requires digits before '.'"@)
}

/// The first offset behind `at` that does not continue a character.
pub open spec fn next_character(bytes: Seq<u8>, at: int) -> int
    decreases bytes.len() - at,
{
    if at + 1 < bytes.len() && is_continuation_byte(bytes[at + 1]) {
        next_character(bytes, at + 1)
    } else {
        at + 1
    }
}

/// What an escape sequence gives: where it ends, and its value or the error in it.
pub struct Escape {
    pub end: int,
    pub value: Result<u8, Report>,
}

pub open spec fn escape_error(start: int, end: int, message: Seq<char>) -> Escape {
    Escape { end, value: Err(Report { span: span_between(start, end), message }) }
}

/// The value of a one-letter escape.
pub open spec fn simple_escape(byte: u8) -> Option<u8> {
    if byte == 92 || byte == 34 || byte == 39 {
        Some(byte)
    } else if byte == 110 {
        Some(10u8)
    } else if byte == 114 {
        Some(13u8)
    } else if byte == 116 {
        Some(9u8)
    } else if byte == 48 {
        Some(0u8)
    } else {
        None
    }
}

/// The escape sequence whose backslash stands at `start`.
pub open spec fn escape(bytes: Seq<u8>, start: int) -> Escape {
    if start + 1 >= bytes.len() {
        escape_error(start, start + 1, "unterminated escape sequence"@)
    } else if simple_escape(bytes[start + 1]) is Some {
        Escape { end: start + 2, value: Ok(simple_escape(bytes[start + 1])->0) }
    } else if bytes[start + 1] != 120 {
        escape_error(start, start + 2, "unknown escape sequence"@)
    } else if !has_radix_digit(bytes, start + 2, 16) {
        escape_error(start, start + 2, "expected two hexadecimal escape digits"@)
    } else if !has_radix_digit(bytes, start + 3, 16) {
        escape_error(start, start + 3, "expected two hexadecimal escape digits"@)
    } else {
        let value = hex_value(bytes[start + 2])->0 * 16 + hex_value(bytes[start + 3])->0;
        if value > 0x7f {
            escape_error(start, start + 4, "literal contents must be ASCII"@)
        } else {
            Escape { end: start + 4, value: Ok(value as u8) }
        }
    }
}

/// The contents of a quoted literal as far as they have been read: the decoded bytes, whether
/// all of them were in order, and the errors.
pub struct Quoted {
    pub decoded: Seq<u8>,
    pub valid: bool,
    pub errors: Seq<Report>,
}

/// How a quoted literal ends: where, with its closing quote or not, and what it holds.
pub struct QuotedEnd {
    pub end: int,
    pub closed: bool,
    pub contents: Quoted,
}

pub open spec fn quoted_error(contents: Quoted, start: int, end: int, message: Seq<char>) -> Quoted {
    Quoted {
        valid: false,
        errors: contents.errors.push(Report { span: span_between(start, end), message }),
        ..contents
    }
}

pub open spec fn literal_name(quote: u8) -> Seq<char> {
    if quote == 34 {
        "string"@
    } else {
        "character"@
    }
}

/// Behind the next closing quote or line feed.
pub open spec fn recovered(bytes: Seq<u8>, from: int, quote: u8) -> int
    decreases bytes.len() - from,
{
    if from >= bytes.len() {
        from
    } else if bytes[from] == quote || bytes[from] == 10 {
        from + 1
    } else {
        recovered(bytes, from + 1, quote)
    }
}

/// The rest of a quoted literal that started at `start` and has been read up to `at`.
pub open spec fn quoted(bytes: Seq<u8>, start: int, at: int, quote: u8, contents: Quoted) -> QuotedEnd
    decreases left(bytes, at),
{
    if at >= bytes.len() {
        QuotedEnd {
            end: at,
            closed: false,
            contents: quoted_error(
                contents,
                start,
                at,
                "unterminated "@ + literal_name(quote) + " literal"@,
            ),
        }
    } else if bytes[at] == quote {
        QuotedEnd { end: at + 1, closed: true, contents }
    } else if bytes[at] == 13 || bytes[at] == 10 {
        QuotedEnd {
            end: recovered(bytes, at + 1, quote),
            closed: false,
            contents: quoted_error(
                contents,
                at,
                at + 1,
                "raw newline is not allowed in a "@ + literal_name(quote) + " literal"@,
            ),
        }
    } else if bytes[at] == 92 {
        let step = escape(bytes, at);
        match step.value {
            Ok(value) => quoted(
                bytes,
                start,
                step.end,
                quote,
                Quoted { decoded: contents.decoded.push(value), ..contents },
            ),
            Err(error) => {
                let failed = Quoted { valid: false, errors: contents.errors.push(error), ..contents };
                if step.end >= bytes.len() {
                    QuotedEnd { end: step.end, closed: false, contents: failed }
                } else {
                    quoted(bytes, start, step.end, quote, failed)
                }
            },
        }
    } else if bytes[at] <= 0x7f {
        quoted(
            bytes,
            start,
            at + 1,
            quote,
            Quoted { decoded: contents.decoded.push(bytes[at]), ..contents },
        )
    } else {
        let next = next_character(bytes, at);
        if next <= at {
            arbitrary()
        } else {
            quoted(
                bytes,
                start,
                next,
                quote,
                quoted_error(contents, at, next, literal_name(quote) + " contents must be ASCII"@),
            )
        }
    }
}

pub open spec fn empty_quoted() -> Quoted {
    Quoted { decoded: seq![], valid: true, errors: seq![] }
}

pub open spec fn scan_string(bytes: Seq<u8>, start: int) -> Scan {
    let literal = quoted(bytes, start, start + 1, 34, empty_quoted());
    Scan {
        end: literal.end,
        kind: if literal.closed && literal.contents.valid {
            Some(KindView::Text(literal.contents.decoded))
        } else {
            None
        },
        errors: literal.contents.errors,
    }
}

pub open spec fn scan_character(bytes: Seq<u8>, start: int) -> Scan {
    let literal = quoted(bytes, start, start + 1, 39, empty_quoted());
    let one = literal.contents.decoded.len() == 1;
    Scan {
        end: literal.end,
        kind: if literal.closed && literal.contents.valid && one {
            Some(TokenKind::Character(literal.contents.decoded[0])@)
        } else {
            None
        },
        errors: if literal.closed && literal.contents.valid && !one {
            literal.contents.errors.push(
                Report {
                    span: span_between(start, literal.end),
                    message: "character literal must contain exactly one ASCII character"@,
                },
            )
        } else {
            literal.contents.errors
        },
    }
}

/// The token that one byte spells on its own.
pub open spec fn single_symbol(byte: u8) -> Option<TokenKind> {
    if byte == 40 {
        Some(TokenKind::LeftParen)
    } else if byte == 41 {
        Some(TokenKind::RightParen)
    } else if byte == 123 {
        Some(TokenKind::LeftBrace)
    } else if byte == 125 {
        Some(TokenKind::RightBrace)
    } else if byte == 91 {
        Some(TokenKind::LeftBracket)
    } else if byte == 93 {
        Some(TokenKind::RightBracket)
    } else if byte == 44 {
        Some(TokenKind::Comma)
    } else if byte == 59 {
        Some(TokenKind::Semicolon)
    } else if byte == 58 {
        Some(TokenKind::Colon)
    } else if byte == 46 {
        Some(TokenKind::Dot)
    } else if byte == 61 {
        Some(TokenKind::Equal)
    } else if byte == 43 {
        Some(TokenKind::Plus)
    } else if byte == 45 {
        Some(TokenKind::Minus)
    } else if byte == 42 {
        Some(TokenKind::Star)
    } else if byte == 47 {
        Some(TokenKind::Slash)
    } else if byte == 37 {
        Some(TokenKind::Percent)
    } else if byte == 38 {
        Some(TokenKind::Ampersand)
    } else if byte == 124 {
        Some(TokenKind::Pipe)
    } else if byte == 94 {
        Some(TokenKind::Caret)
    } else if byte == 33 {
        Some(TokenKind::Bang)
    } else if byte == 126 {
        Some(TokenKind::Tilde)
    } else if byte == 60 {
        Some(TokenKind::Less)
    } else if byte == 62 {
        Some(TokenKind::Greater)
    } else if byte == 63 {
        Some(TokenKind::Question)
    } else {
        None
    }
}

/// The longest operator or delimiter at `at`, with its length.
pub open spec fn symbol(bytes: Seq<u8>, at: int) -> Option<(TokenKind, int)> {
    if bytes_are(bytes, at, 62, 62) && byte_is(bytes, at + 2, 61) {
        Some((TokenKind::ShiftRightEqual, 3))
    } else if bytes_are(bytes, at, 60, 60) && byte_is(bytes, at + 2, 61) {
        Some((TokenKind::ShiftLeftEqual, 3))
    } else if bytes_are(bytes, at, 58, 61) {
        Some((TokenKind::Declare, 2))
    } else if bytes_are(bytes, at, 61, 61) {
        Some((TokenKind::EqualEqual, 2))
    } else if bytes_are(bytes, at, 33, 61) {
        Some((TokenKind::BangEqual, 2))
    } else if bytes_are(bytes, at, 60, 61) {
        Some((TokenKind::LessEqual, 2))
    } else if bytes_are(bytes, at, 62, 61) {
        Some((TokenKind::GreaterEqual, 2))
    } else if bytes_are(bytes, at, 124, 124) {
        Some((TokenKind::LogicalOr, 2))
    } else if bytes_are(bytes, at, 38, 38) {
        Some((TokenKind::LogicalAnd, 2))
    } else if bytes_are(bytes, at, 60, 60) {
        Some((TokenKind::ShiftLeft, 2))
    } else if bytes_are(bytes, at, 62, 62) {
        Some((TokenKind::ShiftRight, 2))
    } else if bytes_are(bytes, at, 43, 61) {
        Some((TokenKind::PlusEqual, 2))
    } else if bytes_are(bytes, at, 45, 61) {
        Some((TokenKind::MinusEqual, 2))
    } else if bytes_are(bytes, at, 42, 61) {
        Some((TokenKind::StarEqual, 2))
    } else if bytes_are(bytes, at, 47, 61) {
        Some((TokenKind::SlashEqual, 2))
    } else if bytes_are(bytes, at, 37, 61) {
        Some((TokenKind::PercentEqual, 2))
    } else if bytes_are(bytes, at, 38, 61) {
        Some((TokenKind::AmpersandEqual, 2))
    } else if bytes_are(bytes, at, 124, 61) {
        Some((TokenKind::PipeEqual, 2))
    } else if bytes_are(bytes, at, 94, 61) {
        Some((TokenKind::CaretEqual, 2))
    } else {
        match single_symbol(bytes[at]) {
            Some(kind) => Some((kind, 1)),
            None => None,
        }
    }
}

pub open spec fn scan_symbol(bytes: Seq<u8>, start: int) -> Scan {
    match symbol(bytes, start) {
        Some((kind, length)) => token_scan(start + length, kind@),
        None => error_scan(start, next_character(bytes, start), "unexpected character in source"@),
    }
}

/// Whether a dot behind a token of this kind selects a member.
pub open spec fn selects_member(previous: Option<KindView>) -> bool {
    match previous {
        Some(KindView::Text(_)) => true,
        Some(KindView::Plain(kind)) => kind is Identifier || kind is Integer || kind is Float || kind is Character
            || kind is True || kind is False || kind is RightParen || kind is RightBracket || kind is RightBrace
            || kind is Question,
        None => false,
    }
}

/// The lexeme that starts at `start`, where no trivia does, behind a token of the given kind.
pub open spec fn scan(bytes: Seq<u8>, start: int, previous: Option<KindView>) -> Scan {
    let byte = bytes[start];
    if identifier_start(byte) {
        scan_word(bytes, start)
    } else if decimal_digit(byte) {
        scan_number(bytes, start, previous == Some(KindView::Plain(TokenKind::Dot)))
    } else if byte == 34 {
        scan_string(bytes, start)
    } else if byte == 39 {
        scan_character(bytes, start)
    } else if byte == 46 && has_radix_digit(bytes, start + 1, 10) && !selects_member(previous) {
        scan_leading_dot(bytes, start)
    } else {
        scan_symbol(bytes, start)
    }
}

pub open spec fn whitespace(byte: u8) -> bool {
    byte == 32 || byte == 9 || byte == 13 || byte == 10
}

/// The first line feed at or after `from`, or the end of the text.
pub open spec fn comment_line_end(bytes: Seq<u8>, from: int) -> int
    decreases bytes.len() - from,
{
    if from >= bytes.len() || bytes[from] == 10 {
        from
    } else {
        comment_line_end(bytes, from + 1)
    }
}

/// The first `*/` at or after `from`.
pub open spec fn comment_close(bytes: Seq<u8>, from: int) -> Option<int>
    decreases bytes.len() - from,
{
    if from >= bytes.len() {
        None
    } else if bytes_are(bytes, from, 42, 47) {
        Some(from)
    } else {
        comment_close(bytes, from + 1)
    }
}

/// Where the whitespace and comments at `at` end; a block comment that is not closed takes the
/// rest of the text and is reported.
pub struct Trivia {
    pub end: int,
    pub errors: Seq<Report>,
}

pub open spec fn trivia(bytes: Seq<u8>, at: int) -> Trivia
    decreases left(bytes, at),
{
    if at >= bytes.len() {
        Trivia { end: at, errors: seq![] }
    } else if whitespace(bytes[at]) {
        trivia(bytes, at + 1)
    } else if bytes_are(bytes, at, 47, 47) {
        let end = comment_line_end(bytes, at + 2);
        if end <= at {
            arbitrary()
        } else {
            trivia(bytes, end)
        }
    } else if bytes_are(bytes, at, 47, 42) {
        match comment_close(bytes, at + 2) {
            Some(close) => if close <= at {
                arbitrary()
            } else {
                trivia(bytes, close + 2)
            },
            None => Trivia {
                end: bytes.len() as int,
                errors: seq![Report {
                    span: span_between(at, bytes.len() as int),
                    message: "unterminated block comment"@,
                }],
            },
        }
    } else {
        Trivia { end: at, errors: seq![] }
    }
}

/// The tokens and errors of a text.
#[verifier::ext_equal]
pub struct Lexed {
    pub tokens: Seq<TokenView>,
    pub errors: Seq<Report>,
}

pub open spec fn last_kind(tokens: Seq<TokenView>) -> Option<KindView> {
    if tokens.len() == 0 {
        None
    } else {
        Some(tokens.last().kind)
    }
}

pub open spec fn with_scan(done: Lexed, start: int, scan: Scan) -> Lexed {
    Lexed {
        tokens: match scan.kind {
            Some(kind) => done.tokens.push(TokenView { kind, span: span_between(start, scan.end) }),
            None => done.tokens,
        },
        errors: done.errors + scan.errors,
    }
}

/// The tokens and errors of the whole text, where the part before `at` gave `done`. Lexing stops
/// once as many errors were found as are reported.
pub open spec fn lexed_from(bytes: Seq<u8>, at: int, done: Lexed) -> Lexed
    decreases left(bytes, at),
{
    let skipped = trivia(bytes, at);
    let step = scan(bytes, at, last_kind(done.tokens));
    if at >= bytes.len() || done.errors.len() >= MAX_SOURCE_ERRORS {
        done
    } else if skipped.end > at {
        lexed_from(bytes, skipped.end, Lexed { errors: done.errors + skipped.errors, ..done })
    } else if step.end > at {
        lexed_from(bytes, step.end, with_scan(done, at, step))
    } else {
        arbitrary()
    }
}

/// The tokens and errors of a text.
pub open spec fn lexed(bytes: Seq<u8>) -> Lexed {
    lexed_from(bytes, 0, Lexed { tokens: seq![], errors: seq![] })
}

/// The tokens of a text without errors, closed by the end of the text.
pub open spec fn complete_tokens(bytes: Seq<u8>) -> Seq<TokenView> {
    let end = bytes.len() as int;
    lexed(bytes).tokens.push(TokenView { kind: TokenKind::Eof@, span: span_between(end, end) })
}

pub open spec fn report_view(source: &SourceFile, report: Report) -> DiagnosticView {
    source_error(source, report.span, report.message)
}

/// The diagnostics that are kept of a sequence of errors.
pub open spec fn kept(source: &SourceFile, errors: Seq<Report>) -> Seq<DiagnosticView> {
    Seq::new(
        if errors.len() < MAX_SOURCE_ERRORS {
            errors.len()
        } else {
            MAX_SOURCE_ERRORS as nat
        },
        |i: int| report_view(source, errors[i]),
    )
}

fn is_decimal_digit(byte: u8) -> (result: bool)
    ensures
        result == decimal_digit(byte),
{
    48 <= byte && byte <= 57
}

fn is_identifier_start(byte: u8) -> (result: bool)
    ensures
        result == identifier_start(byte),
{
    (65 <= byte && byte <= 90) || (97 <= byte && byte <= 122) || byte == 95
}

fn is_identifier_continue(byte: u8) -> (result: bool)
    ensures
        result == identifier_continue(byte),
{
    is_identifier_start(byte) || is_decimal_digit(byte)
}

fn digit_value(byte: u8) -> (result: Option<u32>)
    ensures
        result == hex_value(byte),
{
    if 48 <= byte && byte <= 57 {
        Some((byte - 48) as u32)
    } else if 97 <= byte && byte <= 102 {
        Some((byte - 97 + 10) as u32)
    } else if 65 <= byte && byte <= 70 {
        Some((byte - 65 + 10) as u32)
    } else {
        None
    }
}

fn is_radix_digit(byte: u8, radix: u32) -> (result: bool)
    ensures
        result == radix_digit(byte, radix),
{
    match digit_value(byte) {
        Some(value) => value < radix,
        None => false,
    }
}

fn keyword_or_identifier(word: &str) -> (result: TokenKind)
    ensures
        result == word_kind(word@),
        !(result is String),
{
    if same_text(word, "type") {
        TokenKind::Type
    } else if same_text(word, "fn") {
        TokenKind::Fn
    } else if same_text(word, "var") {
        TokenKind::Var
    } else if same_text(word, "return") {
        TokenKind::Return
    } else if same_text(word, "break") {
        TokenKind::Break
    } else if same_text(word, "continue") {
        TokenKind::Continue
    } else if same_text(word, "if") {
        TokenKind::If
    } else if same_text(word, "else") {
        TokenKind::Else
    } else if same_text(word, "while") {
        TokenKind::While
    } else if same_text(word, "for") {
        TokenKind::For
    } else if same_text(word, "in") {
        TokenKind::In
    } else if same_text(word, "switch") {
        TokenKind::Switch
    } else if same_text(word, "is") {
        TokenKind::Is
    } else if same_text(word, "true") {
        TokenKind::True
    } else if same_text(word, "false") {
        TokenKind::False
    } else if same_text(word, "int") {
        TokenKind::Int
    } else if same_text(word, "float") {
        TokenKind::FloatType
    } else if same_text(word, "str") {
        TokenKind::Str
    } else if same_text(word, "bool") {
        TokenKind::Bool
    } else if same_text(word, "char") {
        TokenKind::Char
    } else {
        TokenKind::Identifier
    }
}

fn single_symbol_kind(byte: u8) -> (result: Option<TokenKind>)
    ensures
        result == single_symbol(byte),
{
    if byte == 40 {
        Some(TokenKind::LeftParen)
    } else if byte == 41 {
        Some(TokenKind::RightParen)
    } else if byte == 123 {
        Some(TokenKind::LeftBrace)
    } else if byte == 125 {
        Some(TokenKind::RightBrace)
    } else if byte == 91 {
        Some(TokenKind::LeftBracket)
    } else if byte == 93 {
        Some(TokenKind::RightBracket)
    } else if byte == 44 {
        Some(TokenKind::Comma)
    } else if byte == 59 {
        Some(TokenKind::Semicolon)
    } else if byte == 58 {
        Some(TokenKind::Colon)
    } else if byte == 46 {
        Some(TokenKind::Dot)
    } else if byte == 61 {
        Some(TokenKind::Equal)
    } else if byte == 43 {
        Some(TokenKind::Plus)
    } else if byte == 45 {
        Some(TokenKind::Minus)
    } else if byte == 42 {
        Some(TokenKind::Star)
    } else if byte == 47 {
        Some(TokenKind::Slash)
    } else if byte == 37 {
        Some(TokenKind::Percent)
    } else if byte == 38 {
        Some(TokenKind::Ampersand)
    } else if byte == 124 {
        Some(TokenKind::Pipe)
    } else if byte == 94 {
        Some(TokenKind::Caret)
    } else if byte == 33 {
        Some(TokenKind::Bang)
    } else if byte == 126 {
        Some(TokenKind::Tilde)
    } else if byte == 60 {
        Some(TokenKind::Less)
    } else if byte == 62 {
        Some(TokenKind::Greater)
    } else if byte == 63 {
        Some(TokenKind::Question)
    } else {
        None
    }
}

struct Lexer<'source> {
    source: &'source SourceFile,
    position: usize,
    tokens: Vec<Token>,
    diagnostics: Diagnostics,
    errors: Ghost<Seq<Report>>,
}

impl<'source> Lexer<'source> {
    spec fn wf(&self) -> bool {
        &&& self.source.wf()
        &&& self.position <= self.source.bytes().len()
        &&& self.diagnostics.wf()
        &&& self.diagnostics@ == kept(self.source, self.errors@)
    }

    spec fn done(&self) -> Lexed {
        Lexed { tokens: token_views(self.tokens@), errors: self.errors@ }
    }

    /// The lexer has read one lexeme that starts at `start`.
    spec fn has_scanned(&self, before: &Self, start: int, scan: Scan) -> bool {
        &&& self.wf()
        &&& self.source == before.source
        &&& self.position == scan.end
        &&& self.done() == with_scan(before.done(), start, scan)
    }

    /// Only the position may differ.
    spec fn has_moved(&self, before: &Self) -> bool {
        &&& self.wf()
        &&& self.source == before.source
        &&& self.tokens == before.tokens
        &&& self.diagnostics == before.diagnostics
        &&& self.errors == before.errors
    }

    fn new(source: &'source SourceFile) -> (result: Self)
        requires
            source.wf(),
        ensures
            result.wf(),
            result.source == source,
            result.position == 0,
            result.done() == (Lexed { tokens: seq![], errors: seq![] }),
    {
        let result = Self {
            source,
            position: 0,
            tokens: Vec::new(),
            diagnostics: Diagnostics::new(),
            errors: Ghost(Seq::empty()),
        };
        assert(result.diagnostics@ =~= kept(source, seq![]));
        assert(token_views(result.tokens@) =~= seq![]);
        result
    }

    fn bytes(&self) -> (result: &'source [u8])
        ensures
            result@ == self.source.bytes(),
    {
        self.source.text.as_str().as_bytes()
    }

    fn peek(&self, distance: usize) -> (result: Option<u8>)
        requires
            self.wf(),
            distance <= 3,
        ensures
            result == (if self.position + distance < self.source.bytes().len() {
                Some(self.source.bytes()[self.position + distance])
            } else {
                None
            }),
    {
        let bytes = self.bytes();
        if distance < bytes.len() - self.position {
            Some(bytes[self.position + distance])
        } else {
            None
        }
    }

    fn current(&self) -> (result: Option<u8>)
        requires
            self.wf(),
        ensures
            result == (if self.position < self.source.bytes().len() {
                Some(self.source.bytes()[self.position as int])
            } else {
                None
            }),
    {
        self.peek(0)
    }

    fn peek_is(&self, distance: usize, byte: u8) -> (result: bool)
        requires
            self.wf(),
            distance <= 3,
        ensures
            result == byte_is(self.source.bytes(), self.position + distance, byte),
    {
        match self.peek(distance) {
            Some(found) => found == byte,
            None => false,
        }
    }

    /// Whether the remaining text starts with the two bytes.
    fn at2(&self, first: u8, second: u8) -> (result: bool)
        requires
            self.wf(),
        ensures
            result == bytes_are(self.source.bytes(), self.position as int, first, second),
    {
        self.peek_is(0, first) && self.peek_is(1, second)
    }

    fn peek_is_digit(&self, distance: usize, radix: u32) -> (result: bool)
        requires
            self.wf(),
            distance <= 3,
        ensures
            result == has_radix_digit(self.source.bytes(), self.position + distance, radix),
    {
        match self.peek(distance) {
            Some(found) => is_radix_digit(found, radix),
            None => false,
        }
    }

    fn push(&mut self, kind: TokenKind, start: usize)
        requires
            old(self).wf(),
        ensures
            final(self).wf(),
            final(self).source == old(self).source,
            final(self).position == old(self).position,
            final(self).errors == old(self).errors,
            final(self).done().tokens == old(self).done().tokens.push(
                TokenView { kind: kind@, span: span_between(start as int, old(self).position as int) },
            ),
    {
        let ghost before = self.done().tokens;
        let token = Token { kind, span: Span::new(start, self.position) };
        self.tokens.push(token);
        assert(self.done().tokens =~= before.push(token@));
    }

    fn error(&mut self, span: Span, message: &str)
        requires
            old(self).wf(),
        ensures
            final(self).wf(),
            final(self).source == old(self).source,
            final(self).position == old(self).position,
            final(self).tokens == old(self).tokens,
            final(self).errors@ == old(self).errors@.push(Report { span, message: message@ }),
    {
        self.diagnostics.push(Diagnostic::source(self.source, span, message));
        proof {
            let report = Report { span, message: message@ };
            let before = self.errors@;
            self.errors@ = before.push(report);
            assert(kept(self.source, self.errors@) =~= reported(
                kept(self.source, before),
                report_view(self.source, report),
                MAX_SOURCE_ERRORS as nat,
            ));
        }
    }

    /// Moves behind the current character.
    fn advance_character(&mut self)
        requires
            old(self).wf(),
            old(self).position < old(self).source.bytes().len(),
        ensures
            final(self).has_moved(old(self)),
            final(self).position == next_character(old(self).source.bytes(), old(self).position as int),
            final(self).position > old(self).position,
    {
        let ghost start = self.position as int;
        let bytes = self.bytes();
        let mut next: usize = self.position + 1;
        while next < bytes.len() && (0x80 <= bytes[next] && bytes[next] <= 0xbf)
            invariant
                start < next <= bytes@.len(),
                next_character(bytes@, start) == next_character(bytes@, next - 1),
            decreases bytes@.len() - next,
        {
            next = next + 1;
        }
        self.position = next;
    }

    /// Moves behind the run of identifier characters.
    fn skip_word(&mut self)
        requires
            old(self).wf(),
        ensures
            final(self).has_moved(old(self)),
            final(self).position == word_end(old(self).source.bytes(), old(self).position as int),
            final(self).position >= old(self).position,
            forall|i: int|
                old(self).position <= i < final(self).position ==> identifier_continue(
                    #[trigger] old(self).source.bytes()[i],
                ),
    {
        let ghost start = self.position as int;
        let bytes = self.bytes();
        let mut next: usize = self.position;
        while next < bytes.len() && is_identifier_continue(bytes[next])
            invariant
                start <= next <= bytes@.len(),
                word_end(bytes@, start) == word_end(bytes@, next as int),
                forall|i: int| start <= i < next ==> identifier_continue(#[trigger] bytes@[i]),
            decreases bytes@.len() - next,
        {
            next = next + 1;
        }
        self.position = next;
    }

    /// Consumes digits and underscores, returning whether every underscore was
    /// surrounded by digits of the requested radix.
    fn consume_digits(&mut self, radix: u32) -> (result: bool)
        requires
            old(self).wf(),
        ensures
            final(self).has_moved(old(self)),
            final(self).position == digits_end(old(self).source.bytes(), old(self).position as int, radix),
            final(self).position >= old(self).position,
            result == digits_valid(old(self).source.bytes(), old(self).position as int, radix),
    {
        let ghost start = self.position as int;
        let bytes = self.bytes();
        let mut next: usize = self.position;
        let mut valid = true;
        let mut previous_was_digit = false;
        while next < bytes.len() && (is_radix_digit(bytes[next], radix) || bytes[next] == 95)
            invariant
                start <= next <= bytes@.len(),
                digits_end(bytes@, start, radix) == digits_end(bytes@, next as int, radix),
                previous_was_digit == (start < next && has_radix_digit(bytes@, next - 1, radix)),
                valid == separators_valid(bytes@, start, next as int, radix),
            decreases bytes@.len() - next,
        {
            if is_radix_digit(bytes[next], radix) {
                previous_was_digit = true;
            } else {
                let next_is_digit = next + 1 < bytes.len() && is_radix_digit(bytes[next + 1], radix);
                valid = valid && previous_was_digit && next_is_digit;
                previous_was_digit = false;
            }
            next = next + 1;
        }
        self.position = next;
        valid
    }
}

impl<'source> Lexer<'source> {
    /// Returns true when at least one byte of trivia was consumed.
    fn skip_trivia(&mut self) -> (result: bool)
        requires
            old(self).wf(),
        ensures
            final(self).wf(),
            final(self).source == old(self).source,
            final(self).tokens == old(self).tokens,
            final(self).position == trivia(old(self).source.bytes(), old(self).position as int).end,
            final(self).errors@ == old(self).errors@ + trivia(
                old(self).source.bytes(),
                old(self).position as int,
            ).errors,
            result == (final(self).position > old(self).position),
    {
        let start: usize = self.position;
        let ghost bytes = self.source.bytes();
        let ghost all = trivia(bytes, start as int);
        loop
            invariant
                self.has_moved(old(self)),
                old(self).wf(),
                start == old(self).position,
                start <= self.position <= bytes.len(),
                bytes == self.source.bytes(),
                all == trivia(bytes, start as int),
                all == trivia(bytes, self.position as int),
            decreases bytes.len() - self.position,
        {
            if self.position >= self.bytes().len() {
                assert(self.errors@ =~= old(self).errors@ + all.errors);
                return self.position > start;
            }
            let byte = self.bytes()[self.position];
            if byte == 32 || byte == 9 || byte == 13 || byte == 10 {
                self.position = self.position + 1;
            } else if self.at2(47, 47) {
                self.position = self.position + 2;
                self.skip_line_comment();
            } else if self.at2(47, 42) {
                let comment_start: usize = self.position;
                self.position = self.position + 2;
                if !self.skip_block_comment() {
                    self.error(Span::new(comment_start, self.position), "unterminated block comment");
                    assert(self.errors@ =~= old(self).errors@ + all.errors);
                    return true;
                }
            } else {
                assert(self.errors@ =~= old(self).errors@ + all.errors);
                return self.position > start;
            }
        }
    }

    /// Moves to the line feed that ends a comment.
    fn skip_line_comment(&mut self)
        requires
            old(self).wf(),
        ensures
            final(self).has_moved(old(self)),
            final(self).position == comment_line_end(old(self).source.bytes(), old(self).position as int),
            final(self).position >= old(self).position,
    {
        let ghost start = self.position as int;
        let bytes = self.bytes();
        let mut next: usize = self.position;
        while next < bytes.len() && bytes[next] != 10
            invariant
                start <= next <= bytes@.len(),
                comment_line_end(bytes@, start) == comment_line_end(bytes@, next as int),
            decreases bytes@.len() - next,
        {
            next = next + 1;
        }
        self.position = next;
    }

    /// Moves behind the end of a block comment, or to the end of the text where there is none.
    fn skip_block_comment(&mut self) -> (result: bool)
        requires
            old(self).wf(),
        ensures
            final(self).has_moved(old(self)),
            final(self).position >= old(self).position,
            match comment_close(old(self).source.bytes(), old(self).position as int) {
                Some(close) => result && final(self).position == close + 2 && close >= old(self).position,
                None => !result && final(self).position == old(self).source.bytes().len(),
            },
    {
        let ghost start = self.position as int;
        let bytes = self.bytes();
        let mut next: usize = self.position;
        while next < bytes.len()
            invariant
                start <= next <= bytes@.len(),
                bytes@ == self.source.bytes(),
                start == self.position,
                *self == *old(self),
                self.wf(),
                comment_close(bytes@, start) == comment_close(bytes@, next as int),
            decreases bytes@.len() - next,
        {
            if bytes[next] == 42 && next + 1 < bytes.len() && bytes[next + 1] == 47 {
                self.position = next + 2;
                return true;
            }
            next = next + 1;
        }
        self.position = next;
        false
    }

    fn lex_identifier(&mut self)
        requires
            old(self).wf(),
            old(self).position < old(self).source.bytes().len(),
            identifier_start(old(self).source.bytes()[old(self).position as int]),
        ensures
            final(self).has_scanned(
                old(self),
                old(self).position as int,
                scan_word(old(self).source.bytes(), old(self).position as int),
            ),
            final(self).position > old(self).position,
    {
        let start: usize = self.position;
        let ghost bytes = self.source.bytes();
        self.position = self.position + 1;
        self.skip_word();
        proof {
            encode_utf8_valid_utf8(self.source.text@);
            lemma_ascii_boundary(bytes, start as int);
            lemma_ascii_boundary(bytes, self.position - 1);
        }
        let kind = keyword_or_identifier(slice(self.source.text.as_str(), start, self.position));
        self.push(kind, start);
        assert(self.done() =~= with_scan(old(self).done(), start as int, scan_word(bytes, start as int)));
    }

    fn lex_number(&mut self)
        requires
            old(self).wf(),
            old(self).position < old(self).source.bytes().len(),
            decimal_digit(old(self).source.bytes()[old(self).position as int]),
        ensures
            final(self).has_scanned(
                old(self),
                old(self).position as int,
                scan_number(
                    old(self).source.bytes(),
                    old(self).position as int,
                    last_kind(old(self).done().tokens) == Some(KindView::Plain(TokenKind::Dot)),
                ),
            ),
            final(self).position > old(self).position,
    {
        let start: usize = self.position;
        let ghost bytes = self.source.bytes();
        let ghost after_dot = last_kind(self.done().tokens) == Some(KindView::Plain(TokenKind::Dot));
        let ghost expected = scan_number(bytes, start as int, after_dot);
        let ghost before = self.done();
        if self.at2(48, 88) {
            self.reject_uppercase_base_prefix(start, "hexadecimal");
            return;
        }
        if self.at2(48, 66) {
            self.reject_uppercase_base_prefix(start, "binary");
            return;
        }
        if self.at2(48, 120) {
            self.position = self.position + 2;
            self.lex_based_integer(start, 16, "hexadecimal");
            return;
        }
        if self.at2(48, 98) {
            self.position = self.position + 2;
            self.lex_based_integer(start, 2, "binary");
            return;
        }
        proof {
            assert(digits_end(bytes, start as int, 10) == digits_end(bytes, start + 1, 10));
            lemma_digits_end(bytes, start + 1, 10);
        }
        if self.last_is_dot() {
            let valid = self.consume_digits(10);
            if valid {
                self.push(TokenKind::Integer, start);
            } else {
                self.error(Span::new(start, self.position), "numeric separators must appear between digits");
            }
            assert(self.done() =~= with_scan(before, start as int, expected));
            return;
        }
        let integer_valid = self.consume_digits(10);
        let mut is_float = false;
        let mut valid = integer_valid;
        if self.peek_is(0, 46) && self.peek_is_digit(1, 10) {
            is_float = true;
            self.position = self.position + 1;
            let fraction_valid = self.consume_digits(10);
            valid = valid && fraction_valid;
        } else if self.peek_is(0, 46) && !self.peek_starts_identifier(1) {
            self.position = self.position + 1;
            self.error(Span::new(start, self.position), "floating-point literal requires digits after '.'");
            assert(self.done() =~= with_scan(before, start as int, expected));
            return;
        }
        if self.peek_is(0, 101) || self.peek_is(0, 69) {
            is_float = true;
            self.position = self.position + 1;
            if self.peek_is(0, 43) || self.peek_is(0, 45) {
                self.position = self.position + 1;
            }
            if !self.peek_is_digit(0, 10) {
                self.error(Span::new(start, self.position), "floating-point exponent requires digits");
                assert(self.done() =~= with_scan(before, start as int, expected));
                return;
            }
            let exponent_valid = self.consume_digits(10);
            valid = valid && exponent_valid;
        }
        if valid {
            let kind = if is_float {
                TokenKind::Float
            } else {
                TokenKind::Integer
            };
            self.push(kind, start);
        } else {
            self.error(Span::new(start, self.position), "numeric separators must appear between digits");
        }
        assert(self.done() =~= with_scan(before, start as int, expected));
    }

    fn peek_starts_identifier(&self, distance: usize) -> (result: bool)
        requires
            self.wf(),
            distance <= 3,
        ensures
            result == (self.position + distance < self.source.bytes().len() && identifier_start(
                self.source.bytes()[self.position + distance],
            )),
    {
        match self.peek(distance) {
            Some(found) => is_identifier_start(found),
            None => false,
        }
    }

    fn last_is_dot(&self) -> (result: bool)
        ensures
            result == (last_kind(self.done().tokens) == Some(KindView::Plain(TokenKind::Dot))),
    {
        if self.tokens.len() == 0 {
            false
        } else {
            matches!(self.tokens[self.tokens.len() - 1].kind, TokenKind::Dot)
        }
    }

    fn lex_based_integer(&mut self, start: usize, radix: u32, description: &str)
        requires
            old(self).wf(),
            old(self).position == start + 2,
        ensures
            final(self).has_scanned(
                old(self),
                start as int,
                scan_based(old(self).source.bytes(), start as int, radix, description@),
            ),
            final(self).position > start,
    {
        let digits_start: usize = self.position;
        let valid_separators = self.consume_digits(radix);
        let digits: usize = self.position;
        self.skip_word();
        let valid_digits = digits > digits_start && self.position == digits;
        let ghost expected = scan_based(old(self).source.bytes(), start as int, radix, description@);
        let ghost before = old(self).done();
        if !valid_digits {
            let mut message = "invalid ".to_owned();
            message.append(description);
            message.append(" integer literal");
            self.error(Span::new(start, self.position), message.as_str());
        } else if !valid_separators {
            self.error(Span::new(start, self.position), "numeric separators must appear between digits");
        } else {
            self.push(TokenKind::Integer, start);
        }
        assert(self.done() =~= with_scan(before, start as int, expected));
    }

    fn reject_uppercase_base_prefix(&mut self, start: usize, description: &str)
        requires
            old(self).wf(),
            old(self).position == start,
            start + 2 <= old(self).source.bytes().len(),
        ensures
            final(self).has_scanned(
                old(self),
                start as int,
                scan_uppercase_base(old(self).source.bytes(), start as int, description@),
            ),
            final(self).position > start,
    {
        self.position = self.position + 2;
        self.skip_word();
        let mut message = description.to_owned();
        message.append(" integer prefix must be lowercase");
        self.error(Span::new(start, self.position), message.as_str());
        assert(self.done() =~= with_scan(
            old(self).done(),
            start as int,
            scan_uppercase_base(old(self).source.bytes(), start as int, description@),
        ));
    }

    fn reject_leading_dot_float(&mut self)
        requires
            old(self).wf(),
            old(self).position < old(self).source.bytes().len(),
        ensures
            final(self).has_scanned(
                old(self),
                old(self).position as int,
                scan_leading_dot(old(self).source.bytes(), old(self).position as int),
            ),
            final(self).position > old(self).position,
    {
        let start: usize = self.position;
        self.position = self.position + 1;
        let _ = self.consume_digits(10);
        self.error(Span::new(start, self.position), "floating-point literal requires digits before '.'");
        assert(self.done() =~= with_scan(
            old(self).done(),
            start as int,
            scan_leading_dot(old(self).source.bytes(), start as int),
        ));
    }

    fn dot_can_be_member_access(&self) -> (result: bool)
        ensures
            result == selects_member(last_kind(self.done().tokens)),
    {
        if self.tokens.len() == 0 {
            return false;
        }
        let kind = &self.tokens[self.tokens.len() - 1].kind;
        matches!(
            kind,
            TokenKind::Identifier
                | TokenKind::Integer
                | TokenKind::Float
                | TokenKind::String(_)
                | TokenKind::Character(_)
                | TokenKind::True
                | TokenKind::False
                | TokenKind::RightParen
                | TokenKind::RightBracket
                | TokenKind::RightBrace
                | TokenKind::Question
        )
    }

    fn lex_symbol_or_error(&mut self)
        requires
            old(self).wf(),
            old(self).position < old(self).source.bytes().len(),
        ensures
            final(self).has_scanned(
                old(self),
                old(self).position as int,
                scan_symbol(old(self).source.bytes(), old(self).position as int),
            ),
            final(self).position > old(self).position,
    {
        let start: usize = self.position;
        let ghost expected = scan_symbol(self.source.bytes(), start as int);
        let found: Option<(TokenKind, usize)> = if self.at2(62, 62) && self.peek_is(2, 61) {
            Some((TokenKind::ShiftRightEqual, 3))
        } else if self.at2(60, 60) && self.peek_is(2, 61) {
            Some((TokenKind::ShiftLeftEqual, 3))
        } else if self.at2(58, 61) {
            Some((TokenKind::Declare, 2))
        } else if self.at2(61, 61) {
            Some((TokenKind::EqualEqual, 2))
        } else if self.at2(33, 61) {
            Some((TokenKind::BangEqual, 2))
        } else if self.at2(60, 61) {
            Some((TokenKind::LessEqual, 2))
        } else if self.at2(62, 61) {
            Some((TokenKind::GreaterEqual, 2))
        } else if self.at2(124, 124) {
            Some((TokenKind::LogicalOr, 2))
        } else if self.at2(38, 38) {
            Some((TokenKind::LogicalAnd, 2))
        } else if self.at2(60, 60) {
            Some((TokenKind::ShiftLeft, 2))
        } else if self.at2(62, 62) {
            Some((TokenKind::ShiftRight, 2))
        } else if self.at2(43, 61) {
            Some((TokenKind::PlusEqual, 2))
        } else if self.at2(45, 61) {
            Some((TokenKind::MinusEqual, 2))
        } else if self.at2(42, 61) {
            Some((TokenKind::StarEqual, 2))
        } else if self.at2(47, 61) {
            Some((TokenKind::SlashEqual, 2))
        } else if self.at2(37, 61) {
            Some((TokenKind::PercentEqual, 2))
        } else if self.at2(38, 61) {
            Some((TokenKind::AmpersandEqual, 2))
        } else if self.at2(124, 61) {
            Some((TokenKind::PipeEqual, 2))
        } else if self.at2(94, 61) {
            Some((TokenKind::CaretEqual, 2))
        } else {
            match single_symbol_kind(self.bytes()[self.position]) {
                Some(kind) => Some((kind, 1)),
                None => None,
            }
        };
        match found {
            Some((kind, length)) => {
                self.position = self.position + length;
                self.push(kind, start);
            },
            None => {
                self.advance_character();
                self.error(Span::new(start, self.position), "unexpected character in source");
            },
        }
        assert(self.done() =~= with_scan(old(self).done(), start as int, expected));
    }
}

proof fn lemma_digits_end(bytes: Seq<u8>, from: int, radix: u32)
    requires
        0 <= from <= bytes.len(),
    ensures
        from <= digits_end(bytes, from, radix) <= bytes.len(),
    decreases bytes.len() - from,
{
    if from < bytes.len() && (radix_digit(bytes[from], radix) || bytes[from] == 95) {
        lemma_digits_end(bytes, from + 1, radix);
    }
}

impl<'source> Lexer<'source> {
    /// Reads the escape sequence at the current backslash.
    fn decode_escape(&mut self) -> (result: Option<u8>)
        requires
            old(self).wf(),
            old(self).position < old(self).source.bytes().len(),
        ensures
            final(self).wf(),
            final(self).source == old(self).source,
            final(self).tokens == old(self).tokens,
            final(self).position == escape(old(self).source.bytes(), old(self).position as int).end,
            final(self).position > old(self).position,
            match escape(old(self).source.bytes(), old(self).position as int).value {
                Ok(value) => result == Some(value) && final(self).errors@ == old(self).errors@,
                Err(error) => result is None && final(self).errors@ == old(self).errors@.push(error),
            },
    {
        let start: usize = self.position;
        self.position = self.position + 1;
        let byte: u8 = match self.current() {
            Some(byte) => byte,
            None => {
                self.error(Span::new(start, self.position), "unterminated escape sequence");
                return None;
            },
        };
        self.position = self.position + 1;
        let value: u8 = if byte == 92 || byte == 34 || byte == 39 {
            byte
        } else if byte == 110 {
            10
        } else if byte == 114 {
            13
        } else if byte == 116 {
            9
        } else if byte == 48 {
            0
        } else if byte == 120 {
            let high: u8 = match self.consume_hex_escape_digit() {
                Some(high) => high,
                None => {
                    self.error(Span::new(start, self.position), "expected two hexadecimal escape digits");
                    return None;
                },
            };
            let low: u8 = match self.consume_hex_escape_digit() {
                Some(low) => low,
                None => {
                    self.error(Span::new(start, self.position), "expected two hexadecimal escape digits");
                    return None;
                },
            };
            high * 16 + low
        } else {
            self.error(Span::new(start, self.position), "unknown escape sequence");
            return None;
        };
        if value > 0x7f {
            self.error(Span::new(start, self.position), "literal contents must be ASCII");
            None
        } else {
            Some(value)
        }
    }

    fn consume_hex_escape_digit(&mut self) -> (result: Option<u8>)
        requires
            old(self).wf(),
        ensures
            final(self).has_moved(old(self)),
            match result {
                Some(value) => has_radix_digit(old(self).source.bytes(), old(self).position as int, 16)
                    && final(self).position == old(self).position + 1 && value < 16 && value as u32 == hex_value(
                    old(self).source.bytes()[old(self).position as int],
                )->0,
                None => !has_radix_digit(old(self).source.bytes(), old(self).position as int, 16)
                    && final(self).position == old(self).position,
            },
    {
        match self.current() {
            Some(byte) => match digit_value(byte) {
                Some(value) => {
                    self.position = self.position + 1;
                    Some(value as u8)
                },
                None => None,
            },
            None => None,
        }
    }

    fn recover_quoted_literal(&mut self, quote: u8)
        requires
            old(self).wf(),
            old(self).position < old(self).source.bytes().len(),
        ensures
            final(self).has_moved(old(self)),
            final(self).position == recovered(old(self).source.bytes(), old(self).position + 1, quote),
            final(self).position > old(self).position,
    {
        let bytes = self.bytes();
        let ghost start = self.position + 1;
        let mut next: usize = self.position + 1;
        while next < bytes.len()
            invariant
                start <= next <= bytes@.len(),
                bytes@ == self.source.bytes(),
                *self == *old(self),
                self.wf(),
                start == self.position + 1,
                recovered(bytes@, start, quote) == recovered(bytes@, next as int, quote),
            decreases bytes@.len() - next,
        {
            if bytes[next] == quote || bytes[next] == 10 {
                self.position = next + 1;
                return ;
            }
            next = next + 1;
        }
        self.position = next;
    }

    /// Reads the rest of a quoted literal. Gives its decoded contents where the closing quote was
    /// found and nothing was wrong, and whether the closing quote was found.
    fn quoted_contents(&mut self, start: usize, quote: u8) -> (result: (Option<Vec<u8>>, bool))
        requires
            old(self).wf(),
            old(self).position == start + 1,
            quote == 34 || quote == 39,
        ensures
            final(self).wf(),
            final(self).source == old(self).source,
            final(self).tokens == old(self).tokens,
            final(self).position > start,
            ({
                let literal = quoted(old(self).source.bytes(), start as int, start + 1, quote, empty_quoted());
                &&& final(self).position == literal.end
                &&& final(self).errors@ == old(self).errors@ + literal.contents.errors
                &&& result.1 == literal.closed
                &&& match result.0 {
                    Some(decoded) => literal.closed && literal.contents.valid && decoded@
                        == literal.contents.decoded,
                    None => !(literal.closed && literal.contents.valid),
                }
            }),
    {
        let ghost bytes = self.source.bytes();
        let ghost whole = quoted(bytes, start as int, start + 1, quote, empty_quoted());
        let ghost earlier = self.errors@;
        let mut decoded: Vec<u8> = Vec::new();
        let mut valid = true;
        let ghost mut errors: Seq<Report> = seq![];
        let is_string = quote == 34;
        assert(decoded@ =~= seq![]);
        assert(self.errors@ =~= earlier + errors);
        loop
            invariant
                self.wf(),
                self.source == old(self).source,
                self.tokens == old(self).tokens,
                bytes == self.source.bytes(),
                start < self.position,
                quote == 34 || quote == 39,
                is_string == (quote == 34),
                self.errors@ == earlier + errors,
                earlier == old(self).errors@,
                whole == quoted(bytes, start as int, start + 1, quote, empty_quoted()),
                whole == quoted(
                    bytes,
                    start as int,
                    self.position as int,
                    quote,
                    Quoted { decoded: decoded@, valid, errors },
                ),
            decreases bytes.len() - self.position,
        {
            let byte: u8 = match self.current() {
                Some(byte) => byte,
                None => {
                    self.error(
                        Span::new(start, self.position),
                        if is_string {
                            "unterminated string literal"
                        } else {
                            "unterminated character literal"
                        },
                    );
                    proof {
                        lemma_unterminated_message();
                        assert(self.errors@ =~= earlier + whole.contents.errors);
                    }
                    return (None, false);
                },
            };
            if byte == quote {
                self.position = self.position + 1;
                return if valid {
                    (Some(decoded), true)
                } else {
                    (None, true)
                };
            } else if byte == 13 || byte == 10 {
                self.error(
                    Span::new(self.position, self.position + 1),
                    if is_string {
                        "raw newline is not allowed in a string literal"
                    } else {
                        "raw newline is not allowed in a character literal"
                    },
                );
                self.recover_quoted_literal(quote);
                proof {
                    lemma_newline_message();
                    assert(self.errors@ =~= earlier + whole.contents.errors);
                }
                return (None, false);
            } else if byte == 92 {
                let ghost at = self.position as int;
                match self.decode_escape() {
                    Some(value) => {
                        decoded.push(value);
                    },
                    None => {
                        valid = false;
                        proof {
                            let error = escape(bytes, at).value->Err_0;
                            assert(self.errors@ =~= earlier + errors.push(error));
                            errors = errors.push(error);
                        }
                        if self.position == self.bytes().len() {
                            return (None, false);
                        }
                    },
                }
            } else if byte <= 0x7f {
                decoded.push(byte);
                self.position = self.position + 1;
            } else {
                let invalid_start: usize = self.position;
                self.advance_character();
                self.error(
                    Span::new(invalid_start, self.position),
                    if is_string {
                        "string contents must be ASCII"
                    } else {
                        "character contents must be ASCII"
                    },
                );
                valid = false;
                proof {
                    lemma_ascii_message();
                    let error = Report {
                        span: span_between(invalid_start as int, self.position as int),
                        message: literal_name(quote) + " contents must be ASCII"@,
                    };
                    assert(self.errors@ =~= earlier + errors.push(error));
                    errors = errors.push(error);
                }
            }
        }
    }

    fn lex_string(&mut self)
        requires
            old(self).wf(),
            old(self).position < old(self).source.bytes().len(),
        ensures
            final(self).has_scanned(
                old(self),
                old(self).position as int,
                scan_string(old(self).source.bytes(), old(self).position as int),
            ),
            final(self).position > old(self).position,
    {
        let start: usize = self.position;
        self.position = self.position + 1;
        let (contents, _closed) = self.quoted_contents(start, 34);
        match contents {
            Some(decoded) => {
                self.push(TokenKind::String(decoded), start);
            },
            None => {},
        }
        assert(self.done() =~= with_scan(
            old(self).done(),
            start as int,
            scan_string(old(self).source.bytes(), start as int),
        ));
    }

    fn lex_character(&mut self)
        requires
            old(self).wf(),
            old(self).position < old(self).source.bytes().len(),
        ensures
            final(self).has_scanned(
                old(self),
                old(self).position as int,
                scan_character(old(self).source.bytes(), old(self).position as int),
            ),
            final(self).position > old(self).position,
    {
        let start: usize = self.position;
        self.position = self.position + 1;
        let (contents, _closed) = self.quoted_contents(start, 39);
        match contents {
            Some(decoded) => {
                if decoded.len() == 1 {
                    self.push(TokenKind::Character(decoded[0]), start);
                } else {
                    self.error(
                        Span::new(start, self.position),
                        "character literal must contain exactly one ASCII character",
                    );
                }
            },
            None => {},
        }
        assert(self.done() =~= with_scan(
            old(self).done(),
            start as int,
            scan_character(old(self).source.bytes(), start as int),
        ));
    }

    fn lex(self) -> (result: Result<Vec<Token>, Diagnostics>)
        requires
            self.wf(),
            self.position == 0,
            self.done() == (Lexed { tokens: seq![], errors: seq![] }),
        ensures
            lex_result(self.source, result),
    {
        let mut lexer = self;
        let ghost bytes = lexer.source.bytes();
        let ghost whole = lexed(bytes);
        while lexer.position < lexer.bytes().len() && !lexer.diagnostics.is_full()
            invariant
                lexer.wf(),
                lexer.source == self.source,
                bytes == lexer.source.bytes(),
                whole == lexed(bytes),
                whole == lexed_from(bytes, lexer.position as int, lexer.done()),
            decreases bytes.len() - lexer.position,
        {
            let ghost before = lexer;
            if lexer.skip_trivia() {
                proof {
                    assert(lexer.done() =~= Lexed {
                        errors: before.errors@ + trivia(bytes, before.position as int).errors,
                        ..before.done()
                    });
                }
                continue ;
            }
            proof {
                lemma_no_trivia(bytes, before.position as int);
                assert(lexer.done() =~= before.done());
            }
            let byte = lexer.bytes()[lexer.position];
            if is_identifier_start(byte) {
                lexer.lex_identifier();
            } else if is_decimal_digit(byte) {
                lexer.lex_number();
            } else if byte == 34 {
                lexer.lex_string();
            } else if byte == 39 {
                lexer.lex_character();
            } else if byte == 46 && lexer.peek_is_digit(1, 10) && !lexer.dot_can_be_member_access() {
                lexer.reject_leading_dot_float();
            } else {
                lexer.lex_symbol_or_error();
            }
        }
        if lexer.diagnostics.is_empty() {
            let end: usize = lexer.source.text.as_str().len();
            let ghost tokens = lexer.done().tokens;
            let eof = Token { kind: TokenKind::Eof, span: Span::empty(end) };
            lexer.tokens.push(eof);
            assert(token_views(lexer.tokens@) =~= tokens.push(eof@));
            Ok(lexer.tokens)
        } else {
            Err(lexer.diagnostics)
        }
    }
}

proof fn lemma_unterminated_message()
    ensures
        "unterminated "@ + literal_name(34) + " literal"@ == "unterminated string literal"@,
        "unterminated "@ + literal_name(39) + " literal"@ == "unterminated character literal"@,
{
    reveal_strlit("unterminated ");
    reveal_strlit("string");
    reveal_strlit("character");
    reveal_strlit(" literal");
    reveal_strlit("unterminated string literal");
    reveal_strlit("unterminated character literal");
    assert("unterminated "@ + "string"@ + " literal"@ =~= "unterminated string literal"@);
    assert("unterminated "@ + "character"@ + " literal"@ =~= "unterminated character literal"@);
}

proof fn lemma_newline_message()
    ensures
        "raw newline is not allowed in a "@ + literal_name(34) + " literal"@
            == "raw newline is not allowed in a string literal"@,
        "raw newline is not allowed in a "@ + literal_name(39) + " literal"@
            == "raw newline is not allowed in a character literal"@,
{
    reveal_strlit("raw newline is not allowed in a ");
    reveal_strlit("string");
    reveal_strlit("character");
    reveal_strlit(" literal");
    reveal_strlit("raw newline is not allowed in a string literal");
    reveal_strlit("raw newline is not allowed in a character literal");
    assert("raw newline is not allowed in a "@ + "string"@ + " literal"@
        =~= "raw newline is not allowed in a string literal"@);
    assert("raw newline is not allowed in a "@ + "character"@ + " literal"@
        =~= "raw newline is not allowed in a character literal"@);
}

proof fn lemma_ascii_message()
    ensures
        literal_name(34) + " contents must be ASCII"@ == "string contents must be ASCII"@,
        literal_name(39) + " contents must be ASCII"@ == "character contents must be ASCII"@,
{
    reveal_strlit("string");
    reveal_strlit("character");
    reveal_strlit(" contents must be ASCII");
    reveal_strlit("string contents must be ASCII");
    reveal_strlit("character contents must be ASCII");
    assert("string"@ + " contents must be ASCII"@ =~= "string contents must be ASCII"@);
    assert("character"@ + " contents must be ASCII"@ =~= "character contents must be ASCII"@);
}

/// Where nothing was skipped nothing was reported.
proof fn lemma_no_trivia(bytes: Seq<u8>, at: int)
    requires
        0 <= at < bytes.len(),
        trivia(bytes, at).end <= at,
    ensures
        trivia(bytes, at).end == at,
        trivia(bytes, at).errors.len() == 0,
{
    lemma_trivia_end(bytes, at);
    if whitespace(bytes[at]) {
        lemma_trivia_end(bytes, at + 1);
    } else if bytes_are(bytes, at, 47, 47) {
        lemma_comment_line_end(bytes, at + 2);
        lemma_trivia_end(bytes, comment_line_end(bytes, at + 2));
    } else if bytes_are(bytes, at, 47, 42) {
        lemma_comment_close(bytes, at + 2);
        match comment_close(bytes, at + 2) {
            Some(close) => {
                lemma_trivia_end(bytes, close + 2);
            },
            None => {},
        }
    }
}

proof fn lemma_comment_line_end(bytes: Seq<u8>, from: int)
    ensures
        from <= comment_line_end(bytes, from),
        from <= bytes.len() ==> comment_line_end(bytes, from) <= bytes.len(),
    decreases left(bytes, from),
{
    if from < bytes.len() && bytes[from] != 10 {
        lemma_comment_line_end(bytes, from + 1);
    }
}

proof fn lemma_comment_close(bytes: Seq<u8>, from: int)
    ensures
        match comment_close(bytes, from) {
            Some(close) => from <= close && close + 2 <= bytes.len(),
            None => true,
        },
    decreases left(bytes, from),
{
    if from < bytes.len() && !bytes_are(bytes, from, 42, 47) {
        lemma_comment_close(bytes, from + 1);
    }
}

proof fn lemma_trivia_end(bytes: Seq<u8>, at: int)
    requires
        0 <= at <= bytes.len(),
    ensures
        at <= trivia(bytes, at).end <= bytes.len(),
    decreases left(bytes, at),
{
    if at < bytes.len() {
        if whitespace(bytes[at]) {
            lemma_trivia_end(bytes, at + 1);
        } else if bytes_are(bytes, at, 47, 47) {
            lemma_comment_line_end(bytes, at + 2);
            lemma_trivia_end(bytes, comment_line_end(bytes, at + 2));
        } else if bytes_are(bytes, at, 47, 42) {
            lemma_comment_close(bytes, at + 2);
            match comment_close(bytes, at + 2) {
                Some(close) => {
                    lemma_trivia_end(bytes, close + 2);
                },
                None => {},
            }
        }
    }
}

/// What lexing a source file returns: its tokens where it has no errors, else the first errors
/// in it.
pub open spec fn lex_result(source: &SourceFile, result: Result<Vec<Token>, Diagnostics>) -> bool {
    let whole = lexed(source.bytes());
    match result {
        Ok(tokens) => whole.errors.len() == 0 && token_views(tokens@) == complete_tokens(source.bytes()),
        Err(diagnostics) => whole.errors.len() > 0 && diagnostics.wf() && diagnostics@ == kept(
            source,
            whole.errors,
        ),
    }
}

/// The tokens of a source file, closed by one that stands for its end.
pub fn lex(source: &SourceFile) -> (result: Result<Vec<Token>, Diagnostics>)
    requires
        source.wf(),
    ensures
        lex_result(source, result),
{
    Lexer::new(source).lex()
}

proof fn lemma_word_end(bytes: Seq<u8>, from: int)
    requires
        0 <= from <= bytes.len(),
    ensures
        from <= word_end(bytes, from) <= bytes.len(),
        forall|i: int| from <= i < word_end(bytes, from) ==> identifier_continue(#[trigger] bytes[i]),
        word_end(bytes, from) < bytes.len() ==> !identifier_continue(bytes[word_end(bytes, from)]),
    decreases bytes.len() - from,
{
    if from < bytes.len() && identifier_continue(bytes[from]) {
        lemma_word_end(bytes, from + 1);
    }
}

proof fn lemma_next_character(bytes: Seq<u8>, at: int)
    requires
        0 <= at < bytes.len(),
    ensures
        at < next_character(bytes, at) <= bytes.len(),
    decreases bytes.len() - at,
{
    if at + 1 < bytes.len() && is_continuation_byte(bytes[at + 1]) {
        lemma_next_character(bytes, at + 1);
    }
}

proof fn lemma_recovered(bytes: Seq<u8>, from: int, quote: u8)
    requires
        0 <= from <= bytes.len(),
    ensures
        from <= recovered(bytes, from, quote) <= bytes.len(),
    decreases bytes.len() - from,
{
    if from < bytes.len() && bytes[from] != quote && bytes[from] != 10 {
        lemma_recovered(bytes, from + 1, quote);
    }
}

proof fn lemma_quoted_end(bytes: Seq<u8>, start: int, at: int, quote: u8, contents: Quoted)
    requires
        0 <= at <= bytes.len(),
    ensures
        at <= quoted(bytes, start, at, quote, contents).end <= bytes.len(),
    decreases left(bytes, at),
{
    if at < bytes.len() && bytes[at] != quote {
        if bytes[at] == 13 || bytes[at] == 10 {
            lemma_recovered(bytes, at + 1, quote);
        } else if bytes[at] == 92 {
            let step = escape(bytes, at);
            match step.value {
                Ok(value) => {
                    lemma_quoted_end(
                        bytes,
                        start,
                        step.end,
                        quote,
                        Quoted { decoded: contents.decoded.push(value), ..contents },
                    );
                },
                Err(error) => {
                    if step.end < bytes.len() {
                        lemma_quoted_end(
                            bytes,
                            start,
                            step.end,
                            quote,
                            Quoted { valid: false, errors: contents.errors.push(error), ..contents },
                        );
                    }
                },
            }
        } else if bytes[at] <= 0x7f {
            lemma_quoted_end(
                bytes,
                start,
                at + 1,
                quote,
                Quoted { decoded: contents.decoded.push(bytes[at]), ..contents },
            );
        } else {
            lemma_next_character(bytes, at);
            let next = next_character(bytes, at);
            lemma_quoted_end(
                bytes,
                start,
                next,
                quote,
                quoted_error(contents, at, next, literal_name(quote) + " contents must be ASCII"@),
            );
        }
    }
}

/// Every lexeme is at least one byte long and lies within the text.
pub proof fn law_scan_advances(bytes: Seq<u8>, start: int, previous: Option<KindView>)
    requires
        0 <= start < bytes.len(),
    ensures
        start < scan(bytes, start, previous).end <= bytes.len(),
{
    let byte = bytes[start];
    lemma_word_end(bytes, start + 1);
    lemma_digits_end(bytes, start + 1, 10);
    lemma_next_character(bytes, start);
    if decimal_digit(byte) {
        if start + 1 < bytes.len() {
            lemma_word_end(bytes, start + 2);
            lemma_digits_end(bytes, start + 2, 16);
            lemma_digits_end(bytes, start + 2, 2);
            lemma_word_end(bytes, digits_end(bytes, start + 2, 16));
            lemma_word_end(bytes, digits_end(bytes, start + 2, 2));
        }
        assert(digits_end(bytes, start, 10) == digits_end(bytes, start + 1, 10));
        let whole = digits_end(bytes, start, 10);
        if whole < bytes.len() {
            lemma_digits_end(bytes, whole + 1, 10);
            if whole + 1 < bytes.len() {
                lemma_digits_end(bytes, whole + 2, 10);
            }
            let fraction = digits_end(bytes, whole + 1, 10);
            if fraction < bytes.len() {
                lemma_digits_end(bytes, fraction + 1, 10);
                if fraction + 1 < bytes.len() {
                    lemma_digits_end(bytes, fraction + 2, 10);
                }
            }
        }
    } else if byte == 34 || byte == 39 {
        lemma_quoted_end(bytes, start, start + 1, byte, empty_quoted());
    }
}

/// Whether tokens stand one behind the other before `end`, none of them empty.
pub open spec fn in_line(tokens: Seq<TokenView>, end: int) -> bool {
    &&& forall|i: int|
        0 <= i < tokens.len() ==> (#[trigger] tokens[i]).span.start < tokens[i].span.end && tokens[i].span.end <= end
    &&& forall|i: int, j: int|
        0 <= i < j < tokens.len() ==> (#[trigger] tokens[i]).span.end <= (#[trigger] tokens[j]).span.start
}

proof fn lemma_in_line(bytes: Seq<u8>, at: int, done: Lexed)
    requires
        bytes.len() <= usize::MAX,
        0 <= at <= bytes.len(),
        in_line(done.tokens, at),
    ensures
        in_line(lexed_from(bytes, at, done).tokens, bytes.len() as int),
    decreases left(bytes, at),
{
    if at < bytes.len() && done.errors.len() < MAX_SOURCE_ERRORS {
        let skipped = trivia(bytes, at);
        lemma_trivia_end(bytes, at);
        if skipped.end > at {
            lemma_in_line(bytes, skipped.end, Lexed { errors: done.errors + skipped.errors, ..done });
        } else {
            let step = scan(bytes, at, last_kind(done.tokens));
            law_scan_advances(bytes, at, last_kind(done.tokens));
            lemma_in_line(bytes, step.end, with_scan(done, at, step));
        }
    }
}

/// The tokens of a text stand one behind the other within it, none of them empty, and the last
/// one is the empty token that stands for the end of the text.
pub proof fn law_tokens_in_line(bytes: Seq<u8>)
    requires
        bytes.len() <= usize::MAX,
    ensures
        in_line(lexed(bytes).tokens, bytes.len() as int),
        complete_tokens(bytes).len() > 0,
        complete_tokens(bytes).drop_last() == lexed(bytes).tokens,
        complete_tokens(bytes).last().kind == KindView::Plain(TokenKind::Eof),
        complete_tokens(bytes).last().span == span_between(bytes.len() as int, bytes.len() as int),
{
    lemma_in_line(bytes, 0, Lexed { tokens: seq![], errors: seq![] });
    assert(complete_tokens(bytes).drop_last() =~= lexed(bytes).tokens);
}

/// A word is taken whole: it holds identifier characters only, and none follows it.
pub proof fn law_words_are_complete(bytes: Seq<u8>, start: int)
    requires
        0 <= start < bytes.len(),
        identifier_start(bytes[start]),
    ensures
        ({
            let end = scan_word(bytes, start).end;
            &&& forall|i: int| start <= i < end ==> identifier_continue(#[trigger] bytes[i])
            &&& end < bytes.len() ==> !identifier_continue(bytes[end])
        }),
{
    lemma_word_end(bytes, start + 1);
}

/// A number for each kind of token.
pub open spec fn kind_number(kind: TokenKind) -> u8 {
    match kind {
        TokenKind::Identifier => 0,
        TokenKind::Integer => 1,
        TokenKind::Float => 2,
        TokenKind::String(_) => 3,
        TokenKind::Character(_) => 4,
        TokenKind::Type => 5,
        TokenKind::Fn => 6,
        TokenKind::Var => 7,
        TokenKind::Return => 8,
        TokenKind::Break => 9,
        TokenKind::Continue => 10,
        TokenKind::If => 11,
        TokenKind::Else => 12,
        TokenKind::While => 13,
        TokenKind::For => 14,
        TokenKind::In => 15,
        TokenKind::Switch => 16,
        TokenKind::Is => 17,
        TokenKind::True => 18,
        TokenKind::False => 19,
        TokenKind::Int => 20,
        TokenKind::FloatType => 21,
        TokenKind::Str => 22,
        TokenKind::Bool => 23,
        TokenKind::Char => 24,
        TokenKind::LeftParen => 25,
        TokenKind::RightParen => 26,
        TokenKind::LeftBrace => 27,
        TokenKind::RightBrace => 28,
        TokenKind::LeftBracket => 29,
        TokenKind::RightBracket => 30,
        TokenKind::Comma => 31,
        TokenKind::Semicolon => 32,
        TokenKind::Colon => 33,
        TokenKind::Dot => 34,
        TokenKind::Equal => 35,
        TokenKind::Plus => 36,
        TokenKind::Minus => 37,
        TokenKind::Star => 38,
        TokenKind::Slash => 39,
        TokenKind::Percent => 40,
        TokenKind::Ampersand => 41,
        TokenKind::Pipe => 42,
        TokenKind::Caret => 43,
        TokenKind::Bang => 44,
        TokenKind::Tilde => 45,
        TokenKind::Less => 46,
        TokenKind::Greater => 47,
        TokenKind::Question => 48,
        TokenKind::Declare => 49,
        TokenKind::EqualEqual => 50,
        TokenKind::BangEqual => 51,
        TokenKind::LessEqual => 52,
        TokenKind::GreaterEqual => 53,
        TokenKind::LogicalOr => 54,
        TokenKind::LogicalAnd => 55,
        TokenKind::ShiftLeft => 56,
        TokenKind::ShiftRight => 57,
        TokenKind::PlusEqual => 58,
        TokenKind::MinusEqual => 59,
        TokenKind::StarEqual => 60,
        TokenKind::SlashEqual => 61,
        TokenKind::PercentEqual => 62,
        TokenKind::AmpersandEqual => 63,
        TokenKind::PipeEqual => 64,
        TokenKind::CaretEqual => 65,
        TokenKind::ShiftLeftEqual => 66,
        TokenKind::ShiftRightEqual => 67,
        TokenKind::Eof => 68,
    }
}

/// Kinds without contents are told apart by their numbers.
pub proof fn lemma_kind_number(left: TokenKind, right: TokenKind)
    requires
        !(right is String),
        !(right is Character),
    ensures
        kind_number(left) == kind_number(right) <==> left@ == right@,
{
}

fn number_of_kind(kind: &TokenKind) -> (result: u8)
    ensures
        result == kind_number(*kind),
{
    match kind {
        TokenKind::Identifier => 0,
        TokenKind::Integer => 1,
        TokenKind::Float => 2,
        TokenKind::String(_) => 3,
        TokenKind::Character(_) => 4,
        TokenKind::Type => 5,
        TokenKind::Fn => 6,
        TokenKind::Var => 7,
        TokenKind::Return => 8,
        TokenKind::Break => 9,
        TokenKind::Continue => 10,
        TokenKind::If => 11,
        TokenKind::Else => 12,
        TokenKind::While => 13,
        TokenKind::For => 14,
        TokenKind::In => 15,
        TokenKind::Switch => 16,
        TokenKind::Is => 17,
        TokenKind::True => 18,
        TokenKind::False => 19,
        TokenKind::Int => 20,
        TokenKind::FloatType => 21,
        TokenKind::Str => 22,
        TokenKind::Bool => 23,
        TokenKind::Char => 24,
        TokenKind::LeftParen => 25,
        TokenKind::RightParen => 26,
        TokenKind::LeftBrace => 27,
        TokenKind::RightBrace => 28,
        TokenKind::LeftBracket => 29,
        TokenKind::RightBracket => 30,
        TokenKind::Comma => 31,
        TokenKind::Semicolon => 32,
        TokenKind::Colon => 33,
        TokenKind::Dot => 34,
        TokenKind::Equal => 35,
        TokenKind::Plus => 36,
        TokenKind::Minus => 37,
        TokenKind::Star => 38,
        TokenKind::Slash => 39,
        TokenKind::Percent => 40,
        TokenKind::Ampersand => 41,
        TokenKind::Pipe => 42,
        TokenKind::Caret => 43,
        TokenKind::Bang => 44,
        TokenKind::Tilde => 45,
        TokenKind::Less => 46,
        TokenKind::Greater => 47,
        TokenKind::Question => 48,
        TokenKind::Declare => 49,
        TokenKind::EqualEqual => 50,
        TokenKind::BangEqual => 51,
        TokenKind::LessEqual => 52,
        TokenKind::GreaterEqual => 53,
        TokenKind::LogicalOr => 54,
        TokenKind::LogicalAnd => 55,
        TokenKind::ShiftLeft => 56,
        TokenKind::ShiftRight => 57,
        TokenKind::PlusEqual => 58,
        TokenKind::MinusEqual => 59,
        TokenKind::StarEqual => 60,
        TokenKind::SlashEqual => 61,
        TokenKind::PercentEqual => 62,
        TokenKind::AmpersandEqual => 63,
        TokenKind::PipeEqual => 64,
        TokenKind::CaretEqual => 65,
        TokenKind::ShiftLeftEqual => 66,
        TokenKind::ShiftRightEqual => 67,
        TokenKind::Eof => 68,
    }
}

/// Whether a token is of a kind without contents.
pub fn is_kind(kind: &TokenKind, wanted: &TokenKind) -> (result: bool)
    requires
        !(wanted is String),
        !(wanted is Character),
    ensures
        result == (kind@ == wanted@),
{
    proof {
        lemma_kind_number(*kind, *wanted);
    }
    number_of_kind(kind) == number_of_kind(wanted)
}

/// A complete sequence of tokens ends with the one that stands for the end of the text.
#[verifier::spinoff_prover]
pub proof fn lemma_last_token(bytes: Seq<u8>, tokens: Seq<Token>)
    requires
        token_views(tokens) == complete_tokens(bytes),
    ensures
        tokens.len() > 0,
        tokens.last()@.kind == KindView::Plain(TokenKind::Eof),
{
    let done = lexed(bytes).tokens;
    let all = complete_tokens(bytes);
    assert(all.len() == done.len() + 1);
    assert(all[all.len() - 1].kind == KindView::Plain(TokenKind::Eof));
    assert(token_views(tokens).len() == tokens.len());
    assert(token_views(tokens)[tokens.len() - 1] == tokens[tokens.len() - 1]@);
}

} // verus!
