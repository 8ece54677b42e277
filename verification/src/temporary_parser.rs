//! A parser for programs that are a single `print("...");` statement.
//!
//! This syntax is deliberately separate from the full grammar.

use crate::diagnostic::{Diagnostic, DiagnosticView, source_error};
use crate::lexer::{
    byte_is, bytes_are, comment_close, comment_line_end, hex_value, identifier_continue, left, simple_escape,
};
use crate::source::{SourceFile, Span};
use std::ops::Range;
use vstd::prelude::*;
use vstd::string::*;

verus! {

#[derive(Debug, Eq, PartialEq)]
pub struct PrintStatement {
    pub bytes: Vec<u8>,
    pub span: Range<usize>,
}

/// An error at a byte offset.
pub struct Failure {
    pub offset: int,
    pub message: Seq<char>,
}

pub open spec fn fail<T>(offset: int, message: Seq<char>) -> Result<T, Failure> {
    Err(Failure { offset, message })
}

pub open spec fn whitespace(byte: u8) -> bool {
    byte == 32 || byte == 9 || byte == 10 || byte == 12 || byte == 13
}

/// Where the whitespace and comments at `at` end.
pub open spec fn trivia(bytes: Seq<u8>, at: int) -> Result<int, Failure>
    decreases left(bytes, at),
{
    if at >= bytes.len() {
        Ok(at)
    } else if whitespace(bytes[at]) {
        trivia(bytes, at + 1)
    } else if bytes_are(bytes, at, 47, 47) {
        let end = comment_line_end(bytes, at + 2);
        if end <= at {
            arbitrary()
        } else {
            trivia(bytes, end)
        }
    } else if bytes_are(bytes, at, 47, 42) {
        match comment_close(bytes, at + 2) {
            Some(close) => if close <= at {
                arbitrary()
            } else {
                trivia(bytes, close + 2)
            },
            None => fail(at, "unterminated block comment"@),
        }
    } else {
        Ok(at)
    }
}

/// The value of the hexadecimal digit at `at`, in the escape that starts at `start`.
pub open spec fn hex_digit(bytes: Seq<u8>, start: int, at: int) -> Result<u8, Failure> {
    if at >= bytes.len() {
        fail(start, "expected two hexadecimal escape digits"@)
    } else {
        match hex_value(bytes[at]) {
            Some(value) => Ok(value as u8),
            None => fail(at, "expected hexadecimal digit in escape sequence"@),
        }
    }
}

/// The value of an escape sequence, whose backslash stands before `at`, and where it ends.
pub open spec fn escape(bytes: Seq<u8>, at: int) -> Result<(u8, int), Failure> {
    if at >= bytes.len() {
        fail(at, "unterminated escape sequence"@)
    } else if simple_escape(bytes[at]) is Some {
        Ok((simple_escape(bytes[at])->0, at + 1))
    } else if bytes[at] != 120 {
        fail(at, "unknown escape sequence"@)
    } else {
        match hex_digit(bytes, at - 1, at + 1) {
            Err(failure) => Err(failure),
            Ok(high) => match hex_digit(bytes, at - 1, at + 2) {
                Err(failure) => Err(failure),
                Ok(low) => if high * 16 + low > 0x7f {
                    fail(at + 2, "string contents must be ASCII"@)
                } else {
                    Ok(((high * 16 + low) as u8, at + 3))
                },
            },
        }
    }
}

/// The contents of a string literal from `at` on, and where it ends.
pub open spec fn contents(bytes: Seq<u8>, at: int, decoded: Seq<u8>) -> Result<(Seq<u8>, int), Failure>
    decreases left(bytes, at),
{
    if at >= bytes.len() {
        fail(at, "unterminated string literal"@)
    } else if bytes[at] == 34 {
        Ok((decoded, at + 1))
    } else if bytes[at] == 92 {
        match escape(bytes, at + 1) {
            Err(failure) => Err(failure),
            Ok((value, next)) => contents(bytes, next, decoded.push(value)),
        }
    } else if bytes[at] == 13 || bytes[at] == 10 {
        fail(at, "raw newline is not allowed in a string literal"@)
    } else if bytes[at] <= 0x7f {
        contents(bytes, at + 1, decoded.push(bytes[at]))
    } else {
        fail(at, "string contents must be ASCII"@)
    }
}

/// Whether the word `print` stands at `at`.
pub open spec fn has_print(bytes: Seq<u8>, at: int) -> bool {
    bytes_are(bytes, at, 112, 114) && bytes_are(bytes, at + 2, 105, 110) && byte_is(bytes, at + 4, 116)
}

/// The decoded text of the statement, and where the statement starts and ends.
pub open spec fn statement(bytes: Seq<u8>) -> Result<(Seq<u8>, int, int), Failure> {
    match trivia(bytes, 0) {
        Err(failure) => Err(failure),
        Ok(start) => if !has_print(bytes, start) {
            fail(start, "expected temporary top-level 'print' statement"@)
        } else if start + 5 < bytes.len() && identifier_continue(bytes[start + 5]) {
            fail(start + 5, "expected '(' after 'print'"@)
        } else {
            match trivia(bytes, start + 5) {
                Err(failure) => Err(failure),
                Ok(open) => if !byte_is(bytes, open, 40) {
                    fail(open, "expected '(' after 'print'"@)
                } else {
                    argument(bytes, start, open + 1)
                },
            }
        },
    }
}

/// The rest of the statement behind its opening parenthesis.
pub open spec fn argument(bytes: Seq<u8>, start: int, at: int) -> Result<(Seq<u8>, int, int), Failure> {
    match trivia(bytes, at) {
        Err(failure) => Err(failure),
        Ok(quote) => if !byte_is(bytes, quote, 34) {
            fail(quote, "expected string literal"@)
        } else {
            match contents(bytes, quote + 1, seq![]) {
                Err(failure) => Err(failure),
                Ok((decoded, after)) => closing(bytes, start, after, decoded),
            }
        },
    }
}

/// The rest of the statement behind its string.
pub open spec fn closing(bytes: Seq<u8>, start: int, at: int, decoded: Seq<u8>) -> Result<
    (Seq<u8>, int, int),
    Failure,
> {
    match trivia(bytes, at) {
        Err(failure) => Err(failure),
        Ok(close) => if !byte_is(bytes, close, 41) {
            fail(close, "expected ')' after string literal"@)
        } else {
            match trivia(bytes, close + 1) {
                Err(failure) => Err(failure),
                Ok(semicolon) => if !byte_is(bytes, semicolon, 59) {
                    fail(semicolon, "expected ';' after print statement"@)
                } else {
                    match trivia(bytes, semicolon + 1) {
                        Err(failure) => Err(failure),
                        Ok(end) => if end != bytes.len() {
                            fail(end, "unexpected trailing input"@)
                        } else {
                            Ok((decoded, start, semicolon + 1))
                        },
                    }
                },
            }
        },
    }
}

pub open spec fn failure_view(source: &SourceFile, failure: Failure) -> DiagnosticView {
    source_error(
        source,
        Span { start: failure.offset as usize, end: failure.offset as usize, tree: 0 },
        failure.message,
    )
}

/// The statement that a source file consists of.
pub fn parse(source: &SourceFile) -> (result: Result<PrintStatement, Diagnostic>)
    requires
        source.wf(),
    ensures
        match result {
            Ok(parsed) => statement(source.bytes()) == Ok::<_, Failure>(
                (parsed.bytes@, parsed.span.start as int, parsed.span.end as int),
            ),
            Err(diagnostic) => statement(source.bytes()) is Err && diagnostic@ == failure_view(
                source,
                statement(source.bytes())->Err_0,
            ),
        },
{
    Parser { source, position: 0 }.parse()
}

struct Parser<'a> {
    source: &'a SourceFile,
    position: usize,
}

impl<'a> Parser<'a> {
    spec fn wf(&self) -> bool {
        self.source.wf() && self.position <= self.source.bytes().len()
    }

    spec fn keeps(&self, before: &Self) -> bool {
        &&& self.wf()
        &&& self.source == before.source
        &&& self.position >= before.position
    }

    spec fn broke<T>(&self, diagnostic: &Diagnostic, outcome: Result<T, Failure>) -> bool {
        &&& outcome is Err
        &&& diagnostic@ == failure_view(self.source, outcome->Err_0)
    }

    fn parse(self) -> (result: Result<PrintStatement, Diagnostic>)
        requires
            self.wf(),
            self.position == 0,
        ensures
            match result {
                Ok(parsed) => statement(self.source.bytes()) == Ok::<_, Failure>(
                    (parsed.bytes@, parsed.span.start as int, parsed.span.end as int),
                ),
                Err(diagnostic) => self.broke(&diagnostic, statement(self.source.bytes())),
            },
    {
        let mut parser = self;
        parser.skip_trivia()?;
        let start: usize = parser.position;
        parser.expect_print()?;
        if parser.at_identifier_continue() {
            return Err(parser.error("expected '(' after 'print'"));
        }
        parser.skip_trivia()?;
        parser.expect_byte(40, "expected '(' after 'print'")?;
        parser.skip_trivia()?;
        let bytes = parser.parse_string()?;
        parser.skip_trivia()?;
        parser.expect_byte(41, "expected ')' after string literal")?;
        parser.skip_trivia()?;
        parser.expect_byte(59, "expected ';' after print statement")?;
        let end: usize = parser.position;
        parser.skip_trivia()?;
        if parser.position != parser.bytes().len() {
            return Err(parser.error("unexpected trailing input"));
        }
        Ok(PrintStatement { bytes, span: start..end })
    }

    fn bytes(&self) -> (result: &'a [u8])
        ensures
            result@ == self.source.bytes(),
    {
        self.source.text.as_str().as_bytes()
    }

    fn peek(&self) -> (result: Option<u8>)
        requires
            self.wf(),
        ensures
            result == (if self.position < self.source.bytes().len() {
                Some(self.source.bytes()[self.position as int])
            } else {
                None
            }),
    {
        let bytes = self.bytes();
        if self.position < bytes.len() {
            Some(bytes[self.position])
        } else {
            None
        }
    }

    fn at_identifier_continue(&self) -> (result: bool)
        requires
            self.wf(),
        ensures
            result == (self.position < self.source.bytes().len() && identifier_continue(
                self.source.bytes()[self.position as int],
            )),
    {
        match self.peek() {
            Some(byte) => (65 <= byte && byte <= 90) || (97 <= byte && byte <= 122) || (48 <= byte && byte <= 57)
                || byte == 95,
            None => false,
        }
    }

    fn error(&self, message: &str) -> (result: Diagnostic)
        requires
            self.wf(),
        ensures
            result@ == failure_view(self.source, Failure { offset: self.position as int, message: message@ }),
    {
        self.error_at(self.position, message)
    }

    fn error_at(&self, offset: usize, message: &str) -> (result: Diagnostic)
        requires
            self.wf(),
        ensures
            result@ == failure_view(self.source, Failure { offset: offset as int, message: message@ }),
    {
        Diagnostic::source(self.source, Span::empty(offset), message)
    }

    fn expect_print(&mut self) -> (result: Result<(), Diagnostic>)
        requires
            old(self).wf(),
        ensures
            final(self).keeps(old(self)),
            match result {
                Ok(_) => has_print(old(self).source.bytes(), old(self).position as int) && final(self).position
                    == old(self).position + 5,
                Err(diagnostic) => !has_print(old(self).source.bytes(), old(self).position as int)
                    && diagnostic@ == failure_view(
                    old(self).source,
                    Failure {
                        offset: old(self).position as int,
                        message: "expected temporary top-level 'print' statement"@,
                    },
                ),
            },
    {
        let bytes = self.bytes();
        let at: usize = self.position;
        if bytes.len() - at >= 5 && bytes[at] == 112 && bytes[at + 1] == 114 && bytes[at + 2] == 105 && bytes[at + 3]
            == 110 && bytes[at + 4] == 116 {
            self.position = at + 5;
            Ok(())
        } else {
            Err(self.error("expected temporary top-level 'print' statement"))
        }
    }

    fn expect_byte(&mut self, expected: u8, message: &str) -> (result: Result<(), Diagnostic>)
        requires
            old(self).wf(),
        ensures
            final(self).keeps(old(self)),
            match result {
                Ok(_) => byte_is(old(self).source.bytes(), old(self).position as int, expected) && final(self).position
                    == old(self).position + 1,
                Err(diagnostic) => !byte_is(old(self).source.bytes(), old(self).position as int, expected)
                    && diagnostic@ == failure_view(
                    old(self).source,
                    Failure { offset: old(self).position as int, message: message@ },
                ),
            },
    {
        match self.peek() {
            Some(byte) => {
                if byte == expected {
                    self.position = self.position + 1;
                    return Ok(());
                }
            },
            None => {},
        }
        Err(self.error(message))
    }

    fn parse_string(&mut self) -> (result: Result<Vec<u8>, Diagnostic>)
        requires
            old(self).wf(),
        ensures
            final(self).keeps(old(self)),
            if !byte_is(old(self).source.bytes(), old(self).position as int, 34) {
                &&& result is Err
                &&& (result->Err_0)@ == failure_view(
                    old(self).source,
                    Failure { offset: old(self).position as int, message: "expected string literal"@ },
                )
            } else {
                match result {
                    Ok(decoded) => contents(old(self).source.bytes(), old(self).position + 1, seq![]) == Ok::<
                        _,
                        Failure,
                    >((decoded@, final(self).position as int)),
                    Err(diagnostic) => final(self).broke(
                        &diagnostic,
                        contents(old(self).source.bytes(), old(self).position + 1, seq![]),
                    ),
                }
            },
    {
        let ghost bytes = self.source.bytes();
        let ghost whole = contents(bytes, self.position + 1, seq![]);
        self.expect_byte(34, "expected string literal")?;
        let mut decoded: Vec<u8> = Vec::new();
        assert(decoded@ =~= seq![]);
        loop
            invariant
                self.keeps(old(self)),
                bytes == self.source.bytes(),
                byte_is(bytes, old(self).position as int, 34),
                whole == contents(bytes, old(self).position + 1, seq![]),
                whole == contents(bytes, self.position as int, decoded@),
            decreases bytes.len() - self.position,
        {
            let byte: u8 = match self.peek() {
                Some(byte) => byte,
                None => {
                    return Err(self.error("unterminated string literal"));
                },
            };
            if byte == 34 {
                self.position = self.position + 1;
                return Ok(decoded);
            } else if byte == 92 {
                self.position = self.position + 1;
                let value = self.parse_escape()?;
                decoded.push(value);
            } else if byte == 13 || byte == 10 {
                return Err(self.error("raw newline is not allowed in a string literal"));
            } else if byte <= 0x7f {
                decoded.push(byte);
                self.position = self.position + 1;
            } else {
                return Err(self.error("string contents must be ASCII"));
            }
        }
    }

    fn parse_escape(&mut self) -> (result: Result<u8, Diagnostic>)
        requires
            old(self).wf(),
            old(self).position > 0,
        ensures
            final(self).keeps(old(self)),
            match result {
                Ok(value) => escape(old(self).source.bytes(), old(self).position as int) == Ok::<_, Failure>(
                    (value, final(self).position as int),
                ),
                Err(diagnostic) => final(self).broke(
                    &diagnostic,
                    escape(old(self).source.bytes(), old(self).position as int),
                ),
            },
    {
        let start: usize = self.position - 1;
        let byte: u8 = match self.peek() {
            Some(byte) => byte,
            None => {
                return Err(self.error("unterminated escape sequence"));
            },
        };
        self.position = self.position + 1;
        let decoded: u8 = if byte == 92 || byte == 34 || byte == 39 {
            byte
        } else if byte == 110 {
            10
        } else if byte == 114 {
            13
        } else if byte == 116 {
            9
        } else if byte == 48 {
            0
        } else if byte == 120 {
            let high: u8 = self.hex_digit(start)?;
            let low: u8 = self.hex_digit(start)?;
            high * 16 + low
        } else {
            return Err(self.error_at(self.position - 1, "unknown escape sequence"));
        };
        if decoded > 0x7f {
            return Err(self.error_at(self.position - 1, "string contents must be ASCII"));
        }
        Ok(decoded)
    }

    fn hex_digit(&mut self, escape_start: usize) -> (result: Result<u8, Diagnostic>)
        requires
            old(self).wf(),
        ensures
            final(self).keeps(old(self)),
            match result {
                Ok(value) => value < 16 && hex_digit(
                    old(self).source.bytes(),
                    escape_start as int,
                    old(self).position as int,
                ) == Ok::<_, Failure>(value) && final(self).position == old(self).position + 1,
                Err(diagnostic) => final(self).broke(
                    &diagnostic,
                    hex_digit(old(self).source.bytes(), escape_start as int, old(self).position as int),
                ),
            },
    {
        let byte: u8 = match self.peek() {
            Some(byte) => byte,
            None => {
                return Err(self.error_at(escape_start, "expected two hexadecimal escape digits"));
            },
        };
        let value: u8 = if 48 <= byte && byte <= 57 {
            byte - 48
        } else if 97 <= byte && byte <= 102 {
            byte - 97 + 10
        } else if 65 <= byte && byte <= 70 {
            byte - 65 + 10
        } else {
            return Err(self.error_at(self.position, "expected hexadecimal digit in escape sequence"));
        };
        self.position = self.position + 1;
        Ok(value)
    }

    fn skip_trivia(&mut self) -> (result: Result<(), Diagnostic>)
        requires
            old(self).wf(),
        ensures
            final(self).keeps(old(self)),
            match result {
                Ok(_) => trivia(old(self).source.bytes(), old(self).position as int) == Ok::<int, Failure>(
                    final(self).position as int,
                ),
                Err(diagnostic) => final(self).broke(
                    &diagnostic,
                    trivia(old(self).source.bytes(), old(self).position as int),
                ),
            },
    {
        let ghost bytes = self.source.bytes();
        let ghost whole = trivia(bytes, self.position as int);
        loop
            invariant
                self.keeps(old(self)),
                bytes == self.source.bytes(),
                whole == trivia(bytes, old(self).position as int),
                whole == trivia(bytes, self.position as int),
            decreases bytes.len() - self.position,
        {
            let text = self.bytes();
            if self.position >= text.len() {
                return Ok(());
            }
            let byte = text[self.position];
            let next: Option<u8> = if text.len() - self.position > 1 {
                Some(text[self.position + 1])
            } else {
                None
            };
            if byte == 32 || byte == 9 || byte == 10 || byte == 12 || byte == 13 {
                self.position = self.position + 1;
            } else if byte == 47 && next == Some(47u8) {
                let ghost from = self.position + 2;
                let mut end: usize = self.position + 2;
                while end < text.len() && text[end] != 10
                    invariant
                        from <= end <= text@.len(),
                        comment_line_end(text@, from) == comment_line_end(text@, end as int),
                    decreases text@.len() - end,
                {
                    end = end + 1;
                }
                self.position = end;
            } else if byte == 47 && next == Some(42u8) {
                let start: usize = self.position;
                let ghost from = self.position + 2;
                let mut close: usize = self.position + 2;
                while close < text.len() && !(text[close] == 42 && text.len() - close > 1 && text[close + 1] == 47)
                    invariant
                        from <= close <= text@.len(),
                        comment_close(text@, from) == comment_close(text@, close as int),
                    decreases text@.len() - close,
                {
                    close = close + 1;
                }
                if close >= text.len() {
                    return Err(self.error_at(start, "unterminated block comment"));
                }
                self.position = close + 2;
            } else {
                return Ok(());
            }
        }
    }
}

} // verus!
