//! What holds of the tokens and the errors of every text.

use crate::diagnostic::{DiagnosticKind, Diagnostics, MAX_SOURCE_ERRORS};
use crate::lexer::{
    KindView, Lexed, Quoted, Report, Token, TokenKind, bytes_are, comment_close, comment_line_end,
    complete_tokens, empty_quoted, escape, kept, last_kind, law_scan_advances, left, lemma_comment_close,
    lemma_comment_line_end, lemma_next_character, lemma_quoted_end, lemma_trivia_end, lex_result, lexed,
    lexed_from, literal_name, next_character, quoted, quoted_error, scan, token_views, trivia, whitespace,
    with_scan,
};
use crate::source::SourceFile;
use vstd::prelude::*;
use vstd::utf8::*;

verus! {

/// Whether errors lie within the first `end` bytes.
pub open spec fn within(errors: Seq<Report>, end: int) -> bool {
    forall|i: int|
        0 <= i < errors.len() ==> (#[trigger] errors[i]).span.start <= errors[i].span.end <= end
}

/// Whether bytes are ASCII.
pub open spec fn ascii(bytes: Seq<u8>) -> bool {
    forall|i: int| 0 <= i < bytes.len() ==> #[trigger] bytes[i] < 0x80
}

/// Whether what a literal stands for, if the token is one, is ASCII.
pub open spec fn ascii_payload(kind: KindView) -> bool {
    match kind {
        KindView::Text(bytes) => ascii(bytes),
        KindView::Plain(TokenKind::Character(byte)) => byte < 0x80,
        KindView::Plain(_) => true,
    }
}

proof fn lemma_quoted(bytes: Seq<u8>, start: int, at: int, quote: u8, contents: Quoted)
    requires
        bytes.len() <= usize::MAX,
        0 <= start <= at <= bytes.len(),
        within(contents.errors, bytes.len() as int),
        ascii(contents.decoded),
    ensures
        within(quoted(bytes, start, at, quote, contents).contents.errors, bytes.len() as int),
        ascii(quoted(bytes, start, at, quote, contents).contents.decoded),
    decreases left(bytes, at),
{
    if at < bytes.len() && bytes[at] != quote && bytes[at] != 13 && bytes[at] != 10 {
        if bytes[at] == 92 {
            let step = escape(bytes, at);
            match step.value {
                Ok(value) => {
                    lemma_quoted(
                        bytes,
                        start,
                        step.end,
                        quote,
                        Quoted { decoded: contents.decoded.push(value), ..contents },
                    );
                },
                Err(error) => {
                    if step.end < bytes.len() {
                        lemma_quoted(
                            bytes,
                            start,
                            step.end,
                            quote,
                            Quoted { valid: false, errors: contents.errors.push(error), ..contents },
                        );
                    }
                },
            }
        } else if bytes[at] <= 0x7f {
            lemma_quoted(
                bytes,
                start,
                at + 1,
                quote,
                Quoted { decoded: contents.decoded.push(bytes[at]), ..contents },
            );
        } else {
            lemma_next_character(bytes, at);
            let next = next_character(bytes, at);
            lemma_quoted(
                bytes,
                start,
                next,
                quote,
                quoted_error(contents, at, next, literal_name(quote) + " contents must be ASCII"@),
            );
        }
    }
}

proof fn lemma_scan(bytes: Seq<u8>, start: int, previous: Option<KindView>)
    requires
        bytes.len() <= usize::MAX,
        0 <= start < bytes.len(),
    ensures
        within(scan(bytes, start, previous).errors, bytes.len() as int),
        scan(bytes, start, previous).kind matches Some(kind) ==> ascii_payload(kind),
{
    law_scan_advances(bytes, start, previous);
    let byte = bytes[start];
    if byte == 34 || byte == 39 {
        lemma_quoted_end(bytes, start, start + 1, byte, empty_quoted());
        lemma_quoted(bytes, start, start + 1, byte, empty_quoted());
    }
}

proof fn lemma_trivia(bytes: Seq<u8>, at: int)
    requires
        bytes.len() <= usize::MAX,
        0 <= at <= bytes.len(),
    ensures
        within(trivia(bytes, at).errors, bytes.len() as int),
    decreases left(bytes, at),
{
    if at < bytes.len() {
        let byte = bytes[at];
        if whitespace(byte) {
            lemma_trivia(bytes, at + 1);
        } else if bytes_are(bytes, at, 47, 47) {
            lemma_comment_line_end(bytes, at + 2);
            lemma_trivia(bytes, comment_line_end(bytes, at + 2));
        } else if bytes_are(bytes, at, 47, 42) {
            lemma_comment_close(bytes, at + 2);
            if let Some(close) = comment_close(bytes, at + 2) {
                lemma_trivia(bytes, close + 2);
            }
        }
    }
}

proof fn lemma_lexed(bytes: Seq<u8>, at: int, done: Lexed)
    requires
        bytes.len() <= usize::MAX,
        0 <= at <= bytes.len(),
        within(done.errors, bytes.len() as int),
        forall|i: int| 0 <= i < done.tokens.len() ==> ascii_payload((#[trigger] done.tokens[i]).kind),
    ensures
        within(lexed_from(bytes, at, done).errors, bytes.len() as int),
        forall|i: int|
            0 <= i < lexed_from(bytes, at, done).tokens.len() ==> ascii_payload(
                (#[trigger] lexed_from(bytes, at, done).tokens[i]).kind,
            ),
    decreases left(bytes, at),
{
    if at < bytes.len() && done.errors.len() < MAX_SOURCE_ERRORS {
        let skipped = trivia(bytes, at);
        lemma_trivia_end(bytes, at);
        lemma_trivia(bytes, at);
        if skipped.end > at {
            lemma_lexed(bytes, skipped.end, Lexed { errors: done.errors + skipped.errors, ..done });
        } else {
            let previous = last_kind(done.tokens);
            let step = scan(bytes, at, previous);
            law_scan_advances(bytes, at, previous);
            lemma_scan(bytes, at, previous);
            lemma_lexed(bytes, step.end, with_scan(done, at, step));
        }
    }
}

/// A text that cannot be lexed has at least one and at most as many errors as are reported. Each is an error of the
/// source, at a place within the text. What the string and character literals of any other text stand for is ASCII.
pub proof fn law_lexing_reports_within_the_text(source: &SourceFile, result: Result<Vec<Token>, Diagnostics>)
    requires
        source.wf(),
        lex_result(source, result),
    ensures
        match result {
            Err(diagnostics) => 1 <= diagnostics@.len() <= MAX_SOURCE_ERRORS && forall|i: int|
                0 <= i < diagnostics@.len() ==> (#[trigger] diagnostics@[i]).kind == DiagnosticKind::Source && (
                diagnostics@[i].primary matches Some(primary) && primary.span.start <= primary.span.end
                    <= source.bytes().len()),
            Ok(tokens) => forall|i: int| 0 <= i < tokens@.len() ==> ascii_payload((#[trigger] tokens@[i]).kind@),
        },
{
    let bytes = source.bytes();
    let whole = lexed(bytes);
    lemma_lexed(bytes, 0, Lexed { tokens: seq![], errors: seq![] });
    match result {
        Err(diagnostics) => {
            assert forall|i: int| 0 <= i < diagnostics@.len() implies (#[trigger] diagnostics@[i]).kind
                == DiagnosticKind::Source && (diagnostics@[i].primary matches Some(primary) && primary.span.start
                <= primary.span.end <= source.bytes().len()) by {
                assert(diagnostics@[i] == kept(source, whole.errors)[i]);
                let error = whole.errors[i];
                assert(error.span.end <= bytes.len());
            }
        },
        Ok(tokens) => {
            assert forall|i: int| 0 <= i < tokens@.len() implies ascii_payload((#[trigger] tokens@[i]).kind@) by {
                assert(token_views(tokens@)[i] == tokens@[i]@);
                assert(token_views(tokens@).len() == tokens@.len());
                let complete = complete_tokens(bytes);
                assert(complete[i] == tokens@[i]@);
                if i < whole.tokens.len() {
                    assert(complete[i] == whole.tokens[i]);
                    assert(ascii_payload(whole.tokens[i].kind));
                } else {
                    assert(complete[i].kind == KindView::Plain(TokenKind::Eof));
                }
            }
        },
    }
}

/// Files with the same path and text are lexed alike.
pub proof fn law_lexing_is_of_contents(
    first: &SourceFile,
    second: &SourceFile,
    left: Result<Vec<Token>, Diagnostics>,
    right: Result<Vec<Token>, Diagnostics>,
)
    requires
        first@ == second@,
        lex_result(first, left),
        lex_result(second, right),
    ensures
        match (left, right) {
            (Ok(left), Ok(right)) => token_views(left@) == token_views(right@),
            (Err(left), Err(right)) => left@ == right@,
            _ => false,
        },
{
    assert(first.path@ == first@.path);
    assert(second.path@ == second@.path);
    assert(first.text@ == first@.text);
    assert(second.text@ == second@.text);
    let errors = lexed(first.bytes()).errors;
    assert(kept(first, errors) =~= kept(second, errors));
}

proof fn lemma_no_end(bytes: Seq<u8>, at: int, done: Lexed)
    requires
        0 <= at <= bytes.len(),
        forall|i: int| 0 <= i < done.tokens.len() ==> (#[trigger] done.tokens[i]).kind != TokenKind::Eof@,
    ensures
        forall|i: int|
            0 <= i < lexed_from(bytes, at, done).tokens.len() ==> (
            #[trigger] lexed_from(bytes, at, done).tokens[i]).kind != TokenKind::Eof@,
    decreases left(bytes, at),
{
    if at < bytes.len() && done.errors.len() < MAX_SOURCE_ERRORS {
        let skipped = trivia(bytes, at);
        lemma_trivia_end(bytes, at);
        if skipped.end > at {
            lemma_no_end(bytes, skipped.end, Lexed { errors: done.errors + skipped.errors, ..done });
        } else {
            let previous = last_kind(done.tokens);
            let step = scan(bytes, at, previous);
            law_scan_advances(bytes, at, previous);
            lemma_no_end(bytes, step.end, with_scan(done, at, step));
        }
    }
}

/// Only the last token of a text stands for its end.
pub proof fn lemma_no_early_end(bytes: Seq<u8>)
    ensures
        forall|i: int|
            0 <= i < lexed(bytes).tokens.len() ==> (#[trigger] lexed(bytes).tokens[i]).kind != TokenKind::Eof@,
{
    lemma_no_end(bytes, 0, Lexed { tokens: seq![], errors: seq![] });
}

} // verus!
