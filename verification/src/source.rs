//! Source files, byte spans and the locations that diagnostics show.

use crate::diagnostic::{Diagnostic, DiagnosticKind, plain};
use crate::text::{boundary, decimal, lemma_boundary, lemma_boundary_start, push_decimal, slice};
use vstd::prelude::*;
use vstd::string::*;
use vstd::utf8::*;

verus! {

/// A half-open range of UTF-8 byte offsets in a source file. The span of a node also holds the number of the syntax
/// tree that the node stands in, so spans of nodes of different trees differ. Any other span has the number 0.
#[derive(Clone, Copy, Debug, Default, Eq, Hash, Ord, PartialEq, PartialOrd, Structural)]
pub struct Span {
    pub start: usize,
    pub end: usize,
    pub tree: u64,
}

impl Span {
    /// The range alone.
    pub open spec fn bare(self) -> Span {
        Span { tree: 0, ..self }
    }

    pub fn new(start: usize, end: usize) -> (result: Self)
        ensures
            result == (Span { start, end, tree: 0 }),
    {
        Self { start, end, tree: 0 }
    }

    pub fn empty(offset: usize) -> (result: Self)
        ensures
            result == (Span { start: offset, end: offset, tree: 0 }),
    {
        Self::new(offset, offset)
    }
}

/// The byte that ends a line.
pub const NEWLINE: u8 = 10;

/// The byte that may precede the end of a line.
pub const CARRIAGE_RETURN: u8 = 13;

/// How many lines end before `offset`.
pub open spec fn newlines_before(bytes: Seq<u8>, offset: int) -> nat
    decreases offset,
{
    if offset <= 0 {
        0
    } else {
        newlines_before(bytes, offset - 1) + if bytes[offset - 1] == NEWLINE {
            1nat
        } else {
            0nat
        }
    }
}

/// Where the line that holds `offset` starts.
pub open spec fn line_start(bytes: Seq<u8>, offset: int) -> int
    decreases offset,
{
    if offset <= 0 {
        0
    } else if bytes[offset - 1] == NEWLINE {
        offset
    } else {
        line_start(bytes, offset - 1)
    }
}

/// The first line feed at or after `offset`, or the end of the text.
pub open spec fn line_stop(bytes: Seq<u8>, offset: int) -> int
    decreases bytes.len() - offset,
{
    if offset >= bytes.len() {
        bytes.len() as int
    } else if bytes[offset] == NEWLINE {
        offset
    } else {
        line_stop(bytes, offset + 1)
    }
}

/// Where the visible part of the line that starts at `start` ends: before its line feed, and
/// before a carriage return in front of that.
pub open spec fn line_end(bytes: Seq<u8>, start: int) -> int {
    let stop = line_stop(bytes, start);
    if stop > start && bytes[stop - 1] == CARRIAGE_RETURN {
        stop - 1
    } else {
        stop
    }
}

/// The last character boundary at or before `offset`.
pub open spec fn floor_boundary(bytes: Seq<u8>, offset: int) -> int
    decreases offset,
{
    if offset <= 0 {
        0
    } else if boundary(bytes, offset) {
        offset
    } else {
        floor_boundary(bytes, offset - 1)
    }
}

/// The offset itself where it lies on a character boundary of the text, else the nearest one
/// before it.
pub open spec fn clamped(bytes: Seq<u8>, offset: int) -> int {
    floor_boundary(bytes, if offset < bytes.len() { offset } else { bytes.len() as int })
}

/// How many columns a character takes when it is shown.
pub open spec fn char_width(c: char) -> nat {
    if c == '\t' {
        4
    } else {
        1
    }
}

/// How many columns a piece of text takes when it is shown.
pub open spec fn width(chars: Seq<char>) -> nat
    decreases chars.len(),
{
    if chars.len() == 0 {
        0
    } else {
        width(chars.drop_last()) + char_width(chars.last())
    }
}

/// How many columns the text between two byte offsets takes.
pub open spec fn width_between(bytes: Seq<u8>, start: int, end: int) -> nat {
    width(decode_utf8(bytes.subrange(start, end)))
}

/// The text with each tab shown as four spaces.
pub open spec fn expand_tabs(chars: Seq<char>) -> Seq<char>
    decreases chars.len(),
{
    if chars.len() == 0 {
        seq![]
    } else if chars.last() == '\t' {
        expand_tabs(chars.drop_last()) + seq![' ', ' ', ' ', ' ']
    } else {
        expand_tabs(chars.drop_last()).push(chars.last())
    }
}

/// The one-based line and display column of a byte offset.
pub open spec fn location(bytes: Seq<u8>, offset: int) -> (nat, nat) {
    let at = clamped(bytes, offset);
    let start = line_start(bytes, at);
    let end = line_end(bytes, start);
    (newlines_before(bytes, at) + 1, width_between(bytes, start, if at < end { at } else { end }) + 1)
}

/// What a diagnostic shows of a span.
#[verifier::ext_equal]
pub struct ExcerptView {
    pub line: nat,
    pub column: nat,
    pub source_line: Seq<char>,
    pub caret_offset: nat,
    pub caret_width: nat,
}

/// The excerpt of the line on which a span starts, with carets under the part of the span that
/// lies on it.
pub open spec fn excerpt(bytes: Seq<u8>, span: Span) -> ExcerptView {
    let start = clamped(bytes, span.start as int);
    let end = clamped(bytes, if span.end < start { start } else { span.end as int });
    let first = line_start(bytes, start);
    let last = line_end(bytes, first);
    let caret_start = if start < last { start } else { last };
    let reach = if end < caret_start { caret_start } else { end };
    let caret_end = if reach < last { reach } else { last };
    let caret_offset = width_between(bytes, first, caret_start);
    let caret_width = width_between(bytes, caret_start, caret_end);
    ExcerptView {
        line: newlines_before(bytes, start) + 1,
        column: caret_offset + 1,
        source_line: expand_tabs(decode_utf8(bytes.subrange(first, last))),
        caret_offset,
        caret_width: if caret_width < 1 { 1 } else { caret_width },
    }
}

/// A piece of source text with the path that it came from.
#[derive(Clone, Debug)]
pub struct SourceFile {
    pub path: String,
    pub text: String,
    pub line_starts: Vec<usize>,
}

/// The path and the text of a source file.
pub struct SourceView {
    pub path: Seq<char>,
    pub text: Seq<char>,
}

/// Whether `starts` lists where the lines of `bytes` start up to `offset`, in order.
pub open spec fn lists_line_starts(bytes: Seq<u8>, starts: Seq<usize>, offset: int) -> bool {
    &&& starts.len() == newlines_before(bytes, offset) + 1
    &&& starts[0] == 0
    &&& forall|i: int|
        0 <= i < starts.len() ==> {
            &&& 0 <= #[trigger] starts[i] <= offset
            &&& newlines_before(bytes, starts[i] as int) == i
            &&& i > 0 ==> bytes[starts[i] - 1] == NEWLINE
        }
}

/// Text that is small enough for every display column to fit in a machine word.
pub open spec fn text_fits(text: Seq<char>) -> bool {
    4 * encode_utf8(text).len() < usize::MAX
}

impl SourceFile {
    /// The UTF-8 bytes of the text.
    pub open spec fn bytes(&self) -> Seq<u8> {
        encode_utf8(self.text@)
    }

    /// The path and the text.
    pub open spec fn view(&self) -> SourceView {
        SourceView { path: self.path@, text: self.text@ }
    }

    /// The line table agrees with the text, and display columns fit in a machine word.
    pub open spec fn wf(&self) -> bool {
        &&& lists_line_starts(self.bytes(), self.line_starts@, self.bytes().len() as int)
        &&& text_fits(self.text@)
    }
}

proof fn lemma_newlines_monotone(bytes: Seq<u8>, first: int, second: int)
    requires
        first <= second,
    ensures
        newlines_before(bytes, first) <= newlines_before(bytes, second),
    decreases second - first,
{
    if first < second {
        lemma_newlines_monotone(bytes, first, second - 1);
    }
}

/// The line that starts at `start` is the one that holds `offset` when nothing between them ends
/// a line.
proof fn lemma_line_start(bytes: Seq<u8>, start: int, offset: int)
    requires
        0 <= start <= offset,
        newlines_before(bytes, start) == newlines_before(bytes, offset),
        start > 0 ==> bytes[start - 1] == NEWLINE,
    ensures
        line_start(bytes, offset) == start,
    decreases offset - start,
{
    if start < offset {
        lemma_newlines_monotone(bytes, start, offset - 1);
        lemma_line_start(bytes, start, offset - 1);
    }
}

proof fn lemma_line_start_bounds(bytes: Seq<u8>, offset: int)
    requires
        0 <= offset,
    ensures
        0 <= line_start(bytes, offset) <= offset,
        line_start(bytes, offset) > 0 ==> bytes[line_start(bytes, offset) - 1] == NEWLINE,
    decreases offset,
{
    if offset > 0 {
        lemma_line_start_bounds(bytes, offset - 1);
    }
}

proof fn lemma_line_stop_bounds(bytes: Seq<u8>, offset: int)
    requires
        0 <= offset <= bytes.len(),
    ensures
        offset <= line_stop(bytes, offset) <= bytes.len(),
        line_stop(bytes, offset) < bytes.len() ==> bytes[line_stop(bytes, offset)] == NEWLINE,
    decreases bytes.len() - offset,
{
    if offset < bytes.len() {
        lemma_line_stop_bounds(bytes, offset + 1);
    }
}

/// An ASCII byte of valid UTF-8 text starts a character, and another one starts behind it.
pub proof fn lemma_ascii_boundary(bytes: Seq<u8>, offset: int)
    requires
        valid_utf8(bytes),
        0 <= offset < bytes.len(),
        bytes[offset] < 0x80,
    ensures
        boundary(bytes, offset),
        boundary(bytes, offset + 1),
    decreases bytes.len(),
{
    let first = length_of_first_scalar(bytes);
    if offset < first {
        lemma_boundary(bytes, offset);
        if offset == 0 {
            if 1 < bytes.len() {
                lemma_boundary_start(pop_first_scalar(bytes));
                assert(pop_first_scalar(bytes)[0] == bytes[1]);
            }
        }
    } else {
        lemma_ascii_boundary(pop_first_scalar(bytes), offset - first);
    }
}

proof fn lemma_decoded_length(bytes: Seq<u8>)
    requires
        valid_utf8(bytes),
    ensures
        decode_utf8(bytes).len() <= bytes.len(),
    decreases bytes.len(),
{
    if bytes.len() > 0 {
        lemma_decoded_length(pop_first_scalar(bytes));
    }
}

proof fn lemma_width_bound(chars: Seq<char>)
    ensures
        width(chars) <= 4 * chars.len(),
    decreases chars.len(),
{
    if chars.len() > 0 {
        lemma_width_bound(chars.drop_last());
    }
}

/// What `line_and_column` and `diagnostic_excerpt` need to know of one line of a text.
proof fn lemma_line(bytes: Seq<u8>, at: int)
    requires
        valid_utf8(bytes),
        0 <= at <= bytes.len(),
        boundary(bytes, at),
    ensures
        0 <= line_start(bytes, at) <= at,
        line_start(bytes, at) <= line_end(bytes, line_start(bytes, at)) <= bytes.len(),
        boundary(bytes, line_start(bytes, at)),
        boundary(bytes, line_end(bytes, line_start(bytes, at))),
{
    let start = line_start(bytes, at);
    lemma_line_start_bounds(bytes, at);
    lemma_line_stop_bounds(bytes, start);
    lemma_boundary_start(bytes);
    if start > 0 {
        lemma_ascii_boundary(bytes, start - 1);
    }
    let stop = line_stop(bytes, start);
    if stop < bytes.len() {
        lemma_ascii_boundary(bytes, stop);
    }
    if stop > start && bytes[stop - 1] == CARRIAGE_RETURN {
        lemma_ascii_boundary(bytes, stop - 1);
    }
}

/// The display width of a piece of text.
fn display_width(text: &str) -> (result: usize)
    requires
        4 * text@.len() <= usize::MAX,
    ensures
        result == width(text@),
{
    let mut total: usize = 0;
    for character in it: text.chars()
        invariant
            it.seq() == text@,
            4 * text@.len() <= usize::MAX,
            total == width(text@.take(it.index())),
    {
        proof {
            lemma_width_bound(text@.take(it.index()));
            assert(text@.take(it.index() + 1).drop_last() =~= text@.take(it.index()));
        }
        if character == '\t' {
            total = total + 4;
        } else {
            total = total + 1;
        }
    }
    assert(text@.take(text@.len() as int) =~= text@);
    total
}

/// A copy of the text in which each tab is four spaces.
fn with_expanded_tabs(text: &str) -> (result: String)
    ensures
        result@ == expand_tabs(text@),
{
    let mut shown = String::new();
    for character in it: text.chars()
        invariant
            it.seq() == text@,
            shown@ == expand_tabs(text@.take(it.index())),
    {
        proof {
            assert(text@.take(it.index() + 1).drop_last() =~= text@.take(it.index()));
        }
        if character == '\t' {
            shown.append("    ");
            proof {
                reveal_strlit("    ");
                assert("    "@ =~= seq![' ', ' ', ' ', ' ']);
            }
        } else {
            shown.push(character);
        }
    }
    assert(text@.take(text@.len() as int) =~= text@);
    shown
}

/// Where each line of the text starts, in order.
fn find_line_starts(text: &str) -> (result: Vec<usize>)
    requires
        encode_utf8(text@).len() < usize::MAX,
    ensures
        lists_line_starts(encode_utf8(text@), result@, encode_utf8(text@).len() as int),
{
    let bytes = text.as_bytes();
    let mut starts: Vec<usize> = vec![0];
    let mut offset: usize = 0;
    while offset < bytes.len()
        invariant
            bytes@ == encode_utf8(text@),
            bytes@.len() < usize::MAX,
            offset <= bytes@.len(),
            lists_line_starts(bytes@, starts@, offset as int),
        decreases bytes@.len() - offset,
    {
        if bytes[offset] == NEWLINE {
            starts.push(offset + 1);
        }
        offset = offset + 1;
    }
    starts
}

/// What was found at the path of a source file. The errors are those of the host, as it shows them.
#[derive(Debug)]
pub enum Found {
    /// Nothing that can be looked at.
    Inaccessible(String),
    /// A directory, or something else that is no regular file.
    NotRegular,
    /// A regular file that could not be read.
    Unreadable(String),
    /// A regular file with its bytes.
    Regular(Vec<u8>),
}

/// How many bytes at the start are valid UTF-8, at most.
pub open spec fn valid_up_to(bytes: Seq<u8>, count: int) -> bool {
    &&& 0 <= count <= bytes.len()
    &&& valid_utf8(bytes.take(count))
    &&& forall|more: int| count < more <= bytes.len() ==> !valid_utf8(#[trigger] bytes.take(more))
}

/// `String::from_utf8`: the text that valid UTF-8 encodes, else the index that `Utf8Error::valid_up_to` gives,
/// the largest one up to which the bytes are valid.
#[verifier::external_body]
fn from_utf8(bytes: Vec<u8>) -> (result: Result<String, usize>)
    ensures
        match result {
            Ok(text) => valid_utf8(bytes@) && text@ == decode_utf8(bytes@),
            Err(count) => !valid_utf8(bytes@) && valid_up_to(bytes@, count as int),
        },
{
    String::from_utf8(bytes).map_err(|error| error.utf8_error().valid_up_to())
}

/// What is said of a file that is no text.
pub open spec fn invalid_text(path: Seq<char>, count: nat) -> Seq<char> {
    "source file '"@ + path + "' is not valid UTF-8 at byte "@ + decimal(count)
}

impl SourceFile {
    /// The source file at a path, given what was found there: a regular file whose bytes are text.
    pub fn load(path: String, found: Found) -> (result: Result<Self, Diagnostic>)
        requires
            found matches Found::Regular(bytes) ==> 4 * bytes@.len() < usize::MAX,
        ensures
            match found {
                Found::Inaccessible(error) => result is Err && result->Err_0@ == plain(
                    DiagnosticKind::Input,
                    "cannot access '"@ + path@ + "': "@ + error@,
                ),
                Found::NotRegular => result is Err && result->Err_0@ == plain(
                    DiagnosticKind::Input,
                    "source path '"@ + path@ + "' is not a regular file"@,
                ),
                Found::Unreadable(error) => result is Err && result->Err_0@ == plain(
                    DiagnosticKind::Input,
                    "cannot read '"@ + path@ + "': "@ + error@,
                ),
                Found::Regular(bytes) => match result {
                    Ok(source) => valid_utf8(bytes@) && source.wf() && source.path@ == path@ && source.bytes()
                        == bytes@ && source.text@ == decode_utf8(bytes@),
                    Err(diagnostic) => !valid_utf8(bytes@) && exists|count: nat| #[trigger]
                        valid_up_to(bytes@, count as int) && diagnostic@ == plain(
                            DiagnosticKind::Input,
                            invalid_text(path@, count),
                        ),
                },
            },
    {
        match found {
            Found::Inaccessible(error) => {
                let mut message = "cannot access '".to_owned();
                message.append(path.as_str());
                message.append("': ");
                message.append(error.as_str());
                Err(Diagnostic::input(message))
            },
            Found::NotRegular => {
                let mut message = "source path '".to_owned();
                message.append(path.as_str());
                message.append("' is not a regular file");
                Err(Diagnostic::input(message))
            },
            Found::Unreadable(error) => {
                let mut message = "cannot read '".to_owned();
                message.append(path.as_str());
                message.append("': ");
                message.append(error.as_str());
                Err(Diagnostic::input(message))
            },
            Found::Regular(bytes) => {
                let ghost read = bytes@;
                match from_utf8(bytes) {
                    Ok(text) => {
                        proof {
                            decode_utf8_encode_utf8(read);
                        }
                        Ok(SourceFile::new(path, text))
                    },
                    Err(count) => {
                        let mut message = "source file '".to_owned();
                        message.append(path.as_str());
                        message.append("' is not valid UTF-8 at byte ");
                        push_decimal(&mut message, count);
                        assert(message@ == invalid_text(path@, count as nat));
                        assert(valid_up_to(read, (count as nat) as int));
                        Err(Diagnostic::input(message))
                    },
                }
            },
        }
    }

    pub fn new(path: String, text: String) -> (result: Self)
        requires
            text_fits(text@),
        ensures
            result.wf(),
            result.path@ == path@,
            result.text@ == text@,
    {
        let line_starts = find_line_starts(text.as_str());
        Self { path, text, line_starts }
    }

    /// Returns a one-based line and display column for a byte offset.
    pub fn line_and_column(&self, offset: usize) -> (result: (usize, usize))
        requires
            self.wf(),
        ensures
            (result.0 as nat, result.1 as nat) == location(self.bytes(), offset as int),
    {
        let offset = self.valid_offset(offset);
        let ghost bytes = self.bytes();
        proof {
            encode_utf8_valid_utf8(self.text@);
            lemma_line(bytes, offset as int);
        }
        let line_index: usize = self.line_index(offset);
        let start: usize = self.line_starts[line_index];
        let line_end: usize = self.line_end(line_index);
        let position: usize = if offset < line_end {
            offset
        } else {
            line_end
        };
        let before = slice(self.text.as_str(), start, position);
        proof {
            self.lemma_fits(before@, start as int, position as int);
        }
        let column = display_width(before) + 1;
        (line_index + 1, column)
    }

    /// The line of a span and where the carets go under it.
    pub fn diagnostic_excerpt(&self, span: Span) -> (result: DiagnosticExcerpt)
        requires
            self.wf(),
        ensures
            result@ == excerpt(self.bytes(), span),
    {
        let ghost bytes = self.bytes();
        let start = self.valid_offset(span.start);
        let wanted: usize = if span.end < start {
            start
        } else {
            span.end
        };
        let end = self.valid_offset(wanted);
        proof {
            encode_utf8_valid_utf8(self.text@);
            lemma_line(bytes, start as int);
        }
        let line_index: usize = self.line_index(start);
        let line_start: usize = self.line_starts[line_index];
        let line_end: usize = self.line_end(line_index);
        let line = slice(self.text.as_str(), line_start, line_end);
        let source_line = with_expanded_tabs(line);
        let caret_start: usize = if start < line_end {
            start
        } else {
            line_end
        };
        let reach: usize = if end < caret_start {
            caret_start
        } else {
            end
        };
        let caret_end: usize = if reach < line_end {
            reach
        } else {
            line_end
        };
        let before = slice(self.text.as_str(), line_start, caret_start);
        let under = slice(self.text.as_str(), caret_start, caret_end);
        proof {
            self.lemma_fits(before@, line_start as int, caret_start as int);
            self.lemma_fits(under@, caret_start as int, caret_end as int);
        }
        let caret_offset = display_width(before);
        let under_width = display_width(under);
        let caret_width: usize = if under_width < 1 {
            1
        } else {
            under_width
        };
        DiagnosticExcerpt {
            line: line_index + 1,
            column: caret_offset + 1,
            source_line,
            caret_offset,
            caret_width,
        }
    }

    proof fn lemma_fits(&self, part: Seq<char>, start: int, end: int)
        requires
            self.wf(),
            0 <= start <= end <= self.bytes().len(),
            encode_utf8(part) == self.bytes().subrange(start, end),
        ensures
            4 * part.len() < usize::MAX,
            width(part) < usize::MAX,
    {
        encode_utf8_valid_utf8(part);
        encode_utf8_decode_utf8(part);
        lemma_decoded_length(encode_utf8(part));
        lemma_width_bound(part);
    }

    fn line_end(&self, line_index: usize) -> (result: usize)
        requires
            self.wf(),
            line_index < self.line_starts@.len(),
        ensures
            result == line_end(self.bytes(), self.line_starts@[line_index as int] as int),
    {
        let bytes = self.text.as_str().as_bytes();
        let line_start: usize = self.line_starts[line_index];
        let mut stop: usize = line_start;
        while stop < bytes.len() && bytes[stop] != NEWLINE
            invariant
                bytes@ == self.bytes(),
                line_start <= stop <= bytes@.len(),
                line_stop(bytes@, stop as int) == line_stop(bytes@, line_start as int),
            decreases bytes@.len() - stop,
        {
            stop = stop + 1;
        }
        if stop > line_start && bytes[stop - 1] == CARRIAGE_RETURN {
            stop - 1
        } else {
            stop
        }
    }

    fn line_index(&self, offset: usize) -> (result: usize)
        requires
            self.wf(),
            offset <= self.bytes().len(),
        ensures
            result < self.line_starts.len(),
            result == newlines_before(self.bytes(), offset as int),
            self.line_starts@[result as int] == line_start(self.bytes(), offset as int),
    {
        let ghost bytes = self.bytes();
        let mut low: usize = 0;
        let mut high: usize = self.line_starts.len();
        while high - low > 1
            invariant
                self.wf(),
                bytes == self.bytes(),
                offset <= bytes.len(),
                low < high <= self.line_starts@.len(),
                self.line_starts@[low as int] <= offset,
                high < self.line_starts@.len() ==> self.line_starts@[high as int] > offset,
            decreases high - low,
        {
            let middle: usize = low + (high - low) / 2;
            if self.line_starts[middle] <= offset {
                low = middle;
            } else {
                high = middle;
            }
        }
        proof {
            lemma_newlines_monotone(bytes, self.line_starts@[low as int] as int, offset as int);
            if high < self.line_starts@.len() {
                let next = self.line_starts@[high as int] as int;
                lemma_newlines_monotone(bytes, offset as int, next - 1);
            } else {
                lemma_newlines_monotone(bytes, offset as int, bytes.len() as int);
            }
            lemma_line_start(bytes, self.line_starts@[low as int] as int, offset as int);
        }
        low
    }

    fn valid_offset(&self, offset: usize) -> (result: usize)
        requires
            self.wf(),
        ensures
            result == clamped(self.bytes(), offset as int),
            result <= self.bytes().len(),
            boundary(self.bytes(), result as int),
    {
        let length: usize = self.text.as_str().len();
        let mut offset: usize = if offset < length {
            offset
        } else {
            length
        };
        let ghost bytes = self.bytes();
        let ghost wanted = offset as int;
        proof {
            encode_utf8_valid_utf8(self.text@);
            lemma_boundary_start(bytes);
            lemma_boundary(bytes, offset as int);
        }
        while !self.text.as_str().is_char_boundary(offset)
            invariant
                bytes == self.bytes(),
                valid_utf8(bytes),
                boundary(bytes, 0),
                offset <= bytes.len(),
                floor_boundary(bytes, offset as int) == floor_boundary(bytes, wanted),
                boundary(bytes, offset as int) == is_char_boundary(bytes, offset as int),
            decreases offset,
        {
            offset = offset - 1;
            proof {
                lemma_boundary(bytes, offset as int);
            }
        }
        offset
    }
}

/// The line of a span as a diagnostic shows it.
#[derive(Clone, Debug, Eq, PartialEq)]
pub struct DiagnosticExcerpt {
    pub line: usize,
    pub column: usize,
    pub source_line: String,
    pub caret_offset: usize,
    pub caret_width: usize,
}

impl DiagnosticExcerpt {
    pub open spec fn view(&self) -> ExcerptView {
        ExcerptView {
            line: self.line as nat,
            column: self.column as nat,
            source_line: self.source_line@,
            caret_offset: self.caret_offset as nat,
            caret_width: self.caret_width as nat,
        }
    }
}

} // verus!
