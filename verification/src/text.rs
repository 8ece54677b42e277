//! Character and byte level helpers shared by every stage.

use vstd::prelude::*;
use vstd::string::*;
use vstd::utf8::*;

verus! {

/// `String::push`: appends one character to the end of the string.
pub assume_specification[ std::string::String::push ](s: &mut std::string::String, c: char)
    ensures
        final(s)@ == old(s)@.push(c),
;

/// A value that can be stored as the text of a message.
pub trait Message: Sized {
    /// The characters of the message.
    spec fn text(&self) -> Seq<char>;

    /// The message as an owned string.
    fn into_text(self) -> (result: String)
        ensures
            result@ == self.text(),
    ;
}

impl<'a> Message for &'a str {
    open spec fn text(&self) -> Seq<char> {
        self@
    }

    fn into_text(self) -> (result: String) {
        self.to_owned()
    }
}

impl Message for String {
    open spec fn text(&self) -> Seq<char> {
        self@
    }

    fn into_text(self) -> (result: String) {
        self
    }
}

/// The decimal digit with the given value.
pub open spec fn digit(value: nat) -> char {
    (48 + value) as char
}

/// The decimal spelling of a number, without leading zeros.
pub open spec fn decimal(value: nat) -> Seq<char>
    decreases value,
{
    if value < 10 {
        seq![digit(value)]
    } else {
        decimal(value / 10).push(digit(value % 10))
    }
}

/// Appends the decimal spelling of `value` to `out`.
pub fn push_decimal(out: &mut String, value: usize)
    ensures
        final(out)@ == old(out)@ + decimal(value as nat),
{
    push_number(out, value as u64);
}

fn push_number(out: &mut String, value: u64)
    ensures
        final(out)@ == old(out)@ + decimal(value as nat),
    decreases value,
{
    if value >= 10 {
        push_number(out, value / 10);
    }
    let last: u8 = 48 + (value % 10) as u8;
    out.push(last as char);
    proof {
        let rest = if value >= 10 { old(out)@ + decimal((value / 10) as nat) } else { old(out)@ };
        assert(old(out)@ + decimal(value as nat) =~= rest.push(digit((value % 10) as nat)));
    }
}

/// The decimal spelling of a signed number.
pub open spec fn signed_decimal(value: int) -> Seq<char> {
    if value < 0 {
        seq!['-'] + decimal((-value) as nat)
    } else {
        decimal(value as nat)
    }
}

/// Appends the decimal spelling of a signed number to `out`.
pub fn push_signed(out: &mut String, value: i64)
    ensures
        final(out)@ == old(out)@ + signed_decimal(value as int),
{
    if value < 0 {
        out.push('-');
        let magnitude: u64 = (-(value + 1)) as u64 + 1;
        push_number(out, magnitude);
        assert(out@ =~= old(out)@ + signed_decimal(value as int));
    } else {
        push_number(out, value as u64);
    }
}

/// A character repeated `count` times.
pub open spec fn repeated(c: char, count: nat) -> Seq<char> {
    Seq::new(count, |i: int| c)
}

/// Appends `count` copies of `c` to `out`.
pub fn push_repeated(out: &mut String, c: char, count: usize)
    ensures
        final(out)@ == old(out)@ + repeated(c, count as nat),
{
    let ghost start = out@;
    let mut written: usize = 0;
    while written < count
        invariant
            written <= count,
            out@ == start + repeated(c, written as nat),
        decreases count - written,
    {
        out.push(c);
        written = written + 1;
        assert(out@ =~= start + repeated(c, written as nat));
    }
}

/// Whether a byte offset into UTF-8 text does not fall inside a character.
pub open spec fn boundary(bytes: Seq<u8>, offset: int) -> bool {
    offset == bytes.len() || (0 <= offset < bytes.len() && !is_continuation_byte(bytes[offset]))
}

/// In valid UTF-8 the boundaries are the offsets that start a character or end the text.
pub proof fn lemma_boundary(bytes: Seq<u8>, offset: int)
    requires
        valid_utf8(bytes),
        0 <= offset <= bytes.len(),
    ensures
        boundary(bytes, offset) == is_char_boundary(bytes, offset),
{
    if offset == bytes.len() {
        is_char_boundary_start_end_of_seq(bytes);
    } else {
        is_char_boundary_iff_not_is_continuation_byte(bytes, offset);
    }
}

/// The start of valid UTF-8 text is a boundary.
pub proof fn lemma_boundary_start(bytes: Seq<u8>)
    requires
        valid_utf8(bytes),
    ensures
        boundary(bytes, 0),
{
    is_char_boundary_start_end_of_seq(bytes);
    lemma_boundary(bytes, 0);
}

/// The part of `text` between two byte offsets that are character boundaries.
pub fn slice(text: &str, start: usize, end: usize) -> (result: &str)
    requires
        start <= end <= encode_utf8(text@).len(),
        boundary(encode_utf8(text@), start as int),
        boundary(encode_utf8(text@), end as int),
    ensures
        encode_utf8(result@) == encode_utf8(text@).subrange(start as int, end as int),
        result@ == decode_utf8(encode_utf8(text@).subrange(start as int, end as int)),
{
    let ghost bytes = encode_utf8(text@);
    proof {
        encode_utf8_valid_utf8(text@);
        lemma_boundary(bytes, end as int);
    }
    let (head, _tail) = text.split_at(end);
    proof {
        encode_utf8_valid_utf8(head@);
        assert(encode_utf8(head@) == bytes.subrange(0, end as int));
        lemma_boundary(encode_utf8(head@), start as int);
    }
    let (_before, middle) = head.split_at(start);
    proof {
        assert(encode_utf8(middle@) =~= bytes.subrange(start as int, end as int));
        encode_utf8_decode_utf8(middle@);
    }
    middle
}

/// Whether two strings hold the same characters.
pub fn same_text(left: &str, right: &str) -> (result: bool)
    ensures
        result == (left@ == right@),
{
    let left_bytes = left.as_bytes();
    let right_bytes = right.as_bytes();
    proof {
        encode_utf8_decode_utf8(left@);
        encode_utf8_decode_utf8(right@);
    }
    if left_bytes.len() != right_bytes.len() {
        return false;
    }
    let mut index: usize = 0;
    while index < left_bytes.len()
        invariant
            index <= left_bytes@.len(),
            left_bytes@.len() == right_bytes@.len(),
            left_bytes@ == encode_utf8(left@),
            right_bytes@ == encode_utf8(right@),
            forall|i: int| 0 <= i < index ==> left_bytes@[i] == right_bytes@[i],
        decreases left_bytes@.len() - index,
    {
        if left_bytes[index] != right_bytes[index] {
            return false;
        }
        index = index + 1;
    }
    assert(left_bytes@ =~= right_bytes@);
    true
}

} // verus!
