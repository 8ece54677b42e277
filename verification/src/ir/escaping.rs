//! What holds of the bytes of a text as they are shown between quotes.

use crate::ir::rendering::{escape_bytes_text, escaped, escaped_byte, hex_digit, hexadecimal};
use vstd::prelude::*;

verus! {

/// The shape of what stands for one byte: the byte itself, or a backslash with a letter that tells it, or a
/// backslash with `x` and two digits that tell it.
proof fn lemma_byte(byte: u8)
    ensures
        escaped_byte(byte).len() > 0,
        byte == 92 ==> escaped_byte(byte) == seq!['\\', '\\'],
        byte == 34 ==> escaped_byte(byte) == seq!['\\', '"'],
        byte == 39 ==> escaped_byte(byte) == seq!['\\', '\''],
        byte == 10 ==> escaped_byte(byte) == seq!['\\', 'n'],
        byte == 13 ==> escaped_byte(byte) == seq!['\\', 'r'],
        byte == 9 ==> escaped_byte(byte) == seq!['\\', 't'],
        byte == 0 ==> escaped_byte(byte) == seq!['\\', '0'],
        0x20 <= byte <= 0x7e && byte != 92 && byte != 34 && byte != 39 ==> escaped_byte(byte) == seq![byte as char],
        (byte < 0x20 || byte > 0x7e) && byte != 10 && byte != 13 && byte != 9 && byte != 0 ==> escaped_byte(byte)
            == seq!['\\', 'x', hex_digit((byte / 16) as nat), hex_digit((byte % 16) as nat)],
{
    reveal_strlit("\\\\");
    reveal_strlit("\\\"");
    reveal_strlit("\\'");
    reveal_strlit("\\n");
    reveal_strlit("\\r");
    reveal_strlit("\\t");
    reveal_strlit("\\0");
    reveal_strlit("\\x");
    assert("\\\\"@ =~= seq!['\\', '\\']);
    assert("\\\""@ =~= seq!['\\', '"']);
    assert("\\'"@ =~= seq!['\\', '\'']);
    assert("\\n"@ =~= seq!['\\', 'n']);
    assert("\\r"@ =~= seq!['\\', 'r']);
    assert("\\t"@ =~= seq!['\\', 't']);
    assert("\\0"@ =~= seq!['\\', '0']);
    reveal_with_fuel(hexadecimal, 3);
    let value = byte as nat;
    assert(value / 16 % 16 == value / 16);
    assert(hexadecimal(value, 2) =~= seq![hex_digit(value / 16), hex_digit(value % 16)]);
    assert("\\x"@ + hexadecimal(value, 2) =~= seq![
        '\\',
        'x',
        hex_digit((byte / 16) as nat),
        hex_digit((byte % 16) as nat),
    ]);
}

/// A hexadecimal digit tells its value.
proof fn lemma_digit(left: nat, right: nat)
    requires
        left < 16,
        right < 16,
    ensures
        hex_digit(left) == hex_digit(right) ==> left == right,
        0x30 <= hex_digit(left) as u32 <= 0x66,
{
}

/// What stands for one byte and what follows it tell the byte.
proof fn lemma_distinct(left: u8, right: u8, more: Seq<char>, others: Seq<char>)
    requires
        escaped_byte(left) + more == escaped_byte(right) + others,
    ensures
        left == right,
        more == others,
{
    lemma_byte(left);
    lemma_byte(right);
    let a = escaped_byte(left) + more;
    let b = escaped_byte(right) + others;
    assert(a[0] == b[0]);
    assert(a[0] == escaped_byte(left)[0]);
    assert(b[0] == escaped_byte(right)[0]);
    if escaped_byte(left).len() > 1 {
        assert(escaped_byte(right).len() > 1);
        assert(a[1] == escaped_byte(left)[1]);
        assert(b[1] == escaped_byte(right)[1]);
        if escaped_byte(left).len() == 4 {
            assert(escaped_byte(right).len() == 4);
            assert(a[2] == escaped_byte(left)[2]);
            assert(b[2] == escaped_byte(right)[2]);
            assert(a[3] == escaped_byte(left)[3]);
            assert(b[3] == escaped_byte(right)[3]);
            lemma_digit((left / 16) as nat, (right / 16) as nat);
            lemma_digit((left % 16) as nat, (right % 16) as nat);
            assert(left == left / 16 * 16 + left % 16);
            assert(right == right / 16 * 16 + right % 16);
        }
    }
    assert(left == right);
    let length = escaped_byte(left).len() as int;
    assert(more =~= a.subrange(length, a.len() as int));
    assert(others =~= b.subrange(length, b.len() as int));
}

proof fn lemma_join(first: Seq<u8>, second: Seq<u8>, count: nat)
    requires
        count <= second.len(),
    ensures
        escaped(first + second, first.len() + count) == escaped(first, first.len()) + escaped(second, count),
    decreases count,
{
    if count == 0 {
        lemma_prefix(first, second, first.len());
        assert(escaped(first, first.len()) + escaped(second, 0) =~= escaped(first, first.len()));
    } else {
        lemma_join(first, second, (count - 1) as nat);
        assert((first + second)[first.len() + count - 1] == second[count - 1]);
        assert(first.len() + count - 1 == first.len() + (count - 1));
        assert(escaped(first + second, first.len() + count) =~= escaped(first, first.len()) + escaped(second, count));
    }
}

proof fn lemma_prefix(first: Seq<u8>, second: Seq<u8>, count: nat)
    requires
        count <= first.len(),
    ensures
        escaped(first + second, count) == escaped(first, count),
    decreases count,
{
    if count > 0 {
        lemma_prefix(first, second, (count - 1) as nat);
    }
}

/// Bytes in a row are shown in a row, and no bytes as nothing.
pub proof fn law_escaping_joins(first: Seq<u8>, second: Seq<u8>)
    ensures
        escape_bytes_text(first + second) == escape_bytes_text(first) + escape_bytes_text(second),
        escape_bytes_text(Seq::empty()) == Seq::<char>::empty(),
{
    lemma_join(first, second, second.len());
}

proof fn lemma_first(bytes: Seq<u8>)
    requires
        bytes.len() > 0,
    ensures
        escape_bytes_text(bytes) == escaped_byte(bytes[0]) + escape_bytes_text(bytes.drop_first()),
{
    assert(bytes =~= seq![bytes[0]] + bytes.drop_first());
    law_escaping_joins(seq![bytes[0]], bytes.drop_first());
    reveal_with_fuel(escaped, 2);
    assert(escape_bytes_text(seq![bytes[0]]) =~= escaped_byte(bytes[0]));
}

/// Nothing is lost: what is shown tells the bytes.
pub proof fn law_escaping_is_faithful(left: Seq<u8>, right: Seq<u8>)
    ensures
        escape_bytes_text(left) == escape_bytes_text(right) <==> left == right,
    decreases left.len(),
{
    if escape_bytes_text(left) == escape_bytes_text(right) {
        if left.len() > 0 {
            lemma_first(left);
            lemma_byte(left[0]);
        }
        if right.len() > 0 {
            lemma_first(right);
            lemma_byte(right[0]);
        }
        if left.len() > 0 && right.len() > 0 {
            let more = escape_bytes_text(left.drop_first());
            let others = escape_bytes_text(right.drop_first());
            lemma_distinct(left[0], right[0], more, others);
            law_escaping_is_faithful(left.drop_first(), right.drop_first());
            assert(left =~= seq![left[0]] + left.drop_first());
            assert(right =~= seq![right[0]] + right.drop_first());
        } else {
            assert(left.len() == right.len());
            assert(left =~= right);
        }
    }
}

/// Whether a text can stand between quotes: it holds printable ASCII only, and every quote in it follows a backslash.
pub open spec fn quotable(text: Seq<char>) -> bool {
    &&& forall|i: int| 0 <= i < text.len() ==> 0x20 <= (#[trigger] text[i]) as u32 <= 0x7e
    &&& forall|i: int|
        0 <= i < text.len() && ((#[trigger] text[i]) == '"' || text[i] == '\'') ==> i > 0 && text[i - 1] == '\\'
}

/// What is shown can stand between quotes.
pub proof fn law_escaping_is_quotable(bytes: Seq<u8>)
    ensures
        quotable(escape_bytes_text(bytes)),
    decreases bytes.len(),
{
    if bytes.len() > 0 {
        let last = bytes.last();
        let rest = bytes.drop_last();
        law_escaping_is_quotable(rest);
        lemma_byte(last);
        lemma_digit((last / 16) as nat, 0);
        lemma_digit((last % 16) as nat, 0);
        lemma_prefix(rest, seq![last], rest.len());
        assert(rest + seq![last] =~= bytes);
        let before = escape_bytes_text(rest);
        let shown = escaped_byte(last);
        assert(escape_bytes_text(bytes) == before + shown);
        assert forall|i: int| 0 <= i < (before + shown).len() implies 0x20 <= (
        #[trigger] (before + shown)[i]) as u32 <= 0x7e by {
            if i >= before.len() {
                assert((before + shown)[i] == shown[i - before.len()]);
            } else {
                assert((before + shown)[i] == before[i]);
            }
        }
        assert forall|i: int|
            0 <= i < (before + shown).len() && ((#[trigger] (before + shown)[i]) == '"' || (before + shown)[i]
                == '\'') implies i > 0 && (before + shown)[i - 1] == '\\' by {
            if i >= before.len() {
                assert((before + shown)[i] == shown[i - before.len()]);
                assert(i > before.len());
                assert((before + shown)[i - 1] == shown[i - 1 - before.len()]);
            } else {
                assert((before + shown)[i] == before[i]);
                assert((before + shown)[i - 1] == before[i - 1]);
            }
        }
    }
}

} // verus!
