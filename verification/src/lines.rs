//! Splitting a buffer of bytes into lines.
//!
//! A line ends at a line feed; a carriage return right before that line feed
//! belongs to the line ending. What follows the last line feed is a line of
//! its own unless it is empty.

use vstd::prelude::*;
use vstd::slice::slice_subrange;
use vstd::utf8::{
    is_char_boundary_iff_not_is_continuation_byte, pop_first_scalar, valid_utf8,
    valid_utf8_concat, valid_utf8_split,
};

verus! {

/// The line feed.
pub const LINE_FEED: u8 = 10;

/// The carriage return.
pub const CARRIAGE_RETURN: u8 = 13;

/// The number of bytes in front of the first line feed, or the length of
/// `bytes` where there is none.
pub open spec fn line_length(bytes: Seq<u8>) -> nat
    decreases bytes.len(),
{
    if bytes.len() == 0 || bytes[0] == LINE_FEED {
        0
    } else {
        1 + line_length(bytes.drop_first())
    }
}

/// A terminated line without the carriage return of its line ending.
pub open spec fn trimmed(line: Seq<u8>) -> Seq<u8> {
    if line.len() > 0 && line.last() == CARRIAGE_RETURN {
        line.drop_last()
    } else {
        line
    }
}

/// The lines of `bytes`, in order, without their line endings.
pub open spec fn lines_of(bytes: Seq<u8>) -> Seq<Seq<u8>>
    decreases bytes.len(),
{
    if bytes.len() == 0 {
        Seq::empty()
    } else {
        let n = line_length(bytes);
        if n >= bytes.len() {
            seq![bytes]
        } else {
            seq![trimmed(bytes.take(n as int))] + lines_of(bytes.skip(n as int + 1))
        }
    }
}

/// Whether `bytes` ends with a line feed, that is, with a complete line.
pub open spec fn terminated(bytes: Seq<u8>) -> bool {
    bytes.len() > 0 && bytes.last() == LINE_FEED
}

/// The views of a sequence of slices.
pub open spec fn slices(lines: Seq<&[u8]>) -> Seq<Seq<u8>> {
    lines.map_values(|line: &[u8]| line@)
}

/// What [`line_length`] counts: the bytes up to the first line feed.
pub proof fn lemma_line_length(bytes: Seq<u8>)
    ensures
        line_length(bytes) <= bytes.len(),
        forall|k: int| 0 <= k < line_length(bytes) ==> bytes[k] != LINE_FEED,
        line_length(bytes) < bytes.len() ==> bytes[line_length(bytes) as int] == LINE_FEED,
    decreases bytes.len(),
{
    if bytes.len() == 0 || bytes[0] == LINE_FEED {
    } else {
        let rest = bytes.drop_first();
        lemma_line_length(rest);
        assert forall|k: int| 0 <= k < line_length(bytes) implies bytes[k] != LINE_FEED by {
            if k > 0 {
                assert(rest[k - 1] == bytes[k]);
            }
        }
        if line_length(bytes) < bytes.len() {
            assert(rest[line_length(rest) as int] == bytes[line_length(bytes) as int]);
        }
    }
}

/// Whether every line is valid UTF-8.
pub open spec fn all_text(lines: Seq<Seq<u8>>) -> bool {
    forall|i: int| 0 <= i < lines.len() ==> valid_utf8(#[trigger] lines[i])
}

/// A single ASCII byte is valid UTF-8.
proof fn lemma_ascii_byte_is_text(byte: u8)
    requires
        byte < 0x80,
    ensures
        valid_utf8(seq![byte]),
{
    let bytes = seq![byte];
    assert(byte & 0x7f <= 0x7f) by (bit_vector);
    assert(pop_first_scalar(bytes) =~= Seq::<u8>::empty());
    reveal_with_fuel(valid_utf8, 2);
}

/// Valid UTF-8 falls apart at an ASCII byte into valid UTF-8 in front of the
/// byte and valid UTF-8 behind it.
proof fn lemma_text_splits_at_ascii(bytes: Seq<u8>, at: int)
    requires
        valid_utf8(bytes),
        0 <= at < bytes.len(),
        bytes[at] < 0x80,
    ensures
        valid_utf8(bytes.take(at)),
        valid_utf8(bytes.skip(at + 1)),
{
    is_char_boundary_iff_not_is_continuation_byte(bytes, at);
    valid_utf8_split(bytes, at);
    let behind = bytes.subrange(at, bytes.len() as int);
    assert(bytes.take(at) =~= bytes.subrange(0, at));
    assert(behind[0] == bytes[at]);
    assert(pop_first_scalar(behind) =~= bytes.skip(at + 1));
}

/// Valid UTF-8 around an ASCII byte is valid UTF-8 as a whole.
proof fn lemma_text_joins_at_ascii(front: Seq<u8>, byte: u8, behind: Seq<u8>)
    requires
        valid_utf8(front),
        byte < 0x80,
        valid_utf8(behind),
    ensures
        valid_utf8(front + seq![byte] + behind),
{
    lemma_ascii_byte_is_text(byte);
    valid_utf8_concat(front, seq![byte]);
    valid_utf8_concat(front + seq![byte], behind);
}

/// The lines of a buffer are valid UTF-8 exactly if the buffer is: a line
/// ending never falls inside the encoding of a character.
pub proof fn lemma_lines_are_text_iff_buffer_is(bytes: Seq<u8>)
    ensures
        all_text(lines_of(bytes)) <==> valid_utf8(bytes),
    decreases bytes.len(),
{
    if bytes.len() == 0 {
    } else {
        let n = line_length(bytes) as int;
        lemma_line_length(bytes);
        if n >= bytes.len() {
            assert(lines_of(bytes)[0] == bytes);
        } else {
            let head = bytes.take(n);
            let rest = bytes.skip(n + 1);
            let lines = lines_of(bytes);
            lemma_lines_are_text_iff_buffer_is(rest);
            assert(lines[0] == trimmed(head));
            assert forall|i: int| 0 <= i < lines_of(rest).len() implies lines[i + 1] == lines_of(
                rest,
            )[i] by {}
            assert(bytes =~= head + seq![LINE_FEED] + rest);
            let cut = head.len() > 0 && head.last() == CARRIAGE_RETURN;
            if cut {
                assert(head =~= trimmed(head) + seq![CARRIAGE_RETURN] + Seq::<u8>::empty());
            }
            if valid_utf8(bytes) {
                lemma_text_splits_at_ascii(bytes, n);
                if cut {
                    lemma_text_splits_at_ascii(head, head.len() - 1);
                    assert(head.take(head.len() - 1) =~= trimmed(head));
                }
                assert forall|i: int| 0 <= i < lines.len() implies valid_utf8(
                    #[trigger] lines[i],
                ) by {
                    if i > 0 {
                        assert(lines[i] == lines_of(rest)[i - 1]);
                    }
                }
            }
            if all_text(lines) {
                assert(valid_utf8(lines[0]));
                assert forall|i: int| 0 <= i < lines_of(rest).len() implies valid_utf8(
                    #[trigger] lines_of(rest)[i],
                ) by {
                    assert(lines[i + 1] == lines_of(rest)[i]);
                }
                if cut {
                    assert(valid_utf8(Seq::<u8>::empty()));
                    lemma_text_joins_at_ascii(
                        trimmed(head),
                        CARRIAGE_RETURN,
                        Seq::<u8>::empty(),
                    );
                }
                lemma_text_joins_at_ascii(head, LINE_FEED, rest);
            }
        }
    }
}

/// Whether `bytes` ends with a line feed.
pub fn is_terminated(bytes: &[u8]) -> (complete: bool)
    ensures
        complete == terminated(bytes@),
{
    let n = bytes.len();
    n > 0 && bytes[n - 1] == LINE_FEED
}

/// The end of the line that starts at `start`: the position of the next line
/// feed, or the length of `bytes`. A start behind the end of `bytes` gives
/// the length of `bytes`.
pub fn line_end(bytes: &[u8], start: usize) -> (end: usize)
    ensures
        end <= bytes.len(),
        end == if start <= bytes.len() {
            start + line_length(bytes@.skip(start as int))
        } else {
            bytes@.len() as int
        },
{
    if start > bytes.len() {
        return bytes.len();
    }
    let mut end = start;
    while end < bytes.len() && bytes[end] != LINE_FEED
        invariant
            start <= end <= bytes.len(),
            line_length(bytes@.skip(start as int)) == (end - start) + line_length(
                bytes@.skip(end as int),
            ),
        decreases bytes.len() - end,
    {
        assert(bytes@.skip(end as int).drop_first() =~= bytes@.skip(end as int + 1));
        end += 1;
    }
    end
}

/// Splits `bytes` into its lines. The lines borrow from `bytes`.
pub fn split_lines<'a>(bytes: &'a [u8]) -> (lines: Vec<&'a [u8]>)
    ensures
        slices(lines@) == lines_of(bytes@),
{
    let mut lines: Vec<&'a [u8]> = Vec::new();
    let mut start: usize = 0;
    assert(bytes@.skip(0) =~= bytes@);
    while start < bytes.len()
        invariant
            start <= bytes.len(),
            lines_of(bytes@) == slices(lines@) + lines_of(bytes@.skip(start as int)),
        decreases bytes.len() - start,
    {
        let ghost rest = bytes@.skip(start as int);
        let ghost done = slices(lines@);
        let end = line_end(bytes, start);
        if end == bytes.len() {
            lines.push(slice_subrange(bytes, start, end));
            proof {
                assert(bytes@.subrange(start as int, end as int) =~= rest);
                assert(slices(lines@) =~= done.push(rest));
                assert(lines_of(bytes@.skip(end as int)) =~= Seq::<Seq<u8>>::empty());
                assert(lines_of(rest) =~= seq![rest]);
            }
            start = end;
        } else {
            let mut stop = end;
            if stop > start && bytes[stop - 1] == CARRIAGE_RETURN {
                stop = stop - 1;
            }
            lines.push(slice_subrange(bytes, start, stop));
            proof {
                let n = line_length(rest);
                assert(rest.take(n as int) =~= bytes@.subrange(start as int, end as int));
                assert(trimmed(rest.take(n as int)) =~= bytes@.subrange(start as int, stop as int));
                assert(rest.skip(n as int + 1) =~= bytes@.skip(end as int + 1));
                assert(slices(lines@) =~= done.push(trimmed(rest.take(n as int))));
                assert(lines_of(rest) =~= seq![trimmed(rest.take(n as int))] + lines_of(
                    rest.skip(n as int + 1),
                ));
            }
            start = end + 1;
        }
    }
    proof {
        assert(lines_of(bytes@.skip(start as int)) =~= Seq::<Seq<u8>>::empty());
    }
    lines
}

} // verus!
