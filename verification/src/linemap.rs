//! Mapping byte offsets in the source text to 1-based line numbers, by
//! counting the newline bytes before the offset.

use vstd::prelude::*;
use vstd::string::StringSliceAdditionalSpecFns;

verus! {

/// The number of newline bytes in a sequence.
pub open spec fn count_nl(bytes: Seq<u8>) -> nat
    decreases bytes.len(),
{
    if bytes.len() == 0 {
        0
    } else {
        count_nl(bytes.drop_last()) + if bytes.last() == 10 {
            1nat
        } else {
            0nat
        }
    }
}

/// The 1-based line number at byte offset `off`: one more than the number
/// of newlines before it. Offsets past the end count the whole text.
pub open spec fn line_of_offset(bytes: Seq<u8>, off: int) -> int {
    if off < 0 {
        1
    } else if off < bytes.len() {
        1 + count_nl(bytes.take(off)) as int
    } else {
        1 + count_nl(bytes) as int
    }
}

pub broadcast proof fn lemma_count_nl_le_len(bytes: Seq<u8>)
    ensures
        #[trigger] count_nl(bytes) <= bytes.len(),
    decreases bytes.len(),
{
    if bytes.len() > 0 {
        lemma_count_nl_le_len(bytes.drop_last());
    }
}

/// Counting newlines in a prefix never counts more than in the whole.
pub proof fn lemma_count_nl_prefix(bytes: Seq<u8>, i: int)
    requires
        0 <= i <= bytes.len(),
    ensures
        count_nl(bytes.take(i)) <= count_nl(bytes),
    decreases bytes.len() - i,
{
    if i < bytes.len() {
        assert(bytes.take(i + 1).drop_last() =~= bytes.take(i));
        lemma_count_nl_prefix(bytes, i + 1);
    } else {
        assert(bytes.take(i) =~= bytes);
    }
}

/// Line numbers lie between 1 and the line count of the whole text.
pub proof fn lemma_line_bounds(bytes: Seq<u8>, off: int)
    ensures
        1 <= line_of_offset(bytes, off),
        line_of_offset(bytes, off) <= 1 + count_nl(bytes),
        line_of_offset(bytes, off) <= 1 + bytes.len(),
{
    broadcast use lemma_count_nl_le_len;

    if 0 <= off < bytes.len() {
        lemma_count_nl_prefix(bytes, off);
        assert(count_nl(bytes.take(off)) <= bytes.take(off).len());
    }
}

/// Count the newline bytes among the first `end` bytes of a slice.
fn count_newlines_to(b: &[u8], end: usize) -> (count: usize)
    requires
        end <= b@.len(),
    ensures
        count as nat == count_nl(b@.take(end as int)),
{
    let mut count: usize = 0;
    for i in 0..end
        invariant
            end <= b@.len(),
            count as nat == count_nl(b@.take(i as int)),
            count <= i,
    {
        proof {
            assert(b@.take(i + 1).drop_last() =~= b@.take(i as int));
            assert(b@.take(i + 1).last() == b@[i as int]);
        }
        if b[i] == 10 {
            count = count + 1;
        }
    }
    count
}

/// The 1-based line number of a byte offset within the source, found by
/// counting the newlines up to it. Offsets past the end of the source are
/// clamped to it.
pub fn byte_offset_to_line(markdown: &str, byte_offset: usize) -> (line: usize)
    requires
        markdown.spec_bytes().len() < usize::MAX,
    ensures
        line as int == line_of_offset(markdown.spec_bytes(), byte_offset as int),
{
    let b = markdown.as_bytes();
    let end = if byte_offset < b.len() {
        byte_offset
    } else {
        b.len()
    };
    let count = count_newlines_to(b, end);
    proof {
        broadcast use lemma_count_nl_le_len;

        if byte_offset >= b@.len() {
            assert(b@.take(b@.len() as int) =~= b@);
        }
    }
    count + 1
}

/// The same computation, total over every slice: the result is returned
/// wide enough that it cannot overflow.
pub fn line_at(b: &[u8], off: usize) -> (line: u128)
    ensures
        line as int == line_of_offset(b@, off as int),
{
    let end = if off < b.len() {
        off
    } else {
        b.len()
    };
    let count = count_newlines_to(b, end);
    proof {
        if off >= b@.len() {
            assert(b@.take(b@.len() as int) =~= b@);
        }
    }
    count as u128 + 1
}

} // verus!
