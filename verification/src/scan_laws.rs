//! What holds of numbers and texts in updates.

use vstd::prelude::*;

use crate::update_scan::{is_text, signed_end, text_at, units, var_at, var_from, wide_at, wide_from};

verus! {

/// A number below 128 stands in one byte, be it read with 32 or with 64 bits.
pub proof fn lemma_one_byte(b: Seq<u8>, pos: int)
    requires
        0 <= pos < b.len(),
        b[pos] < 128,
    ensures
        var_at(b, pos) == Some((b[pos] as u32, pos + 1)),
        wide_at(b, pos) == Some((b[pos] as u64, pos + 1)),
        signed_end(b, pos, 1) == Some(pos + 1),
{
    let x = b[pos];
    assert(0u32 | (((x & 0x7f) as u32) << (0u32 % 32)) == x as u32) by (bit_vector)
        requires
            x < 128u8,
    ;
    assert(0u64 | (((x & 0x7f) as u64) << ((0u32 % 64) as u64)) == x as u64) by (bit_vector)
        requires
            x < 128u8,
    ;
}

/// A number in two bytes has its low seven bits in the first one, with the highest bit set,
/// and the others in the second.
pub proof fn lemma_two_bytes(b: Seq<u8>, pos: int)
    requires
        0 <= pos,
        pos + 1 < b.len(),
        b[pos] >= 128,
        b[pos + 1] < 128,
    ensures
        var_at(b, pos) == Some((((b[pos] - 128) + 128 * b[pos + 1]) as u32, pos + 2)),
        wide_at(b, pos) == Some((((b[pos] - 128) + 128 * b[pos + 1]) as u64, pos + 2)),
{
    let x = b[pos];
    let y = b[pos + 1];
    let v = 0u32 | (((x & 0x7f) as u32) << (0u32 % 32));
    let w = 0u64 | (((x & 0x7f) as u64) << ((0u32 % 64) as u64));
    let v2 = v | (((y & 0x7f) as u32) << (7u32 % 32));
    let w2 = w | (((y & 0x7f) as u64) << ((7u32 % 64) as u64));
    assert(v2 == (x - 128) + 128 * y) by (bit_vector)
        requires
            v == 0u32 | (((x & 0x7f) as u32) << (0u32 % 32)),
            v2 == v | (((y & 0x7f) as u32) << (7u32 % 32)),
            x >= 128u8,
            y < 128u8,
    ;
    assert(w2 == (x - 128) + 128 * y) by (bit_vector)
        requires
            w == 0u64 | (((x & 0x7f) as u64) << ((0u32 % 64) as u64)),
            w2 == w | (((y & 0x7f) as u64) << ((7u32 % 64) as u64)),
            x >= 128u8,
            y < 128u8,
    ;
    assert(var_at(b, pos) == var_from(b, pos + 1, 7, v));
    assert(wide_at(b, pos) == wide_from(b, pos + 1, 7, w));
}

/// Bytes of ASCII are a text with one unit for each.
pub proof fn lemma_ascii(b: Seq<u8>, pos: int, end: int)
    requires
        0 <= pos <= end <= b.len(),
        forall|i: int| pos <= i < end ==> #[trigger] b[i] < 128,
    ensures
        is_text(b, pos, end),
        units(b, pos, end) == end - pos,
    decreases end - pos,
{
    if pos < end {
        assert(b[pos] < 128);
        lemma_ascii(b, pos + 1, end);
    }
}

/// A short text of ASCII stands behind the number of its bytes.
pub proof fn lemma_short_text(b: Seq<u8>, pos: int)
    requires
        0 <= pos < b.len(),
        b[pos] < 128,
        pos + 1 + b[pos] <= b.len(),
        forall|i: int| pos < i < pos + 1 + b[pos] ==> #[trigger] b[i] < 128,
    ensures
        text_at(b, pos) == Some((pos + 1, pos + 1 + b[pos])),
{
    lemma_one_byte(b, pos);
    lemma_ascii(b, pos + 1, pos + 1 + b[pos]);
}

} // verus!
