//! Segment-node words and alignment arithmetic.
//!
//! Every free segment hosts a single 64-bit word at its first 8-aligned
//! offset. The word packs the offset of the next node in the high half and
//! a segment size in the low half; the pair `(u32::MAX, u32::MAX)` marks
//! the end of the list (and, in the sentinel, the empty list).

use vstd::prelude::*;

verus! {

/// Spec-level packing of `(next, size)` into one node word.
pub open spec fn spec_encode_segment_node(next: u32, size: u32) -> u64 {
    ((next as u64) << 32u64) | (size as u64)
}

/// High half of a node word: the offset of the next node.
pub open spec fn spec_node_next(val: u64) -> u32 {
    (val >> 32u64) as u32
}

/// Low half of a node word: the recorded segment size.
pub open spec fn spec_node_size(val: u64) -> u32 {
    val as u32
}

/// The word that marks the end of the list / the empty sentinel.
pub open spec fn spec_terminal_node() -> u64 {
    spec_encode_segment_node(u32::MAX, u32::MAX)
}

/// Packs the next-offset and size halves into a node word.
pub fn encode_segment_node(next: u32, size: u32) -> (r: u64)
    ensures
        r == spec_encode_segment_node(next, size),
{
    ((next as u64) << 32u64) | (size as u64)
}

/// Splits a node word into its `(next, size)` halves.
pub fn decode_segment_node(val: u64) -> (r: (u32, u32))
    ensures
        r.0 == spec_node_next(val),
        r.1 == spec_node_size(val),
{
    ((val >> 32u64) as u32, val as u32)
}

/// Packing then splitting gives the halves back, and a word is determined
/// by its two halves.
pub proof fn lemma_segment_node_codec(next: u32, size: u32, val: u64)
    by (bit_vector)
    ensures
        spec_node_next(spec_encode_segment_node(next, size)) == next,
        spec_node_size(spec_encode_segment_node(next, size)) == size,
        spec_encode_segment_node(spec_node_next(val), spec_node_size(val)) == val,
{
}

/// Smallest multiple of `align` at or above `off`.
pub open spec fn spec_align_up(off: int, align: int) -> int
    recommends
        align >= 1,
{
    if off % align == 0 {
        off
    } else {
        off + (align - off % align)
    }
}

/// Basic bounds of [`spec_align_up`]: the result is a multiple of `align`
/// within `align - 1` bytes above `off`.
pub proof fn lemma_align_up(off: int, align: int)
    requires
        0 <= off,
        1 <= align,
    ensures
        off <= spec_align_up(off, align) < off + align,
        spec_align_up(off, align) % align == 0,
{
    let r = off % align;
    vstd::arithmetic::div_mod::lemma_fundamental_div_mod(off, align);
    vstd::arithmetic::div_mod::lemma_mod_bound(off, align);
    if r != 0 {
        let q = off / align;
        assert(off + (align - r) == (q + 1) * align) by (nonlinear_arith)
            requires
                off == align * q + r,
        ;
        vstd::arithmetic::div_mod::lemma_mod_multiples_basic(q + 1, align);
    }
}

/// Rounds `off` up to the next multiple of `align`.
pub fn align_up(off: u64, align: u64) -> (r: u64)
    requires
        1 <= align,
        off + align <= u64::MAX,
    ensures
        r == spec_align_up(off as int, align as int),
        off <= r < off + align,
        r % align == 0,
{
    proof {
        lemma_align_up(off as int, align as int);
    }
    let rem = off % align;
    if rem == 0 {
        off
    } else {
        off + (align - rem)
    }
}

} // verus!
