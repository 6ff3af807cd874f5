//! Little-endian words stored inside the byte region.

use vstd::prelude::*;

use vstd::bytes::spec_u32_from_le_bytes;
use vstd::bytes::spec_u32_to_le_bytes;
use vstd::bytes::spec_u64_from_le_bytes;
use vstd::bytes::spec_u64_to_le_bytes;
use vstd::bytes::u32_from_le_bytes;
use vstd::bytes::u64_from_le_bytes;
use vstd::bytes::u32_to_le_bytes;
use vstd::bytes::u64_to_le_bytes;
use vstd::pervasive::VecAdditionalExecFns;
use vstd::slice::slice_subrange;

verus! {

/// The 64-bit little-endian word stored at byte position `pos`.
pub open spec fn spec_word_at(bytes: Seq<u8>, pos: int) -> u64 {
    spec_u64_from_le_bytes(bytes.subrange(pos, pos + 8))
}

/// The 32-bit little-endian word stored at byte position `pos`.
pub open spec fn spec_word32_at(bytes: Seq<u8>, pos: int) -> u32 {
    spec_u32_from_le_bytes(bytes.subrange(pos, pos + 4))
}

/// Two equal-length byte strings that agree on `[pos, pos + 8)` store the
/// same 64-bit word there.
pub proof fn lemma_word_at_unchanged(a: Seq<u8>, b: Seq<u8>, pos: int)
    requires
        a.len() == b.len(),
        0 <= pos,
        pos + 8 <= a.len(),
        forall|k: int| pos <= k < pos + 8 ==> a[k] == b[k],
    ensures
        spec_word_at(a, pos) == spec_word_at(b, pos),
{
    assert(a.subrange(pos, pos + 8) =~= b.subrange(pos, pos + 8));
}

/// Two equal-length byte strings that agree on `[pos, pos + 4)` store the
/// same 32-bit word there.
pub proof fn lemma_word32_at_unchanged(a: Seq<u8>, b: Seq<u8>, pos: int)
    requires
        a.len() == b.len(),
        0 <= pos,
        pos + 4 <= a.len(),
        forall|k: int| pos <= k < pos + 4 ==> a[k] == b[k],
    ensures
        spec_word32_at(a, pos) == spec_word32_at(b, pos),
{
    assert(a.subrange(pos, pos + 4) =~= b.subrange(pos, pos + 4));
}

/// Reads the 64-bit word at `pos`.
pub fn read_word(mem: &Vec<u8>, pos: usize) -> (r: u64)
    requires
        pos + 8 <= mem@.len(),
    ensures
        r == spec_word_at(mem@, pos as int),
{
    let _len = mem.len();
    let bytes = slice_subrange(mem.as_slice(), pos, pos + 8);
    u64_from_le_bytes(bytes)
}

/// Reads the 32-bit word at `pos`.
pub fn read_word32(mem: &Vec<u8>, pos: usize) -> (r: u32)
    requires
        pos + 4 <= mem@.len(),
    ensures
        r == spec_word32_at(mem@, pos as int),
{
    let _len = mem.len();
    let bytes = slice_subrange(mem.as_slice(), pos, pos + 4);
    u32_from_le_bytes(bytes)
}

/// Writes the 64-bit word `v` at `pos`, leaving every other byte as it was.
pub fn write_word(mem: &mut Vec<u8>, pos: usize, v: u64)
    requires
        pos + 8 <= old(mem)@.len(),
    ensures
        final(mem)@.len() == old(mem)@.len(),
        final(mem)@.subrange(pos as int, pos + 8) == spec_u64_to_le_bytes(v),
        forall|k: int|
            0 <= k < old(mem)@.len() && !(pos <= k < pos + 8) ==> final(mem)@[k] == old(mem)@[k],
        spec_word_at(final(mem)@, pos as int) == v,
{
    proof {
        vstd::bytes::lemma_auto_spec_u64_to_from_le_bytes();
    }
    let _len = mem.len();
    let bytes = u64_to_le_bytes(v);
    let mut i: usize = 0;
    while i < 8
        invariant
            i <= 8,
            pos + 8 <= mem@.len(),
            mem@.len() <= usize::MAX,
            mem@.len() == old(mem)@.len(),
            bytes@ == spec_u64_to_le_bytes(v),
            bytes@.len() == 8,
            forall|k: int| pos <= k < pos + i ==> mem@[k] == bytes@[k - pos],
            forall|k: int|
                0 <= k < old(mem)@.len() && !(pos <= k < pos + i) ==> mem@[k] == old(mem)@[k],
        decreases 8 - i,
    {
        let b = bytes[i];
        mem.set(pos + i, b);
        i = i + 1;
    }
    assert(final(mem)@.subrange(pos as int, pos + 8) =~= spec_u64_to_le_bytes(v));
}

/// Writes the 32-bit word `v` at `pos`, leaving every other byte as it was.
pub fn write_word32(mem: &mut Vec<u8>, pos: usize, v: u32)
    requires
        pos + 4 <= old(mem)@.len(),
    ensures
        final(mem)@.len() == old(mem)@.len(),
        final(mem)@.subrange(pos as int, pos + 4) == spec_u32_to_le_bytes(v),
        forall|k: int|
            0 <= k < old(mem)@.len() && !(pos <= k < pos + 4) ==> final(mem)@[k] == old(mem)@[k],
        spec_word32_at(final(mem)@, pos as int) == v,
{
    proof {
        vstd::bytes::lemma_auto_spec_u32_to_from_le_bytes();
    }
    let _len = mem.len();
    let bytes = u32_to_le_bytes(v);
    let mut i: usize = 0;
    while i < 4
        invariant
            i <= 4,
            pos + 4 <= mem@.len(),
            mem@.len() <= usize::MAX,
            mem@.len() == old(mem)@.len(),
            bytes@ == spec_u32_to_le_bytes(v),
            bytes@.len() == 4,
            forall|k: int| pos <= k < pos + i ==> mem@[k] == bytes@[k - pos],
            forall|k: int|
                0 <= k < old(mem)@.len() && !(pos <= k < pos + i) ==> mem@[k] == old(mem)@[k],
        decreases 4 - i,
    {
        let b = bytes[i];
        mem.set(pos + i, b);
        i = i + 1;
    }
    assert(final(mem)@.subrange(pos as int, pos + 4) =~= spec_u32_to_le_bytes(v));
}

/// Sets `mem[pos .. pos + len)` to zero, leaving every other byte as it was.
pub fn zero_range(mem: &mut Vec<u8>, pos: usize, len: usize)
    requires
        pos + len <= old(mem)@.len(),
    ensures
        final(mem)@.len() == old(mem)@.len(),
        forall|k: int| pos <= k < pos + len ==> final(mem)@[k] == 0u8,
        forall|k: int|
            0 <= k < old(mem)@.len() && !(pos <= k < pos + len) ==> final(mem)@[k] == old(mem)@[k],
{
    let _len = mem.len();
    let mut i: usize = 0;
    while i < len
        invariant
            i <= len,
            pos + len <= mem@.len(),
            mem@.len() <= usize::MAX,
            mem@.len() == old(mem)@.len(),
            forall|k: int| pos <= k < pos + i ==> mem@[k] == 0u8,
            forall|k: int|
                0 <= k < old(mem)@.len() && !(pos <= k < pos + i) ==> mem@[k] == old(mem)@[k],
        decreases len - i,
    {
        mem.set(pos + i, 0u8);
        i = i + 1;
    }
}

} // verus!
