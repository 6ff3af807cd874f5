//! The arena's global guarantees, stated once over every well-formed
//! arena and proved from the invariants the operations maintain.

use vstd::prelude::*;

use crate::arena::Allocated;
use crate::arena::Arena;
use crate::arena::alloc_bytes_post;
use crate::arena::seg_disjoint;
use crate::arena::sum_sizes;
use crate::error::Error;
use crate::header::HEADER_SIZE;
use crate::node::lemma_align_up;
use crate::word::spec_word32_at;
use crate::word::spec_word_at;

verus! {

/// Every allocation the arena has handed out lies inside
/// `[data_offset, allocated)`, below the capacity, and any two of them
/// are disjoint. `alloc_bytes` appends each successful `(offset, cap)`
/// range to the live set, so the ranges returned by any sequence of
/// successful allocations are pairwise disjoint and lie within the
/// region.
pub proof fn lemma_allocations_disjoint(a: Arena)
    requires
        a.wf(),
        !a.ro,
    ensures
        forall|i: int|
            0 <= i < a.reserved@.len() ==> a.data_offset <= (#[trigger] a.reserved@[i]).0
                && a.reserved@[i].0 + a.reserved@[i].1 <= a.header.allocated && a.header.allocated
                <= a.cap,
        forall|i: int, j: int|
            #![trigger a.reserved@[i], a.reserved@[j]]
            0 <= i < a.reserved@.len() && 0 <= j < a.reserved@.len() && i != j ==> seg_disjoint(
                a.reserved@[i],
                a.reserved@[j],
            ),
{
}

/// Conservation of bytes: unless the discarded counter was raised by
/// hand through `increase_discarded`, the live bytes, the free-list
/// bytes and the discarded bytes add up exactly to everything the bump
/// pointer ever handed out past the data offset.
pub proof fn lemma_byte_conservation(a: Arena)
    requires
        a.wf(),
        !a.ro,
        a.header.discarded == a.bump_discarded@,
    ensures
        sum_sizes(a.reserved@) + sum_sizes(a.free@) + a.header.discarded == a.header.allocated
            - a.data_offset,
{
}

/// The free-list, walked from the sentinel, has non-increasing sizes,
/// and no live node has size zero: a zero size is only ever the
/// transient removal mark of the concurrent protocol, never a resting
/// state, and the sequential model has no resting tombstones at all.
pub proof fn lemma_free_list_ordered(a: Arena)
    requires
        a.wf(),
        !a.ro,
    ensures
        forall|i: int, j: int|
            #![trigger a.free@[i], a.free@[j]]
            0 <= i < j < a.free@.len() ==> a.free@[i].1 >= a.free@[j].1,
        forall|i: int| 0 <= i < a.free@.len() ==> (#[trigger] a.free@[i]).1 > 0,
{
    assert forall|i: int| 0 <= i < a.free@.len() implies (#[trigger] a.free@[i]).1 > 0 by {
        lemma_align_up(a.free@[i].0 as int, 8);
    }
}

/// Clearing then allocating starts over at the bottom: after a
/// successful `clear`, the first `alloc_bytes(n)` that fits is served by
/// the bump path and returns exactly the data offset.
pub proof fn lemma_alloc_after_clear(
    pre: Arena,
    mid: Arena,
    post: Arena,
    n: u32,
    r: Result<Option<Allocated>, Error>,
)
    requires
        Arena::clear_post(pre, mid, Ok(())),
        alloc_bytes_post(mid, post, n, r),
        1 <= n,
        mid.header.allocated + n <= mid.cap,
    ensures
        r == Ok::<Option<Allocated>, Error>(Some(Allocated { offset: pre.data_offset, cap: n })),
{
}

/// Allocating never disturbs the bytes of any live allocation: whatever
/// path served the request, every byte of every range handed out earlier
/// and still live reads as before.
pub proof fn lemma_alloc_preserves_live_bytes(
    pre: Arena,
    post: Arena,
    size: u32,
    r: Result<Option<Allocated>, Error>,
    i: int,
)
    requires
        pre.wf(),
        !pre.ro,
        alloc_bytes_post(pre, post, size, r),
        0 <= i < pre.reserved@.len(),
    ensures
        forall|k: int|
            pre.reserved@[i].0 <= k < pre.reserved@[i].0 + pre.reserved@[i].1 ==> post.mem@[k]
                == pre.mem@[k],
{
    assert forall|k: int|
        pre.reserved@[i].0 <= k < pre.reserved@[i].0 + pre.reserved@[i].1 implies post.mem@[k]
        == pre.mem@[k] by {
        assert(!crate::arena::covered_by(pre.free@, k)) by {
            if crate::arena::covered_by(pre.free@, k) {
                let j = choose|j: int|
                    0 <= j < pre.free@.len() && (#[trigger] pre.free@[j]).0 <= k < pre.free@[j].0
                        + pre.free@[j].1;
                assert(seg_disjoint(pre.reserved@[i], pre.free@[j]));
            }
        }
    }
}

/// Deallocating one allocation never disturbs the bytes of any other
/// live allocation.
pub proof fn lemma_dealloc_preserves_live_bytes(
    pre: Arena,
    post: Arena,
    offset: u32,
    size: u32,
    i: int,
)
    requires
        pre.wf(),
        !pre.ro,
        crate::arena::dealloc_post(pre, post, offset, size),
        0 <= i < pre.reserved@.len(),
        pre.reserved@[i] != (offset, size),
    ensures
        forall|k: int|
            pre.reserved@[i].0 <= k < pre.reserved@[i].0 + pre.reserved@[i].1 ==> post.mem@[k]
                == pre.mem@[k],
{
    let i2 = choose|i2: int|
        0 <= i2 < pre.reserved@.len() && #[trigger] pre.reserved@[i2] == (offset, size)
            && post.reserved@ == pre.reserved@.remove(i2);
    assert(i != i2);
    assert(seg_disjoint(pre.reserved@[i], pre.reserved@[i2]));
    assert forall|k: int|
        pre.reserved@[i].0 <= k < pre.reserved@[i].0 + pre.reserved@[i].1 implies post.mem@[k]
        == pre.mem@[k] by {
        assert(!crate::arena::covered_by(pre.free@, k)) by {
            if crate::arena::covered_by(pre.free@, k) {
                let j = choose|j: int|
                    0 <= j < pre.free@.len() && (#[trigger] pre.free@[j]).0 <= k < pre.free@[j].0
                        + pre.free@[j].1;
                assert(seg_disjoint(pre.reserved@[i], pre.free@[j]));
            }
        }
    }
}

/// The persistence round trip: a unified arena serialized with
/// `to_bytes` and reopened read-only with `map` comes back with the same
/// header — size, reuse threshold, free-list sentinel, discarded count —
/// and the same bytes everywhere past the header.
pub proof fn lemma_image_round_trip(a: Arena, image: Seq<u8>, b: Arena)
    requires
        a.wf(),
        a.unify,
        image.len() == a.cap as int,
        spec_word32_at(image, 0) == a.header.allocated,
        spec_word32_at(image, 4) == a.header.min_segment_size,
        spec_word_at(image, 8) == a.header.sentinel,
        spec_word32_at(image, 16) == a.header.discarded,
        forall|k: int| HEADER_SIZE <= k < a.cap as int ==> image[k] == a.mem@[k],
        b.ro,
        b.cap == image.len(),
        b.mem@ == image,
        b.header.allocated == spec_word32_at(image, 0),
        b.header.min_segment_size == spec_word32_at(image, 4),
        b.header.sentinel == spec_word_at(image, 8),
        b.header.discarded == spec_word32_at(image, 16),
        b.data_offset == HEADER_SIZE as u32,
    ensures
        b.header.allocated == a.header.allocated,
        b.header.min_segment_size == a.header.min_segment_size,
        b.header.sentinel == a.header.sentinel,
        b.header.discarded == a.header.discarded,
        b.cap == a.cap,
        b.data_offset == a.data_offset,
        forall|k: int| HEADER_SIZE <= k < a.cap as int ==> b.mem@[k] == a.mem@[k],
{
}

} // verus!
