//! The allocation core: a bump pointer over a byte region plus an ordered
//! free-list of reclaimed segments threaded through the region itself.
//!
//! The arena owns its region as a byte vector; offsets are absolute
//! indices into it. Allocation bumps the `allocated` high-water mark
//! until the capacity is exhausted, then pops the head — the largest
//! segment — of the free-list. A freed segment hosts its own list node:
//! one 64-bit word at its first 8-aligned offset, holding the offset and
//! size of its successor (the sentinel in the header holds those of the
//! head, and `(u32::MAX, u32::MAX)` ends the list). The list is kept in
//! non-increasing size order, so a request either fits the head or fits
//! nothing.
//!
//! Two ghost ledgers accompany the region: the free-list as a sequence
//! of `(offset, size)` pairs that the node words must spell out, and the
//! set of live allocations. The invariant [`Arena::wf`] ties them
//! together: all segments lie below the high-water mark, are pairwise
//! disjoint, and with the discarded counter account for every byte the
//! bump pointer ever handed out.

use vstd::prelude::*;

use crate::backed::AlignedVec;
use crate::error::Error;
use crate::error::OpenError;
use crate::error::TooSmall;
use crate::error::invalid_data;
use crate::header::HEADER_SIZE;
use crate::header::Header;
use crate::node::decode_segment_node;
use crate::node::encode_segment_node;
use crate::node::lemma_align_up;
use crate::node::lemma_segment_node_codec;
use crate::node::spec_align_up;
use crate::node::spec_encode_segment_node;
use crate::node::spec_terminal_node;
use crate::options::ArenaOptions;
use crate::word::lemma_word_at_unchanged;
use crate::word::read_word;
use crate::word::read_word32;
use crate::word::spec_word32_at;
use crate::word::spec_word_at;
use crate::word::write_word;
use crate::word::write_word32;
use crate::word::zero_range;
use vstd::slice::slice_subrange;

verus! {

/// A free or live range of the region: `(offset, size)` in bytes.
pub type Segment = (u32, u32);

/// An allocation descriptor handed to the caller.
#[derive(Clone, Copy, Debug, PartialEq, Eq, Structural)]
pub struct Allocated {
    /// Offset of the first byte of the allocation.
    pub offset: u32,
    /// Number of usable bytes starting at `offset`.
    pub cap: u32,
}

/// Two byte ranges that do not overlap.
pub open spec fn seg_disjoint(a: Segment, b: Segment) -> bool {
    a.0 + a.1 <= b.0 || b.0 + b.1 <= a.0
}

/// The position of the node word a free segment at `off` hosts: the first
/// 8-aligned offset inside it.
pub open spec fn spec_node_pos(off: u32) -> int {
    spec_align_up(off as int, 8)
}

/// Whether a freed range may become a free-list node: it must host the
/// alignment padding, the node word and a little slack strictly inside
/// itself, and be no smaller than the reuse threshold.
pub open spec fn seg_eligible(s: Segment, min_segment_size: u32) -> bool {
    &&& spec_node_pos(s.0) + 12 < s.0 + s.1
    &&& s.1 >= min_segment_size
}

/// Total size of a sequence of segments.
pub open spec fn sum_sizes(l: Seq<Segment>) -> int
    decreases l.len(),
{
    if l.len() == 0 {
        0
    } else {
        l[0].1 + sum_sizes(l.drop_first())
    }
}

/// `a + b`, capped at `u32::MAX`.
pub open spec fn spec_sat_add_u32(a: u32, b: u32) -> u32 {
    if a + b <= u32::MAX {
        (a + b) as u32
    } else {
        u32::MAX
    }
}

/// The position a segment of size `val` takes in the size-ordered list
/// `l`: before the first node whose size is at most `val`.
pub open spec fn spec_ins_idx(l: Seq<Segment>, val: u32) -> int
    decreases l.len(),
{
    if l.len() == 0 {
        0
    } else if val >= l[0].1 {
        0
    } else {
        1 + spec_ins_idx(l.drop_first(), val)
    }
}

/// The free-list after a segment is returned to it.
pub open spec fn spec_free_insert(l: Seq<Segment>, s: Segment) -> Seq<Segment> {
    l.insert(spec_ins_idx(l, s.1), s)
}

/// Whether byte `k` lies inside one of the segments of `l`.
pub open spec fn covered_by(l: Seq<Segment>, k: int) -> bool {
    exists|i: int| 0 <= i < l.len() && (#[trigger] l[i]).0 <= k < l[i].0 + l[i].1
}

/// Summing segments is never negative.
pub proof fn lemma_sum_sizes_nonneg(l: Seq<Segment>)
    ensures
        sum_sizes(l) >= 0,
    decreases l.len(),
{
    if l.len() > 0 {
        lemma_sum_sizes_nonneg(l.drop_first());
    }
}

/// Inserting a segment adds exactly its size to the total.
pub proof fn lemma_sum_sizes_insert(l: Seq<Segment>, s: Segment, k: int)
    requires
        0 <= k <= l.len(),
    ensures
        sum_sizes(l.insert(k, s)) == sum_sizes(l) + s.1,
    decreases l.len(),
{
    let l2 = l.insert(k, s);
    if k == 0 {
        assert(l2.drop_first() =~= l);
    } else {
        assert(l2.drop_first() =~= l.drop_first().insert(k - 1, s));
        lemma_sum_sizes_insert(l.drop_first(), s, k - 1);
    }
}

/// Appending a segment adds exactly its size to the total.
pub proof fn lemma_sum_sizes_push(l: Seq<Segment>, s: Segment)
    ensures
        sum_sizes(l.push(s)) == sum_sizes(l) + s.1,
{
    assert(l.push(s) =~= l.insert(l.len() as int, s));
    lemma_sum_sizes_insert(l, s, l.len() as int);
}

/// Removing a segment subtracts exactly its size from the total.
pub proof fn lemma_sum_sizes_remove(l: Seq<Segment>, k: int)
    requires
        0 <= k < l.len(),
    ensures
        sum_sizes(l.remove(k)) == sum_sizes(l) - l[k].1,
{
    assert(l.remove(k).insert(k, l[k]) =~= l);
    lemma_sum_sizes_insert(l.remove(k), l[k], k);
}

/// The insertion position is a position of the list.
pub proof fn lemma_ins_idx_bounds(l: Seq<Segment>, val: u32)
    ensures
        0 <= spec_ins_idx(l, val) <= l.len(),
    decreases l.len(),
{
    if l.len() > 0 && !(val >= l[0].1) {
        lemma_ins_idx_bounds(l.drop_first(), val);
    }
}

/// A position that sits after every strictly larger node and before the
/// first node of size at most `val` is the insertion position.
pub proof fn lemma_ins_idx_unique(l: Seq<Segment>, val: u32, k: int)
    requires
        0 <= k <= l.len(),
        forall|i: int| 0 <= i < k ==> (#[trigger] l[i]).1 > val,
        k < l.len() ==> val >= l[k].1,
    ensures
        k == spec_ins_idx(l, val),
    decreases l.len(),
{
    if l.len() == 0 {
    } else if val >= l[0].1 {
        assert(k == 0) by {
            if k > 0 {
                assert(l[0].1 > val);
            }
        }
    } else {
        assert(k >= 1) by {
            if k == 0 {
                assert(val >= l[0].1);
            }
        }
        let t = l.drop_first();
        assert forall|i: int| 0 <= i < k - 1 implies (#[trigger] t[i]).1 > val by {
            assert(t[i] == l[i + 1]);
        }
        lemma_ins_idx_unique(t, val, k - 1);
    }
}

/// The lock-free arena, modelled over an owned byte region.
///
/// Offsets are absolute indices into `mem`; the base of the region is
/// address zero of the model. The header is authoritative in the struct
/// and is serialized into the first [`HEADER_SIZE`] bytes of the image by
/// [`Arena::to_bytes`] when the arena is unified.
pub struct Arena {
    /// The backing byte region.
    pub mem: Vec<u8>,
    /// The allocator's authoritative state.
    pub header: Header,
    /// First byte past the header (unified) or the configured alignment.
    pub data_offset: u32,
    /// Total size of the region in bytes.
    pub cap: u32,
    /// Whether every mutating operation is rejected.
    pub ro: bool,
    /// Whether the header belongs inside the region image.
    pub unify: bool,
    /// Retry cap for the slow path; a single-owner arena never retries.
    pub max_retries: u8,
    /// The free-list, head first: `(offset, size)` of each segment.
    pub free: Ghost<Seq<Segment>>,
    /// Every allocation handed out and not yet deallocated.
    pub reserved: Ghost<Seq<Segment>>,
    /// The part of `discarded` produced by deallocation itself (the rest
    /// came through [`Arena::increase_discarded`]).
    pub bump_discarded: Ghost<int>,
}

impl Arena {
    /// A free segment is inside the data area and can host its node word.
    pub open spec fn free_seg_ok(&self, s: Segment) -> bool {
        &&& self.data_offset <= s.0
        &&& s.0 + s.1 <= self.header.allocated
        &&& spec_node_pos(s.0) + 12 < s.0 + s.1
    }

    /// The free-list is well formed: segments are inside the data area,
    /// pairwise disjoint, in non-increasing size order, and the node words
    /// in the region link them exactly in list order.
    pub open spec fn free_list_wf(&self) -> bool {
        let l = self.free@;
        &&& forall|i: int| 0 <= i < l.len() ==> self.free_seg_ok(#[trigger] l[i])
        &&& forall|i: int, j: int|
            #![trigger l[i], l[j]]
            0 <= i < j < l.len() ==> l[i].1 >= l[j].1
        &&& forall|i: int, j: int|
            #![trigger l[i], l[j]]
            0 <= i < l.len() && 0 <= j < l.len() && i != j ==> seg_disjoint(l[i], l[j])
        &&& self.header.sentinel == if l.len() == 0 {
            spec_terminal_node()
        } else {
            spec_encode_segment_node(l[0].0, l[0].1)
        }
        &&& forall|i: int|
            0 <= i < l.len() ==> spec_word_at(self.mem@, spec_node_pos((#[trigger] l[i]).0))
                == if i + 1 < l.len() {
                spec_encode_segment_node(l[i + 1].0, l[i + 1].1)
            } else {
                spec_terminal_node()
            }
    }

    /// Live allocations are inside the data area, pairwise disjoint, and
    /// disjoint from every free segment.
    pub open spec fn reserved_wf(&self) -> bool {
        let r = self.reserved@;
        let l = self.free@;
        &&& forall|i: int|
            0 <= i < r.len() ==> self.data_offset <= (#[trigger] r[i]).0 && r[i].0 + r[i].1
                <= self.header.allocated && r[i].1 >= 1
        &&& forall|i: int, j: int|
            #![trigger r[i], r[j]]
            0 <= i < r.len() && 0 <= j < r.len() && i != j ==> seg_disjoint(r[i], r[j])
        &&& forall|i: int, j: int|
            #![trigger r[i], l[j]]
            0 <= i < r.len() && 0 <= j < l.len() ==> seg_disjoint(r[i], l[j])
    }

    /// Geometry of the arena: region size, header placement, and the two
    /// segment collections (everything but the byte ledger).
    pub open spec fn geo_wf(&self) -> bool {
        &&& self.mem@.len() == self.cap as int
        &&& 8 <= self.data_offset
        &&& (self.unify ==> self.data_offset == HEADER_SIZE as u32)
        &&& self.data_offset <= self.header.allocated
        &&& self.header.allocated <= self.cap
        &&& (!self.ro ==> self.free_list_wf() && self.reserved_wf())
        &&& (self.ro ==> self.free@.len() == 0 && self.reserved@.len() == 0)
    }

    /// The byte ledger: every byte of the data area below the high-water
    /// mark is live, free, or discarded, exactly once.
    pub open spec fn conservation(&self) -> bool {
        &&& sum_sizes(self.reserved@) + sum_sizes(self.free@) + self.bump_discarded@
            == self.header.allocated - self.data_offset
        &&& 0 <= self.bump_discarded@ <= self.header.discarded
    }

    /// The arena's full invariant.
    pub open spec fn wf(&self) -> bool {
        &&& self.geo_wf()
        &&& (!self.ro ==> self.conservation())
    }

    /// What never changes across allocation, deallocation and clearing:
    /// the region's identity and configuration.
    pub open spec fn same_region(pre: Arena, post: Arena) -> bool {
        &&& post.cap == pre.cap
        &&& post.data_offset == pre.data_offset
        &&& post.ro == pre.ro
        &&& post.unify == pre.unify
        &&& post.max_retries == pre.max_retries
        &&& post.header.min_segment_size == pre.header.min_segment_size
        &&& post.mem@.len() == pre.mem@.len()
    }
}

/// `a + b`, capped at `u32::MAX`.
pub fn sat_add_u32(a: u32, b: u32) -> (r: u32)
    ensures
        r == spec_sat_add_u32(a, b),
{
    if a > u32::MAX - b {
        u32::MAX
    } else {
        a + b
    }
}

/// Copies a byte vector.
fn copy_bytes(src: &Vec<u8>) -> (r: Vec<u8>)
    ensures
        r@ == src@,
{
    let mut out: Vec<u8> = Vec::new();
    let mut i: usize = 0;
    while i < src.len()
        invariant
            i <= src@.len(),
            out@ == src@.subrange(0, i as int),
        decreases src@.len() - i,
    {
        out.push(src[i]);
        assert(out@ =~= src@.subrange(0, i + 1));
        i = i + 1;
    }
    assert(out@ =~= src@);
    out
}

/// The position of the node word hosted by a segment at `off`.
fn seg_node_pos(off: u32) -> (r: usize)
    requires
        spec_node_pos(off) + 8 <= u32::MAX,
    ensures
        r == spec_node_pos(off),
        off <= r < off + 8,
{
    proof {
        lemma_align_up(off as int, 8);
    }
    let p = crate::node::align_up(off as u64, 8);
    p as usize
}

impl Arena {
    /// Creates a volatile arena with the given options. The usable
    /// capacity is topped up by the header size (unified) or the raised
    /// alignment (non-unified); allocation starts at the data offset.
    pub fn new(opts: ArenaOptions) -> (r: Arena)
        requires
            opts.maximum_alignment <= u32::MAX as usize,
            spec_sat_add_u32(
                opts.capacity,
                if opts.unify {
                    HEADER_SIZE as u32
                } else if opts.maximum_alignment >= 8 {
                    opts.maximum_alignment as u32
                } else {
                    8u32
                },
            ) as int <= isize::MAX as int - (if opts.maximum_alignment >= 8 {
                opts.maximum_alignment as int
            } else {
                8int
            } - 1),
        ensures
            r.wf(),
            !r.ro,
            r.unify == opts.unify,
            r.max_retries == opts.maximum_retries,
            r.header.min_segment_size == opts.minimum_segment_size,
            r.header.allocated == r.data_offset,
            r.header.discarded == 0,
            r.header.sentinel == spec_terminal_node(),
            r.free@.len() == 0,
            r.reserved@.len() == 0,
            r.bump_discarded@ == 0,
            r.data_offset == if opts.unify {
                HEADER_SIZE as u32
            } else if opts.maximum_alignment >= 8 {
                opts.maximum_alignment as u32
            } else {
                8u32
            },
            r.cap == spec_sat_add_u32(
                opts.capacity,
                if opts.unify {
                    HEADER_SIZE as u32
                } else if opts.maximum_alignment >= 8 {
                    opts.maximum_alignment as u32
                } else {
                    8u32
                },
            ),
            r.mem@ == Seq::new(r.cap as nat, |i: int| 0u8),
    {
        let raised: usize = if opts.maximum_alignment >= 8 {
            opts.maximum_alignment
        } else {
            8
        };
        let overhead: u32 = if opts.unify {
            HEADER_SIZE as u32
        } else {
            raised as u32
        };
        let cap = sat_add_u32(opts.capacity, overhead);
        let data_offset: u32 = if opts.unify {
            HEADER_SIZE as u32
        } else {
            raised as u32
        };
        let backing = AlignedVec::new(cap as usize, raised);
        Arena {
            mem: backing.data,
            header: Header::new(data_offset, opts.minimum_segment_size),
            data_offset,
            cap,
            ro: false,
            unify: opts.unify,
            max_retries: opts.maximum_retries,
            free: Ghost(Seq::empty()),
            reserved: Ghost(Seq::empty()),
            bump_discarded: Ghost(0int),
        }
    }

    /// Adopts an existing writable image (the compute half of opening a
    /// writable file mapping). Like the original mapping path it starts the
    /// allocator afresh: the header is reinitialized, existing data bytes
    /// are kept as they are. The arena is unified so the header survives
    /// in the image written back by [`Arena::to_bytes`].
    pub fn map_mut(bytes: Vec<u8>, opts: ArenaOptions) -> (r: Result<Arena, OpenError>)
        requires
            bytes@.len() <= u32::MAX,
        ensures
            bytes@.len() < HEADER_SIZE ==> r == Err::<Arena, OpenError>(
                OpenError::InvalidData(TooSmall { cap: bytes@.len() as usize, min_cap: HEADER_SIZE }),
            ),
            bytes@.len() >= HEADER_SIZE ==> match r {
                Ok(a) => {
                    &&& a.wf()
                    &&& !a.ro
                    &&& a.unify
                    &&& a.cap == bytes@.len()
                    &&& a.mem@ == bytes@
                    &&& a.data_offset == HEADER_SIZE as u32
                    &&& a.header.allocated == HEADER_SIZE as u32
                    &&& a.header.discarded == 0
                    &&& a.header.sentinel == spec_terminal_node()
                    &&& a.header.min_segment_size == opts.minimum_segment_size
                    &&& a.max_retries == opts.maximum_retries
                    &&& a.free@.len() == 0
                    &&& a.reserved@.len() == 0
                    &&& a.bump_discarded@ == 0
                },
                Err(_) => false,
            },
    {
        if bytes.len() < HEADER_SIZE {
            return Err(invalid_data(TooSmall::new(bytes.len(), HEADER_SIZE)));
        }
        let cap = bytes.len() as u32;
        Ok(
            Arena {
                mem: bytes,
                header: Header::new(HEADER_SIZE as u32, opts.minimum_segment_size),
                data_offset: HEADER_SIZE as u32,
                cap,
                ro: false,
                unify: true,
                max_retries: opts.maximum_retries,
                free: Ghost(Seq::empty()),
                reserved: Ghost(Seq::empty()),
                bump_discarded: Ghost(0int),
            },
        )
    }

    /// Creates an arena over a fresh zeroed region of exactly `len`
    /// bytes (the compute half of an anonymous mapping, whose size the
    /// mapping options fix). A region too small for the header (unified)
    /// or the alignment padding (non-unified) is rejected.
    pub fn map_anon(len: u32, opts: ArenaOptions) -> (r: Result<Arena, OpenError>)
        requires
            opts.maximum_alignment <= u32::MAX as usize,
            len as int <= isize::MAX as int - (if opts.maximum_alignment >= 8 {
                opts.maximum_alignment as int
            } else {
                8int
            } - 1),
        ensures
            ({
                let d_off: u32 = if opts.unify {
                    HEADER_SIZE as u32
                } else if opts.maximum_alignment >= 8 {
                    opts.maximum_alignment as u32
                } else {
                    8u32
                };
                if len < d_off {
                    r == Err::<Arena, OpenError>(
                        OpenError::InvalidData(
                            TooSmall { cap: len as usize, min_cap: d_off as usize },
                        ),
                    )
                } else {
                    match r {
                        Ok(a) => {
                            &&& a.wf()
                            &&& !a.ro
                            &&& a.unify == opts.unify
                            &&& a.cap == len
                            &&& a.data_offset == d_off
                            &&& a.header.allocated == d_off
                            &&& a.header.discarded == 0
                            &&& a.header.sentinel == spec_terminal_node()
                            &&& a.header.min_segment_size == opts.minimum_segment_size
                            &&& a.max_retries == opts.maximum_retries
                            &&& a.free@.len() == 0
                            &&& a.reserved@.len() == 0
                            &&& a.bump_discarded@ == 0
                            &&& a.mem@ == Seq::new(len as nat, |i: int| 0u8)
                        },
                        Err(_) => false,
                    }
                }
            }),
    {
        let raised: usize = if opts.maximum_alignment >= 8 {
            opts.maximum_alignment
        } else {
            8
        };
        let data_offset: u32 = if opts.unify {
            HEADER_SIZE as u32
        } else {
            raised as u32
        };
        if len < data_offset {
            return Err(invalid_data(TooSmall::new(len as usize, data_offset as usize)));
        }
        let backing = AlignedVec::new(len as usize, raised);
        Ok(
            Arena {
                mem: backing.data,
                header: Header::new(data_offset, opts.minimum_segment_size),
                data_offset,
                cap: len,
                ro: false,
                unify: opts.unify,
                max_retries: opts.maximum_retries,
                free: Ghost(Seq::empty()),
                reserved: Ghost(Seq::empty()),
                bump_discarded: Ghost(0int),
            },
        )
    }

    /// Opens an existing image read-only (the compute half of opening a
    /// read-only file mapping). The header is parsed from the image; an
    /// image too small for the header, or whose recorded high-water mark
    /// does not fit the image, is rejected.
    pub fn map(bytes: Vec<u8>) -> (r: Result<Arena, OpenError>)
        requires
            bytes@.len() <= u32::MAX,
        ensures
            bytes@.len() < HEADER_SIZE ==> r == Err::<Arena, OpenError>(
                OpenError::InvalidData(TooSmall { cap: bytes@.len() as usize, min_cap: HEADER_SIZE }),
            ),
            bytes@.len() >= HEADER_SIZE ==> {
                let allocated = spec_word32_at(bytes@, 0);
                if allocated < HEADER_SIZE || allocated > bytes@.len() {
                    r == Err::<Arena, OpenError>(OpenError::BadHeader)
                } else {
                    match r {
                        Ok(a) => {
                            &&& a.wf()
                            &&& a.ro
                            &&& a.unify
                            &&& a.cap == bytes@.len()
                            &&& a.mem@ == bytes@
                            &&& a.data_offset == HEADER_SIZE as u32
                            &&& a.header.allocated == allocated
                            &&& a.header.min_segment_size == spec_word32_at(bytes@, 4)
                            &&& a.header.sentinel == spec_word_at(bytes@, 8)
                            &&& a.header.discarded == spec_word32_at(bytes@, 16)
                        },
                        Err(_) => false,
                    }
                }
            },
    {
        if bytes.len() < HEADER_SIZE {
            return Err(invalid_data(TooSmall::new(bytes.len(), HEADER_SIZE)));
        }
        let allocated = read_word32(&bytes, 0);
        let min_segment_size = read_word32(&bytes, 4);
        let sentinel = read_word(&bytes, 8);
        let discarded = read_word32(&bytes, 16);
        if allocated < HEADER_SIZE as u32 || allocated as usize > bytes.len() {
            return Err(OpenError::BadHeader);
        }
        let cap = bytes.len() as u32;
        Ok(
            Arena {
                mem: bytes,
                header: Header { sentinel, allocated, min_segment_size, discarded },
                data_offset: HEADER_SIZE as u32,
                cap,
                ro: true,
                unify: true,
                max_retries: 0,
                free: Ghost(Seq::empty()),
                reserved: Ghost(Seq::empty()),
                bump_discarded: Ghost(0int),
            },
        )
    }

    /// Serializes the arena to a region image: the region's bytes with the
    /// current header in the first [`HEADER_SIZE`] bytes. The image can be
    /// reopened with [`Arena::map`].
    pub fn to_bytes(&self) -> (r: Vec<u8>)
        requires
            self.wf(),
            self.unify,
        ensures
            r@.len() == self.cap as int,
            spec_word32_at(r@, 0) == self.header.allocated,
            spec_word32_at(r@, 4) == self.header.min_segment_size,
            spec_word_at(r@, 8) == self.header.sentinel,
            spec_word32_at(r@, 16) == self.header.discarded,
            forall|k: int| HEADER_SIZE <= k < self.cap as int ==> r@[k] == self.mem@[k],
    {
        let mut out = copy_bytes(&self.mem);
        write_word32(&mut out, 0, self.header.allocated);
        let ghost m0 = out@;
        write_word32(&mut out, 4, self.header.min_segment_size);
        let ghost m1 = out@;
        write_word(&mut out, 8, self.header.sentinel);
        let ghost m2 = out@;
        write_word32(&mut out, 16, self.header.discarded);
        proof {
            crate::word::lemma_word32_at_unchanged(m0, m1, 0);
            crate::word::lemma_word32_at_unchanged(m1, m2, 0);
            crate::word::lemma_word32_at_unchanged(m2, out@, 0);
            crate::word::lemma_word32_at_unchanged(m1, m2, 4);
            crate::word::lemma_word32_at_unchanged(m2, out@, 4);
            lemma_word_at_unchanged(m2, out@, 8);
        }
        out
    }

    /// The allocated prefix of the region as a fresh image: the
    /// serialized header followed by every allocated data byte.
    pub fn data_with_header(&self) -> (r: Vec<u8>)
        requires
            self.wf(),
            self.unify,
        ensures
            r@.len() == self.header.allocated as int,
            spec_word32_at(r@, 0) == self.header.allocated,
            spec_word32_at(r@, 4) == self.header.min_segment_size,
            spec_word_at(r@, 8) == self.header.sentinel,
            spec_word32_at(r@, 16) == self.header.discarded,
            forall|k: int|
                HEADER_SIZE <= k < self.header.allocated as int ==> r@[k] == self.mem@[k],
    {
        let mut out = self.to_bytes();
        let ghost image = out@;
        out.truncate(self.header.allocated as usize);
        proof {
            assert(out@ == image.subrange(0, self.header.allocated as int));
            assert(out@.subrange(0, 4) =~= image.subrange(0, 4));
            assert(out@.subrange(4, 8) =~= image.subrange(4, 8));
            assert(out@.subrange(8, 16) =~= image.subrange(8, 16));
            assert(out@.subrange(16, 20) =~= image.subrange(16, 20));
        }
        out
    }

    /// The number of bytes the arena has allocated (the high-water mark).
    pub fn size(&self) -> (r: usize)
        ensures
            r == self.header.allocated,
    {
        self.header.allocated as usize
    }

    /// The total size of the region.
    pub fn capacity(&self) -> (r: usize)
        ensures
            r == self.cap,
    {
        self.cap as usize
    }

    /// The number of bytes the bump path can still hand out.
    pub fn remaining(&self) -> (r: usize)
        ensures
            r == if self.header.allocated <= self.cap {
                self.cap - self.header.allocated
            } else {
                0int
            },
    {
        let size = self.header.allocated as usize;
        let cap = self.cap as usize;
        if cap < size {
            0
        } else {
            cap - size
        }
    }

    /// The number of bytes lost to fragmentation.
    pub fn discarded(&self) -> (r: usize)
        ensures
            r == self.header.discarded,
    {
        self.header.discarded as usize
    }

    /// Adds to the discarded-bytes counter on the caller's behalf.
    pub fn increase_discarded(&mut self, size: u32)
        requires
            old(self).wf(),
            old(self).header.discarded + size <= u32::MAX,
        ensures
            final(self).wf(),
            final(self).header.discarded == old(self).header.discarded + size,
            final(self).header.allocated == old(self).header.allocated,
            final(self).header.sentinel == old(self).header.sentinel,
            Arena::same_region(*old(self), *final(self)),
            final(self).mem@ == old(self).mem@,
            final(self).free@ == old(self).free@,
            final(self).reserved@ == old(self).reserved@,
            final(self).bump_discarded@ == old(self).bump_discarded@,
    {
        self.header.discarded = self.header.discarded + size;
    }

    /// The reuse threshold: freed segments smaller than this are discarded.
    pub fn minimum_segment_size(&self) -> (r: usize)
        ensures
            r == self.header.min_segment_size,
    {
        self.header.min_segment_size as usize
    }

    /// Sets the reuse threshold.
    pub fn set_minimum_segment_size(&mut self, size: u32)
        requires
            old(self).wf(),
        ensures
            final(self).wf(),
            final(self).header.min_segment_size == size,
            final(self).header.allocated == old(self).header.allocated,
            final(self).header.sentinel == old(self).header.sentinel,
            final(self).header.discarded == old(self).header.discarded,
            final(self).cap == old(self).cap,
            final(self).data_offset == old(self).data_offset,
            final(self).ro == old(self).ro,
            final(self).unify == old(self).unify,
            final(self).max_retries == old(self).max_retries,
            final(self).mem@ == old(self).mem@,
            final(self).free@ == old(self).free@,
            final(self).reserved@ == old(self).reserved@,
            final(self).bump_discarded@ == old(self).bump_discarded@,
    {
        self.header.min_segment_size = size;
    }

    /// The offset where the data area begins (just past the header).
    pub fn data_offset(&self) -> (r: usize)
        ensures
            r == self.data_offset,
    {
        self.data_offset as usize
    }

    /// The data section: every allocated byte past the header.
    pub fn data(&self) -> (r: &[u8])
        requires
            self.wf(),
        ensures
            r@ == self.mem@.subrange(self.data_offset as int, self.header.allocated as int),
    {
        slice_subrange(
            self.mem.as_slice(),
            self.data_offset as usize,
            self.header.allocated as usize,
        )
    }

    /// A borrowed view of `size` bytes at `offset`; offset zero is the
    /// null descriptor and yields the empty slice.
    pub fn get_bytes(&self, offset: usize, size: usize) -> (r: &[u8])
        requires
            offset == 0 || offset + size <= self.mem@.len(),
        ensures
            offset == 0 ==> r@ == Seq::<u8>::empty(),
            offset != 0 ==> r@ == self.mem@.subrange(offset as int, offset + size),
    {
        let _len = self.mem.len();
        if offset == 0 {
            let r = slice_subrange(self.mem.as_slice(), 0, 0);
            assert(r@ =~= Seq::<u8>::empty());
            return r;
        }
        slice_subrange(self.mem.as_slice(), offset, offset + size)
    }

    /// Writes caller bytes into an allocated range. The range must lie in
    /// the data area below the high-water mark and stay out of every free
    /// segment (those bytes host the free-list itself).
    pub fn write_bytes(&mut self, offset: usize, data: &[u8])
        requires
            old(self).wf(),
            !old(self).ro,
            old(self).data_offset <= offset,
            offset + data@.len() <= old(self).header.allocated,
            forall|j: int|
                0 <= j < old(self).free@.len() ==> (offset + data@.len()
                    <= (#[trigger] old(self).free@[j]).0 || old(self).free@[j].0
                    + old(self).free@[j].1 <= offset),
        ensures
            final(self).wf(),
            Arena::same_region(*old(self), *final(self)),
            final(self).header == old(self).header,
            final(self).free@ == old(self).free@,
            final(self).reserved@ == old(self).reserved@,
            final(self).bump_discarded@ == old(self).bump_discarded@,
            final(self).mem@.len() == old(self).mem@.len(),
            forall|k: int|
                offset <= k < offset + data@.len() ==> final(self).mem@[k] == data@[k - offset],
            forall|k: int|
                0 <= k < old(self).mem@.len() && !(offset <= k < offset + data@.len())
                    ==> final(self).mem@[k] == old(self).mem@[k],
    {
        let ghost pre = *self;
        let _len = self.mem.len();
        let mut i: usize = 0;
        while i < data.len()
            invariant
                i <= data@.len(),
                offset + data@.len() <= self.mem@.len(),
                self.mem@.len() <= usize::MAX,
                self.header == pre.header,
                self.data_offset == pre.data_offset,
                self.cap == pre.cap,
                self.ro == pre.ro,
                self.unify == pre.unify,
                self.max_retries == pre.max_retries,
                self.free == pre.free,
                self.reserved == pre.reserved,
                self.bump_discarded == pre.bump_discarded,
                self.mem@.len() == pre.mem@.len(),
                forall|k: int| offset <= k < offset + i ==> self.mem@[k] == data@[k - offset],
                forall|k: int|
                    0 <= k < pre.mem@.len() && !(offset <= k < offset + i) ==> self.mem@[k]
                        == pre.mem@[k],
            decreases data@.len() - i,
        {
            let b = data[i];
            vstd::pervasive::VecAdditionalExecFns::set(&mut self.mem, offset + i, b);
            i = i + 1;
        }
        proof {
            let l = pre.free@;
            assert forall|i2: int| 0 <= i2 < l.len() implies spec_word_at(
                self.mem@,
                spec_node_pos((#[trigger] l[i2]).0),
            ) == spec_word_at(pre.mem@, spec_node_pos(l[i2].0)) by {
                lemma_align_up(l[i2].0 as int, 8);
                lemma_word_at_unchanged(pre.mem@, self.mem@, spec_node_pos(l[i2].0));
            }
        }
    }

    /// Translates an offset to an address of the model: the region's base
    /// is address zero, so the two coincide. Offset zero is the null
    /// descriptor and maps to the base itself.
    pub fn get_pointer(&self, offset: usize) -> (r: usize)
        ensures
            r == offset,
    {
        offset
    }

    /// Writable variant of [`Arena::get_pointer`]; the region must not be
    /// read-only (the original panics there, so that input is excluded).
    pub fn get_pointer_mut(&self, offset: usize) -> (r: usize)
        requires
            !self.ro,
        ensures
            r == offset,
    {
        offset
    }

    /// The address, at or above `offset`, aligned for a value of alignment
    /// `align`. Offset zero is the null descriptor and yields a dangling
    /// (never dereferenced) address of zero.
    pub fn get_aligned_pointer(&self, offset: usize, align: usize) -> (r: usize)
        requires
            1 <= align,
            offset + align <= usize::MAX,
        ensures
            offset == 0 ==> r == 0,
            offset != 0 ==> {
                &&& r == spec_align_up(offset as int, align as int)
                &&& r % align == 0
                &&& offset <= r < offset + align
            },
    {
        if offset == 0 {
            return 0;
        }
        proof {
            lemma_align_up(offset as int, align as int);
        }
        let rem = offset % align;
        if rem == 0 {
            offset
        } else {
            offset + (align - rem)
        }
    }

    /// Writable variant of [`Arena::get_aligned_pointer`]; the region must
    /// not be read-only (the original panics there, so that input is
    /// excluded).
    pub fn get_aligned_pointer_mut(&self, offset: usize, align: usize) -> (r: usize)
        requires
            !self.ro,
            1 <= align,
            offset + align <= usize::MAX,
        ensures
            offset == 0 ==> r == 0,
            offset != 0 ==> {
                &&& r == spec_align_up(offset as int, align as int)
                &&& r % align == 0
                &&& offset <= r < offset + align
            },
    {
        self.get_aligned_pointer(offset, align)
    }

    /// Translates an address of the model back to its region offset: the
    /// inverse of [`Arena::get_pointer`].
    pub fn offset(&self, ptr: usize) -> (r: usize)
        ensures
            r == ptr,
    {
        ptr
    }

    /// What [`Arena::clear`] leaves behind when it succeeds, and that it
    /// changes nothing when it is rejected.
    pub open spec fn clear_post(pre: Arena, post: Arena, r: Result<(), Error>) -> bool {
        if pre.ro {
            &&& r == Err::<(), Error>(Error::ReadOnly)
            &&& post == pre
        } else {
            &&& r == Ok::<(), Error>(())
            &&& Arena::same_region(pre, post)
            &&& post.header.allocated == post.data_offset
            &&& post.header.discarded == 0
            &&& post.header.sentinel == spec_terminal_node()
            &&& post.free@.len() == 0
            &&& post.reserved@.len() == 0
            &&& post.bump_discarded@ == 0
            &&& forall|k: int| pre.data_offset <= k < pre.cap ==> post.mem@[k] == 0u8
            &&& forall|k: int| 0 <= k < pre.data_offset ==> post.mem@[k] == pre.mem@[k]
        }
    }

    /// Resets the arena: every allocation and free segment is forgotten
    /// and the whole data area is zeroed. Not permitted on a read-only
    /// region. Offsets handed out earlier become invalid; the caller must
    /// be the only user.
    pub fn clear(&mut self) -> (r: Result<(), Error>)
        requires
            old(self).wf(),
        ensures
            final(self).wf(),
            Arena::clear_post(*old(self), *final(self), r),
    {
        if self.ro {
            return Err(Error::ReadOnly);
        }
        self.header.allocated = self.data_offset;
        self.header.sentinel = encode_segment_node(u32::MAX, u32::MAX);
        self.header.discarded = 0;
        let start = self.data_offset as usize;
        let len = (self.cap - self.data_offset) as usize;
        zero_range(&mut self.mem, start, len);
        self.free = Ghost(Seq::empty());
        self.reserved = Ghost(Seq::empty());
        self.bump_discarded = Ghost(0int);
        Ok(())
    }
}

/// What returning `(offset, size)` to the allocator does when the range is
/// already out of every list: the segment either joins the free-list at
/// its size-ordered position, or — too small to host a node, or under the
/// reuse threshold — is counted as discarded. Bytes outside the freed
/// range and the free segments (whose nodes are relinked in place) are
/// untouched.
pub open spec fn dealloc_in_post(pre: Arena, post: Arena, offset: u32, size: u32) -> bool {
    &&& Arena::same_region(pre, post)
    &&& post.header.allocated == pre.header.allocated
    &&& post.reserved@ == pre.reserved@
    &&& (if seg_eligible((offset, size), pre.header.min_segment_size) {
        &&& post.free@ == spec_free_insert(pre.free@, (offset, size))
        &&& post.header.discarded == pre.header.discarded
        &&& post.bump_discarded@ == pre.bump_discarded@
    } else {
        &&& post.free@ == pre.free@
        &&& post.header.discarded == spec_sat_add_u32(pre.header.discarded, size)
        &&& post.bump_discarded@ == pre.bump_discarded@ + size
    })
    &&& forall|k: int|
        0 <= k < pre.mem@.len() && !(offset <= k < offset + size) && !covered_by(pre.free@, k)
            ==> post.mem@[k] == pre.mem@[k]
}

/// What deallocating a live range does: the range leaves the live set and
/// joins the free-list (or the discarded count) as in [`dealloc_in_post`].
pub open spec fn dealloc_post(pre: Arena, post: Arena, offset: u32, size: u32) -> bool {
    &&& Arena::same_region(pre, post)
    &&& post.header.allocated == pre.header.allocated
    &&& exists|i: int|
        0 <= i < pre.reserved@.len() && #[trigger] pre.reserved@[i] == (offset, size)
            && post.reserved@ == pre.reserved@.remove(i)
    &&& (if seg_eligible((offset, size), pre.header.min_segment_size) {
        &&& post.free@ == spec_free_insert(pre.free@, (offset, size))
        &&& post.header.discarded == pre.header.discarded
    } else {
        &&& post.free@ == pre.free@
        &&& post.header.discarded == spec_sat_add_u32(pre.header.discarded, size)
    })
    &&& forall|k: int|
        0 <= k < pre.mem@.len() && !(offset <= k < offset + size) && !covered_by(pre.free@, k)
            ==> post.mem@[k] == pre.mem@[k]
}

/// What the slow path does: fail exactly when the list is empty or its
/// largest (first) segment is too small, else pop the head, hand out its
/// leading `size` bytes, and give the tail back to the allocator.
pub open spec fn slow_path_post(
    pre: Arena,
    post: Arena,
    size: u32,
    r: Result<Option<Allocated>, Error>,
) -> bool {
    let l = pre.free@;
    if l.len() == 0 {
        &&& r == Err::<Option<Allocated>, Error>(
            Error::InsufficientSpace {
                requested: size,
                available: (pre.cap - pre.header.allocated) as u32,
            },
        )
        &&& post == pre
    } else if size > l[0].1 {
        &&& r == Err::<Option<Allocated>, Error>(
            Error::InsufficientSpace { requested: size, available: l[0].1 },
        )
        &&& post == pre
    } else {
        let head = l[0];
        let tail: Segment = ((head.0 + size) as u32, (head.1 - size) as u32);
        &&& r == Ok::<Option<Allocated>, Error>(Some(Allocated { offset: head.0, cap: size }))
        &&& Arena::same_region(pre, post)
        &&& post.header.allocated == pre.header.allocated
        &&& post.reserved@ == pre.reserved@.push((head.0, size))
        &&& (if seg_eligible(tail, pre.header.min_segment_size) {
            &&& post.free@ == spec_free_insert(l.drop_first(), tail)
            &&& post.header.discarded == pre.header.discarded
            &&& post.bump_discarded@ == pre.bump_discarded@
        } else {
            &&& post.free@ == l.drop_first()
            &&& post.header.discarded == spec_sat_add_u32(pre.header.discarded, tail.1)
            &&& post.bump_discarded@ == pre.bump_discarded@ + tail.1
        })
        &&& forall|k: int|
            0 <= k < pre.mem@.len() && !covered_by(l, k) ==> post.mem@[k] == pre.mem@[k]
    }
}

/// What allocating `size` bytes does: reject a read-only region, return
/// the null descriptor for a zero request, bump while the capacity lasts,
/// and otherwise fall back to the free-list.
pub open spec fn alloc_bytes_post(
    pre: Arena,
    post: Arena,
    size: u32,
    r: Result<Option<Allocated>, Error>,
) -> bool {
    if pre.ro {
        &&& r == Err::<Option<Allocated>, Error>(Error::ReadOnly)
        &&& post == pre
    } else if size == 0 {
        &&& r == Ok::<Option<Allocated>, Error>(None::<Allocated>)
        &&& post == pre
    } else if pre.header.allocated + size <= pre.cap {
        &&& r == Ok::<Option<Allocated>, Error>(
            Some(Allocated { offset: pre.header.allocated, cap: size }),
        )
        &&& Arena::same_region(pre, post)
        &&& post.header.allocated == pre.header.allocated + size
        &&& post.header.discarded == pre.header.discarded
        &&& post.header.sentinel == pre.header.sentinel
        &&& post.free@ == pre.free@
        &&& post.reserved@ == pre.reserved@.push((pre.header.allocated, size))
        &&& post.bump_discarded@ == pre.bump_discarded@
        &&& post.mem@ == pre.mem@
    } else {
        slow_path_post(pre, post, size, r)
    }
}

impl Arena {
    /// Whether `(offset, size)` can host a free-list node and meets the
    /// reuse threshold.
    fn validate_segment(&self, offset: u32, size: u32) -> (r: bool)
        ensures
            r == seg_eligible((offset, size), self.header.min_segment_size),
    {
        proof {
            lemma_align_up(offset as int, 8);
        }
        let pos = crate::node::align_up(offset as u64, 8);
        let want = pos - (offset as u64) + 12;
        if want >= (size as u64) {
            return false;
        }
        if size < self.header.min_segment_size {
            return false;
        }
        true
    }

    /// Counts `size` bytes as lost to fragmentation.
    fn discard(&mut self, size: u32)
        ensures
            final(self).header.discarded == spec_sat_add_u32(old(self).header.discarded, size),
            final(self).bump_discarded@ == old(self).bump_discarded@ + size,
            final(self).header.allocated == old(self).header.allocated,
            final(self).header.sentinel == old(self).header.sentinel,
            Arena::same_region(*old(self), *final(self)),
            final(self).mem@ == old(self).mem@,
            final(self).free@ == old(self).free@,
            final(self).reserved@ == old(self).reserved@,
    {
        self.header.discarded = sat_add_u32(self.header.discarded, size);
        self.bump_discarded = Ghost(self.bump_discarded@ + size);
    }

    /// Walks the free-list from the sentinel and returns the offsets of
    /// the nodes around the position a segment of size `val` takes, plus
    /// that position itself (ghost): the predecessor's offset (none at the
    /// head) and the `(offset, size)` of the first node no larger than
    /// `val` (none at the tail).
    fn find_free_list_position(&self, val: u32) -> (r: (Option<u32>, Option<(u32, u32)>, Ghost<
        int,
    >))
        requires
            self.geo_wf(),
            !self.ro,
        ensures
            ({
                let l = self.free@;
                let k = r.2@;
                &&& 0 <= k <= l.len()
                &&& forall|i: int| 0 <= i < k ==> (#[trigger] l[i]).1 > val
                &&& (k < l.len() ==> val >= l[k].1)
                &&& r.0 == if k == 0 {
                    None::<u32>
                } else {
                    Some(l[k - 1].0)
                }
                &&& r.1 == if k == l.len() {
                    None::<(u32, u32)>
                } else {
                    Some(l[k])
                }
            }),
    {
        let ghost l = self.free@;
        let mut prev: Option<u32> = None;
        let mut current_word: u64 = self.header.sentinel;
        let ghost mut k: int = 0;
        loop
            invariant
                self.geo_wf(),
                !self.ro,
                l == self.free@,
                0 <= k <= l.len(),
                forall|i: int| 0 <= i < k ==> (#[trigger] l[i]).1 > val,
                current_word == if k == l.len() {
                    spec_terminal_node()
                } else {
                    spec_encode_segment_node(l[k].0, l[k].1)
                },
                prev == if k == 0 {
                    None::<u32>
                } else {
                    Some(l[k - 1].0)
                },
            decreases l.len() - k,
        {
            let (next_off, next_size) = decode_segment_node(current_word);
            proof {
                lemma_segment_node_codec(u32::MAX, u32::MAX, current_word);
                if k < l.len() {
                    lemma_segment_node_codec(l[k].0, l[k].1, current_word);
                }
            }
            if next_off == u32::MAX {
                // the terminal word: the whole list is strictly larger
                return (prev, None, Ghost(k));
            }
            // the walk stands before node k
            if val >= next_size {
                return (prev, Some((next_off, next_size)), Ghost(k));
            }
            // node k is still strictly larger: step past it
            let pos = seg_node_pos(next_off);
            let w = read_word(&self.mem, pos);
            prev = Some(next_off);
            current_word = w;
            proof {
                k = k + 1;
            }
        }
    }

    /// The free-list as `(offset, size)` pairs, head (largest) first.
    pub fn free_segments(&self) -> (r: Vec<(u32, u32)>)
        requires
            self.wf(),
            !self.ro,
        ensures
            r@ == self.free@,
    {
        let ghost l = self.free@;
        let mut out: Vec<(u32, u32)> = Vec::new();
        let mut current_word: u64 = self.header.sentinel;
        loop
            invariant
                self.wf(),
                !self.ro,
                l == self.free@,
                out@.len() <= l.len(),
                out@ == l.subrange(0, out@.len() as int),
                current_word == if out@.len() == l.len() {
                    spec_terminal_node()
                } else {
                    spec_encode_segment_node(l[out@.len() as int].0, l[out@.len() as int].1)
                },
            decreases l.len() - out@.len(),
        {
            let ghost k = out@.len() as int;
            let (next_off, next_size) = decode_segment_node(current_word);
            proof {
                lemma_segment_node_codec(u32::MAX, u32::MAX, current_word);
                if k < l.len() {
                    lemma_segment_node_codec(l[k].0, l[k].1, current_word);
                }
            }
            if next_off == u32::MAX {
                assert(out@ =~= l);
                return out;
            }
            out.push((next_off, next_size));
            assert(out@ =~= l.subrange(0, k + 1));
            let pos = seg_node_pos(next_off);
            current_word = read_word(&self.mem, pos);
        }
    }

    /// Returns a range that is outside every list to the allocator: it
    /// joins the free-list at its size-ordered position, or is discarded
    /// when it cannot host a node or is under the reuse threshold.
    #[verifier::spinoff_prover]
    #[verifier::rlimit(100)]
    fn dealloc_in(&mut self, offset: u32, size: u32)
        requires
            old(self).geo_wf(),
            !old(self).ro,
            old(self).data_offset <= offset,
            offset + size <= old(self).header.allocated,
            forall|j: int|
                0 <= j < old(self).free@.len() ==> seg_disjoint(
                    (offset, size),
                    #[trigger] old(self).free@[j],
                ),
            forall|j: int|
                0 <= j < old(self).reserved@.len() ==> seg_disjoint(
                    (offset, size),
                    #[trigger] old(self).reserved@[j],
                ),
        ensures
            final(self).geo_wf(),
            dealloc_in_post(*old(self), *final(self), offset, size),
    {
        let ghost pre = *self;
        let ghost l = pre.free@;
        let ghost s: Segment = (offset, size);
        if !self.validate_segment(offset, size) {
            self.discard(size);
            return;
        }
        // the freed bytes are zeroed before the segment joins the list
        zero_range(&mut self.mem, offset as usize, size as usize);
        proof {
            // each node's word range lies inside its own segment
            assert forall|i: int| 0 <= i < l.len() implies (#[trigger] l[i]).0 <= spec_node_pos(
                l[i].0,
            ) && spec_node_pos(l[i].0) + 8 < l[i].0 + l[i].1 by {
                lemma_align_up(l[i].0 as int, 8);
            }
            assert forall|i: int| 0 <= i < l.len() implies spec_word_at(
                self.mem@,
                spec_node_pos((#[trigger] l[i]).0),
            ) == spec_word_at(pre.mem@, spec_node_pos(l[i].0)) by {
                lemma_word_at_unchanged(pre.mem@, self.mem@, spec_node_pos(l[i].0));
            }
            assert(self.free_list_wf());
            assert(self.geo_wf());
        }
        let ghost m1 = self.mem@;
        let (prev, next, k) = self.find_free_list_position(size);
        let ghost ki = k@;
        let ghost l2 = l.insert(ki, s);
        // the new node's word names its successor, or ends the list
        let next_word = match next {
            Some(n) => encode_segment_node(n.0, n.1),
            None => encode_segment_node(u32::MAX, u32::MAX),
        };
        proof {
            lemma_align_up(offset as int, 8);
        }
        let pos = seg_node_pos(offset);
        write_word(&mut self.mem, pos, next_word);
        let ghost m2 = self.mem@;
        // the predecessor's word (or the sentinel) now names the new node
        let link = encode_segment_node(offset, size);
        match prev {
            None => {
                self.header.sentinel = link;
            },
            Some(p) => {
                proof {
                    lemma_align_up(p as int, 8);
                }
                let ppos = seg_node_pos(p);
                write_word(&mut self.mem, ppos, link);
            },
        }
        self.free = Ghost(l2);
        proof {
            lemma_ins_idx_unique(l, size, ki);
            lemma_insert_shape(pre, s, ki);
            lemma_insert_words(l, s, ki, pre.mem@, m1, m2, self.mem@, next_word, link);
            // the head of the list and the sentinel agree
            if ki == 0 {
                assert(l2[0] == s);
            } else {
                assert(l2[0] == l[0]);
            }
            assert(self.free_list_wf());
            assert(self.geo_wf());
            assert(dealloc_in_post(pre, *self, offset, size));
        }
    }

    /// Returns a live allocation `(offset, size)` — the exact pair of an
    /// earlier successful allocation, not yet deallocated — to the arena.
    /// The segment joins the free-list at its size-ordered position, or is
    /// discarded when it cannot host a node or is under the reuse
    /// threshold.
    pub fn dealloc(&mut self, offset: u32, size: u32)
        requires
            old(self).wf(),
            !old(self).ro,
            exists|i: int|
                0 <= i < old(self).reserved@.len() && #[trigger] old(self).reserved@[i] == (
                offset,
                size,
                ),
        ensures
            final(self).wf(),
            dealloc_post(*old(self), *final(self), offset, size),
    {
        let ghost pre = *self;
        let ghost i = choose|i: int|
            0 <= i < pre.reserved@.len() && #[trigger] pre.reserved@[i] == (offset, size);
        self.reserved = Ghost(pre.reserved@.remove(i));
        proof {
            assert(forall|j: int| 0 <= j < i ==> self.reserved@[j] == pre.reserved@[j]);
            assert(forall|j: int|
                i <= j < self.reserved@.len() ==> self.reserved@[j] == pre.reserved@[j + 1]);
            // the freed range is disjoint from every free segment and from
            // every other live allocation
            assert forall|j: int| 0 <= j < self.free@.len() implies seg_disjoint(
                (offset, size),
                #[trigger] self.free@[j],
            ) by {
                assert(seg_disjoint(pre.reserved@[i], pre.free@[j]));
            }
            assert forall|j: int| 0 <= j < self.reserved@.len() implies seg_disjoint(
                (offset, size),
                #[trigger] self.reserved@[j],
            ) by {
                let j0: int = if j < i {
                    j
                } else {
                    j + 1
                };
                assert(self.reserved@[j] == pre.reserved@[j0]);
                assert(seg_disjoint(pre.reserved@[i], pre.reserved@[j0]));
            }
            // the shrunk live set keeps its own invariants
            assert forall|j: int, j2: int|
                #![trigger self.reserved@[j], self.reserved@[j2]]
                0 <= j < self.reserved@.len() && 0 <= j2 < self.reserved@.len() && j != j2
                implies seg_disjoint(self.reserved@[j], self.reserved@[j2]) by {
                let j0: int = if j < i {
                    j
                } else {
                    j + 1
                };
                let j20: int = if j2 < i {
                    j2
                } else {
                    j2 + 1
                };
                assert(self.reserved@[j] == pre.reserved@[j0]);
                assert(self.reserved@[j2] == pre.reserved@[j20]);
            }
            assert forall|j: int, j2: int|
                #![trigger self.reserved@[j], self.free@[j2]]
                0 <= j < self.reserved@.len() && 0 <= j2 < self.free@.len() implies seg_disjoint(
                self.reserved@[j],
                self.free@[j2],
            ) by {
                let j0: int = if j < i {
                    j
                } else {
                    j + 1
                };
                assert(self.reserved@[j] == pre.reserved@[j0]);
            }
            assert(self.reserved_wf());
            assert(self.geo_wf());
        }
        self.dealloc_in(offset, size);
        proof {
            lemma_sum_sizes_remove(pre.reserved@, i);
            if seg_eligible((offset, size), pre.header.min_segment_size) {
                lemma_ins_idx_bounds(pre.free@, size);
                lemma_sum_sizes_insert(pre.free@, (offset, size), spec_ins_idx(pre.free@, size));
            }
            lemma_sum_sizes_nonneg(self.reserved@);
            lemma_sum_sizes_nonneg(self.free@);
            assert(self.conservation());
            assert(dealloc_post(pre, *self, offset, size));
        }
    }

    /// The slow path: pops the largest (head) segment of the free-list,
    /// hands out its leading `size` bytes, and gives the tail back to the
    /// allocator. Fails exactly when the list is empty or even its head
    /// is too small — the list is size-ordered, so nothing else could
    /// serve the request.
    #[verifier::spinoff_prover]
    #[verifier::rlimit(100)]
    fn alloc_slow_path(&mut self, size: u32) -> (r: Result<Option<Allocated>, Error>)
        requires
            old(self).wf(),
            !old(self).ro,
            1 <= size,
        ensures
            final(self).wf(),
            slow_path_post(*old(self), *final(self), size, r),
    {
        let ghost pre = *self;
        let ghost l = pre.free@;
        let head = self.header.sentinel;
        let (next, node_size) = decode_segment_node(head);
        proof {
            lemma_segment_node_codec(u32::MAX, u32::MAX, head);
            if l.len() > 0 {
                lemma_segment_node_codec(l[0].0, l[0].1, head);
                lemma_align_up(l[0].0 as int, 8);
            }
        }
        if next == u32::MAX && node_size == u32::MAX {
            // the free-list is empty
            let available = self.cap - self.header.allocated;
            return Err(Error::InsufficientSpace { requested: size, available });
        }
        // the head is the largest segment: nothing else could serve more
        if size > node_size {
            return Err(Error::InsufficientSpace { requested: size, available: node_size });
        }
        // unlink the head: its own word becomes the new sentinel
        let pos = seg_node_pos(next);
        let next_node_val = read_word(&self.mem, pos);
        self.header.sentinel = next_node_val;
        self.free = Ghost(l.drop_first());
        proof {
            let l2 = l.drop_first();
            assert(forall|j: int| 0 <= j < l2.len() ==> l2[j] == l[j + 1]);
            assert forall|j: int| 0 <= j < l2.len() implies spec_word_at(
                self.mem@,
                spec_node_pos((#[trigger] l2[j]).0),
            ) == (if j + 1 < l2.len() {
                spec_encode_segment_node(l2[j + 1].0, l2[j + 1].1)
            } else {
                spec_terminal_node()
            }) by {
                assert(l2[j] == l[j + 1]);
                if j + 1 < l2.len() {
                    assert(l2[j + 1] == l[j + 2]);
                }
            }
            assert(self.free_list_wf());
            assert(self.reserved_wf());
            assert(self.geo_wf());
        }
        // hand out the leading bytes, give the tail back to the allocator
        let tail_off = next + size;
        let tail_size = node_size - size;
        proof {
            // the tail lies inside the popped head, hence is disjoint from
            // everything still listed
            assert forall|j: int| 0 <= j < self.free@.len() implies seg_disjoint(
                (tail_off, tail_size),
                #[trigger] self.free@[j],
            ) by {
                assert(self.free@[j] == l[j + 1]);
                assert(seg_disjoint(l[0], l[j + 1]));
            }
            assert forall|j: int| 0 <= j < self.reserved@.len() implies seg_disjoint(
                (tail_off, tail_size),
                #[trigger] self.reserved@[j],
            ) by {
                assert(seg_disjoint(pre.reserved@[j], l[0]));
            }
        }
        self.dealloc_in(tail_off, tail_size);
        let ghost mid = *self;
        self.reserved = Ghost(mid.reserved@.push((next, size)));
        proof {
            let l2 = l.drop_first();
            let tail: Segment = (tail_off, tail_size);
            assert(forall|j: int|
                0 <= j < mid.reserved@.len() ==> self.reserved@[j] == mid.reserved@[j]);
            assert(self.reserved@[mid.reserved@.len() as int] == (next, size));
            // the new allocation lies inside the popped head
            assert forall|j: int, j2: int|
                #![trigger self.reserved@[j], self.reserved@[j2]]
                0 <= j < self.reserved@.len() && 0 <= j2 < self.reserved@.len() && j != j2
                implies seg_disjoint(self.reserved@[j], self.reserved@[j2]) by {
                if j < mid.reserved@.len() && j2 < mid.reserved@.len() {
                } else if j2 < mid.reserved@.len() {
                    assert(seg_disjoint(pre.reserved@[j2], l[0]));
                } else {
                    assert(seg_disjoint(pre.reserved@[j], l[0]));
                }
            }
            assert forall|j: int, j2: int|
                #![trigger self.reserved@[j], self.free@[j2]]
                0 <= j < self.reserved@.len() && 0 <= j2 < self.free@.len() implies seg_disjoint(
                self.reserved@[j],
                self.free@[j2],
            ) by {
                if j == mid.reserved@.len() {
                    if seg_eligible(tail, pre.header.min_segment_size) {
                        let ti = spec_ins_idx(l2, tail.1);
                        lemma_ins_idx_bounds(l2, tail.1);
                        let j0: int = if j2 < ti {
                            j2
                        } else {
                            j2 - 1
                        };
                        if j2 == ti {
                            assert(self.free@[j2] == tail);
                        } else {
                            assert(self.free@[j2] == l2[j0]);
                            assert(l2[j0] == l[j0 + 1]);
                            assert(seg_disjoint(l[0], l[j0 + 1]));
                        }
                    } else {
                        assert(self.free@[j2] == l[j2 + 1]);
                        assert(seg_disjoint(l[0], l[j2 + 1]));
                    }
                }
            }
            assert(self.reserved_wf());
            assert(self.geo_wf());
            // the byte ledger balances: the head left the list, its lead
            // became live and its tail went back (or was discarded)
            assert(sum_sizes(l) == l[0].1 + sum_sizes(l2));
            lemma_sum_sizes_push(mid.reserved@, (next, size));
            if seg_eligible(tail, pre.header.min_segment_size) {
                lemma_ins_idx_bounds(l2, tail.1);
                lemma_sum_sizes_insert(l2, tail, spec_ins_idx(l2, tail.1));
            }
            lemma_sum_sizes_nonneg(self.reserved@);
            lemma_sum_sizes_nonneg(self.free@);
            assert(self.conservation());
            // nothing outside the old free segments was touched
            assert forall|k2: int|
                0 <= k2 < pre.mem@.len() && !covered_by(l, k2) implies self.mem@[k2]
                == pre.mem@[k2] by {
                assert(l[0].0 <= k2 < l[0].0 + l[0].1 ==> covered_by(l, k2));
                assert(!covered_by(l2, k2)) by {
                    if covered_by(l2, k2) {
                        let w = choose|w: int|
                            0 <= w < l2.len() && (#[trigger] l2[w]).0 <= k2 < l2[w].0 + l2[w].1;
                        assert(l2[w] == l[w + 1]);
                    }
                }
            }
        }
        Ok(Some(Allocated { offset: next, cap: size }))
    }

    /// Allocates `size` bytes: first by bumping the high-water mark, then
    /// from the ordered free-list. A zero-size request yields the null
    /// descriptor; a read-only region refuses every request.
    pub fn alloc_bytes(&mut self, size: u32) -> (r: Result<Option<Allocated>, Error>)
        requires
            old(self).wf(),
        ensures
            final(self).wf(),
            alloc_bytes_post(*old(self), *final(self), size, r),
    {
        if self.ro {
            return Err(Error::ReadOnly);
        }
        if size == 0 {
            return Ok(None);
        }
        let ghost pre = *self;
        let allocated = self.header.allocated;
        if size <= self.cap && allocated <= self.cap - size {
            self.header.allocated = allocated + size;
            self.reserved = Ghost(pre.reserved@.push((allocated, size)));
            proof {
                lemma_sum_sizes_push(pre.reserved@, (allocated, size));
                assert(forall|j: int|
                    0 <= j < pre.reserved@.len() ==> self.reserved@[j] == pre.reserved@[j]);
                assert(self.reserved@[pre.reserved@.len() as int] == (allocated, size));
                // everything older ends at or before the old high-water
                // mark, so the fresh range is disjoint from all of it
                assert forall|j: int, j2: int|
                    #![trigger self.reserved@[j], self.reserved@[j2]]
                    0 <= j < self.reserved@.len() && 0 <= j2 < self.reserved@.len() && j != j2
                    implies seg_disjoint(self.reserved@[j], self.reserved@[j2]) by {}
                assert forall|j: int, j2: int|
                    #![trigger self.reserved@[j], self.free@[j2]]
                    0 <= j < self.reserved@.len() && 0 <= j2 < self.free@.len()
                    implies seg_disjoint(self.reserved@[j], self.free@[j2]) by {}
                assert(self.free_list_wf());
                assert(self.reserved_wf());
                assert(self.geo_wf());
                assert(self.conservation());
            }
            return Ok(Some(Allocated { offset: allocated, cap: size }));
        }
        // the bump is exhausted; the ordered free-list decides.  With one
        // owner the slow path is deterministic, so a retry loop could not
        // change its outcome: one attempt settles the request.
        self.alloc_slow_path(size)
    }

    /// Allocates room for a value of `size` bytes and alignment `align`.
    /// The reservation is padded by `align - 1` bytes, so whatever offset
    /// the bump hands out, [`Arena::get_aligned_pointer`] finds an aligned
    /// address inside it. A zero-size value yields the null descriptor.
    pub fn alloc_aligned(&mut self, size: u32, align: u32) -> (r: Result<Option<Allocated>, Error>)
        requires
            old(self).wf(),
            1 <= align,
            size + align - 1 <= u32::MAX,
        ensures
            final(self).wf(),
            size == 0 ==> r == Ok::<Option<Allocated>, Error>(None::<Allocated>) && *final(self)
                == *old(self),
            size >= 1 ==> alloc_bytes_post(
                *old(self),
                *final(self),
                (size + align - 1) as u32,
                r,
            ),
            (match r {
                Ok(Some(a)) => spec_align_up(a.offset as int, align as int) + size <= a.offset
                    + a.cap && a.cap == size + align - 1,
                _ => true,
            }),
    {
        if size == 0 {
            return Ok(None);
        }
        let padded = size + (align - 1);
        let r = self.alloc_bytes(padded);
        proof {
            match r {
                Ok(o) => match o {
                    Some(a) => {
                        lemma_align_up(a.offset as int, align as int);
                    },
                    None => {},
                },
                Err(_) => {},
            }
        }
        r
    }
}

/// Inserting an eligible segment, disjoint from everything, at its
/// size-ordered position keeps the shape of the free-list: segments stay
/// valid, sorted, pairwise disjoint, and disjoint from live allocations.
#[verifier::spinoff_prover]
#[verifier::rlimit(100)]
proof fn lemma_insert_shape(pre: Arena, s: Segment, ki: int)
    requires
        pre.geo_wf(),
        !pre.ro,
        0 <= ki <= pre.free@.len(),
        forall|i: int| 0 <= i < ki ==> (#[trigger] pre.free@[i]).1 > s.1,
        ki < pre.free@.len() ==> s.1 >= pre.free@[ki].1,
        forall|j: int| 0 <= j < pre.free@.len() ==> seg_disjoint(s, #[trigger] pre.free@[j]),
        forall|j: int|
            0 <= j < pre.reserved@.len() ==> seg_disjoint(s, #[trigger] pre.reserved@[j]),
        pre.data_offset <= s.0,
        s.0 + s.1 <= pre.header.allocated,
        spec_node_pos(s.0) + 12 < s.0 + s.1,
    ensures
        ({
            let l = pre.free@;
            let l2 = l.insert(ki, s);
            &&& forall|i: int| 0 <= i < l2.len() ==> pre.free_seg_ok(#[trigger] l2[i])
            &&& forall|i: int, j: int|
                #![trigger l2[i], l2[j]]
                0 <= i < j < l2.len() ==> l2[i].1 >= l2[j].1
            &&& forall|i: int, j: int|
                #![trigger l2[i], l2[j]]
                0 <= i < l2.len() && 0 <= j < l2.len() && i != j ==> seg_disjoint(l2[i], l2[j])
            &&& forall|i: int, j: int|
                #![trigger pre.reserved@[i], l2[j]]
                0 <= i < pre.reserved@.len() && 0 <= j < l2.len() ==> seg_disjoint(
                    pre.reserved@[i],
                    l2[j],
                )
        }),
{
    let l = pre.free@;
    let l2 = l.insert(ki, s);
    assert(forall|j: int| 0 <= j < ki ==> l2[j] == l[j]);
    assert(l2[ki] == s);
    assert(forall|j: int| ki < j < l2.len() ==> l2[j] == l[j - 1]);
    assert forall|i: int| 0 <= i < l2.len() implies pre.free_seg_ok(#[trigger] l2[i]) by {
        if i != ki {
            let i0: int = if i < ki {
                i
            } else {
                i - 1
            };
            assert(l2[i] == l[i0]);
        }
    }
    assert forall|i: int, j: int|
        #![trigger l2[i], l2[j]]
        0 <= i < j < l2.len() implies l2[i].1 >= l2[j].1 by {
        if j < ki {
        } else if j == ki {
            assert(l2[i] == l[i] && l[i].1 > s.1);
        } else if i == ki {
            assert(l2[j] == l[j - 1]);
            assert(s.1 >= l[ki].1);
            if ki < j - 1 {
                assert(l[ki].1 >= l[j - 1].1);
            }
        } else if i < ki {
            assert(l2[i] == l[i] && l2[j] == l[j - 1]);
            assert(l[i].1 > s.1 && s.1 >= l[ki].1);
            if ki < j - 1 {
                assert(l[ki].1 >= l[j - 1].1);
            }
        } else {
            assert(l2[i] == l[i - 1] && l2[j] == l[j - 1]);
        }
    }
    assert forall|i: int, j: int|
        #![trigger l2[i], l2[j]]
        0 <= i < l2.len() && 0 <= j < l2.len() && i != j implies seg_disjoint(l2[i], l2[j]) by {
        if i != ki && j != ki {
            let i0: int = if i < ki {
                i
            } else {
                i - 1
            };
            let j0: int = if j < ki {
                j
            } else {
                j - 1
            };
            assert(l2[i] == l[i0] && l2[j] == l[j0]);
        } else if i == ki {
            let j0: int = if j < ki {
                j
            } else {
                j - 1
            };
            assert(l2[j] == l[j0]);
            assert(seg_disjoint(s, l[j0]));
        } else {
            let i0: int = if i < ki {
                i
            } else {
                i - 1
            };
            assert(l2[i] == l[i0]);
            assert(seg_disjoint(s, l[i0]));
        }
    }
    assert forall|i: int, j: int|
        #![trigger pre.reserved@[i], l2[j]]
        0 <= i < pre.reserved@.len() && 0 <= j < l2.len() implies seg_disjoint(
        pre.reserved@[i],
        l2[j],
    ) by {
        if j != ki {
            let j0: int = if j < ki {
                j
            } else {
                j - 1
            };
            assert(l2[j] == l[j0]);
            assert(seg_disjoint(pre.reserved@[i], l[j0]));
        } else {
            assert(seg_disjoint(s, pre.reserved@[i]));
        }
    }
}

/// After zeroing the new segment (`m0` to `m1`), writing its node word
/// (`m1` to `m2`), and relinking the predecessor's word — or nothing, at
/// the head (`m2` to `m3`) — the node words spell out exactly the
/// inserted list, and no byte outside the new segment and the old free
/// segments has changed.
#[verifier::spinoff_prover]
#[verifier::rlimit(100)]
proof fn lemma_insert_words(
    l: Seq<Segment>,
    s: Segment,
    ki: int,
    m0: Seq<u8>,
    m1: Seq<u8>,
    m2: Seq<u8>,
    m3: Seq<u8>,
    next_word: u64,
    link: u64,
)
    requires
        0 <= ki <= l.len(),
        forall|i: int|
            0 <= i < l.len() ==> (#[trigger] l[i]).0 <= spec_node_pos(l[i].0) && spec_node_pos(
                l[i].0,
            ) + 8 < l[i].0 + l[i].1 && l[i].0 + l[i].1 <= m0.len(),
        forall|i: int, j: int|
            #![trigger l[i], l[j]]
            0 <= i < l.len() && 0 <= j < l.len() && i != j ==> seg_disjoint(l[i], l[j]),
        forall|j: int| 0 <= j < l.len() ==> seg_disjoint(s, #[trigger] l[j]),
        s.0 <= spec_node_pos(s.0),
        spec_node_pos(s.0) + 8 < s.0 + s.1,
        s.0 + s.1 <= m0.len(),
        forall|i: int|
            0 <= i < l.len() ==> spec_word_at(m0, spec_node_pos((#[trigger] l[i]).0)) == (if i + 1
                < l.len() {
                spec_encode_segment_node(l[i + 1].0, l[i + 1].1)
            } else {
                spec_terminal_node()
            }),
        m0.len() == m1.len() && m1.len() == m2.len() && m2.len() == m3.len(),
        forall|k: int| 0 <= k < m0.len() && !(s.0 <= k < s.0 + s.1) ==> m1[k] == m0[k],
        spec_word_at(m2, spec_node_pos(s.0)) == next_word,
        forall|k: int|
            0 <= k < m1.len() && !(spec_node_pos(s.0) <= k < spec_node_pos(s.0) + 8) ==> m2[k]
                == m1[k],
        ki == 0 ==> m3 == m2,
        ki >= 1 ==> spec_word_at(m3, spec_node_pos(l[ki - 1].0)) == link && (forall|k: int|
            0 <= k < m2.len() && !(spec_node_pos(l[ki - 1].0) <= k < spec_node_pos(l[ki - 1].0)
                + 8) ==> m3[k] == m2[k]),
        next_word == (if ki == l.len() {
            spec_terminal_node()
        } else {
            spec_encode_segment_node(l[ki].0, l[ki].1)
        }),
        link == spec_encode_segment_node(s.0, s.1),
    ensures
        ({
            let l2 = l.insert(ki, s);
            &&& forall|i: int|
                0 <= i < l2.len() ==> spec_word_at(m3, spec_node_pos((#[trigger] l2[i]).0)) == (if i
                    + 1 < l2.len() {
                    spec_encode_segment_node(l2[i + 1].0, l2[i + 1].1)
                } else {
                    spec_terminal_node()
                })
            &&& forall|k2: int|
                0 <= k2 < m0.len() && !(s.0 <= k2 < s.0 + s.1) && !covered_by(l, k2) ==> m3[k2]
                    == m0[k2]
        }),
{
    let l2 = l.insert(ki, s);
    assert(forall|j: int| 0 <= j < ki ==> l2[j] == l[j]);
    assert(l2[ki] == s);
    assert(forall|j: int| ki < j < l2.len() ==> l2[j] == l[j - 1]);
    // words of nodes other than the predecessor are untouched
    assert forall|i: int|
        0 <= i < l.len() && !(ki >= 1 && i == ki - 1) implies spec_word_at(
        m3,
        spec_node_pos((#[trigger] l[i]).0),
    ) == spec_word_at(m0, spec_node_pos(l[i].0)) by {
        lemma_word_at_unchanged(m0, m3, spec_node_pos(l[i].0));
    }
    // the new node's word survived the predecessor's relink
    if ki >= 1 {
        lemma_word_at_unchanged(m2, m3, spec_node_pos(s.0));
    }
    assert(spec_word_at(m3, spec_node_pos(s.0)) == next_word);
    // the words spell out the inserted list
    assert forall|i: int| 0 <= i < l2.len() implies spec_word_at(
        m3,
        spec_node_pos((#[trigger] l2[i]).0),
    ) == (if i + 1 < l2.len() {
        spec_encode_segment_node(l2[i + 1].0, l2[i + 1].1)
    } else {
        spec_terminal_node()
    }) by {
        if i < ki - 1 {
            assert(l2[i] == l[i]);
            assert(l2[i + 1] == l[i + 1]);
        } else if ki >= 1 && i == ki - 1 {
            assert(l2[i] == l[ki - 1]);
            assert(l2[i + 1] == s);
            assert(spec_word_at(m3, spec_node_pos(l[ki - 1].0)) == link);
        } else if i == ki {
        } else {
            assert(l2[i] == l[i - 1]);
            if i + 1 < l2.len() {
                assert(l2[i + 1] == l[i]);
            }
        }
    }
    // bytes outside the new segment and the old segments are untouched
    assert forall|k2: int|
        0 <= k2 < m0.len() && !(s.0 <= k2 < s.0 + s.1) && !covered_by(l, k2) implies m3[k2]
        == m0[k2] by {
        if ki >= 1 {
            assert(l[ki - 1].0 <= k2 < l[ki - 1].0 + l[ki - 1].1 ==> covered_by(l, k2));
        }
    }
}

} // verus!
