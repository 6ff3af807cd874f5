//! The region header: the four words of authoritative allocator state.

use vstd::prelude::*;

use crate::node::spec_terminal_node;

verus! {

/// Number of bytes the header occupies in a unified region image:
/// one 64-bit word and three 32-bit words, padded to 8-byte alignment.
pub const HEADER_SIZE: usize = 24;

/// The allocator's authoritative state.
///
/// In a unified region the header is serialized into the first
/// [`HEADER_SIZE`] bytes of the image; in a non-unified (volatile) region
/// it lives only beside the bytes.
pub struct Header {
    /// Head word of the ordered free-list: `(next, size)` of the first
    /// node, or the terminal word when the list is empty.
    pub sentinel: u64,
    /// Bump high-water mark: all bytes below it are spoken for.
    pub allocated: u32,
    /// Freed segments smaller than this are discarded, not reused.
    pub min_segment_size: u32,
    /// Bytes lost to fragmentation, never reclaimable.
    pub discarded: u32,
}

impl Header {
    /// A fresh header: nothing allocated past `size`, empty free-list,
    /// nothing discarded.
    pub fn new(size: u32, min_segment_size: u32) -> (r: Header)
        ensures
            r.allocated == size,
            r.sentinel == spec_terminal_node(),
            r.min_segment_size == min_segment_size,
            r.discarded == 0,
    {
        Header {
            allocated: size,
            sentinel: crate::node::encode_segment_node(u32::MAX, u32::MAX),
            min_segment_size,
            discarded: 0,
        }
    }
}

} // verus!
