//! The heap backing of a volatile region, and the teardown policy shared
//! with file-backed regions.

use vstd::prelude::*;

verus! {

/// A zero-initialized byte buffer whose allocation alignment is recorded
/// beside it. The alignment is raised to the header's alignment (8) when a
/// smaller one is asked for.
pub struct AlignedVec {
    /// The buffer itself.
    pub data: Vec<u8>,
    /// The alignment the buffer was allocated with.
    pub align: usize,
}

impl AlignedVec {
    /// The largest capacity an allocation of alignment `align` can have.
    pub fn max_capacity(align: usize) -> (r: usize)
        requires
            1 <= align <= isize::MAX as usize,
        ensures
            r == isize::MAX as usize - (align - 1),
    {
        isize::MAX as usize - (align - 1)
    }

    /// Allocates a zeroed buffer of `capacity` bytes, raising `align` to at
    /// least 8.
    pub fn new(capacity: usize, align: usize) -> (r: AlignedVec)
        requires
            capacity <= isize::MAX as usize - (if align >= 8 { align } else { 8 } - 1),
        ensures
            r.data@ == Seq::new(capacity as nat, |i: int| 0u8),
            r.data@.len() == capacity,
            r.align == if align >= 8 { align } else { 8 },
    {
        let align = if align >= 8 { align } else { 8 };
        let data = vec![0u8; capacity];
        assert(data@ =~= Seq::new(capacity as nat, |i: int| 0u8));
        AlignedVec { data, align }
    }

    /// Read access to the buffer.
    pub fn as_ptr(&self) -> (r: &Vec<u8>)
        ensures
            *r == self.data,
    {
        &self.data
    }

    /// Write access to the buffer.
    pub fn as_mut_ptr(&mut self) -> (r: &mut Vec<u8>)
        ensures
            *r == old(self).data,
            final(self).data == *final(r),
            final(self).align == old(self).align,
    {
        &mut self.data
    }
}

/// The size a file-backed region must be truncated to at teardown:
/// `Some(allocated)` exactly when shrinking was requested and the region
/// used less than its capacity, `None` otherwise.
pub fn shrink_target(shrink_on_drop: bool, allocated: u32, cap: u32) -> (r: Option<u32>)
    ensures
        r == if shrink_on_drop && allocated < cap {
            Some(allocated)
        } else {
            None::<u32>
        },
{
    if shrink_on_drop && allocated < cap {
        Some(allocated)
    } else {
        None
    }
}

} // verus!
