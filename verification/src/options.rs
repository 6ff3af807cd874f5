//! Construction options for an arena.

use vstd::prelude::*;

verus! {

/// Options for creating an arena.
#[derive(Clone, Copy, Debug)]
pub struct ArenaOptions {
    /// Usable bytes requested; header or alignment overhead is added on top.
    pub capacity: u32,
    /// Alignment of the backing allocation; raised to the header's
    /// alignment when smaller.
    pub maximum_alignment: usize,
    /// Freed segments smaller than this are discarded, not reused.
    pub minimum_segment_size: u32,
    /// Retry cap for the slow allocation path.
    pub maximum_retries: u8,
    /// Whether the header lives inside the region (required for any image
    /// that is persisted and reopened).
    pub unify: bool,
}

impl ArenaOptions {
    /// Default options: a small volatile region.
    pub fn new() -> (r: ArenaOptions)
        ensures
            r.capacity == 1024,
            r.maximum_alignment == 8,
            r.minimum_segment_size == 20,
            r.maximum_retries == 5,
            !r.unify,
    {
        ArenaOptions {
            capacity: 1024,
            maximum_alignment: 8,
            minimum_segment_size: 20,
            maximum_retries: 5,
            unify: false,
        }
    }

    /// Sets the requested usable capacity.
    pub fn with_capacity(self, capacity: u32) -> (r: ArenaOptions)
        ensures
            r == (ArenaOptions { capacity, ..self }),
    {
        ArenaOptions { capacity, ..self }
    }

    /// Sets the alignment of the backing allocation.
    pub fn with_maximum_alignment(self, maximum_alignment: usize) -> (r: ArenaOptions)
        ensures
            r == (ArenaOptions { maximum_alignment, ..self }),
    {
        ArenaOptions { maximum_alignment, ..self }
    }

    /// Sets the minimum reusable segment size.
    pub fn with_minimum_segment_size(self, minimum_segment_size: u32) -> (r: ArenaOptions)
        ensures
            r == (ArenaOptions { minimum_segment_size, ..self }),
    {
        ArenaOptions { minimum_segment_size, ..self }
    }

    /// Sets the slow-path retry cap.
    pub fn with_maximum_retries(self, maximum_retries: u8) -> (r: ArenaOptions)
        ensures
            r == (ArenaOptions { maximum_retries, ..self }),
    {
        ArenaOptions { maximum_retries, ..self }
    }

    /// Chooses whether the header lives inside the region.
    pub fn with_unify(self, unify: bool) -> (r: ArenaOptions)
        ensures
            r == (ArenaOptions { unify, ..self }),
    {
        ArenaOptions { unify, ..self }
    }

    /// Returns the requested usable capacity.
    pub fn capacity(&self) -> (r: u32)
        ensures
            r == self.capacity,
    {
        self.capacity
    }

    /// Returns the backing alignment.
    pub fn maximum_alignment(&self) -> (r: usize)
        ensures
            r == self.maximum_alignment,
    {
        self.maximum_alignment
    }

    /// Returns the minimum reusable segment size.
    pub fn minimum_segment_size(&self) -> (r: u32)
        ensures
            r == self.minimum_segment_size,
    {
        self.minimum_segment_size
    }

    /// Returns the slow-path retry cap.
    pub fn maximum_retries(&self) -> (r: u8)
        ensures
            r == self.maximum_retries,
    {
        self.maximum_retries
    }

    /// Returns whether the header lives inside the region.
    pub fn unify(&self) -> (r: bool)
        ensures
            r == self.unify,
    {
        self.unify
    }
}

} // verus!
