//! A bump-allocating arena over a fixed-capacity byte region, with an
//! ordered free-list of reclaimed segments threaded through the region
//! itself.
//!
//! The arena hands out `(offset, capacity)` descriptors. Allocation first
//! tries a monotone bump of the `allocated` high-water mark; when the bump
//! runs out it pops the largest segment from a free-list that is kept in
//! non-increasing size order. Freed segments host their own list node (one
//! 64-bit word) inside the freed bytes, so the whole allocator state can
//! live inside the region and survive a reopen of a persisted image.

pub mod arena;
pub mod backed;
pub mod error;
pub mod header;
pub mod laws;
pub mod node;
pub mod options;
pub mod refs;
pub mod word;
