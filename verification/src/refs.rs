//! The handle reference counter.
//!
//! Handles to one region share a counter that starts at one; cloning a
//! handle increments it and dropping one decrements it. Teardown of the
//! backing region must run exactly once, on the drop that takes the count
//! to zero. The counter's transitions are verified here; the caller that
//! owns the real backing performs the teardown when `release` says so.

use vstd::prelude::*;

verus! {

/// A reference counter for handles to one shared region.
pub struct RefCounter {
    /// The number of live handles.
    pub refs: usize,
}

impl RefCounter {
    /// The counter of a freshly created region: one handle.
    pub fn new() -> (r: RefCounter)
        ensures
            r.refs == 1,
    {
        RefCounter { refs: 1 }
    }

    /// Returns the number of live handles.
    pub fn refs(&self) -> (r: usize)
        ensures
            r == self.refs,
    {
        self.refs
    }

    /// Records a cloned handle.
    ///
    /// A count past half the `usize` range aborts the process in the
    /// original design rather than overflowing; that input is excluded
    /// here.
    pub fn acquire(&mut self)
        requires
            1 <= old(self).refs,
            old(self).refs <= usize::MAX / 2,
        ensures
            final(self).refs == old(self).refs + 1,
    {
        self.refs = self.refs + 1;
    }

    /// Records a dropped handle. Returns true exactly when this drop was
    /// the last one, i.e. when the caller must tear the region down.
    pub fn release(&mut self) -> (teardown: bool)
        requires
            1 <= old(self).refs,
        ensures
            final(self).refs == old(self).refs - 1,
            teardown <==> old(self).refs == 1,
    {
        self.refs = self.refs - 1;
        self.refs == 0
    }
}

/// How many of `n_releases` successive releases, starting from `count`
/// live handles, report that teardown must run.
pub open spec fn spec_teardowns(count: nat, n_releases: nat) -> nat
    recommends
        n_releases <= count,
    decreases n_releases,
{
    if n_releases == 0 {
        0
    } else {
        (if count == 1 {
            1nat
        } else {
            0nat
        }) + spec_teardowns((count - 1) as nat, (n_releases - 1) as nat)
    }
}

/// Cloning a handle `k` times then dropping all `k + 1` copies reports
/// teardown exactly once: a fresh counter holds 1, the `k` clones raise it
/// to `k + 1`, and of the `k + 1` releases only the last returns true.
pub proof fn lemma_teardown_runs_once(k: nat)
    ensures
        spec_teardowns(k + 1, k + 1) == 1,
{
    lemma_teardowns_exhausting(k + 1);
}

/// Releasing every one of `count >= 1` live handles reports teardown
/// exactly once.
pub proof fn lemma_teardowns_exhausting(count: nat)
    requires
        count >= 1,
    ensures
        spec_teardowns(count, count) == 1,
    decreases count,
{
    if count > 1 {
        lemma_teardowns_exhausting((count - 1) as nat);
        assert(spec_teardowns(count, count) == spec_teardowns((count - 1) as nat, (count - 1) as nat));
    } else {
        assert(spec_teardowns(1, 1) == 1 + spec_teardowns(0, 0));
        assert(spec_teardowns(0, 0) == 0);
    }
}

/// Releases that stop short of the last handle never report teardown.
pub proof fn lemma_no_early_teardown(count: nat, n_releases: nat)
    requires
        n_releases < count,
    ensures
        spec_teardowns(count, n_releases) == 0,
    decreases n_releases,
{
    if n_releases > 0 {
        lemma_no_early_teardown((count - 1) as nat, (n_releases - 1) as nat);
    }
}

} // verus!
