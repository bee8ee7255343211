//! How a generator brings its cache up to date.
//!
//! The two traits say when it is done, not how: whoever implements one
//! decides what its state and its cache are. The generators of this library
//! state what their own update does on the methods that the traits call.

use crate::generator::atomic_generator::AtomicGenerator;
use vstd::prelude::*;

verus! {

/// Bringing the cache up to date cell by cell. The cache is to be updated
/// once for each generation, before the rule is applied.
pub trait CachingStrategy<const H: usize, const W: usize> {
    /// Makes the cache a copy of the state.
    fn update_cache(&mut self);
}

/// Bringing the cache up to date in one sweep, which needs the cache to
/// itself. The cache is to be updated once for each generation, before the
/// rule is applied.
pub trait UnsafeCachingStrategy<const H: usize, const W: usize> {
    /// Makes the cache a copy of the state.
    fn u_update_cache(&mut self);
}

impl<const H: usize, const W: usize> CachingStrategy<H, W> for AtomicGenerator<H, W> {
    /// Copies the grid into the cache cell by cell, if the generator is well
    /// formed; leaves it alone otherwise.
    fn update_cache(&mut self)
        ensures
            old(self).wf() ==> final(self).wf() && final(self).live() == old(self).live()
                && final(self).frozen() == old(self).live(),
            !old(self).wf() ==> final(self).live() == old(self).live() && final(self).frozen()
                == old(self).frozen(),
    {
        if self.is_well_formed() {
            self._update_cache();
        }
    }
}

impl<const H: usize, const W: usize> UnsafeCachingStrategy<H, W> for AtomicGenerator<H, W> {
    /// Copies the grid into the cache in one sweep, if the generator is well
    /// formed; leaves it alone otherwise.
    fn u_update_cache(&mut self)
        ensures
            old(self).wf() ==> final(self).wf() && final(self).live() == old(self).live()
                && final(self).frozen() == old(self).live(),
            !old(self).wf() ==> final(self).live() == old(self).live() && final(self).frozen()
                == old(self).frozen(),
    {
        if self.is_well_formed() {
            self._unsafe_update_cache();
        }
    }
}

} // verus!
