//! The generator that steps a shared-style grid from one thread.

use super::apply::apply_range;
use super::laws::lemma_generation_is_conway;
use super::rule::{generation, next_alive};
use crate::cell::packed::{alive_of, CellError};
use crate::common::Generator;
use crate::grid::atomic_grid::AtomicGrid;
use crate::grid::census::consistent;
use crate::grid::moves::reported;
use crate::grid::torus::shape_ok;
use vstd::prelude::*;

verus! {

/// A grid, and the cache that a generation reads while it writes to the grid.
pub struct SingleThreadedGenerator<const H: usize, const W: usize> {
    grid: AtomicGrid<H, W>,
    cache: AtomicGrid<H, W>,
}

impl<const H: usize, const W: usize> SingleThreadedGenerator<H, W> {
    /// The bytes of the grid.
    pub closed spec fn live(&self) -> Seq<u8> {
        self.grid@
    }

    /// The bytes of the cache.
    pub closed spec fn frozen(&self) -> Seq<u8> {
        self.cache@
    }

    /// Grid and cache are both well formed.
    pub open spec fn wf(&self) -> bool {
        &&& shape_ok(H as int, W as int)
        &&& self.live().len() == H * W
        &&& self.frozen().len() == H * W
    }

    /// A generator for `grid`, with a cache of dead cells.
    pub fn new(grid: AtomicGrid<H, W>) -> (r: Self)
        requires
            grid.wf(),
        ensures
            r.wf(),
            r.live() == grid@,
            forall|i: int| 0 <= i < H * W ==> r.frozen()[i] == 0,
    {
        Self { grid: grid, cache: AtomicGrid::new() }
    }

    /// One generation: the grid is copied into the cache in one sweep, then
    /// the rule is applied to every cell, column by column. The first refused
    /// move ends it.
    pub fn generate(&mut self) -> (r: Result<(), CellError>)
        requires
            old(self).wf(),
        ensures
            final(self).wf(),
            final(self).frozen() == old(self).live(),
            final(self).live() == generation(old(self).live(), H as int, W as int).cells,
            r == reported(generation(old(self).live(), H as int, W as int)),
            consistent(old(self).live(), H as int, W as int) ==> {
                &&& r is Ok
                &&& consistent(final(self).live(), H as int, W as int)
                &&& forall|i: int|
                    0 <= i < H * W ==> alive_of(#[trigger] final(self).live()[i]) == next_alive(
                        old(self).live()[i],
                    )
            },
    {
        proof {
            if consistent(self.live(), H as int, W as int) {
                lemma_generation_is_conway(self.live(), H as int, W as int);
            }
        }
        self.cache.unsafe_copy_from(&self.grid);
        apply_range(&self.cache, &mut self.grid, 0, W, 0, H)
    }

    /// The grid.
    pub fn grid(&self) -> (r: &AtomicGrid<H, W>)
        ensures
            r@ == self.live(),
    {
        &self.grid
    }
}

impl<const H: usize, const W: usize> Generator<H, W> for SingleThreadedGenerator<H, W> {
    open spec fn cells(&self) -> Seq<u8> {
        self.live()
    }

    open spec fn ready(&self) -> bool {
        self.wf()
    }

    fn generate(&mut self) -> (r: Result<(), CellError>) {
        SingleThreadedGenerator::generate(self)
    }

    fn grid(&self) -> (r: &AtomicGrid<H, W>) {
        SingleThreadedGenerator::grid(self)
    }
}

} // verus!
