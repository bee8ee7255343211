//! The generator that owns both of its grids and steps them alone.

use super::apply::apply_range;
use super::laws::lemma_generation_is_conway;
use super::rule::{applied_range, generation, intact, next_alive};
use crate::cell::packed::{alive_of, CellError};
use crate::grid::census::consistent;
use crate::grid::moves::reported;
use crate::grid::simple_grid::SimpleGrid;
use crate::grid::torus::shape_ok;
use crate::utils::{flip_coins, seed_cells, seeded};
use std::sync::Arc;
use vstd::prelude::*;

verus! {

/// A grid behind one handle: read through `get`, changed through `get_mut`.
pub struct SharedState<const H: usize, const W: usize>(SimpleGrid<H, W>);

impl<const H: usize, const W: usize> View for SharedState<H, W> {
    type V = Seq<u8>;

    /// The packed bytes of the grid, row by row.
    closed spec fn view(&self) -> Seq<u8> {
        self.0@
    }
}

impl<const H: usize, const W: usize> SharedState<H, W> {
    /// The grid behind the handle is well formed.
    pub open spec fn wf(&self) -> bool {
        shape_ok(H as int, W as int) && self@.len() == H * W
    }

    /// A grid of dead cells without neighbors.
    pub fn new() -> (r: Self)
        requires
            shape_ok(H as int, W as int),
        ensures
            r.wf(),
            forall|i: int| 0 <= i < H * W ==> r@[i] == 0,
    {
        Self(SimpleGrid::new())
    }

    /// The grid, to read.
    pub fn get(&self) -> (r: &SimpleGrid<H, W>)
        ensures
            r@ == self@,
    {
        &self.0
    }

    /// The grid, to change. What the caller leaves in it is what the handle holds afterwards.
    pub fn get_mut(&mut self) -> (r: &mut SimpleGrid<H, W>)
        ensures
            r@ == old(self)@,
            final(self)@ == final(r)@,
    {
        &mut self.0
    }
}

/// A grid, and the cache that a generation reads while it writes to the grid.
pub struct UnsafeCellGenerator<const H: usize, const W: usize> {
    grid: SharedState<H, W>,
    cache: SharedState<H, W>,
}

impl<const H: usize, const W: usize> UnsafeCellGenerator<H, W> {
    /// The bytes of the grid.
    pub closed spec fn live(&self) -> Seq<u8> {
        self.grid@
    }

    /// The bytes of the cache.
    pub closed spec fn frozen(&self) -> Seq<u8> {
        self.cache@
    }

    /// Grid and cache are both well formed.
    pub open spec fn wf(&self) -> bool {
        &&& shape_ok(H as int, W as int)
        &&& self.live().len() == H * W
        &&& self.frozen().len() == H * W
    }

    /// A generator whose grid and cache hold dead cells without neighbors.
    pub fn new() -> (r: Self)
        requires
            shape_ok(H as int, W as int),
        ensures
            r.wf(),
            forall|i: int| 0 <= i < H * W ==> r.live()[i] == 0 && r.frozen()[i] == 0,
    {
        Self { grid: SharedState::new(), cache: SharedState::new() }
    }

    /// Spawns each cell of the grid with a probability of one half, each cell
    /// on a coin of its own: the grid is seeded with some sequence of coins.
    pub fn randomize(&mut self) -> (r: Result<(), CellError>)
        requires
            old(self).wf(),
        ensures
            final(self).wf(),
            final(self).frozen() == old(self).frozen(),
            exists|coins: Seq<bool>|
                {
                    &&& coins.len() == H * W
                    &&& final(self).live() == (#[trigger] seeded(
                        old(self).live(),
                        coins,
                        H * W,
                        H as int,
                        W as int,
                    )).cells
                    &&& r == reported(seeded(old(self).live(), coins, H * W, H as int, W as int))
                },
    {
        let coins = flip_coins(H * W);
        seed_cells(&mut self.grid.0, coins.as_slice())
    }

    /// One generation: the grid is copied into the cache, then the rule is
    /// applied to every cell, column by column. The first refused move ends it.
    pub fn generate(&mut self) -> (r: Result<(), CellError>)
        requires
            old(self).wf(),
        ensures
            final(self).wf(),
            final(self).frozen() == old(self).live(),
            final(self).live() == generation(old(self).live(), H as int, W as int).cells,
            r == reported(generation(old(self).live(), H as int, W as int)),
            consistent(old(self).live(), H as int, W as int) ==> {
                &&& r is Ok
                &&& consistent(final(self).live(), H as int, W as int)
                &&& forall|i: int|
                    0 <= i < H * W ==> alive_of(#[trigger] final(self).live()[i]) == next_alive(
                        old(self).live()[i],
                    )
            },
    {
        proof {
            if consistent(self.live(), H as int, W as int) {
                lemma_generation_is_conway(self.live(), H as int, W as int);
            }
        }
        self.cache.0.copy_from(&self.grid.0);
        apply_range(&self.cache.0, &mut self.grid.0, 0, W, 0, H)
    }

    /// Applies the rule to the columns from `x0` up to `xn` and the rows from
    /// `y0` up to `yn`, column by column, reading the cache as it stands.
    pub fn generate_slice(&mut self, x0: usize, xn: usize, y0: usize, yn: usize) -> (r: Result<
        (),
        CellError,
    >)
        requires
            old(self).wf(),
        ensures
            final(self).wf(),
            final(self).frozen() == old(self).frozen(),
            final(self).live() == applied_range(
                old(self).frozen(),
                intact(old(self).live()),
                x0 as int,
                xn as int,
                y0 as int,
                yn as int,
                H as int,
                W as int,
            ).cells,
            r == reported(
                applied_range(
                    old(self).frozen(),
                    intact(old(self).live()),
                    x0 as int,
                    xn as int,
                    y0 as int,
                    yn as int,
                    H as int,
                    W as int,
                ),
            ),
    {
        apply_range(&self.cache.0, &mut self.grid.0, x0, xn, y0, yn)
    }

    /// The grid and the cache, both to change.
    pub fn mut_state_cache_pair(&mut self) -> (r: (&mut SimpleGrid<H, W>, &mut SimpleGrid<H, W>))
        ensures
            r.0@ == old(self).live(),
            r.1@ == old(self).frozen(),
            final(self).live() == final(r.0)@,
            final(self).frozen() == final(r.1)@,
    {
        (&mut self.grid.0, &mut self.cache.0)
    }

    /// The grid and the cache, both to read.
    pub fn state_cache_pair(&self) -> (r: (&SimpleGrid<H, W>, &SimpleGrid<H, W>))
        ensures
            r.0@ == self.live(),
            r.1@ == self.frozen(),
    {
        (&self.grid.0, &self.cache.0)
    }

    /// The grid, to change.
    pub fn mut_cells(&mut self) -> (r: &mut SimpleGrid<H, W>)
        ensures
            r@ == old(self).live(),
            final(self).live() == final(r)@,
            final(self).frozen() == old(self).frozen(),
    {
        &mut self.grid.0
    }

    /// The handle of the grid.
    pub fn grid(&self) -> (r: &SharedState<H, W>)
        ensures
            r@ == self.live(),
    {
        &self.grid
    }

    /// A shared handle on a copy of the grid as it stands. The copy does not
    /// follow what the generator does afterwards.
    pub fn mut_cells_ref(&self) -> (r: Arc<SharedState<H, W>>)
        requires
            self.wf(),
        ensures
            r@ == self.live(),
            r.wf(),
    {
        let mut copy = SharedState::<H, W>::new();
        copy.0.copy_from(&self.grid.0);
        Arc::new(copy)
    }

    /// The handle of the cache.
    pub fn cache(&self) -> (r: &SharedState<H, W>)
        ensures
            r@ == self.frozen(),
    {
        &self.cache
    }
}

} // verus!
