//! The generator of the shared simulation: a grid and its cache.

use super::apply::{apply_cell, apply_range};
use super::laws::lemma_generation_is_conway;
use super::rule::{applied_cell, applied_range, generation, intact, next_alive};
use crate::cell::packed::{alive_of, CellError};
use crate::common::Generator;
use crate::grid::atomic_grid::AtomicGrid;
use crate::grid::census::consistent;
use crate::grid::moves::reported;
use crate::grid::torus::{cell_index, shape_ok};
use std::ops::ControlFlow;
use vstd::prelude::*;

verus! {

/// A grid, and the cache that a generation reads while it writes to the grid.
pub struct AtomicGenerator<const H: usize, const W: usize> {
    grid: AtomicGrid<H, W>,
    cache: AtomicGrid<H, W>,
}

impl<const H: usize, const W: usize> AtomicGenerator<H, W> {
    /// The bytes of the grid.
    pub closed spec fn live(&self) -> Seq<u8> {
        self.grid@
    }

    /// The bytes of the cache.
    pub closed spec fn frozen(&self) -> Seq<u8> {
        self.cache@
    }

    /// Grid and cache are both well formed.
    pub open spec fn wf(&self) -> bool {
        &&& shape_ok(H as int, W as int)
        &&& self.live().len() == H * W
        &&& self.frozen().len() == H * W
    }

    /// A generator for `grid`, with a cache of dead cells.
    pub fn new(grid: AtomicGrid<H, W>) -> (r: Self)
        requires
            grid.wf(),
        ensures
            r.wf(),
            r.live() == grid@,
            forall|i: int| 0 <= i < H * W ==> r.frozen()[i] == 0,
    {
        Self { grid: grid, cache: AtomicGrid::new() }
    }

    /// Whether grid and cache are both well formed. Every generator that
    /// `new` has made is.
    pub fn is_well_formed(&self) -> (r: bool)
        ensures
            r == self.wf(),
    {
        self.grid.is_well_formed() && self.cache.is_well_formed()
    }

    /// The grid.
    pub fn grid(&self) -> (r: &AtomicGrid<H, W>)
        ensures
            r@ == self.live(),
    {
        &self.grid
    }

    /// The cache.
    pub fn cache(&self) -> (r: &AtomicGrid<H, W>)
        ensures
            r@ == self.frozen(),
    {
        &self.cache
    }

    /// Applies the rule to every cell of the grid, column by column, reading the cache.
    pub fn _update_grid(&mut self) -> (r: Result<(), CellError>)
        requires
            old(self).wf(),
        ensures
            final(self).wf(),
            final(self).frozen() == old(self).frozen(),
            final(self).live() == applied_range(
                old(self).frozen(),
                intact(old(self).live()),
                0,
                W as int,
                0,
                H as int,
                H as int,
                W as int,
            ).cells,
            r == reported(
                applied_range(
                    old(self).frozen(),
                    intact(old(self).live()),
                    0,
                    W as int,
                    0,
                    H as int,
                    H as int,
                    W as int,
                ),
            ),
    {
        self.update_grid_range((0, 0), (W, H))
    }

    /// Applies the rule to the cells in the columns from `top_left.0` up to
    /// `bottom_right.0` and the rows from `top_left.1` up to `bottom_right.1`,
    /// column by column, reading the cache. The first refused move ends it.
    pub fn update_grid_range(&mut self, top_left: (usize, usize), bottom_right: (usize, usize)) -> (r:
        Result<(), CellError>)
        requires
            old(self).wf(),
        ensures
            final(self).wf(),
            final(self).frozen() == old(self).frozen(),
            final(self).live() == applied_range(
                old(self).frozen(),
                intact(old(self).live()),
                top_left.0 as int,
                bottom_right.0 as int,
                top_left.1 as int,
                bottom_right.1 as int,
                H as int,
                W as int,
            ).cells,
            r == reported(
                applied_range(
                    old(self).frozen(),
                    intact(old(self).live()),
                    top_left.0 as int,
                    bottom_right.0 as int,
                    top_left.1 as int,
                    bottom_right.1 as int,
                    H as int,
                    W as int,
                ),
            ),
    {
        apply_range(
            &self.cache,
            &mut self.grid,
            top_left.0,
            bottom_right.0,
            top_left.1,
            bottom_right.1,
        )
    }

    /// Applies the rule to the cell at column `x` and row `y`, reading the
    /// cache. A cell whose cached byte is zero is skipped, which the result
    /// reports as a break.
    pub fn update_cell_state(&mut self, x: usize, y: usize) -> (r: Result<
        ControlFlow<()>,
        CellError,
    >)
        requires
            old(self).wf(),
        ensures
            final(self).wf(),
            final(self).frozen() == old(self).frozen(),
            final(self).live() == applied_cell(
                old(self).frozen(),
                intact(old(self).live()),
                cell_index(x as int, y as int, H as int, W as int),
                H as int,
                W as int,
            ).cells,
            match r {
                Ok(flow) => {
                    &&& applied_cell(
                        old(self).frozen(),
                        intact(old(self).live()),
                        cell_index(x as int, y as int, H as int, W as int),
                        H as int,
                        W as int,
                    ).error is None
                    &&& flow is Break <==> old(self).frozen()[cell_index(
                        x as int,
                        y as int,
                        H as int,
                        W as int,
                    )] == 0
                },
                Err(e) => applied_cell(
                    old(self).frozen(),
                    intact(old(self).live()),
                    cell_index(x as int, y as int, H as int, W as int),
                    H as int,
                    W as int,
                ).error == Some(e),
            },
    {
        apply_cell(&self.cache, &mut self.grid, x, y)
    }

    /// Copies the grid into the cache, cell by cell.
    pub fn _update_cache(&mut self)
        requires
            old(self).wf(),
        ensures
            final(self).wf(),
            final(self).live() == old(self).live(),
            final(self).frozen() == old(self).live(),
    {
        self.cache.copy_from(&self.grid);
    }

    /// Copies the grid into the cache in one sweep.
    pub fn _unsafe_update_cache(&mut self)
        requires
            old(self).wf(),
        ensures
            final(self).wf(),
            final(self).live() == old(self).live(),
            final(self).frozen() == old(self).live(),
    {
        self.cache.unsafe_copy_from(&self.grid);
    }

    /// One generation: the grid is copied into the cache cell by cell, then
    /// the rule is applied to every cell.
    pub fn generate(&mut self) -> (r: Result<(), CellError>)
        requires
            old(self).wf(),
        ensures
            final(self).wf(),
            final(self).frozen() == old(self).live(),
            final(self).live() == generation(old(self).live(), H as int, W as int).cells,
            r == reported(generation(old(self).live(), H as int, W as int)),
            consistent(old(self).live(), H as int, W as int) ==> {
                &&& r is Ok
                &&& consistent(final(self).live(), H as int, W as int)
                &&& forall|i: int|
                    0 <= i < H * W ==> alive_of(#[trigger] final(self).live()[i]) == next_alive(
                        old(self).live()[i],
                    )
            },
    {
        proof {
            if consistent(self.live(), H as int, W as int) {
                lemma_generation_is_conway(self.live(), H as int, W as int);
            }
        }
        self._update_cache();
        self._update_grid()
    }

    /// One generation: the grid is copied into the cache in one sweep, then
    /// the rule is applied to every cell.
    pub fn u_generate(&mut self) -> (r: Result<(), CellError>)
        requires
            old(self).wf(),
        ensures
            final(self).wf(),
            final(self).frozen() == old(self).live(),
            final(self).live() == generation(old(self).live(), H as int, W as int).cells,
            r == reported(generation(old(self).live(), H as int, W as int)),
            consistent(old(self).live(), H as int, W as int) ==> {
                &&& r is Ok
                &&& consistent(final(self).live(), H as int, W as int)
                &&& forall|i: int|
                    0 <= i < H * W ==> alive_of(#[trigger] final(self).live()[i]) == next_alive(
                        old(self).live()[i],
                    )
            },
    {
        proof {
            if consistent(self.live(), H as int, W as int) {
                lemma_generation_is_conway(self.live(), H as int, W as int);
            }
        }
        self._unsafe_update_cache();
        self._update_grid()
    }
}

impl<const H: usize, const W: usize> Generator<H, W> for AtomicGenerator<H, W> {
    open spec fn cells(&self) -> Seq<u8> {
        self.live()
    }

    open spec fn ready(&self) -> bool {
        self.wf()
    }

    fn generate(&mut self) -> (r: Result<(), CellError>) {
        AtomicGenerator::generate(self)
    }

    fn grid(&self) -> (r: &AtomicGrid<H, W>) {
        AtomicGenerator::grid(self)
    }
}

} // verus!
