//! The plain grid.

use super::cell::Cell;
use crate::cell::packed::{alive_of, CellError};
use crate::common::IGrid;
use crate::grid::atomic_grid::AtomicGrid;
use crate::grid::census::{consistent, lemma_empty_consistent};
use crate::grid::moves::{kill_outcome, reported, spawn_outcome};
use crate::grid::torus::{cell_index, flat_index, shape_fits, shape_ok};
use crate::grid::walk::{bytes_of, spawn_cells, turn_cells};
use vstd::prelude::*;

verus! {

/// `H` rows of `W` cells on a torus, stored row by row.
pub struct Grid<const H: usize, const W: usize> {
    cells: Vec<Cell>,
}

impl<const H: usize, const W: usize> View for Grid<H, W> {
    type V = Seq<u8>;

    /// The packed bytes of the cells, row by row.
    open spec fn view(&self) -> Seq<u8> {
        bytes_of(self.cell_seq())
    }
}

impl<const H: usize, const W: usize> Grid<H, W> {
    /// The cells, row by row.
    pub closed spec fn cell_seq(&self) -> Seq<Cell> {
        self.cells@
    }

    /// A grid is well formed when its shape is one of a torus and it holds `H * W` cells.
    pub open spec fn wf(&self) -> bool {
        shape_ok(H as int, W as int) && self@.len() == H * W
    }

    /// A grid of dead cells without neighbors.
    pub fn new() -> (r: Self)
        requires
            shape_ok(H as int, W as int),
        ensures
            r.wf(),
            forall|i: int| 0 <= i < H * W ==> r@[i] == 0,
            consistent(r@, H as int, W as int),
    {
        let mut cells: Vec<Cell> = Vec::with_capacity(H * W);
        let mut y: usize = 0;
        while y < H
            invariant
                y <= H,
                shape_ok(H as int, W as int),
                cells@.len() == y * W,
                forall|j: int| 0 <= j < cells@.len() ==> cells@[j]@ == 0,
            decreases H - y,
        {
            let mut x: usize = 0;
            while x < W
                invariant
                    x <= W,
                    y < H,
                    cells@.len() == y * W + x,
                    forall|j: int| 0 <= j < cells@.len() ==> cells@[j]@ == 0,
                decreases W - x,
            {
                cells.push(Cell::default());
                x += 1;
            }
            assert(y * W + W == (y + 1) * W) by (nonlinear_arith);
            y += 1;
        }
        let grid = Self { cells };
        proof {
            lemma_empty_consistent(grid@, H as int, W as int);
        }
        grid
    }

    /// Whether the grid is well formed. Every grid that `new` has made is.
    pub fn is_well_formed(&self) -> (r: bool)
        ensures
            r == self.wf(),
    {
        shape_fits(H, W) && self.cells.len() == H * W
    }

    /// The cell at column `x` and row `y`, both wrapped around the torus.
    pub fn get(&self, x: isize, y: isize) -> (r: &Cell)
        requires
            self.wf(),
        ensures
            r@ == self@[cell_index(x as int, y as int, H as int, W as int)],
            *r == self.cell_seq()[cell_index(x as int, y as int, H as int, W as int)],
    {
        let i = flat_index(x, y, H, W);
        &self.cells[i]
    }

    /// The cell at column `x` and row `y`, both wrapped around the torus, to
    /// be changed in place. What the caller leaves in it is what the grid
    /// holds there afterwards; no other cell changes.
    pub fn get_mut(&mut self, x: isize, y: isize) -> (r: &mut Cell)
        requires
            old(self).wf(),
        ensures
            r@ == old(self)@[cell_index(x as int, y as int, H as int, W as int)],
            final(self)@ == old(self)@.update(
                cell_index(x as int, y as int, H as int, W as int),
                final(r)@,
            ),
            final(self).wf(),
    {
        let i = flat_index(x, y, H, W);
        &mut self.cells[i]
    }

    /// Overwrites the packed byte of the cell at column `x` and row `y`, both
    /// wrapped around the torus. No other cell changes.
    pub fn set(&mut self, x: isize, y: isize, value: u8)
        requires
            old(self).wf(),
        ensures
            final(self).wf(),
            final(self)@ == old(self)@.update(
                cell_index(x as int, y as int, H as int, W as int),
                value,
            ),
    {
        let i = flat_index(x, y, H, W);
        crate::common::Cell::store(&mut self.cells[i], value);
        assert(self@ =~= old(self)@.update(i as int, value));
    }

    /// Marks the cell at `(x, y)` alive and counts it in at each of its eight
    /// neighbors, in kernel order. The first neighbor that already counts 8
    /// stops the walk with an overflow; what was done before stays done.
    pub fn spawn(&mut self, x: isize, y: isize) -> (r: Result<(), CellError>)
        requires
            old(self).wf(),
        ensures
            final(self).wf(),
            final(self)@ == spawn_outcome(
                old(self)@,
                cell_index(x as int, y as int, H as int, W as int),
                H as int,
                W as int,
            ).cells,
            r == reported(
                spawn_outcome(
                    old(self)@,
                    cell_index(x as int, y as int, H as int, W as int),
                    H as int,
                    W as int,
                ),
            ),
            consistent(old(self)@, H as int, W as int) && !alive_of(
                old(self)@[cell_index(x as int, y as int, H as int, W as int)],
            ) ==> r is Ok && consistent(final(self)@, H as int, W as int),
    {
        turn_cells(&mut self.cells, x, y, true, H, W)
    }

    /// Marks the cell at `(x, y)` dead and counts it out at each of its eight
    /// neighbors, in kernel order. The first neighbor that already counts 0
    /// stops the walk with an underflow; what was done before stays done.
    pub fn kill(&mut self, x: isize, y: isize) -> (r: Result<(), CellError>)
        requires
            old(self).wf(),
        ensures
            final(self).wf(),
            final(self)@ == kill_outcome(
                old(self)@,
                cell_index(x as int, y as int, H as int, W as int),
                H as int,
                W as int,
            ).cells,
            r == reported(
                kill_outcome(
                    old(self)@,
                    cell_index(x as int, y as int, H as int, W as int),
                    H as int,
                    W as int,
                ),
            ),
            consistent(old(self)@, H as int, W as int) && alive_of(
                old(self)@[cell_index(x as int, y as int, H as int, W as int)],
            ) ==> r is Ok && consistent(final(self)@, H as int, W as int),
    {
        turn_cells(&mut self.cells, x, y, false, H, W)
    }

    /// Makes every cell of this grid hold the byte of the cell of `other` at the same place.
    pub fn copy_from(&mut self, other: &Grid<H, W>)
        requires
            old(self).wf(),
            other.wf(),
        ensures
            final(self).wf(),
            final(self)@ == other@,
    {
        let mut i: usize = 0;
        while i < self.cells.len()
            invariant
                i <= self@.len(),
                self@.len() == other@.len(),
                self.wf(),
                forall|j: int| 0 <= j < i ==> self@[j] == other@[j],
            decreases self@.len() - i,
        {
            let byte = other.cells[i].load();
            crate::common::Cell::store(&mut self.cells[i], byte);
            i += 1;
        }
        assert(self@ =~= other@);
    }
}

impl<const H: usize, const W: usize> IGrid<H, W> for Grid<H, W> {
    open spec fn bytes(&self) -> Seq<u8> {
        self@
    }

    open spec fn ready(&self) -> bool {
        self.wf()
    }

    proof fn lemma_ready(&self) {
    }

    fn byte_at(&self, x: isize, y: isize) -> (r: u8) {
        self.get(x, y).load()
    }

    fn spawn(&mut self, x: isize, y: isize) -> (r: Result<(), CellError>) {
        Grid::spawn(self, x, y)
    }

    fn kill(&mut self, x: isize, y: isize) -> (r: Result<(), CellError>) {
        Grid::kill(self, x, y)
    }

    fn unsafe_copy_from(&mut self, other: &AtomicGrid<H, W>) {
        let bytes = other.clone();
        let mut i: usize = 0;
        while i < self.cells.len()
            invariant
                i <= self@.len(),
                self@.len() == bytes@.len(),
                bytes@ == other@,
                self.wf(),
                forall|j: int| 0 <= j < i ==> self@[j] == bytes@[j],
            decreases self@.len() - i,
        {
            crate::common::Cell::store(&mut self.cells[i], bytes[i]);
            i += 1;
        }
        assert(self@ =~= other@);
    }

    fn spawn_shape(&mut self, start: (isize, isize), offsets: &[(isize, isize)]) -> (r: Result<
        (),
        CellError,
    >) {
        spawn_cells(&mut self.cells, start, offsets, H, W)
    }
}

} // verus!
