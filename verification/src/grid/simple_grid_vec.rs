//! A grid that hands out its vector of cells.

use super::census::{consistent, lemma_empty_consistent};
use super::moves::{kill_outcome, reported, spawn_outcome};
use super::torus::{cell_index, flat_index, kernel_coordinates, shape_fits, shape_ok};
use super::walk::{bytes_of, turn_cells};
use crate::cell::packed::{alive_of, CellError};
use crate::cell::simple_cell::SimpleCell;
use vstd::prelude::*;

verus! {

/// `H` rows of `W` cells on a torus, stored row by row in a vector that callers can read.
pub struct SimpleGridWithVec<const H: usize, const W: usize> {
    cells: Vec<SimpleCell>,
}

impl<const H: usize, const W: usize> View for SimpleGridWithVec<H, W> {
    type V = Seq<u8>;

    /// The packed bytes of the cells, row by row.
    open spec fn view(&self) -> Seq<u8> {
        bytes_of(self.cell_seq())
    }
}

impl<const H: usize, const W: usize> SimpleGridWithVec<H, W> {
    /// The cells, row by row.
    pub closed spec fn cell_seq(&self) -> Seq<SimpleCell> {
        self.cells@
    }

    /// A grid is well formed when its shape is one of a torus and it holds `H * W` cells.
    pub open spec fn wf(&self) -> bool {
        shape_ok(H as int, W as int) && self@.len() == H * W
    }

    /// A grid of dead cells without neighbors.
    pub fn new() -> (r: SimpleGridWithVec<H, W>)
        requires
            shape_ok(H as int, W as int),
        ensures
            r.wf(),
            forall|i: int| 0 <= i < H * W ==> r@[i] == 0,
            consistent(r@, H as int, W as int),
    {
        let n: usize = H * W;
        let mut cells: Vec<SimpleCell> = Vec::with_capacity(n);
        let mut i: usize = 0;
        while i < n
            invariant
                i <= n,
                cells@.len() == i,
                forall|j: int| 0 <= j < i ==> cells@[j]@ == 0,
            decreases n - i,
        {
            cells.push(SimpleCell::new());
            i += 1;
        }
        let grid = SimpleGridWithVec { cells };
        proof {
            lemma_empty_consistent(grid@, H as int, W as int);
        }
        grid
    }

    /// Whether the grid is well formed. Every grid that `new` has made is.
    pub fn is_well_formed(&self) -> (r: bool)
        ensures
            r == self.wf(),
    {
        shape_fits(H, W) && self.cells.len() == H * W
    }

    /// The cell at column `x` and row `y`, both wrapped around the torus.
    pub fn get(&self, x: isize, y: isize) -> (r: &SimpleCell)
        requires
            self.wf(),
        ensures
            r@ == self@[cell_index(x as int, y as int, H as int, W as int)],
            *r == self.cell_seq()[cell_index(x as int, y as int, H as int, W as int)],
    {
        let i = flat_index(x, y, H, W);
        &self.cells[i]
    }

    /// The cell at column `x` and row `y`, both wrapped around the torus, to
    /// be changed in place. What the caller leaves in it is what the grid
    /// holds there afterwards; no other cell changes.
    pub fn get_mut(&mut self, x: isize, y: isize) -> (r: &mut SimpleCell)
        requires
            old(self).wf(),
        ensures
            r@ == old(self)@[cell_index(x as int, y as int, H as int, W as int)],
            final(self)@ == old(self)@.update(
                cell_index(x as int, y as int, H as int, W as int),
                final(r)@,
            ),
            final(self).wf(),
    {
        let i = flat_index(x, y, H, W);
        &mut self.cells[i]
    }

    /// The number of rows.
    pub fn rows(&self) -> (r: usize)
        ensures
            r == H,
    {
        H
    }

    /// The number of columns.
    pub fn cols(&self) -> (r: usize)
        ensures
            r == W,
    {
        W
    }

    /// Marks the cell at `(x, y)` alive and counts it in at each of its eight
    /// neighbors, in kernel order. The first neighbor that already counts 8
    /// stops the walk with an overflow; what was done before stays done.
    pub fn spawn(&mut self, x: isize, y: isize) -> (r: Result<(), CellError>)
        requires
            old(self).wf(),
        ensures
            final(self).wf(),
            final(self)@ == spawn_outcome(
                old(self)@,
                cell_index(x as int, y as int, H as int, W as int),
                H as int,
                W as int,
            ).cells,
            r == reported(
                spawn_outcome(
                    old(self)@,
                    cell_index(x as int, y as int, H as int, W as int),
                    H as int,
                    W as int,
                ),
            ),
            consistent(old(self)@, H as int, W as int) && !alive_of(
                old(self)@[cell_index(x as int, y as int, H as int, W as int)],
            ) ==> r is Ok && consistent(final(self)@, H as int, W as int),
    {
        turn_cells(&mut self.cells, x, y, true, H, W)
    }

    /// Marks the cell at `(x, y)` dead and counts it out at each of its eight
    /// neighbors, in kernel order. The first neighbor that already counts 0
    /// stops the walk with an underflow; what was done before stays done.
    pub fn kill(&mut self, x: isize, y: isize) -> (r: Result<(), CellError>)
        requires
            old(self).wf(),
        ensures
            final(self).wf(),
            final(self)@ == kill_outcome(
                old(self)@,
                cell_index(x as int, y as int, H as int, W as int),
                H as int,
                W as int,
            ).cells,
            r == reported(
                kill_outcome(
                    old(self)@,
                    cell_index(x as int, y as int, H as int, W as int),
                    H as int,
                    W as int,
                ),
            ),
            consistent(old(self)@, H as int, W as int) && alive_of(
                old(self)@[cell_index(x as int, y as int, H as int, W as int)],
            ) ==> r is Ok && consistent(final(self)@, H as int, W as int),
    {
        turn_cells(&mut self.cells, x, y, false, H, W)
    }

    /// The coordinates of the eight neighbors of `(x, y)`, in kernel order, not yet wrapped
    /// around the torus.
    pub fn neighbor_coordinates(&self, x: isize, y: isize) -> (r: [(isize, isize); 8])
        ensures
            r[0] == (x.wrapping_sub(1), y.wrapping_sub(1)),
            r[1] == (x, y.wrapping_sub(1)),
            r[2] == (x.wrapping_add(1), y.wrapping_sub(1)),
            r[3] == (x.wrapping_sub(1), y),
            r[4] == (x.wrapping_add(1), y),
            r[5] == (x.wrapping_sub(1), y.wrapping_add(1)),
            r[6] == (x, y.wrapping_add(1)),
            r[7] == (x.wrapping_add(1), y.wrapping_add(1)),
    {
        kernel_coordinates(x, y)
    }

    /// The cells, row by row.
    pub fn cells(&self) -> (r: &Vec<SimpleCell>)
        ensures
            r@ == self.cell_seq(),
    {
        &self.cells
    }

    /// The cells, row by row, one at a time.
    pub fn iter(&self) -> (r: std::slice::Iter<'_, SimpleCell>)
        ensures
            vstd::std_specs::slice::into_iter_elts(r) == self.cell_seq(),
    {
        self.cells.iter()
    }

    /// Prints nothing: this grid has no text form.
    pub fn print(&self) {
    }
}

} // verus!
