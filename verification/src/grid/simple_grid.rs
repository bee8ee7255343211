//! A grid that its owner changes through exclusive access.

use super::atomic_grid::AtomicGrid;
use super::census::{consistent, lemma_empty_consistent};
use super::moves::{kill_outcome, reported, spawn_outcome};
use super::torus::{cell_index, flat_index, kernel_coordinates, shape_fits, shape_ok};
use super::walk::{bytes_of, spawn_cells, turn_cells};
use crate::cell::packed::{alive_of, CellError};
use crate::cell::simple_cell::SimpleCell;
use crate::common::IGrid;
use vstd::prelude::*;

verus! {

/// `H` rows of `W` cells on a torus, stored row by row.
#[derive(Debug, Clone, PartialEq)]
pub struct SimpleGrid<const H: usize, const W: usize>(Vec<SimpleCell>);

impl<const H: usize, const W: usize> View for SimpleGrid<H, W> {
    type V = Seq<u8>;

    /// The packed bytes of the cells, row by row.
    open spec fn view(&self) -> Seq<u8> {
        bytes_of(self.cell_seq())
    }
}

impl<const H: usize, const W: usize> SimpleGrid<H, W> {
    /// The cells, row by row.
    pub closed spec fn cell_seq(&self) -> Seq<SimpleCell> {
        self.0@
    }

    /// A grid is well formed when its shape is one of a torus and it holds `H * W` cells.
    pub open spec fn wf(&self) -> bool {
        shape_ok(H as int, W as int) && self@.len() == H * W
    }

    /// A grid of dead cells without neighbors.
    pub fn new() -> (r: SimpleGrid<H, W>)
        requires
            shape_ok(H as int, W as int),
        ensures
            r.wf(),
            forall|i: int| 0 <= i < H * W ==> r@[i] == 0,
            consistent(r@, H as int, W as int),
    {
        let n: usize = H * W;
        let mut cells: Vec<SimpleCell> = Vec::with_capacity(n);
        let mut i: usize = 0;
        while i < n
            invariant
                i <= n,
                cells@.len() == i,
                forall|j: int| 0 <= j < i ==> cells@[j]@ == 0,
            decreases n - i,
        {
            cells.push(SimpleCell::new());
            i += 1;
        }
        let grid = SimpleGrid(cells);
        proof {
            lemma_empty_consistent(grid@, H as int, W as int);
        }
        grid
    }

    /// Whether the grid is well formed. Every grid that `new` has made is.
    pub fn is_well_formed(&self) -> (r: bool)
        ensures
            r == self.wf(),
    {
        shape_fits(H, W) && self.0.len() == H * W
    }

    /// The cell at column `x` and row `y`, both wrapped around the torus.
    pub fn get(&self, x: isize, y: isize) -> (r: &SimpleCell)
        requires
            self.wf(),
        ensures
            r@ == self@[cell_index(x as int, y as int, H as int, W as int)],
            *r == self.cell_seq()[cell_index(x as int, y as int, H as int, W as int)],
    {
        let i = flat_index(x, y, H, W);
        &self.0[i]
    }

    /// The cell at column `x` and row `y`, both wrapped around the torus, to
    /// be changed in place. What the caller leaves in it is what the grid
    /// holds there afterwards; no other cell changes.
    pub fn get_mut(&mut self, x: isize, y: isize) -> (r: &mut SimpleCell)
        requires
            old(self).wf(),
        ensures
            r@ == old(self)@[cell_index(x as int, y as int, H as int, W as int)],
            final(self)@ == old(self)@.update(
                cell_index(x as int, y as int, H as int, W as int),
                final(r)@,
            ),
            final(self).wf(),
    {
        let i = flat_index(x, y, H, W);
        &mut self.0[i]
    }

    /// The number of rows.
    pub fn rows(&self) -> (r: usize)
        ensures
            r == H,
    {
        H
    }

    /// The number of columns.
    pub fn cols(&self) -> (r: usize)
        ensures
            r == W,
    {
        W
    }

    /// Marks the cell at `(x, y)` alive and counts it in at each of its eight
    /// neighbors, in kernel order. The first neighbor that already counts 8
    /// stops the walk with an overflow; what was done before stays done.
    pub fn spawn(&mut self, x: isize, y: isize) -> (r: Result<(), CellError>)
        requires
            old(self).wf(),
        ensures
            final(self).wf(),
            final(self)@ == spawn_outcome(
                old(self)@,
                cell_index(x as int, y as int, H as int, W as int),
                H as int,
                W as int,
            ).cells,
            r == reported(
                spawn_outcome(
                    old(self)@,
                    cell_index(x as int, y as int, H as int, W as int),
                    H as int,
                    W as int,
                ),
            ),
            consistent(old(self)@, H as int, W as int) && !alive_of(
                old(self)@[cell_index(x as int, y as int, H as int, W as int)],
            ) ==> r is Ok && consistent(final(self)@, H as int, W as int),
    {
        turn_cells(&mut self.0, x, y, true, H, W)
    }

    /// Marks the cell at `(x, y)` dead and counts it out at each of its eight
    /// neighbors, in kernel order. The first neighbor that already counts 0
    /// stops the walk with an underflow; what was done before stays done.
    pub fn kill(&mut self, x: isize, y: isize) -> (r: Result<(), CellError>)
        requires
            old(self).wf(),
        ensures
            final(self).wf(),
            final(self)@ == kill_outcome(
                old(self)@,
                cell_index(x as int, y as int, H as int, W as int),
                H as int,
                W as int,
            ).cells,
            r == reported(
                kill_outcome(
                    old(self)@,
                    cell_index(x as int, y as int, H as int, W as int),
                    H as int,
                    W as int,
                ),
            ),
            consistent(old(self)@, H as int, W as int) && alive_of(
                old(self)@[cell_index(x as int, y as int, H as int, W as int)],
            ) ==> r is Ok && consistent(final(self)@, H as int, W as int),
    {
        turn_cells(&mut self.0, x, y, false, H, W)
    }

    /// The coordinates of the eight neighbors of `(x, y)`, in kernel order, not yet wrapped
    /// around the torus.
    pub fn neighbor_coordinates(&self, x: isize, y: isize) -> (r: [(isize, isize); 8])
        ensures
            r[0] == (x.wrapping_sub(1), y.wrapping_sub(1)),
            r[1] == (x, y.wrapping_sub(1)),
            r[2] == (x.wrapping_add(1), y.wrapping_sub(1)),
            r[3] == (x.wrapping_sub(1), y),
            r[4] == (x.wrapping_add(1), y),
            r[5] == (x.wrapping_sub(1), y.wrapping_add(1)),
            r[6] == (x, y.wrapping_add(1)),
            r[7] == (x.wrapping_add(1), y.wrapping_add(1)),
    {
        kernel_coordinates(x, y)
    }

    /// The cells, row by row.
    pub fn cells(&self) -> (r: &[SimpleCell])
        ensures
            r@ == self.cell_seq(),
    {
        self.0.as_slice()
    }

    /// The cells, row by row, one at a time.
    pub fn iter(&self) -> (r: std::slice::Iter<'_, SimpleCell>)
        ensures
            vstd::std_specs::slice::into_iter_elts(r) == self.cell_seq(),
    {
        self.0.iter()
    }

    /// Makes every cell of this grid hold the byte of the cell of `other` at the same place.
    pub fn copy_from(&mut self, other: &SimpleGrid<H, W>)
        requires
            old(self).wf(),
            other.wf(),
        ensures
            final(self).wf(),
            final(self)@ == other@,
    {
        let mut i: usize = 0;
        while i < self.0.len()
            invariant
                i <= self@.len(),
                self@.len() == other@.len(),
                self.wf(),
                forall|j: int| 0 <= j < i ==> self@[j] == other@[j],
            decreases self@.len() - i,
        {
            let byte = other.0[i].fetch();
            self.0[i].store(byte);
            i += 1;
        }
        assert(self@ =~= other@);
    }
}

impl<const H: usize, const W: usize> IGrid<H, W> for SimpleGrid<H, W> {
    open spec fn bytes(&self) -> Seq<u8> {
        self@
    }

    open spec fn ready(&self) -> bool {
        self.wf()
    }

    proof fn lemma_ready(&self) {
    }

    fn byte_at(&self, x: isize, y: isize) -> (r: u8) {
        self.get(x, y).fetch()
    }

    fn spawn(&mut self, x: isize, y: isize) -> (r: Result<(), CellError>) {
        SimpleGrid::spawn(self, x, y)
    }

    fn kill(&mut self, x: isize, y: isize) -> (r: Result<(), CellError>) {
        SimpleGrid::kill(self, x, y)
    }

    fn unsafe_copy_from(&mut self, other: &AtomicGrid<H, W>) {
        let bytes = other.clone();
        let mut i: usize = 0;
        while i < self.0.len()
            invariant
                i <= self@.len(),
                self@.len() == bytes@.len(),
                bytes@ == other@,
                self.wf(),
                forall|j: int| 0 <= j < i ==> self@[j] == bytes@[j],
            decreases self@.len() - i,
        {
            self.0[i].store(bytes[i]);
            i += 1;
        }
        assert(self@ =~= other@);
    }

    fn spawn_shape(&mut self, start: (isize, isize), offsets: &[(isize, isize)]) -> (r: Result<
        (),
        CellError,
    >) {
        spawn_cells(&mut self.0, start, offsets, H, W)
    }
}

} // verus!
