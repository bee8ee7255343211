//! The grid of the shared simulation.

use super::census::{consistent, lemma_empty_consistent};
use super::moves::{kill_outcome, reported, shape_outcome, spawn_outcome};
use super::torus::{cell_index, flat_index, kernel_coordinates, shape_fits, shape_ok};
use super::walk::{bytes_of, spawn_cells, turn_cells};
use crate::cell::atomic_cell::AtomicCell;
use crate::cell::packed::{alive_of, CellError};
use crate::common::IGrid;
use vstd::prelude::*;

verus! {

/// `H` rows of `W` cells on a torus, stored row by row.
pub struct AtomicGrid<const H: usize, const W: usize> {
    cells: Vec<AtomicCell>,
}

impl<const H: usize, const W: usize> View for AtomicGrid<H, W> {
    type V = Seq<u8>;

    /// The packed bytes of the cells, row by row.
    open spec fn view(&self) -> Seq<u8> {
        bytes_of(self.cell_seq())
    }
}

impl<const H: usize, const W: usize> AtomicGrid<H, W> {
    /// The cells, row by row.
    pub closed spec fn cell_seq(&self) -> Seq<AtomicCell> {
        self.cells@
    }

    /// A grid is well formed when its shape is one of a torus and it holds `H * W` cells.
    pub open spec fn wf(&self) -> bool {
        shape_ok(H as int, W as int) && self@.len() == H * W
    }

    /// A grid of dead cells without neighbors.
    pub fn new() -> (r: Self)
        requires
            shape_ok(H as int, W as int),
        ensures
            r.wf(),
            forall|i: int| 0 <= i < H * W ==> r@[i] == 0,
            consistent(r@, H as int, W as int),
    {
        let n: usize = H * W;
        let mut cells: Vec<AtomicCell> = Vec::with_capacity(n);
        let mut i: usize = 0;
        while i < n
            invariant
                i <= n,
                cells@.len() == i,
                forall|j: int| 0 <= j < i ==> cells@[j]@ == 0,
            decreases n - i,
        {
            cells.push(AtomicCell::default());
            i += 1;
        }
        let grid = Self { cells };
        proof {
            lemma_empty_consistent(grid@, H as int, W as int);
        }
        grid
    }

    /// Whether the grid is well formed. Every grid that `new` has made is.
    pub fn is_well_formed(&self) -> (r: bool)
        ensures
            r == self.wf(),
    {
        shape_fits(H, W) && self.cells.len() == H * W
    }

    /// The packed bytes of all cells, row by row.
    pub fn clone(&self) -> (r: Vec<u8>)
        ensures
            r@ == self@,
    {
        let mut bytes: Vec<u8> = Vec::with_capacity(self.cells.len());
        let mut i: usize = 0;
        while i < self.cells.len()
            invariant
                i <= self.cells@.len(),
                bytes@.len() == i,
                forall|j: int| 0 <= j < i ==> bytes@[j] == self@[j],
            decreases self.cells@.len() - i,
        {
            bytes.push(self.cells[i].fetch());
            i += 1;
        }
        assert(bytes@ =~= self@);
        bytes
    }

    /// The cell at column `x` and row `y`, both wrapped around the torus.
    pub fn get(&self, x: isize, y: isize) -> (r: &AtomicCell)
        requires
            self.wf(),
        ensures
            r@ == self@[cell_index(x as int, y as int, H as int, W as int)],
            *r == self.cell_seq()[cell_index(x as int, y as int, H as int, W as int)],
    {
        let i = flat_index(x, y, H, W);
        &self.cells[i]
    }

    /// The cell at column `x` and row `y`, both wrapped around the torus, to
    /// be changed in place. What the caller leaves in it is what the grid
    /// holds there afterwards; no other cell changes.
    pub fn get_mut(&mut self, x: isize, y: isize) -> (r: &mut AtomicCell)
        requires
            old(self).wf(),
        ensures
            r@ == old(self)@[cell_index(x as int, y as int, H as int, W as int)],
            final(self)@ == old(self)@.update(
                cell_index(x as int, y as int, H as int, W as int),
                final(r)@,
            ),
            final(self).wf(),
    {
        let i = flat_index(x, y, H, W);
        &mut self.cells[i]
    }

    /// Marks the cell at `(x, y)` alive and counts it in at each of its eight
    /// neighbors, in kernel order. The first neighbor that already counts 8
    /// stops the walk with an overflow; what was done before stays done.
    pub fn spawn(&mut self, x: isize, y: isize) -> (r: Result<(), CellError>)
        requires
            old(self).wf(),
        ensures
            final(self).wf(),
            final(self)@ == spawn_outcome(
                old(self)@,
                cell_index(x as int, y as int, H as int, W as int),
                H as int,
                W as int,
            ).cells,
            r == reported(
                spawn_outcome(
                    old(self)@,
                    cell_index(x as int, y as int, H as int, W as int),
                    H as int,
                    W as int,
                ),
            ),
            consistent(old(self)@, H as int, W as int) && !alive_of(
                old(self)@[cell_index(x as int, y as int, H as int, W as int)],
            ) ==> r is Ok && consistent(final(self)@, H as int, W as int),
    {
        turn_cells(&mut self.cells, x, y, true, H, W)
    }

    /// Marks the cell at `(x, y)` dead and counts it out at each of its eight
    /// neighbors, in kernel order. The first neighbor that already counts 0
    /// stops the walk with an underflow; what was done before stays done.
    pub fn kill(&mut self, x: isize, y: isize) -> (r: Result<(), CellError>)
        requires
            old(self).wf(),
        ensures
            final(self).wf(),
            final(self)@ == kill_outcome(
                old(self)@,
                cell_index(x as int, y as int, H as int, W as int),
                H as int,
                W as int,
            ).cells,
            r == reported(
                kill_outcome(
                    old(self)@,
                    cell_index(x as int, y as int, H as int, W as int),
                    H as int,
                    W as int,
                ),
            ),
            consistent(old(self)@, H as int, W as int) && alive_of(
                old(self)@[cell_index(x as int, y as int, H as int, W as int)],
            ) ==> r is Ok && consistent(final(self)@, H as int, W as int),
    {
        turn_cells(&mut self.cells, x, y, false, H, W)
    }

    /// Spawns the cells at `start` plus each offset, in order, up to the first refusal.
    pub fn spawn_shape(&mut self, start: (isize, isize), offsets: &[(isize, isize)]) -> (r: Result<
        (),
        CellError,
    >)
        requires
            old(self).wf(),
        ensures
            final(self).wf(),
            final(self)@ == shape_outcome(
                old(self)@,
                start,
                offsets@,
                offsets@.len() as int,
                H as int,
                W as int,
            ).cells,
            r == reported(
                shape_outcome(
                    old(self)@,
                    start,
                    offsets@,
                    offsets@.len() as int,
                    H as int,
                    W as int,
                ),
            ),
    {
        spawn_cells(&mut self.cells, start, offsets, H, W)
    }

    /// Makes every cell of this grid hold the byte of the cell of `other` at the same place.
    pub fn copy_from(&mut self, other: &Self)
        requires
            old(self).wf(),
            other.wf(),
        ensures
            final(self).wf(),
            final(self)@ == other@,
    {
        let mut i: usize = 0;
        while i < self.cells.len()
            invariant
                i <= self@.len(),
                self@.len() == other@.len(),
                self.wf(),
                forall|j: int| 0 <= j < i ==> self@[j] == other@[j],
            decreases self@.len() - i,
        {
            let other_cell = &other.cells[i];
            self.cells[i].compare_and_exchange(other_cell);
            i += 1;
        }
        assert(self@ =~= other@);
    }

    /// The coordinates of the eight neighbors of `(x, y)`, in kernel order, not yet wrapped
    /// around the torus.
    pub fn neighbor_coordinates(&self, x: isize, y: isize) -> (r: [(isize, isize); 8])
        ensures
            r[0] == (x.wrapping_sub(1), y.wrapping_sub(1)),
            r[1] == (x, y.wrapping_sub(1)),
            r[2] == (x.wrapping_add(1), y.wrapping_sub(1)),
            r[3] == (x.wrapping_sub(1), y),
            r[4] == (x.wrapping_add(1), y),
            r[5] == (x.wrapping_sub(1), y.wrapping_add(1)),
            r[6] == (x, y.wrapping_add(1)),
            r[7] == (x.wrapping_add(1), y.wrapping_add(1)),
    {
        kernel_coordinates(x, y)
    }

    /// Copies the bytes of `other` over this grid in one sweep. Exclusive access to the
    /// destination is what makes the sweep safe.
    pub fn unsafe_copy_from(&mut self, other: &Self)
        requires
            old(self).wf(),
            other.wf(),
        ensures
            final(self).wf(),
            final(self)@ == other@,
    {
        let mut i: usize = 0;
        while i < self.cells.len()
            invariant
                i <= self@.len(),
                self@.len() == other@.len(),
                self.wf(),
                forall|j: int| 0 <= j < i ==> self@[j] == other@[j],
            decreases self@.len() - i,
        {
            let byte = other.cells[i].fetch();
            self.cells[i].store(byte);
            i += 1;
        }
        assert(self@ =~= other@);
    }

    /// The cells, row by row.
    pub fn iter(&self) -> (r: std::slice::Iter<'_, AtomicCell>)
        ensures
            vstd::std_specs::slice::into_iter_elts(r) == self.cell_seq(),
    {
        self.cells.iter()
    }

    /// The number of cells.
    pub fn size(&self) -> (r: usize)
        ensures
            r == self@.len(),
    {
        self.cells.len()
    }
}

impl<const H: usize, const W: usize> IGrid<H, W> for AtomicGrid<H, W> {
    open spec fn bytes(&self) -> Seq<u8> {
        self@
    }

    open spec fn ready(&self) -> bool {
        self.wf()
    }

    proof fn lemma_ready(&self) {
    }

    fn byte_at(&self, x: isize, y: isize) -> (r: u8) {
        self.get(x, y).fetch()
    }

    fn spawn(&mut self, x: isize, y: isize) -> (r: Result<(), CellError>) {
        AtomicGrid::spawn(self, x, y)
    }

    fn kill(&mut self, x: isize, y: isize) -> (r: Result<(), CellError>) {
        AtomicGrid::kill(self, x, y)
    }

    fn unsafe_copy_from(&mut self, other: &AtomicGrid<H, W>) {
        AtomicGrid::unsafe_copy_from(self, other)
    }

    fn spawn_shape(&mut self, start: (isize, isize), offsets: &[(isize, isize)]) -> (r: Result<
        (),
        CellError,
    >) {
        AtomicGrid::spawn_shape(self, start, offsets)
    }
}

} // verus!
