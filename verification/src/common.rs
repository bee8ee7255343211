//! What cells, grids and generators have in common.

use crate::cell::packed::{alive_of, count_of, killed, recounted, spawned, CellError};
use crate::generator::rule::generation;
use crate::grid::atomic_grid::AtomicGrid;
use crate::grid::moves::{kill_outcome, reported, shape_outcome, spawn_outcome};
use crate::grid::torus::{cell_index, shape_ok};
use vstd::prelude::*;

verus! {

/// A cell: a packed byte that changes by single transitions.
pub trait Cell {
    /// The packed byte.
    spec fn byte(&self) -> u8;

    /// Sets the alive flag.
    fn spawn(&mut self)
        ensures
            final(self).byte() == spawned(old(self).byte()),
    ;

    /// Clears the alive flag.
    fn kill(&mut self)
        ensures
            final(self).byte() == killed(old(self).byte()),
    ;

    /// The number of live neighbors.
    fn neighbors(&self) -> (r: u8)
        ensures
            r == count_of(self.byte()),
    ;

    /// Counts one more live neighbor; refused, with the cell unchanged, at 8 or more.
    fn add_neighbor(&mut self) -> (r: Result<(), CellError>)
        ensures
            match r {
                Ok(()) => count_of(old(self).byte()) < 8 && final(self).byte() == recounted(
                    old(self).byte(),
                    count_of(old(self).byte()) + 1,
                ),
                Err(e) => count_of(old(self).byte()) >= 8 && e == CellError::NeighborCountOverflow
                    && final(self).byte() == old(self).byte(),
            },
    ;

    /// Counts one live neighbor less; refused, with the cell unchanged, at 0.
    fn remove_neighbor(&mut self) -> (r: Result<(), CellError>)
        ensures
            match r {
                Ok(()) => count_of(old(self).byte()) > 0 && final(self).byte() == recounted(
                    old(self).byte(),
                    (count_of(old(self).byte()) - 1) as nat,
                ),
                Err(e) => count_of(old(self).byte()) == 0 && e
                    == CellError::NeighborCountUnderflow && final(self).byte() == old(self).byte(),
            },
    ;

    /// Whether the cell is alive.
    fn alive(&self) -> (r: bool)
        ensures
            r == alive_of(self.byte()),
    ;

    /// The packed byte.
    fn fetch(&self) -> (r: u8)
        ensures
            r == self.byte(),
    ;

    /// Overwrites the packed byte.
    fn store(&mut self, value: u8)
        ensures
            final(self).byte() == value,
    ;
}

/// A grid of `H` rows and `W` columns on a torus.
pub trait IGrid<const H: usize, const W: usize> {
    /// The packed bytes of the cells, row by row.
    spec fn bytes(&self) -> Seq<u8>;

    /// The grid can be worked on: its shape is one of a torus, and it holds `H * W` cells.
    spec fn ready(&self) -> bool;

    /// A grid that can be worked on has the shape of a torus and `H * W` bytes.
    proof fn lemma_ready(&self)
        requires
            self.ready(),
        ensures
            shape_ok(H as int, W as int),
            self.bytes().len() == H * W,
    ;

    /// The packed byte of the cell at `(x, y)`.
    fn byte_at(&self, x: isize, y: isize) -> (r: u8)
        requires
            self.ready(),
        ensures
            r == self.bytes()[cell_index(x as int, y as int, H as int, W as int)],
    ;

    /// Spawns the cell at `(x, y)`.
    fn spawn(&mut self, x: isize, y: isize) -> (r: Result<(), CellError>)
        requires
            old(self).ready(),
        ensures
            final(self).ready(),
            final(self).bytes() == spawn_outcome(
                old(self).bytes(),
                cell_index(x as int, y as int, H as int, W as int),
                H as int,
                W as int,
            ).cells,
            r == reported(
                spawn_outcome(
                    old(self).bytes(),
                    cell_index(x as int, y as int, H as int, W as int),
                    H as int,
                    W as int,
                ),
            ),
    ;

    /// Kills the cell at `(x, y)`.
    fn kill(&mut self, x: isize, y: isize) -> (r: Result<(), CellError>)
        requires
            old(self).ready(),
        ensures
            final(self).ready(),
            final(self).bytes() == kill_outcome(
                old(self).bytes(),
                cell_index(x as int, y as int, H as int, W as int),
                H as int,
                W as int,
            ).cells,
            r == reported(
                kill_outcome(
                    old(self).bytes(),
                    cell_index(x as int, y as int, H as int, W as int),
                    H as int,
                    W as int,
                ),
            ),
    ;

    /// Takes over the bytes of `other` in one sweep.
    fn unsafe_copy_from(&mut self, other: &AtomicGrid<H, W>)
        requires
            old(self).ready(),
            other.wf(),
        ensures
            final(self).ready(),
            final(self).bytes() == other@,
    ;

    /// Spawns the cells at `start` plus each offset, in order, up to the first refusal.
    fn spawn_shape(&mut self, start: (isize, isize), offsets: &[(isize, isize)]) -> (r: Result<
        (),
        CellError,
    >)
        requires
            old(self).ready(),
        ensures
            final(self).ready(),
            final(self).bytes() == shape_outcome(
                old(self).bytes(),
                start,
                offsets@,
                offsets@.len() as int,
                H as int,
                W as int,
            ).cells,
            r == reported(
                shape_outcome(
                    old(self).bytes(),
                    start,
                    offsets@,
                    offsets@.len() as int,
                    H as int,
                    W as int,
                ),
            ),
    ;
}

/// Something that steps a grid of `H` rows and `W` columns through its generations.
pub trait Generator<const H: usize, const W: usize> {
    /// The packed bytes of the grid, row by row.
    spec fn cells(&self) -> Seq<u8>;

    /// The generator can be stepped.
    spec fn ready(&self) -> bool;

    /// One generation: the rule applied to every cell, read from a copy of the grid.
    fn generate(&mut self) -> (r: Result<(), CellError>)
        requires
            old(self).ready(),
        ensures
            final(self).ready(),
            final(self).cells() == generation(old(self).cells(), H as int, W as int).cells,
            r == reported(generation(old(self).cells(), H as int, W as int)),
    ;

    /// The grid.
    fn grid(&self) -> (r: &AtomicGrid<H, W>)
        ensures
            r@ == self.cells(),
    ;
}

} // verus!
