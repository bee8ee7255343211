//! What the cells and the generators of the plain form have in common.

use super::grid::Grid;
use crate::cell::packed::CellError;
use crate::common::Cell;
use crate::generator::rule::generation;
use crate::grid::moves::reported;
use vstd::prelude::*;

verus! {

/// A cell, under the name that the plain form has for it: whatever is a
/// `Cell` is an `ICell`, with the same contract.
pub trait ICell: Cell {

}

impl<C: Cell> ICell for C {

}

/// Something that steps a plain grid of `H` rows and `W` columns through its generations.
pub trait IGenerator<const H: usize, const W: usize> {
    /// The packed bytes of the grid, row by row.
    spec fn cells(&self) -> Seq<u8>;

    /// The generator can be stepped.
    spec fn ready(&self) -> bool;

    /// One generation: the rule applied to every cell, read from a copy of the grid.
    fn generate(&mut self) -> (r: Result<(), CellError>)
        requires
            old(self).ready(),
        ensures
            final(self).ready(),
            final(self).cells() == generation(old(self).cells(), H as int, W as int).cells,
            r == reported(generation(old(self).cells(), H as int, W as int)),
    ;

    /// The grid.
    fn grid(&self) -> (r: &Grid<H, W>)
        ensures
            r@ == self.cells(),
    ;
}

} // verus!
