//! The cell of the plain grid.

use crate::cell::atomic_cell::AtomicCell;
use crate::cell::order::{rejection, MemoryOrder, OrderError};
use crate::cell::packed::{
    alive_of, bits_text, count_of, is_valid, killed, recounted, spawned, CellError, MAX_NEIGHBORS,
};
use vstd::prelude::*;

verus! {

/// A cell: one packed byte, and the orderings its loads and stores were configured with.
#[derive(Clone, Copy, Debug)]
pub struct Cell {
    inner: AtomicCell,
}

impl View for Cell {
    type V = u8;

    /// The packed byte.
    closed spec fn view(&self) -> u8 {
        self.inner@
    }
}

impl Cell {
    /// The ordering of loads.
    pub closed spec fn fetch_order(&self) -> MemoryOrder {
        self.inner.fetch_order()
    }

    /// The ordering of stores.
    pub closed spec fn store_order(&self) -> MemoryOrder {
        self.inner.store_order()
    }

    /// A dead cell without neighbors, with the given load and store orderings.
    pub fn new(fetch: MemoryOrder, store: MemoryOrder) -> (r: Result<Self, OrderError>)
        ensures
            match r {
                Ok(cell) => {
                    &&& rejection(fetch, store) is None
                    &&& cell@ == 0
                    &&& cell.fetch_order() == fetch
                    &&& cell.store_order() == store
                },
                Err(e) => rejection(fetch, store) == Some(e),
            },
    {
        match AtomicCell::new(fetch, store) {
            Ok(inner) => Ok(Cell { inner }),
            Err(e) => Err(e),
        }
    }

    /// Sets the alive flag.
    pub fn spawn(&mut self)
        ensures
            final(self)@ == spawned(old(self)@),
            is_valid(old(self)@) ==> is_valid(final(self)@),
    {
        self.inner.spawn();
    }

    /// Clears the alive flag.
    pub fn kill(&mut self)
        ensures
            final(self)@ == killed(old(self)@),
            is_valid(old(self)@) ==> is_valid(final(self)@),
    {
        self.inner.kill();
    }

    /// The number of live neighbors.
    pub fn neighbors(&self) -> (r: u8)
        ensures
            r == count_of(self@),
            r <= 15,
            is_valid(self@) ==> r <= MAX_NEIGHBORS,
    {
        self.inner.neighbors()
    }

    /// Counts one more live neighbor; refused, with the cell unchanged, at 8 or more.
    pub fn add_neighbor(&mut self) -> (r: Result<(), CellError>)
        ensures
            match r {
                Ok(()) => count_of(old(self)@) < 8 && final(self)@ == recounted(
                    old(self)@,
                    count_of(old(self)@) + 1,
                ),
                Err(e) => count_of(old(self)@) >= 8 && e == CellError::NeighborCountOverflow
                    && final(self)@ == old(self)@,
            },
            is_valid(old(self)@) ==> is_valid(final(self)@),
    {
        self.inner.add_neighbor()
    }

    /// Counts one live neighbor less; refused, with the cell unchanged, at 0.
    pub fn remove_neighbor(&mut self) -> (r: Result<(), CellError>)
        ensures
            match r {
                Ok(()) => count_of(old(self)@) > 0 && final(self)@ == recounted(
                    old(self)@,
                    (count_of(old(self)@) - 1) as nat,
                ),
                Err(e) => count_of(old(self)@) == 0 && e == CellError::NeighborCountUnderflow
                    && final(self)@ == old(self)@,
            },
            is_valid(old(self)@) ==> is_valid(final(self)@),
    {
        self.inner.remove_neighbor()
    }

    /// Whether the cell is alive.
    pub fn alive(&self) -> (r: bool)
        ensures
            r == alive_of(self@),
    {
        self.inner.alive()
    }

    /// The packed byte.
    pub fn load(&self) -> (r: u8)
        ensures
            r == self@,
    {
        self.inner.fetch()
    }

    /// The byte as eight binary digits.
    pub fn to_string(&self) -> (r: String)
        ensures
            r@ == bits_text(self@),
    {
        self.inner.to_string()
    }
}

impl Default for Cell {
    /// A dead cell without neighbors that loads with acquire and stores with release.
    fn default() -> (r: Self)
        ensures
            r@ == 0,
            r.fetch_order() == MemoryOrder::Acquire,
            r.store_order() == MemoryOrder::Release,
    {
        Cell { inner: AtomicCell::default() }
    }
}

impl crate::common::Cell for Cell {
    open spec fn byte(&self) -> u8 {
        self@
    }

    fn spawn(&mut self) {
        Cell::spawn(self)
    }

    fn kill(&mut self) {
        Cell::kill(self)
    }

    fn neighbors(&self) -> (r: u8) {
        Cell::neighbors(self)
    }

    fn add_neighbor(&mut self) -> (r: Result<(), CellError>) {
        Cell::add_neighbor(self)
    }

    fn remove_neighbor(&mut self) -> (r: Result<(), CellError>) {
        Cell::remove_neighbor(self)
    }

    fn alive(&self) -> (r: bool) {
        Cell::alive(self)
    }

    fn fetch(&self) -> (r: u8) {
        Cell::load(self)
    }

    fn store(&mut self, value: u8) {
        self.inner.store(value)
    }
}

impl PartialEq<u8> for Cell {
    fn eq(&self, other: &u8) -> (r: bool) {
        self.inner.fetch() == *other
    }
}

impl vstd::std_specs::cmp::PartialEqSpecImpl<u8> for Cell {
    open spec fn obeys_eq_spec() -> bool {
        true
    }

    open spec fn eq_spec(&self, other: &u8) -> bool {
        self@ == *other
    }
}

} // verus!
