//! The cell of the shared grid.
//!
//! Every change of a cell is one transition from its old byte to its new
//! one, and takes exclusive access to the cell: two transitions of one cell
//! never interleave, and a reader never sees a byte that no transition has
//! made. Whoever shares a grid between threads decides how the access is
//! handed round; the orderings of a cell record what its loads and stores
//! ask of memory there.

use super::order::{check_orders, rejection, MemoryOrder, OrderError};
use super::packed::{
    alive_of, bits_text, byte_add_neighbor, byte_alive, byte_kill, byte_neighbors,
    byte_remove_neighbor, byte_spawn, byte_to_string, count_of, is_valid, killed, lemma_decode,
    recounted, spawned, CellError, MAX_NEIGHBORS,
};
use crate::common::Cell;
use vstd::prelude::*;

verus! {

/// A cell: one packed byte, and the orderings its loads and stores were configured with.
#[derive(Clone, Copy, Debug)]
pub struct AtomicCell {
    state: u8,
    fetch: MemoryOrder,
    store: MemoryOrder,
}

impl View for AtomicCell {
    type V = u8;

    /// The packed byte.
    closed spec fn view(&self) -> u8 {
        self.state
    }
}

impl AtomicCell {
    /// The ordering of loads.
    pub closed spec fn fetch_order(&self) -> MemoryOrder {
        self.fetch
    }

    /// The ordering of stores.
    pub closed spec fn store_order(&self) -> MemoryOrder {
        self.store
    }

    /// A cell is well formed when its byte is valid and its orderings are an accepted pair.
    pub open spec fn wf(&self) -> bool {
        is_valid(self@) && rejection(self.fetch_order(), self.store_order()) is None
    }

    /// A dead cell without neighbors, with the given load and store orderings.
    pub fn new(fetch: MemoryOrder, store: MemoryOrder) -> (r: Result<Self, OrderError>)
        ensures
            match r {
                Ok(cell) => {
                    &&& rejection(fetch, store) is None
                    &&& cell@ == 0
                    &&& cell.fetch_order() == fetch
                    &&& cell.store_order() == store
                    &&& cell.wf()
                },
                Err(e) => rejection(fetch, store) == Some(e),
            },
    {
        proof {
            lemma_decode(0);
        }
        match check_orders(fetch, store) {
            Ok(()) => Ok(AtomicCell { state: 0, fetch, store }),
            Err(e) => Err(e),
        }
    }

    /// Sets the alive flag.
    pub fn spawn(&mut self)
        ensures
            final(self)@ == spawned(old(self)@),
            is_valid(old(self)@) ==> is_valid(final(self)@),
            final(self).fetch_order() == old(self).fetch_order(),
            final(self).store_order() == old(self).store_order(),
    {
        self.state = byte_spawn(self.state);
    }

    /// Clears the alive flag.
    pub fn kill(&mut self)
        ensures
            final(self)@ == killed(old(self)@),
            is_valid(old(self)@) ==> is_valid(final(self)@),
            final(self).fetch_order() == old(self).fetch_order(),
            final(self).store_order() == old(self).store_order(),
    {
        self.state = byte_kill(self.state);
    }

    /// The number of live neighbors.
    pub fn neighbors(&self) -> (r: u8)
        ensures
            r == count_of(self@),
            r <= 15,
            is_valid(self@) ==> r <= MAX_NEIGHBORS,
    {
        byte_neighbors(self.state)
    }

    /// Counts one more live neighbor; refused, with the cell unchanged, at 8 or more.
    pub fn add_neighbor(&mut self) -> (r: Result<(), CellError>)
        ensures
            match r {
                Ok(()) => count_of(old(self)@) < 8 && final(self)@ == recounted(
                    old(self)@,
                    count_of(old(self)@) + 1,
                ),
                Err(e) => count_of(old(self)@) >= 8 && e == CellError::NeighborCountOverflow
                    && final(self)@ == old(self)@,
            },
            is_valid(old(self)@) ==> is_valid(final(self)@),
            final(self).fetch_order() == old(self).fetch_order(),
            final(self).store_order() == old(self).store_order(),
    {
        match byte_add_neighbor(self.state) {
            Ok(v) => {
                self.state = v;
                Ok(())
            },
            Err(e) => Err(e),
        }
    }

    /// Counts one live neighbor less; refused, with the cell unchanged, at 0.
    pub fn remove_neighbor(&mut self) -> (r: Result<(), CellError>)
        ensures
            match r {
                Ok(()) => count_of(old(self)@) > 0 && final(self)@ == recounted(
                    old(self)@,
                    (count_of(old(self)@) - 1) as nat,
                ),
                Err(e) => count_of(old(self)@) == 0 && e == CellError::NeighborCountUnderflow
                    && final(self)@ == old(self)@,
            },
            is_valid(old(self)@) ==> is_valid(final(self)@),
            final(self).fetch_order() == old(self).fetch_order(),
            final(self).store_order() == old(self).store_order(),
    {
        match byte_remove_neighbor(self.state) {
            Ok(v) => {
                self.state = v;
                Ok(())
            },
            Err(e) => Err(e),
        }
    }

    /// Whether the cell is alive.
    pub fn alive(&self) -> (r: bool)
        ensures
            r == alive_of(self@),
    {
        byte_alive(self.state)
    }

    /// The packed byte.
    pub fn fetch(&self) -> (r: u8)
        ensures
            r == self@,
    {
        self.state
    }

    /// Overwrites the packed byte.
    pub fn store(&mut self, value: u8)
        ensures
            final(self)@ == value,
            final(self).fetch_order() == old(self).fetch_order(),
            final(self).store_order() == old(self).store_order(),
    {
        self.state = value;
    }

    /// Takes over the byte of `other`.
    pub fn compare_and_exchange(&mut self, other: &AtomicCell)
        ensures
            final(self)@ == other@,
            final(self).fetch_order() == old(self).fetch_order(),
            final(self).store_order() == old(self).store_order(),
    {
        let current = self.state;
        if self.state == current {
            self.state = other.fetch();
        }
    }

    /// The byte as eight binary digits.
    pub fn to_string(&self) -> (r: String)
        ensures
            r@ == bits_text(self@),
    {
        byte_to_string(self.state)
    }
}

impl Default for AtomicCell {
    /// A dead cell without neighbors that loads with acquire and stores with release.
    fn default() -> (r: Self)
        ensures
            r@ == 0,
            r.fetch_order() == MemoryOrder::Acquire,
            r.store_order() == MemoryOrder::Release,
            r.wf(),
    {
        proof {
            lemma_decode(0);
        }
        AtomicCell { state: 0, fetch: MemoryOrder::Acquire, store: MemoryOrder::Release }
    }
}

impl Cell for AtomicCell {
    open spec fn byte(&self) -> u8 {
        self@
    }

    fn spawn(&mut self) {
        AtomicCell::spawn(self)
    }

    fn kill(&mut self) {
        AtomicCell::kill(self)
    }

    fn neighbors(&self) -> (r: u8) {
        AtomicCell::neighbors(self)
    }

    fn add_neighbor(&mut self) -> (r: Result<(), CellError>) {
        AtomicCell::add_neighbor(self)
    }

    fn remove_neighbor(&mut self) -> (r: Result<(), CellError>) {
        AtomicCell::remove_neighbor(self)
    }

    fn alive(&self) -> (r: bool) {
        AtomicCell::alive(self)
    }

    fn fetch(&self) -> (r: u8) {
        AtomicCell::fetch(self)
    }

    fn store(&mut self, value: u8) {
        AtomicCell::store(self, value)
    }
}

impl PartialEq<u8> for AtomicCell {
    fn eq(&self, other: &u8) -> (r: bool) {
        self.state == *other
    }
}

impl vstd::std_specs::cmp::PartialEqSpecImpl<u8> for AtomicCell {
    open spec fn obeys_eq_spec() -> bool {
        true
    }

    open spec fn eq_spec(&self, other: &u8) -> bool {
        self@ == *other
    }
}

} // verus!
