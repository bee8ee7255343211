//! The cell of the grids that one owner steps alone.

use super::packed::{
    alive_of, bits_text, byte_add_neighbor, byte_alive, byte_kill, byte_neighbors,
    byte_remove_neighbor, byte_spawn, byte_to_string, count_of, is_valid, killed, recounted,
    spawned, CellError, MAX_NEIGHBORS,
};
use crate::common::Cell;
use vstd::prelude::*;

verus! {

/// A cell that is nothing but its packed byte.
#[derive(Debug, Clone, Copy)]
pub struct SimpleCell(u8);

impl View for SimpleCell {
    type V = u8;

    /// The packed byte.
    closed spec fn view(&self) -> u8 {
        self.0
    }
}

impl SimpleCell {
    /// A dead cell without neighbors.
    pub fn new() -> (r: SimpleCell)
        ensures
            r@ == 0,
    {
        SimpleCell(0)
    }

    /// Sets the alive flag.
    pub fn spawn(&mut self)
        ensures
            final(self)@ == spawned(old(self)@),
            is_valid(old(self)@) ==> is_valid(final(self)@),
    {
        self.0 = byte_spawn(self.0);
    }

    /// Clears the alive flag.
    pub fn kill(&mut self)
        ensures
            final(self)@ == killed(old(self)@),
            is_valid(old(self)@) ==> is_valid(final(self)@),
    {
        self.0 = byte_kill(self.0);
    }

    /// Whether the cell is alive.
    pub fn alive(&self) -> (r: bool)
        ensures
            r == alive_of(self@),
    {
        byte_alive(self.0)
    }

    /// The number of live neighbors.
    pub fn neighbors(&self) -> (r: u8)
        ensures
            r == count_of(self@),
            r <= 15,
            is_valid(self@) ==> r <= MAX_NEIGHBORS,
    {
        byte_neighbors(self.0)
    }

    /// Counts one more live neighbor; refused, with the cell unchanged, at 8 or more.
    pub fn add_neighbor(&mut self) -> (r: Result<(), CellError>)
        ensures
            match r {
                Ok(()) => count_of(old(self)@) < 8 && final(self)@ == recounted(
                    old(self)@,
                    count_of(old(self)@) + 1,
                ),
                Err(e) => count_of(old(self)@) >= 8 && e == CellError::NeighborCountOverflow
                    && final(self)@ == old(self)@,
            },
            is_valid(old(self)@) ==> is_valid(final(self)@),
    {
        match byte_add_neighbor(self.0) {
            Ok(v) => {
                self.0 = v;
                Ok(())
            },
            Err(e) => Err(e),
        }
    }

    /// Counts one live neighbor less; refused, with the cell unchanged, at 0.
    pub fn remove_neighbor(&mut self) -> (r: Result<(), CellError>)
        ensures
            match r {
                Ok(()) => count_of(old(self)@) > 0 && final(self)@ == recounted(
                    old(self)@,
                    (count_of(old(self)@) - 1) as nat,
                ),
                Err(e) => count_of(old(self)@) == 0 && e == CellError::NeighborCountUnderflow
                    && final(self)@ == old(self)@,
            },
            is_valid(old(self)@) ==> is_valid(final(self)@),
    {
        match byte_remove_neighbor(self.0) {
            Ok(v) => {
                self.0 = v;
                Ok(())
            },
            Err(e) => Err(e),
        }
    }

    /// Overwrites the packed byte.
    pub fn store(&mut self, value: u8)
        ensures
            final(self)@ == value,
    {
        self.0 = value;
    }

    /// The packed byte.
    pub fn fetch(&self) -> (r: u8)
        ensures
            r == self@,
    {
        self.0
    }

    /// The byte as eight binary digits.
    pub fn to_string(&self) -> (r: String)
        ensures
            r@ == bits_text(self@),
    {
        byte_to_string(self.0)
    }
}

impl Cell for SimpleCell {
    open spec fn byte(&self) -> u8 {
        self@
    }

    fn spawn(&mut self) {
        SimpleCell::spawn(self)
    }

    fn kill(&mut self) {
        SimpleCell::kill(self)
    }

    fn neighbors(&self) -> (r: u8) {
        SimpleCell::neighbors(self)
    }

    fn add_neighbor(&mut self) -> (r: Result<(), CellError>) {
        SimpleCell::add_neighbor(self)
    }

    fn remove_neighbor(&mut self) -> (r: Result<(), CellError>) {
        SimpleCell::remove_neighbor(self)
    }

    fn alive(&self) -> (r: bool) {
        SimpleCell::alive(self)
    }

    fn fetch(&self) -> (r: u8) {
        SimpleCell::fetch(self)
    }

    fn store(&mut self, value: u8) {
        SimpleCell::store(self, value)
    }
}

impl PartialEq for SimpleCell {
    fn eq(&self, other: &SimpleCell) -> (r: bool) {
        self.0 == other.0
    }
}

impl vstd::std_specs::cmp::PartialEqSpecImpl for SimpleCell {
    open spec fn obeys_eq_spec() -> bool {
        true
    }

    open spec fn eq_spec(&self, other: &SimpleCell) -> bool {
        self@ == other@
    }
}

impl PartialEq<u8> for SimpleCell {
    fn eq(&self, other: &u8) -> (r: bool) {
        self.0 == *other
    }
}

impl vstd::std_specs::cmp::PartialEqSpecImpl<u8> for SimpleCell {
    open spec fn obeys_eq_spec() -> bool {
        true
    }

    open spec fn eq_spec(&self, other: &u8) -> bool {
        self@ == *other
    }
}

} // verus!
