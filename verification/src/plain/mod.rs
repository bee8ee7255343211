//! The plain form of the game: one grid, one generator, cells that are
//! loaded but never overwritten from outside.

pub mod cell;
pub mod common;
pub mod generator;
pub mod grid;

pub use cell::Cell;
pub use common::{ICell, IGenerator};
pub use generator::Generator;
pub use grid::Grid;
