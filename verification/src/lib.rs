//! A toroidal Game of Life whose cells pack their state into one byte.
//!
//! A cell is a byte: bit 0 says whether it is alive, bits 1 to 4 count its
//! live neighbors. A grid lays `H` rows of `W` cells out on a torus and keeps
//! the counts up to date whenever a cell is spawned or killed. A generator
//! steps a grid through its generations: it freezes a copy of the grid, the
//! cache, and applies the rule to the grid while it reads the cache.

pub mod cell;
pub mod common;
pub mod display;
pub mod generator;
pub mod grid;
pub mod launcher;
pub mod plain;
pub mod utils;

pub use cell::{AtomicCell, CellError, MemoryOrder, OrderError, SimpleCell};
pub use common::{Cell, Generator, IGrid};
pub use generator::{AtomicGenerator, SharedState, SingleThreadedGenerator, UnsafeCellGenerator};
pub use grid::caching::{CachingStrategy, UnsafeCachingStrategy};
pub use grid::{AtomicGrid, SimpleGrid, SimpleGridWithVec};
pub use utils::{create_atomic_grid_from_file, randomize_grid};
