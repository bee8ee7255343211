//! Grids: the torus, and the grid types that lay cells out on it.

pub mod atomic_grid;
pub mod caching;
pub mod census;
pub mod moves;
pub mod simple_grid;
pub mod simple_grid_vec;
pub mod torus;
pub mod walk;

pub use atomic_grid::AtomicGrid;
pub use simple_grid::SimpleGrid;
pub use simple_grid_vec::SimpleGridWithVec;
