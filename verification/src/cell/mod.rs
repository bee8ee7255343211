//! Cells: the packed byte, its legal transitions, and the cell types built on it.

pub mod atomic_cell;
pub mod order;
pub mod packed;
pub mod simple_cell;

pub use atomic_cell::AtomicCell;
pub use order::{MemoryOrder, OrderError};
pub use packed::CellError;
pub use simple_cell::SimpleCell;
