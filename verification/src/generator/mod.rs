//! Generators: the rule, and the types that step a grid through its generations.

pub mod apply;
pub mod atomic_generator;
pub mod laws;
pub mod ref_cell_generator;
pub mod rule;
pub mod single_threaded;

pub use atomic_generator::AtomicGenerator;
pub use ref_cell_generator::{SharedState, UnsafeCellGenerator};
pub use single_threaded::SingleThreadedGenerator;
