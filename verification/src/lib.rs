//! Conway's Game of Life on a toroidal grid, with machine-checked contracts.
//!
//! [`grid::Grid`] is the mathematical model: dimensions, a row-major sequence
//! of cells, and the generation rule. [`universe::Universe`] is the executable
//! grid; every operation on it is specified against the model.

pub mod cell;
pub mod grid;
pub mod universe;

pub use cell::Cell;
pub use grid::Grid;
pub use universe::{OutOfBounds, Universe};
