//! A 9x9 Sudoku engine: constraint checking, backtracking solving,
//! random puzzle generation, and interactive play state.

pub mod app;
pub mod generator;
pub mod grid;
pub mod laws;
pub mod solver;
pub mod sudoku;

pub use grid::Grid;
