//! A verified solver for standard 9x9 Sudoku puzzles.
//!
//! A board is a row-major sequence of 81 cells, each holding 0 (blank) or a
//! digit 1 through 9. The solver fills the blank cells by depth-first,
//! position-ordered backtracking, trying candidate digits in ascending order
//! and counting every candidate it considers.

pub mod checker;
pub mod grid;
pub mod laws;
pub mod solver;
