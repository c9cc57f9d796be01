//! An edge-matching tile puzzle on a square grid: typed pieces and cells,
//! the orientation arithmetic that turns a piece's recorded sides into
//! compass-facing faces, validated placement and removal, and a backtracking
//! search that fills the whole board.

pub mod board;
pub mod cell;
pub mod color_index;
pub mod crawler;
pub mod model;
pub mod parse;
pub mod piece;
pub mod solution;
pub mod solver;
