//! Conway's Game of Life on the plane of `i32` coordinates, kept as a sparse set
//! of living cells, with a single saved copy to go back to.
pub mod cell;
pub mod control;
pub mod field;
pub mod laws;
pub mod pattern;
