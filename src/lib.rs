//! Conway's Game of Life on a square toroidal board, advanced one
//! generation at a time with a pair of buffers.

pub mod grid;
pub mod rules;
pub mod engine;
pub mod patterns;
