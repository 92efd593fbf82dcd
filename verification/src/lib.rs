//! Conway's Game of Life on a bounded grid whose edges wrap around.
//!
//! The board keeps only the coordinates of its live cells and advances one
//! generation at a time. `model` states the transition as mathematics,
//! `board` holds the executable board that is verified against it, `render`
//! turns a board into lines of text, and `laws` collects theorems about the
//! model. `point` has the coordinates, and `cell_set` the hashed set of
//! cells in which the board looks a cell up.

pub mod board;
mod cell_set;
pub mod laws;
pub mod model;
pub mod point;
pub mod render;
