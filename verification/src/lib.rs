//! Conway's Game of Life on an unbounded plane of integer cells.
//!
//! `plane` is the game as mathematics, `world` the engine that holds the
//! living cells and computes the next generation, `game` the state of a
//! running game and what each event does to it, `settings` the size of its
//! window, and `grid` a bounded board of blocks.

mod cell_set;
pub mod game;
pub mod grid;
pub mod plane;
mod sampling;
pub mod settings;
pub mod world;
