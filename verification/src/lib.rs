//! Core of a falling-block puzzle game: the board with its collision test and
//! line-clear pass, the tetromino pieces with their rotation table, the bag
//! randomizer, the per-tick game engine, and the stack-based scene manager.
//!
//! Everything here is plain data transformation, specified and verified with
//! Verus. Rendering and input polling live outside this crate; they talk to it
//! through plain values (key flags, elapsed milliseconds, draw command lists).

pub mod board;
pub mod cell;
pub mod input;
pub mod introscene;
pub mod mainscene;
pub mod pausescene;
pub mod piece;
pub mod render;
pub mod state;
