//! A verified engine for the 2048 sliding-tile puzzle.
//!
//! The board is a grid of 4 by 4 cells. A move slides the tiles of every row
//! or column toward one edge and merges equal neighbours once; a new tile
//! then appears in an empty cell. Every operation is specified over a model
//! of the grid, a sequence of sixteen naturals, and proved against it.
//!
//! - [`tile`], [`line`] and [`grid`] hold the model: what a tile is, what a
//!   move does to one line, and what it does to the grid.
//! - [`board`] holds the board itself, with the moves, the new tiles and the
//!   test for the end of the game.
//! - [`game`] keeps the score and the flag for the threshold tile,
//!   [`input`] turns keystrokes into commands, and [`layout`] places the
//!   cells on a screen.
//! - [`laws`] states what holds of every move, and [`examples`] works the
//!   model out on a few lines; [`playable`] and [`worth`] show that no number
//!   of a game outgrows its type.
//! - [`weight`], [`line_lemmas`] and [`grid_lemmas`] hold the proofs that the
//!   others rest on.

pub mod board;
mod chance;
pub mod examples;
pub mod game;
pub mod grid;
pub mod grid_lemmas;
pub mod input;
pub mod laws;
pub mod layout;
pub mod line;
pub mod line_lemmas;
pub mod playable;
pub mod tile;
pub mod weight;
pub mod worth;
