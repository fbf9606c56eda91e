//! Rules engine for a cooperative word-deduction game played on a grid.
//!
//! Every cell of the grid is addressed by a row label and a column label.
//! Each player secretly holds one cell, gives a one-word clue for it, and the
//! other players try to tap the cell that was meant. A right guess solves the
//! cell, a wrong one is put on record; either way the clue's owner takes a
//! new cell from the deck while it lasts. The game is over when the deck is
//! empty and nobody holds a cell.
//!
//! [`game::Game`] is the game itself. What it does is stated over
//! [`state::GameState`], the game as a mathematical value: `setup` says what
//! a new game is, `state` what each action makes of it, `snapshot` what each
//! player is shown, and `laws` what follows for every game.

pub mod tile;
pub mod ids;
pub mod action;
pub mod error;
pub mod config;
pub mod clue;
pub mod state;
pub mod laws;
pub mod setup;
pub mod random;
pub mod board;
pub mod copies;
pub mod snapshot;
pub mod parts;
pub mod game;
