//! A deterministic, event-sourced rules engine for a grid-based match-3
//! puzzle: a fixed 8x8 board of typed pieces, an event reducer that validates
//! and applies player actions, a same-type run detector, a level loader for a
//! compact text format, and a capture economy that replenishes placeable
//! pieces when enemy pieces are destroyed.

use vstd::prelude::*;

pub mod event;
pub mod event_handler;
pub mod level_loader;
pub mod matching;
pub mod rng;
pub mod side_effects;
pub mod state;
pub mod text;
pub mod utils;

verus! {

/// Number of rows in the grid.
pub const ROWS: usize = 8;

/// Number of columns in the grid.
pub const COLS: usize = 8;

/// Number of tiles on the board.
pub const NUM_TILES: usize = 64;

} // verus!
