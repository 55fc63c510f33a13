//! The inbound event vocabulary of the rules engine.

use vstd::prelude::*;

use crate::state::PieceType;

verus! {

/// An action for the reducer to validate and apply.
#[derive(Debug, Clone, Copy, PartialEq, Eq, Structural)]
pub enum GameEvent {
    /// Resets the game: reloads the current level, or restarts the campaign
    /// from the first level once the last level has been reached.
    Reset,
    /// Seeds the pseudo-random generator so that games are repeatable.
    SeedRng { seed: u64 },
    /// Loads the level with the given id.
    LoadLevel { level_id: usize },
    /// Moves to the next level.
    NextLevel,
    /// The player places a piece of the given type at tile (x, y).
    PlacePlayerPiece { x: usize, y: usize, piece_type: PieceType },
}

} // verus!
