//! The outbound side-effect vocabulary of the rules engine.
//!
//! Side effects are declarative instructions for a presentation layer; the
//! core holds no timers, so delays are carried as plain millisecond values
//! that the consumer schedules against its own clock.

use vstd::prelude::*;

use crate::state::PieceType;

verus! {

/// Delay, in milliseconds, before a despawned tile's visual is removed.
pub const DEFAULT_DESPAWN_DELAY_MS: u32 = 500;

/// A declarative instruction emitted by the reducer for the presentation
/// layer to consume.
#[derive(Debug, Clone, Copy, PartialEq, Eq, Structural)]
pub enum SideEffect {
    /// Create a visual for the piece at the given tile. Carries the piece
    /// type because the piece may already have been cleared from the board;
    /// if `also_destroy` holds, the visual is removed again after
    /// [`DEFAULT_DESPAWN_DELAY_MS`].
    SpawnAtTile { idx: usize, piece_type: PieceType, is_player_owned: bool, also_destroy: bool },
    /// Remove the visual at the given tile after `delay_ms` milliseconds.
    DespawnAtTile { idx: usize, delay_ms: u32 },
    /// Discard all visuals and recreate one per non-empty tile.
    FullRespawnTiles,
    /// The board holds no enemy pieces any more. If `load_another` holds, a
    /// further level exists and the caller is expected to raise `NextLevel`;
    /// otherwise the campaign is complete.
    GameOver { load_another: bool },
    /// Clear a terminal game-over display state.
    RemoveGameOverCondition,
}

} // verus!
