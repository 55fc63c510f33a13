//! Mapping between (x, y) tile coordinates and linear board indices.
//!
//! A sentinel coordinate of `usize::MAX` on either axis stands for "no tile
//! selected" (for example a cursor that is off the board); it maps to the
//! sentinel index `usize::MAX` and back.

use vstd::prelude::*;

use crate::{COLS, NUM_TILES, ROWS};

verus! {

/// Linear index of the in-bounds coordinate pair (x, y): `x + y * COLS`.
pub open spec fn spec_tile_to_idx(x: int, y: int) -> int {
    x + y * (COLS as int)
}

/// Column of the in-bounds linear index `idx`.
pub open spec fn spec_idx_to_x(idx: int) -> int {
    idx % (COLS as int)
}

/// Row of the in-bounds linear index `idx`.
pub open spec fn spec_idx_to_y(idx: int) -> int {
    idx / (COLS as int)
}

/// True for a coordinate pair that addresses a tile on the board.
pub open spec fn in_bounds(x: int, y: int) -> bool {
    0 <= x < COLS && 0 <= y < ROWS
}

/// Converts a tile coordinate pair to a linear board index.
/// The sentinel pair (either axis `usize::MAX`) maps to the sentinel index.
pub fn tile_to_idx(x: usize, y: usize) -> (r: usize)
    requires
        in_bounds(x as int, y as int) || x == usize::MAX || y == usize::MAX,
    ensures
        x == usize::MAX || y == usize::MAX ==> r == usize::MAX,
        in_bounds(x as int, y as int) && x != usize::MAX && y != usize::MAX ==> r
            == spec_tile_to_idx(x as int, y as int) && r < NUM_TILES,
{
    if x == usize::MAX || y == usize::MAX {
        return usize::MAX;
    }

    x + y * COLS
}

/// Converts a linear board index back to a tile coordinate pair.
/// The sentinel index maps to the sentinel pair.
pub fn idx_to_tile(idx: usize) -> (r: (usize, usize))
    ensures
        idx == usize::MAX ==> r == (usize::MAX, usize::MAX),
        idx != usize::MAX ==> r.0 == spec_idx_to_x(idx as int) && r.1 == spec_idx_to_y(
            idx as int,
        ),
{
    if idx == usize::MAX {
        (idx, idx)
    } else {
        let x = idx % COLS;
        let y = (idx - x) / ROWS;

        (x, y)
    }
}

/// Converting an in-bounds linear index to coordinates and back returns the
/// same index, and the coordinates are in bounds.
pub proof fn lemma_idx_tile_round_trip(idx: int)
    requires
        0 <= idx < NUM_TILES,
    ensures
        in_bounds(spec_idx_to_x(idx), spec_idx_to_y(idx)),
        spec_tile_to_idx(spec_idx_to_x(idx), spec_idx_to_y(idx)) == idx,
{
}

/// Converting in-bounds coordinates to a linear index and back returns the
/// same coordinates, and the index is in range.
pub proof fn lemma_tile_idx_round_trip(x: int, y: int)
    requires
        in_bounds(x, y),
    ensures
        0 <= spec_tile_to_idx(x, y) < NUM_TILES,
        spec_idx_to_x(spec_tile_to_idx(x, y)) == x,
        spec_idx_to_y(spec_tile_to_idx(x, y)) == y,
{
}

} // verus!
