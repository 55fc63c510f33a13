//! The board model: piece taxonomy, tiles, and the single owned game state.

use vstd::prelude::*;

use rand_chacha::ChaCha20Rng;

use crate::event::GameEvent;
use crate::level_loader::NUM_LEVELS;
use crate::rng::{random_seed, rng_from_seed};
use crate::utils::{
    idx_to_tile, in_bounds, spec_idx_to_x, spec_idx_to_y, spec_tile_to_idx, tile_to_idx,
};
use crate::{COLS, NUM_TILES, ROWS};

verus! {

/// The piece type the player currently has selected for placement.
#[derive(Debug, Clone, Copy, PartialEq, Eq, Structural, Default)]
pub struct PlayingPiece(pub PieceType);

/// The kinds of piece that can occupy a tile.
#[derive(Debug, Copy, Clone, PartialEq, Eq, Structural, Default)]
pub enum PieceType {
    #[default]
    Swordsman,
    Hound,
    Bowman,
    Wall,
}

impl PieceType {
    /// The next piece type in the player-facing toggle cycle
    /// Swordsman -> Hound -> Bowman -> Swordsman; Wall never enters the cycle.
    pub open spec fn spec_toggle(self) -> PieceType {
        match self {
            PieceType::Swordsman => PieceType::Hound,
            PieceType::Hound => PieceType::Bowman,
            PieceType::Bowman => PieceType::Swordsman,
            PieceType::Wall => PieceType::Wall,
        }
    }

    /// Cycles to the next player-facing piece type.
    pub fn toggle(self) -> (r: Self)
        ensures
            r == self.spec_toggle(),
    {
        match self {
            PieceType::Swordsman => PieceType::Hound,
            PieceType::Hound => PieceType::Bowman,
            PieceType::Bowman => PieceType::Swordsman,
            PieceType::Wall => self,
        }
    }
}

/// Marker for an obstacle visual in a presentation layer.
#[derive(Debug, Clone, Copy)]
pub struct Obstacle;

/// The content of a tile.
#[derive(Debug, Copy, Clone, PartialEq, Eq, Structural)]
pub enum Piece {
    /// No piece at all.
    Empty,
    /// An obstacle, which blocks placements and matches and is never removed.
    Obstacle(PieceType),
    /// A piece owned by the player.
    Friendly(PieceType),
    /// A piece owned by the computer.
    Enemy(PieceType),
}

/// One cell of the board, addressed by (x, y) or by the linear index
/// `x + y * COLS`.
#[derive(Debug, Copy, Clone, PartialEq, Eq, Structural)]
pub struct Tile {
    pub x: usize,
    pub y: usize,
    pub piece: Piece,
}

impl Tile {
    /// The linear board index of this tile.
    pub fn idx(&self) -> (r: usize)
        requires
            in_bounds(self.x as int, self.y as int) || self.x == usize::MAX || self.y
                == usize::MAX,
        ensures
            self.x == usize::MAX || self.y == usize::MAX ==> r == usize::MAX,
            in_bounds(self.x as int, self.y as int) && self.x != usize::MAX && self.y
                != usize::MAX ==> r == spec_tile_to_idx(self.x as int, self.y as int),
    {
        tile_to_idx(self.x, self.y)
    }
}

/// Number of `Enemy(t)` pieces among the given tiles.
pub open spec fn enemy_count(tiles: Seq<Tile>, t: PieceType) -> nat
    decreases tiles.len(),
{
    if tiles.len() == 0 {
        0
    } else {
        enemy_count(tiles.drop_last(), t) + if tiles.last().piece == Piece::Enemy(t) {
            1nat
        } else {
            0nat
        }
    }
}

/// Number of enemy pieces of any type among the given tiles.
pub open spec fn enemy_total(tiles: Seq<Tile>) -> nat
    decreases tiles.len(),
{
    if tiles.len() == 0 {
        0
    } else {
        enemy_total(tiles.drop_last()) + if tiles.last().piece is Enemy {
            1nat
        } else {
            0nat
        }
    }
}

/// The per-type enemy count never exceeds the number of tiles.
pub proof fn lemma_enemy_count_le_len(tiles: Seq<Tile>, t: PieceType)
    ensures
        enemy_count(tiles, t) <= tiles.len(),
    decreases tiles.len(),
{
    if tiles.len() > 0 {
        lemma_enemy_count_le_len(tiles.drop_last(), t);
    }
}

/// Replacing the piece at position `i` adjusts the per-type enemy count by
/// the difference the two pieces make.
pub proof fn lemma_enemy_count_update(tiles: Seq<Tile>, i: int, tile: Tile, t: PieceType)
    requires
        0 <= i < tiles.len(),
    ensures
        enemy_count(tiles.update(i, tile), t) + (if tiles[i].piece == Piece::Enemy(t) {
            1nat
        } else {
            0nat
        }) == enemy_count(tiles, t) + (if tile.piece == Piece::Enemy(t) {
            1nat
        } else {
            0nat
        }),
    decreases tiles.len(),
{
    let updated = tiles.update(i, tile);
    if i == tiles.len() - 1 {
        assert(updated.drop_last() =~= tiles.drop_last());
    } else {
        assert(updated.drop_last() =~= tiles.drop_last().update(i, tile));
        lemma_enemy_count_update(tiles.drop_last(), i, tile, t);
    }
}

/// A board on which some tile holds an enemy of type `t` counts at least one.
pub proof fn lemma_enemy_count_at_least_one(tiles: Seq<Tile>, i: int, t: PieceType)
    requires
        0 <= i < tiles.len(),
        tiles[i].piece == Piece::Enemy(t),
    ensures
        enemy_count(tiles, t) >= 1,
    decreases tiles.len(),
{
    if i < tiles.len() - 1 {
        lemma_enemy_count_at_least_one(tiles.drop_last(), i, t);
    }
}

/// The single owned instance of the game's state, mutated through the event
/// reducer.
pub struct GameState {
    /// The 64 tiles that make up the board, in linear index order.
    pub tiles: Vec<Tile>,
    /// Remaining placeable Swordsman pieces.
    pub num_swordsmen: usize,
    /// Remaining placeable Hound pieces.
    pub num_hounds: usize,
    /// Remaining placeable Bowman pieces.
    pub num_bowmen: usize,
    /// Narrative text of the current level.
    pub level_message: String,
    /// Index of the current level, always below [`NUM_LEVELS`].
    pub current_level: usize,
    /// The seeded pseudo-random generator.
    pub rng: ChaCha20Rng,
    /// The seed the generator was last built from.
    pub rng_seed: Ghost<u64>,
    /// Append-only event log, cleared only on a terminal reset.
    pub events: Vec<GameEvent>,
}

impl GameState {
    /// Remaining placeable pieces of the given type; a Wall can never be
    /// placed.
    pub open spec fn spec_capacity(self, t: PieceType) -> int {
        match t {
            PieceType::Swordsman => self.num_swordsmen as int,
            PieceType::Hound => self.num_hounds as int,
            PieceType::Bowman => self.num_bowmen as int,
            PieceType::Wall => 0,
        }
    }

    /// Well-formedness: the board holds exactly 64 tiles whose coordinates
    /// match their position, the level index is in range, and each resource
    /// counter leaves room to credit every enemy piece of its type still on
    /// the board (so the capture economy cannot overflow).
    pub open spec fn wf(self) -> bool {
        &&& self.tiles@.len() == NUM_TILES
        &&& forall|i: int|
            0 <= i < NUM_TILES ==> (#[trigger] self.tiles@[i]).x == spec_idx_to_x(i)
                && self.tiles@[i].y == spec_idx_to_y(i)
        &&& self.current_level < NUM_LEVELS
        &&& self.num_swordsmen + enemy_count(self.tiles@, PieceType::Swordsman) <= usize::MAX
        &&& self.num_hounds + enemy_count(self.tiles@, PieceType::Hound) <= usize::MAX
        &&& self.num_bowmen + enemy_count(self.tiles@, PieceType::Bowman) <= usize::MAX
    }

    /// True if a piece of the given type can still be placed.
    pub fn has_capacity(&self, piece_type: PieceType) -> (r: bool)
        ensures
            r == (self.spec_capacity(piece_type) > 0),
    {
        (match piece_type {
            PieceType::Swordsman => self.num_swordsmen,
            PieceType::Hound => self.num_hounds,
            PieceType::Bowman => self.num_bowmen,
            PieceType::Wall => 0,
        }) > 0
    }

    /// A placement position is valid when it addresses a tile on the board
    /// and that tile is empty. No adjacent friendly piece is required.
    pub open spec fn placement_ok(self, x: int, y: int) -> bool {
        in_bounds(x, y) && self.tiles@[spec_tile_to_idx(x, y)].piece is Empty
    }

    /// True if (x, y) is a valid location to place a player piece: the
    /// position addresses a tile and no piece occupies it. The sentinel
    /// coordinates ("no tile selected") are never valid.
    pub fn is_valid_placement_position(&self, selected_x: usize, selected_y: usize) -> (r: bool)
        requires
            self.wf(),
        ensures
            r == self.placement_ok(selected_x as int, selected_y as int),
    {
        if selected_x >= COLS || selected_y >= ROWS {
            return false;
        }
        let idx = tile_to_idx(selected_x, selected_y);
        match self.tiles[idx].piece {
            Piece::Empty => true,
            _ => false,
        }
    }

    /// Counts the enemy pieces on the board.
    pub fn count_red_cells(&self) -> (r: usize)
        ensures
            r == enemy_total(self.tiles@),
    {
        let mut count: usize = 0;
        let mut i: usize = 0;
        while i < self.tiles.len()
            invariant
                0 <= i <= self.tiles@.len(),
                count == enemy_total(self.tiles@.take(i as int)),
                count <= i,
            decreases self.tiles@.len() - i,
        {
            proof {
                assert(self.tiles@.take(i + 1).drop_last() =~= self.tiles@.take(i as int));
            }
            if let Piece::Enemy(_) = self.tiles[i].piece {
                count += 1;
            }
            i += 1;
        }
        proof {
            assert(self.tiles@.take(self.tiles@.len() as int) =~= self.tiles@);
        }
        count
    }

    /// True if no enemy piece remains on the board.
    pub fn is_level_over(&self) -> (r: bool)
        ensures
            r == (enemy_total(self.tiles@) == 0),
    {
        self.count_red_cells() == 0
    }

    /// The current level as a 1-based number for display.
    pub fn get_current_level(&self) -> (r: usize)
        requires
            self.wf(),
        ensures
            r == self.current_level + 1,
    {
        self.current_level + 1
    }
}

/// The neighbourhood offsets of a piece type: the orthogonal 4-neighbourhood
/// for a Swordsman, the full 8-neighbourhood for a Hound, the vertical
/// neighbours for a Bowman, and none for a Wall.
pub open spec fn piece_offsets(t: PieceType) -> Seq<(isize, isize)> {
    match t {
        PieceType::Swordsman => seq![(0isize, -1isize), (-1isize, 0isize), (1isize, 0isize), (0isize, 1isize)],
        PieceType::Hound => seq![
            (-1isize, -1isize),
            (0isize, -1isize),
            (1isize, -1isize),
            (-1isize, 0isize),
            (1isize, 0isize),
            (-1isize, 1isize),
            (0isize, 1isize),
            (1isize, 1isize),
        ],
        PieceType::Bowman => seq![(0isize, -1isize), (0isize, 1isize)],
        PieceType::Wall => Seq::empty(),
    }
}

/// The in-bounds coordinates reached from (x, y) by the given offsets, in
/// offset order; out-of-range results are filtered out, never wrapped.
pub open spec fn filtered_neighbours(x: int, y: int, offs: Seq<(isize, isize)>) -> Seq<
    (usize, usize),
>
    decreases offs.len(),
{
    if offs.len() == 0 {
        Seq::empty()
    } else {
        let nx = x + offs[0].0;
        let ny = y + offs[0].1;
        let rest = filtered_neighbours(x, y, offs.skip(1));
        if in_bounds(nx, ny) {
            seq![((nx as usize), (ny as usize))] + rest
        } else {
            rest
        }
    }
}

/// The neighbouring tile coordinates of (x, y) for a piece of the given
/// type; the sentinel coordinates have no neighbours.
pub open spec fn spec_neighbours(x: int, y: int, t: PieceType) -> Seq<(usize, usize)> {
    if x == usize::MAX || y == usize::MAX {
        Seq::empty()
    } else {
        filtered_neighbours(x, y, piece_offsets(t))
    }
}

/// Offsets a coordinate pair by (dx, dy), returning the result only when it
/// lands on the board.
fn neighbour_at(x: usize, y: usize, dx: isize, dy: isize) -> (r: Option<(usize, usize)>)
    requires
        x < usize::MAX,
        y < usize::MAX,
        -1 <= dx <= 1,
        -1 <= dy <= 1,
    ensures
        r == if in_bounds(x + dx, y + dy) {
            Some((((x + dx) as usize), ((y + dy) as usize)))
        } else {
            None::<(usize, usize)>
        },
{
    let nx: usize = if dx < 0 {
        if x == 0 {
            return None;
        }
        x - 1
    } else if dx > 0 {
        x + 1
    } else {
        x
    };
    let ny: usize = if dy < 0 {
        if y == 0 {
            return None;
        }
        y - 1
    } else if dy > 0 {
        y + 1
    } else {
        y
    };
    if nx < COLS && ny < ROWS {
        Some((nx, ny))
    } else {
        None
    }
}

impl GameState {
    /// The neighbouring cells of the tile at (x, y) for a piece of the given
    /// type: in-bounds coordinates only, in the piece's offset order.
    pub fn get_neighbours(&self, x: usize, y: usize, piece_type: PieceType) -> (r: Vec<
        (usize, usize),
    >)
        ensures
            r@ == spec_neighbours(x as int, y as int, piece_type),
    {
        let mut result: Vec<(usize, usize)> = Vec::new();
        if x == usize::MAX || y == usize::MAX {
            return result;
        }

        let mut offsets: Vec<(isize, isize)> = Vec::new();
        match piece_type {
            PieceType::Swordsman => {
                offsets.push((0, -1));
                offsets.push((-1, 0));
                offsets.push((1, 0));
                offsets.push((0, 1));
            },
            PieceType::Hound => {
                offsets.push((-1, -1));
                offsets.push((0, -1));
                offsets.push((1, -1));
                offsets.push((-1, 0));
                offsets.push((1, 0));
                offsets.push((-1, 1));
                offsets.push((0, 1));
                offsets.push((1, 1));
            },
            PieceType::Bowman => {
                offsets.push((0, -1));
                offsets.push((0, 1));
            },
            PieceType::Wall => {},
        }
        proof {
            assert(offsets@ =~= piece_offsets(piece_type));
            assert(offsets@.skip(0) =~= offsets@);
            assert(result@ + filtered_neighbours(x as int, y as int, offsets@)
                =~= filtered_neighbours(x as int, y as int, offsets@));
        }

        let mut i: usize = 0;
        while i < offsets.len()
            invariant
                0 <= i <= offsets@.len(),
                x < usize::MAX,
                y < usize::MAX,
                offsets@ == piece_offsets(piece_type),
                forall|j: int|
                    0 <= j < offsets@.len() ==> -1 <= (#[trigger] offsets@[j]).0 <= 1 && -1
                        <= offsets@[j].1 <= 1,
                spec_neighbours(x as int, y as int, piece_type) == result@ + filtered_neighbours(
                    x as int,
                    y as int,
                    offsets@.skip(i as int),
                ),
            decreases offsets@.len() - i,
        {
            let (dx, dy) = offsets[i];
            proof {
                assert(offsets@.skip(i as int)[0] == offsets@[i as int]);
                assert(offsets@.skip(i as int).skip(1) =~= offsets@.skip(i as int + 1));
            }
            if let Some(p) = neighbour_at(x, y, dx, dy) {
                result.push(p);
            }
            i += 1;
        }
        proof {
            assert(offsets@.skip(offsets@.len() as int) =~= Seq::<(isize, isize)>::empty());
            assert(result@ + Seq::<(usize, usize)>::empty() =~= result@);
        }
        result
    }
}

impl Default for GameState {
    /// A fresh state: an empty board, no resources, level 0, an arbitrary
    /// seed recorded as the single entry of the event log.
    fn default() -> (r: Self)
        ensures
            r.wf(),
            r.tiles@.len() == NUM_TILES,
            forall|i: int| 0 <= i < NUM_TILES ==> (#[trigger] r.tiles@[i]).piece is Empty,
            r.num_swordsmen == 0,
            r.num_hounds == 0,
            r.num_bowmen == 0,
            r.level_message@ == Seq::<char>::empty(),
            r.current_level == 0,
            r.events@.len() == 1,
            r.events@[0] == (GameEvent::SeedRng { seed: r.rng_seed@ }),
    {
        let seed = random_seed();

        let mut tiles: Vec<Tile> = Vec::new();
        let mut idx: usize = 0;
        while idx < NUM_TILES
            invariant
                0 <= idx <= NUM_TILES,
                tiles@.len() == idx,
                forall|i: int|
                    0 <= i < idx ==> (#[trigger] tiles@[i]).x == spec_idx_to_x(i) && tiles@[i].y
                        == spec_idx_to_y(i) && tiles@[i].piece is Empty,
            decreases NUM_TILES - idx,
        {
            let (x, y) = idx_to_tile(idx);
            tiles.push(Tile { x, y, piece: Piece::Empty });
            idx += 1;
        }
        proof {
            lemma_enemy_count_le_len(tiles@, PieceType::Swordsman);
            lemma_enemy_count_le_len(tiles@, PieceType::Hound);
            lemma_enemy_count_le_len(tiles@, PieceType::Bowman);
        }

        let mut events: Vec<GameEvent> = Vec::new();
        events.push(GameEvent::SeedRng { seed });

        GameState {
            tiles,
            num_swordsmen: 0,
            num_hounds: 0,
            num_bowmen: 0,
            level_message: String::new(),
            current_level: 0,
            rng: rng_from_seed(seed),
            rng_seed: Ghost(seed),
            events,
        }
    }
}

} // verus!
