//! The event reducer: validates an event against the current state and, on
//! success, applies it — placing pieces, clearing matches and crediting
//! captures, loading levels, or resetting — and derives the ordered list of
//! side effects for the presentation layer.

use vstd::prelude::*;

use crate::event::GameEvent;
use crate::level_loader::{level_seq, spec_parse_level, StateLevelLoader, NUM_LEVELS};
use crate::matching::{
    board_matches, lemma_board_matches_wf, lemma_match_indices_in_range, match_index,
    match_indices, match_len, match_wf, Match,
};
use crate::rng::rng_from_seed;
use crate::side_effects::{SideEffect, DEFAULT_DESPAWN_DELAY_MS};
use crate::state::{
    enemy_count, enemy_total, lemma_enemy_count_at_least_one, lemma_enemy_count_update,
    GameState, Piece, PieceType, Tile,
};
use crate::utils::{in_bounds, lemma_tile_idx_round_trip, spec_idx_to_x, spec_idx_to_y, spec_tile_to_idx, tile_to_idx};
use crate::NUM_TILES;

verus! {

/// Why an event was rejected. A rejected event is dropped: nothing mutates
/// and no side effect is emitted.
#[derive(Debug, Clone, Copy, PartialEq, Eq, Structural)]
pub enum EventError {
    /// No remaining capacity for the requested piece type.
    InsufficientCapacity,
    /// The requested position is off the board or already occupied.
    InvalidPlacement,
    /// The requested level id is not a compiled-in level.
    InvalidLevelId,
    /// The campaign holds no further level.
    NoNextLevel,
}

impl GameState {
    /// Whether an event may be applied to this state, and the error that
    /// rejects it otherwise. Placement needs remaining capacity for the
    /// piece type (checked first) and a valid, empty target tile; a level id
    /// must be compiled in; `NextLevel` needs a further level to exist;
    /// seeding and reset are always valid.
    pub open spec fn spec_validate(self, e: GameEvent) -> Result<(), EventError> {
        match e {
            GameEvent::SeedRng { seed: _ } => Ok(()),
            GameEvent::PlacePlayerPiece { x, y, piece_type } => {
                if self.spec_capacity(piece_type) <= 0 {
                    Err(EventError::InsufficientCapacity)
                } else if !self.placement_ok(x as int, y as int) {
                    Err(EventError::InvalidPlacement)
                } else {
                    Ok(())
                }
            },
            GameEvent::LoadLevel { level_id } => {
                if level_id >= NUM_LEVELS {
                    Err(EventError::InvalidLevelId)
                } else {
                    Ok(())
                }
            },
            GameEvent::NextLevel => {
                if self.current_level + 1 >= NUM_LEVELS {
                    Err(EventError::NoNextLevel)
                } else {
                    Ok(())
                }
            },
            GameEvent::Reset => Ok(()),
        }
    }

    /// Validates an event without mutating anything.
    pub fn validate_event(&self, game_event: &GameEvent) -> (r: Result<(), EventError>)
        requires
            self.wf(),
        ensures
            r == self.spec_validate(*game_event),
    {
        match game_event {
            GameEvent::SeedRng { seed: _ } => Ok(()),
            GameEvent::PlacePlayerPiece { x, y, piece_type } => {
                if !self.has_capacity(*piece_type) {
                    Err(EventError::InsufficientCapacity)
                } else if !self.is_valid_placement_position(*x, *y) {
                    Err(EventError::InvalidPlacement)
                } else {
                    Ok(())
                }
            },
            GameEvent::LoadLevel { level_id } => {
                if *level_id >= NUM_LEVELS {
                    Err(EventError::InvalidLevelId)
                } else {
                    Ok(())
                }
            },
            GameEvent::NextLevel => {
                if self.current_level + 1 >= NUM_LEVELS {
                    Err(EventError::NoNextLevel)
                } else {
                    Ok(())
                }
            },
            GameEvent::Reset => Ok(()),
        }
    }
}

/// Placing on a tile that is not empty (or off the board) is rejected,
/// whatever capacity remains.
pub proof fn lemma_occupied_placement_always_rejected(
    s: GameState,
    x: usize,
    y: usize,
    piece_type: PieceType,
)
    requires
        !s.placement_ok(x as int, y as int),
    ensures
        s.spec_validate(GameEvent::PlacePlayerPiece { x, y, piece_type }) is Err,
{
}

/// Placing with zero remaining capacity for the piece type is rejected,
/// whatever the target tile holds.
pub proof fn lemma_no_capacity_placement_always_rejected(
    s: GameState,
    x: usize,
    y: usize,
    piece_type: PieceType,
)
    requires
        s.spec_capacity(piece_type) <= 0,
    ensures
        s.spec_validate(GameEvent::PlacePlayerPiece { x, y, piece_type }) == Result::<
            (),
            EventError,
        >::Err(EventError::InsufficientCapacity),
{
}

/// Intermediate state while a placement's matches are cleared: the board,
/// the three resource counters, whether the placed tile itself was matched,
/// and the despawn effects collected so far (in discovery order).
pub struct PlaceWork {
    pub tiles: Seq<Tile>,
    pub num_swordsmen: int,
    pub num_hounds: int,
    pub num_bowmen: int,
    pub also_destroy: bool,
    pub despawns: Seq<SideEffect>,
}

/// The counter of the given piece type during match clearing.
pub open spec fn work_count(w: PlaceWork, t: PieceType) -> int {
    match t {
        PieceType::Swordsman => w.num_swordsmen,
        PieceType::Hound => w.num_hounds,
        PieceType::Bowman => w.num_bowmen,
        PieceType::Wall => 0,
    }
}

/// A counter plus the enemy pieces of its type still on the board. Clearing
/// conserves this: a capture credit always coincides with an enemy piece
/// leaving the board.
pub open spec fn work_stock(w: PlaceWork, t: PieceType) -> int {
    work_count(w, t) + enemy_count(w.tiles, t)
}

/// Clears one matched tile: the tile becomes empty; if it held an enemy
/// piece, that piece's counter is credited; the placed tile marks the spawn
/// effect for destruction instead of getting a despawn effect of its own.
pub open spec fn clear_tile(w: PlaceWork, idx: int, placed_idx: int) -> PlaceWork {
    let t = w.tiles[idx];
    PlaceWork {
        tiles: w.tiles.update(idx, Tile { x: t.x, y: t.y, piece: Piece::Empty }),
        num_swordsmen: w.num_swordsmen + if t.piece == Piece::Enemy(PieceType::Swordsman) {
            1int
        } else {
            0int
        },
        num_hounds: w.num_hounds + if t.piece == Piece::Enemy(PieceType::Hound) {
            1int
        } else {
            0int
        },
        num_bowmen: w.num_bowmen + if t.piece == Piece::Enemy(PieceType::Bowman) {
            1int
        } else {
            0int
        },
        also_destroy: w.also_destroy || idx == placed_idx,
        despawns: if idx == placed_idx {
            w.despawns
        } else {
            w.despawns.push(
                SideEffect::DespawnAtTile {
                    idx: idx as usize,
                    delay_ms: DEFAULT_DESPAWN_DELAY_MS,
                },
            )
        },
    }
}

/// Clears the first `k` of the given tile indices, in order.
pub open spec fn clear_prefix(w: PlaceWork, idxs: Seq<int>, k: int, placed_idx: int) -> PlaceWork
    decreases k,
{
    if k <= 0 {
        w
    } else {
        clear_tile(clear_prefix(w, idxs, k - 1, placed_idx), idxs[k - 1], placed_idx)
    }
}

/// Clears every tile of one match, in index order.
pub open spec fn clear_match(w: PlaceWork, m: Match, placed_idx: int) -> PlaceWork {
    clear_prefix(w, match_indices(m), match_indices(m).len() as int, placed_idx)
}

/// Clears the first `k` matches, in discovery order.
pub open spec fn clear_matches_prefix(w: PlaceWork, ms: Seq<Match>, k: int, placed_idx: int) -> PlaceWork
    decreases k,
{
    if k <= 0 {
        w
    } else {
        clear_match(clear_matches_prefix(w, ms, k - 1, placed_idx), ms[k - 1], placed_idx)
    }
}

/// Clearing one tile keeps the board size and every tile's coordinates, and
/// conserves each counter's stock.
pub proof fn lemma_clear_tile_frame(w: PlaceWork, idx: int, placed_idx: int)
    requires
        0 <= idx < w.tiles.len(),
    ensures
        clear_tile(w, idx, placed_idx).tiles.len() == w.tiles.len(),
        forall|i: int|
            0 <= i < w.tiles.len() ==> (#[trigger] clear_tile(w, idx, placed_idx).tiles[i]).x
                == w.tiles[i].x && clear_tile(w, idx, placed_idx).tiles[i].y == w.tiles[i].y,
        forall|t: PieceType| #[trigger]
            work_stock(clear_tile(w, idx, placed_idx), t) <= work_stock(w, t),
{
    let t = w.tiles[idx];
    let cleared = Tile { x: t.x, y: t.y, piece: Piece::Empty };
    assert forall|pt: PieceType| #[trigger]
        work_stock(clear_tile(w, idx, placed_idx), pt) <= work_stock(w, pt) by {
        lemma_enemy_count_update(w.tiles, idx, cleared, pt);
    }
}

/// Clearing a prefix of tile indices keeps the board size and coordinates
/// and conserves each counter's stock.
pub proof fn lemma_clear_prefix_frame(w: PlaceWork, idxs: Seq<int>, k: int, placed_idx: int)
    requires
        forall|j: int| 0 <= j < idxs.len() ==> 0 <= #[trigger] idxs[j] < w.tiles.len(),
        k <= idxs.len(),
    ensures
        clear_prefix(w, idxs, k, placed_idx).tiles.len() == w.tiles.len(),
        forall|i: int|
            0 <= i < w.tiles.len() ==> (#[trigger] clear_prefix(w, idxs, k, placed_idx).tiles[i]).x
                == w.tiles[i].x && clear_prefix(w, idxs, k, placed_idx).tiles[i].y == w.tiles[i].y,
        forall|t: PieceType| #[trigger]
            work_stock(clear_prefix(w, idxs, k, placed_idx), t) <= work_stock(w, t),
    decreases k,
{
    if k > 0 {
        lemma_clear_prefix_frame(w, idxs, k - 1, placed_idx);
        lemma_clear_tile_frame(clear_prefix(w, idxs, k - 1, placed_idx), idxs[k - 1], placed_idx);
    }
}

/// Clearing a prefix of well-formed matches keeps the board size and
/// coordinates and conserves each counter's stock.
pub proof fn lemma_clear_matches_frame(w: PlaceWork, ms: Seq<Match>, k: int, placed_idx: int)
    requires
        forall|j: int| 0 <= j < ms.len() ==> match_wf(#[trigger] ms[j]),
        w.tiles.len() == NUM_TILES,
        k <= ms.len(),
    ensures
        clear_matches_prefix(w, ms, k, placed_idx).tiles.len() == NUM_TILES,
        forall|i: int|
            0 <= i < NUM_TILES ==> (#[trigger] clear_matches_prefix(
                w,
                ms,
                k,
                placed_idx,
            ).tiles[i]).x == w.tiles[i].x && clear_matches_prefix(w, ms, k, placed_idx).tiles[i].y
                == w.tiles[i].y,
        forall|t: PieceType| #[trigger]
            work_stock(clear_matches_prefix(w, ms, k, placed_idx), t) <= work_stock(w, t),
    decreases k,
{
    if k > 0 {
        lemma_clear_matches_frame(w, ms, k - 1, placed_idx);
        lemma_match_indices_in_range(ms[k - 1]);
        lemma_clear_prefix_frame(
            clear_matches_prefix(w, ms, k - 1, placed_idx),
            match_indices(ms[k - 1]),
            match_indices(ms[k - 1]).len() as int,
            placed_idx,
        );
    }
}

/// The board and counters right after the placed piece is written and its
/// counter decremented, before matches are cleared.
pub open spec fn initial_place_work(pre: GameState, placed_idx: int, pt: PieceType) -> PlaceWork {
    PlaceWork {
        tiles: pre.tiles@.update(
            placed_idx,
            Tile {
                x: pre.tiles@[placed_idx].x,
                y: pre.tiles@[placed_idx].y,
                piece: Piece::Friendly(pt),
            },
        ),
        num_swordsmen: pre.num_swordsmen - if pt == PieceType::Swordsman {
            1int
        } else {
            0int
        },
        num_hounds: pre.num_hounds - if pt == PieceType::Hound {
            1int
        } else {
            0int
        },
        num_bowmen: pre.num_bowmen - if pt == PieceType::Bowman {
            1int
        } else {
            0int
        },
        also_destroy: false,
        despawns: Seq::empty(),
    }
}

/// The final board, counters and despawn effects of a placement: the piece
/// is written, the whole board is scanned once, and every reported match is
/// cleared in discovery order.
pub open spec fn placement_result(pre: GameState, x: int, y: int, pt: PieceType) -> PlaceWork {
    let placed_idx = spec_tile_to_idx(x, y);
    let w0 = initial_place_work(pre, placed_idx, pt);
    let ms = board_matches(w0.tiles);
    clear_matches_prefix(w0, ms, ms.len() as int, placed_idx)
}

/// What a successful placement does to the state, and the effect list it
/// emits: first the spawn for the placed tile (marked for destruction if the
/// placement completed a match over it), then the despawns of the other
/// matched tiles in discovery order, and last — exactly when no enemy piece
/// remains — the game-over notice saying whether a further level exists.
pub open spec fn placed(
    pre: GameState,
    post: GameState,
    e: GameEvent,
    x: int,
    y: int,
    pt: PieceType,
    effects: Seq<SideEffect>,
) -> bool {
    let placed_idx = spec_tile_to_idx(x, y);
    let w = placement_result(pre, x, y, pt);
    &&& post.tiles@ == w.tiles
    &&& post.num_swordsmen == w.num_swordsmen
    &&& post.num_hounds == w.num_hounds
    &&& post.num_bowmen == w.num_bowmen
    &&& post.level_message@ == pre.level_message@
    &&& post.current_level == pre.current_level
    &&& post.rng_seed@ == pre.rng_seed@
    &&& post.rng == pre.rng
    &&& post.events@ == pre.events@.push(e)
    &&& effects == seq![
        SideEffect::SpawnAtTile {
            idx: placed_idx as usize,
            piece_type: pt,
            is_player_owned: true,
            also_destroy: w.also_destroy,
        },
    ] + w.despawns + (if enemy_total(w.tiles) == 0 {
        seq![SideEffect::GameOver { load_another: pre.current_level + 1 < NUM_LEVELS }]
    } else {
        Seq::<SideEffect>::empty()
    })
}

/// What seeding does: only the generator (and its recorded seed) changes,
/// and the event is logged.
pub open spec fn seeded(pre: GameState, post: GameState, seed: u64) -> bool {
    &&& post.tiles@ == pre.tiles@
    &&& post.num_swordsmen == pre.num_swordsmen
    &&& post.num_hounds == pre.num_hounds
    &&& post.num_bowmen == pre.num_bowmen
    &&& post.level_message@ == pre.level_message@
    &&& post.current_level == pre.current_level
    &&& post.rng_seed@ == seed
    &&& post.events@ == pre.events@.push(GameEvent::SeedRng { seed })
}

/// What entering a level does (for `LoadLevel` and `NextLevel`): the level
/// is loaded — its seed applied and logged, its counts, narrative and tiles
/// installed — the level index is recorded, the triggering event is logged,
/// and a full respawn is requested. A level text that does not parse
/// installs nothing, but the index and log still advance.
pub open spec fn level_entered(
    pre: GameState,
    post: GameState,
    id: int,
    e: GameEvent,
    effects: Seq<SideEffect>,
) -> bool {
    &&& match spec_parse_level(level_seq(id)) {
        Some(ld) => {
            &&& post.tiles@.len() == pre.tiles@.len()
            &&& forall|i: int|
                0 <= i < pre.tiles@.len() ==> #[trigger] post.tiles@[i] == (Tile {
                    x: pre.tiles@[i].x,
                    y: pre.tiles@[i].y,
                    piece: ld.pieces[i],
                })
            &&& post.num_bowmen == ld.num_bowmen
            &&& post.num_hounds == ld.num_hounds
            &&& post.num_swordsmen == ld.num_swordsmen
            &&& post.level_message@ == ld.intro
            &&& post.rng_seed@ == ld.seed
            &&& post.events@ == pre.events@.push(GameEvent::SeedRng { seed: ld.seed }).push(e)
        },
        None => {
            &&& post.tiles@ == pre.tiles@
            &&& post.num_bowmen == pre.num_bowmen
            &&& post.num_hounds == pre.num_hounds
            &&& post.num_swordsmen == pre.num_swordsmen
            &&& post.level_message@ == pre.level_message@
            &&& post.rng_seed@ == pre.rng_seed@
            &&& post.rng == pre.rng
            &&& post.events@ == pre.events@.push(e)
        },
    }
    &&& post.current_level == id
    &&& effects == seq![SideEffect::FullRespawnTiles]
}

/// What a reset does. Once the campaign is complete — no further level
/// exists — the event log is cleared and level 0 is reloaded from scratch,
/// with the game-over condition lifted; otherwise the current level is
/// reloaded and the reset is logged.
pub open spec fn reset_done(
    pre: GameState,
    post: GameState,
    effects: Seq<SideEffect>,
) -> bool {
    if pre.current_level + 1 >= NUM_LEVELS {
        &&& match spec_parse_level(level_seq(0)) {
            Some(ld) => {
                &&& post.tiles@.len() == pre.tiles@.len()
                &&& forall|i: int|
                    0 <= i < pre.tiles@.len() ==> #[trigger] post.tiles@[i] == (Tile {
                        x: pre.tiles@[i].x,
                        y: pre.tiles@[i].y,
                        piece: ld.pieces[i],
                    })
                &&& post.num_bowmen == ld.num_bowmen
                &&& post.num_hounds == ld.num_hounds
                &&& post.num_swordsmen == ld.num_swordsmen
                &&& post.level_message@ == ld.intro
                &&& post.rng_seed@ == ld.seed
                &&& post.events@ == seq![GameEvent::SeedRng { seed: ld.seed }]
            },
            None => {
                &&& post.tiles@ == pre.tiles@
                &&& post.num_bowmen == pre.num_bowmen
                &&& post.num_hounds == pre.num_hounds
                &&& post.num_swordsmen == pre.num_swordsmen
                &&& post.level_message@ == pre.level_message@
                &&& post.rng_seed@ == pre.rng_seed@
                &&& post.rng == pre.rng
                &&& post.events@ == Seq::<GameEvent>::empty()
            },
        }
        &&& post.current_level == 0
        &&& effects == seq![SideEffect::FullRespawnTiles, SideEffect::RemoveGameOverCondition]
    } else {
        &&& match spec_parse_level(level_seq(pre.current_level as int)) {
            Some(ld) => {
                &&& post.tiles@.len() == pre.tiles@.len()
                &&& forall|i: int|
                    0 <= i < pre.tiles@.len() ==> #[trigger] post.tiles@[i] == (Tile {
                        x: pre.tiles@[i].x,
                        y: pre.tiles@[i].y,
                        piece: ld.pieces[i],
                    })
                &&& post.num_bowmen == ld.num_bowmen
                &&& post.num_hounds == ld.num_hounds
                &&& post.num_swordsmen == ld.num_swordsmen
                &&& post.level_message@ == ld.intro
                &&& post.rng_seed@ == ld.seed
                &&& post.events@ == pre.events@.push(GameEvent::Reset).push(
                    GameEvent::SeedRng { seed: ld.seed },
                )
            },
            None => {
                &&& post.tiles@ == pre.tiles@
                &&& post.num_bowmen == pre.num_bowmen
                &&& post.num_hounds == pre.num_hounds
                &&& post.num_swordsmen == pre.num_swordsmen
                &&& post.level_message@ == pre.level_message@
                &&& post.rng_seed@ == pre.rng_seed@
                &&& post.rng == pre.rng
                &&& post.events@ == pre.events@.push(GameEvent::Reset)
            },
        }
        &&& post.current_level == pre.current_level
        &&& effects == seq![SideEffect::FullRespawnTiles]
    }
}

/// What applying an event does: a rejected event leaves the state untouched
/// and emits nothing; an accepted event acts as its kind prescribes.
pub open spec fn event_applied(
    pre: GameState,
    post: GameState,
    e: GameEvent,
    effects: Seq<SideEffect>,
) -> bool {
    match pre.spec_validate(e) {
        Err(_) => post == pre && effects == Seq::<SideEffect>::empty(),
        Ok(()) => match e {
            GameEvent::SeedRng { seed } => seeded(pre, post, seed) && effects == Seq::<
                SideEffect,
            >::empty(),
            GameEvent::PlacePlayerPiece { x, y, piece_type } => placed(
                pre,
                post,
                e,
                x as int,
                y as int,
                piece_type,
                effects,
            ),
            GameEvent::LoadLevel { level_id } => level_entered(
                pre,
                post,
                level_id as int,
                e,
                effects,
            ),
            GameEvent::NextLevel => level_entered(
                pre,
                post,
                pre.current_level + 1,
                e,
                effects,
            ),
            GameEvent::Reset => reset_done(pre, post, effects),
        },
    }
}

impl GameState {
    /// Applies one event: validates it, mutates the state on success, and
    /// returns the ordered side effects. A rejected event is dropped and the
    /// list is empty.
    #[verifier::loop_isolation(false)]
    pub fn apply_event(&mut self, game_event: GameEvent) -> (r: Vec<SideEffect>)
        requires
            old(self).wf(),
        ensures
            final (self).wf(),
            event_applied(*old(self), *final (self), game_event, r@),
    {
        match self.validate_event(&game_event) {
            Err(_) => Vec::new(),
            Ok(()) => match game_event {
                GameEvent::SeedRng { seed } => {
                    self.rng = rng_from_seed(seed);
                    self.rng_seed = Ghost(seed);
                    self.events.push(game_event);
                    Vec::new()
                },
                GameEvent::PlacePlayerPiece { x, y, piece_type } => {
                    self.apply_place(x, y, piece_type, game_event)
                },
                GameEvent::LoadLevel { level_id } => {
                    self.load_level(level_id);
                    self.current_level = level_id;
                    self.events.push(game_event);
                    let mut effects: Vec<SideEffect> = Vec::new();
                    effects.push(SideEffect::FullRespawnTiles);
                    proof {
                        assert(effects@ =~= seq![SideEffect::FullRespawnTiles]);
                    }
                    effects
                },
                GameEvent::NextLevel => {
                    let next = self.current_level + 1;
                    self.load_level(next);
                    self.current_level = next;
                    self.events.push(game_event);
                    let mut effects: Vec<SideEffect> = Vec::new();
                    effects.push(SideEffect::FullRespawnTiles);
                    proof {
                        assert(effects@ =~= seq![SideEffect::FullRespawnTiles]);
                    }
                    effects
                },
                GameEvent::Reset => {
                    if self.current_level + 1 >= NUM_LEVELS {
                        self.events.clear();
                        self.load_level(0);
                        self.current_level = 0;
                        proof {
                            if spec_parse_level(level_seq(0)) is Some {
                                let ld = spec_parse_level(level_seq(0)).unwrap();
                                assert(Seq::<GameEvent>::empty().push(
                                    GameEvent::SeedRng { seed: ld.seed },
                                ) =~= seq![GameEvent::SeedRng { seed: ld.seed }]);
                            }
                        }
                        let mut effects: Vec<SideEffect> = Vec::new();
                        effects.push(SideEffect::FullRespawnTiles);
                        effects.push(SideEffect::RemoveGameOverCondition);
                        proof {
                            assert(effects@ =~= seq![
                                SideEffect::FullRespawnTiles,
                                SideEffect::RemoveGameOverCondition,
                            ]);
                        }
                        effects
                    } else {
                        self.events.push(game_event);
                        let cur = self.current_level;
                        self.load_level(cur);
                        let mut effects: Vec<SideEffect> = Vec::new();
                        effects.push(SideEffect::FullRespawnTiles);
                        proof {
                            assert(effects@ =~= seq![SideEffect::FullRespawnTiles]);
                        }
                        effects
                    }
                },
            },
        }
    }

    /// Applies a validated placement: writes the piece, clears every match
    /// the detector reports (crediting captured enemy pieces), logs the
    /// event, and derives the effect list.
    #[verifier::loop_isolation(false)]
    #[verifier::rlimit(100)]
    fn apply_place(&mut self, x: usize, y: usize, piece_type: PieceType, game_event: GameEvent) -> (r:
        Vec<SideEffect>)
        requires
            old(self).wf(),
            game_event == (GameEvent::PlacePlayerPiece { x, y, piece_type }),
            old(self).spec_validate(game_event) is Ok,
        ensures
            final (self).wf(),
            placed(
                *old(self),
                *final (self),
                game_event,
                x as int,
                y as int,
                piece_type,
                r@,
            ),
    {
        proof {
            lemma_tile_idx_round_trip(x as int, y as int);
        }

        // Remove the placed piece from the player's stock.
        match piece_type {
            PieceType::Swordsman => {
                self.num_swordsmen -= 1;
            },
            PieceType::Hound => {
                self.num_hounds -= 1;
            },
            PieceType::Bowman => {
                self.num_bowmen -= 1;
            },
            PieceType::Wall => {},
        }

        // Place the piece.
        let placed_idx = tile_to_idx(x, y);
        let t = self.tiles[placed_idx];
        self.tiles.set(placed_idx, Tile { x: t.x, y: t.y, piece: Piece::Friendly(piece_type) });

        let ghost w0 = initial_place_work(*old(self), placed_idx as int, piece_type);
        proof {
            assert(self.tiles@ =~= w0.tiles);
            lemma_enemy_count_update(
                old(self).tiles@,
                placed_idx as int,
                Tile { x: t.x, y: t.y, piece: Piece::Friendly(piece_type) },
                PieceType::Swordsman,
            );
            lemma_enemy_count_update(
                old(self).tiles@,
                placed_idx as int,
                Tile { x: t.x, y: t.y, piece: Piece::Friendly(piece_type) },
                PieceType::Hound,
            );
            lemma_enemy_count_update(
                old(self).tiles@,
                placed_idx as int,
                Tile { x: t.x, y: t.y, piece: Piece::Friendly(piece_type) },
                PieceType::Bowman,
            );
            assert(work_stock(w0, PieceType::Swordsman) <= usize::MAX);
            assert(work_stock(w0, PieceType::Hound) <= usize::MAX);
            assert(work_stock(w0, PieceType::Bowman) <= usize::MAX);
        }

        // Find the matches and clear them.
        let matches = self.get_matches();
        let ghost ms = matches@;
        proof {
            lemma_board_matches_wf(w0.tiles);
        }

        let mut despawns: Vec<SideEffect> = Vec::new();
        let mut also_destroy = false;
        let mut mi: usize = 0;
        while mi < matches.len()
            invariant
                0 <= mi <= ms.len(),
                self.tiles@ == clear_matches_prefix(w0, ms, mi as int, placed_idx as int).tiles,
                self.num_swordsmen as int == clear_matches_prefix(
                    w0,
                    ms,
                    mi as int,
                    placed_idx as int,
                ).num_swordsmen,
                self.num_hounds as int == clear_matches_prefix(
                    w0,
                    ms,
                    mi as int,
                    placed_idx as int,
                ).num_hounds,
                self.num_bowmen as int == clear_matches_prefix(
                    w0,
                    ms,
                    mi as int,
                    placed_idx as int,
                ).num_bowmen,
                also_destroy == clear_matches_prefix(
                    w0,
                    ms,
                    mi as int,
                    placed_idx as int,
                ).also_destroy,
                despawns@ == clear_matches_prefix(w0, ms, mi as int, placed_idx as int).despawns,
                self.level_message@ == old(self).level_message@,
                self.current_level == old(self).current_level,
                self.rng_seed@ == old(self).rng_seed@,
                self.rng == old(self).rng,
                self.events@ == old(self).events@,
            decreases ms.len() - mi,
        {
            let m = matches[mi];
            proof {
                assert(match_wf(ms[mi as int]));
                lemma_match_indices_in_range(m);
                lemma_clear_matches_frame(w0, ms, mi as int, placed_idx as int);
            }
            let ghost base_w = clear_matches_prefix(w0, ms, mi as int, placed_idx as int);
            let ghost idxs = match_indices(m);
            let len = match_len(&m);
            let mut k: usize = 0;
            while k < len
                invariant
                    0 <= k <= len,
                    len as int == idxs.len(),
                    self.tiles@ == clear_prefix(base_w, idxs, k as int, placed_idx as int).tiles,
                    self.num_swordsmen as int == clear_prefix(
                        base_w,
                        idxs,
                        k as int,
                        placed_idx as int,
                    ).num_swordsmen,
                    self.num_hounds as int == clear_prefix(
                        base_w,
                        idxs,
                        k as int,
                        placed_idx as int,
                    ).num_hounds,
                    self.num_bowmen as int == clear_prefix(
                        base_w,
                        idxs,
                        k as int,
                        placed_idx as int,
                    ).num_bowmen,
                    also_destroy == clear_prefix(
                        base_w,
                        idxs,
                        k as int,
                        placed_idx as int,
                    ).also_destroy,
                    despawns@ == clear_prefix(base_w, idxs, k as int, placed_idx as int).despawns,
                    self.level_message@ == old(self).level_message@,
                    self.current_level == old(self).current_level,
                    self.rng_seed@ == old(self).rng_seed@,
                    self.rng == old(self).rng,
                    self.events@ == old(self).events@,
                decreases len - k,
            {
                let ghost cur = clear_prefix(base_w, idxs, k as int, placed_idx as int);
                proof {
                    lemma_clear_prefix_frame(base_w, idxs, k as int, placed_idx as int);
                }
                let idx = match_index(&m, k);
                if idx == placed_idx {
                    also_destroy = true;
                } else {
                    despawns.push(
                        SideEffect::DespawnAtTile {
                            idx,
                            delay_ms: DEFAULT_DESPAWN_DELAY_MS,
                        },
                    );
                }
                let cleared = self.tiles[idx];
                match cleared.piece {
                    Piece::Enemy(captured) => {
                        proof {
                            lemma_enemy_count_at_least_one(self.tiles@, idx as int, captured);
                            assert(work_stock(cur, captured) <= work_stock(w0, captured));
                        }
                        match captured {
                            PieceType::Swordsman => {
                                self.num_swordsmen += 1;
                            },
                            PieceType::Hound => {
                                self.num_hounds += 1;
                            },
                            PieceType::Bowman => {
                                self.num_bowmen += 1;
                            },
                            PieceType::Wall => {},
                        }
                    },
                    _ => {},
                }
                self.tiles.set(idx, Tile { x: cleared.x, y: cleared.y, piece: Piece::Empty });
                proof {
                    assert(self.tiles@ =~= clear_tile(cur, idx as int, placed_idx as int).tiles);
                }
                k += 1;
            }
            mi += 1;
        }
        let ghost w = placement_result(*old(self), x as int, y as int, piece_type);
        proof {
            assert(w == clear_matches_prefix(w0, ms, ms.len() as int, placed_idx as int));
            lemma_clear_matches_frame(w0, ms, ms.len() as int, placed_idx as int);
            assert(work_stock(w, PieceType::Swordsman) <= work_stock(w0, PieceType::Swordsman));
            assert(work_stock(w, PieceType::Hound) <= work_stock(w0, PieceType::Hound));
            assert(work_stock(w, PieceType::Bowman) <= work_stock(w0, PieceType::Bowman));
            assert(self.num_swordsmen + enemy_count(self.tiles@, PieceType::Swordsman)
                <= usize::MAX);
            assert(self.num_hounds + enemy_count(self.tiles@, PieceType::Hound) <= usize::MAX);
            assert(self.num_bowmen + enemy_count(self.tiles@, PieceType::Bowman) <= usize::MAX);
            assert forall|i: int|
                0 <= i < NUM_TILES implies (#[trigger] self.tiles@[i]).x == spec_idx_to_x(i)
                && self.tiles@[i].y == spec_idx_to_y(i) by {
                assert(w0.tiles[i].x == old(self).tiles@[i].x && w0.tiles[i].y == old(
                    self,
                ).tiles@[i].y);
            }
        }

        self.events.push(game_event);

        let mut result: Vec<SideEffect> = Vec::new();
        result.push(
            SideEffect::SpawnAtTile {
                idx: placed_idx,
                piece_type,
                is_player_owned: true,
                also_destroy,
            },
        );
        let ghost spawn = result@;
        result.append(&mut despawns);
        if self.is_level_over() {
            result.push(
                SideEffect::GameOver {
                    load_another: self.current_level + 1 < NUM_LEVELS,
                },
            );
            proof {
                assert(result@ =~= spawn + w.despawns + seq![
                    SideEffect::GameOver { load_another: old(self).current_level + 1 < NUM_LEVELS },
                ]);
            }
        } else {
            proof {
                assert(result@ =~= spawn + w.despawns + Seq::<SideEffect>::empty());
            }
        }
        result
    }
}

/// A reset issued once the campaign is complete clears the event log and
/// reproduces the first level exactly — its seed, its counts and its tile
/// layout — whatever state the board and log were in before.
pub proof fn lemma_terminal_reset_restores_first_level(
    pre: GameState,
    post: GameState,
    effects: Seq<SideEffect>,
)
    requires
        pre.wf(),
        pre.current_level + 1 >= NUM_LEVELS,
        reset_done(pre, post, effects),
        spec_parse_level(level_seq(0)) is Some,
    ensures
        ({
            let ld = spec_parse_level(level_seq(0)).unwrap();
            &&& post.current_level == 0
            &&& post.events@ == seq![GameEvent::SeedRng { seed: ld.seed }]
            &&& post.rng_seed@ == ld.seed
            &&& post.num_bowmen == ld.num_bowmen
            &&& post.num_hounds == ld.num_hounds
            &&& post.num_swordsmen == ld.num_swordsmen
            &&& post.level_message@ == ld.intro
            &&& post.tiles@ =~= Seq::new(
                NUM_TILES as nat,
                |i: int| Tile {
                    x: spec_idx_to_x(i) as usize,
                    y: spec_idx_to_y(i) as usize,
                    piece: spec_parse_level(level_seq(0)).unwrap().pieces[i],
                },
            )
        }),
{
}

/// The capture economy never mints pieces: across a successful placement,
/// each resource counter plus the enemy pieces of its type still on the
/// board does not increase. A credit always coincides with a captured enemy
/// piece leaving the board, and the placed piece itself is paid out of its
/// own counter.
pub proof fn lemma_placement_conserves_stock(
    pre: GameState,
    post: GameState,
    e: GameEvent,
    x: int,
    y: int,
    pt: PieceType,
    effects: Seq<SideEffect>,
    t: PieceType,
)
    requires
        pre.wf(),
        in_bounds(x, y),
        placed(pre, post, e, x, y, pt, effects),
    ensures
        post.spec_capacity(t) + enemy_count(post.tiles@, t) <= pre.spec_capacity(t) + enemy_count(
            pre.tiles@,
            t,
        ),
{
    let placed_idx = spec_tile_to_idx(x, y);
    lemma_tile_idx_round_trip(x, y);
    let w0 = initial_place_work(pre, placed_idx, pt);
    let ms = board_matches(w0.tiles);
    let w = placement_result(pre, x, y, pt);
    lemma_enemy_count_update(
        pre.tiles@,
        placed_idx,
        Tile {
            x: pre.tiles@[placed_idx].x,
            y: pre.tiles@[placed_idx].y,
            piece: Piece::Friendly(pt),
        },
        t,
    );
    lemma_board_matches_wf(w0.tiles);
    lemma_clear_matches_frame(w0, ms, ms.len() as int, placed_idx);
    assert(work_stock(w, t) <= work_stock(w0, t));
}

} // verus!
