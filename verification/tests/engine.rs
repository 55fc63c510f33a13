use grid_match::event::GameEvent;
use grid_match::event_handler::EventError;
use grid_match::matching::Match;
use grid_match::side_effects::{SideEffect, DEFAULT_DESPAWN_DELAY_MS};
use grid_match::state::{GameState, Piece, PieceType};
use grid_match::utils::{idx_to_tile, tile_to_idx};

#[test]
fn test_idx_round_trip_on_every_tile() {
    for idx in 0..64 {
        let (x, y) = idx_to_tile(idx);
        assert!(x < 8 && y < 8);
        assert_eq!(tile_to_idx(x, y), idx);
    }
}

#[test]
fn test_sentinel_coordinates_round_trip() {
    assert_eq!(tile_to_idx(usize::MAX, 3), usize::MAX);
    assert_eq!(tile_to_idx(3, usize::MAX), usize::MAX);
    assert_eq!(idx_to_tile(usize::MAX), (usize::MAX, usize::MAX));
}

#[test]
fn test_toggle_cycles_through_placeable_types() {
    assert_eq!(PieceType::Swordsman.toggle(), PieceType::Hound);
    assert_eq!(PieceType::Hound.toggle(), PieceType::Bowman);
    assert_eq!(PieceType::Bowman.toggle(), PieceType::Swordsman);
    assert_eq!(PieceType::Wall.toggle(), PieceType::Wall);
}

#[test]
fn test_default_state_is_blank() {
    let state = GameState::default();
    assert_eq!(state.tiles.len(), 64);
    for (i, tile) in state.tiles.iter().enumerate() {
        assert_eq!(tile.x, i % 8);
        assert_eq!(tile.y, i / 8);
        assert!(matches!(tile.piece, Piece::Empty));
    }
    assert_eq!(state.num_swordsmen, 0);
    assert_eq!(state.num_hounds, 0);
    assert_eq!(state.num_bowmen, 0);
    assert_eq!(state.current_level, 0);
    assert_eq!(state.level_message, String::new());
    assert_eq!(state.events.len(), 1);
    assert!(matches!(state.events[0], GameEvent::SeedRng { .. }));
}

#[test]
fn test_tile_idx_method() {
    let state = GameState::default();
    assert_eq!(state.tiles[27].idx(), 27);
    assert_eq!(state.tiles[0].idx(), 0);
    assert_eq!(state.tiles[63].idx(), 63);
}

#[test]
fn test_placing_on_occupied_tile_rejected_despite_capacity() {
    let mut state = GameState::default();
    state.num_swordsmen = 10;
    state.tiles[10].piece = Piece::Friendly(PieceType::Hound);
    let event = GameEvent::PlacePlayerPiece {
        x: 2,
        y: 1,
        piece_type: PieceType::Swordsman,
    };
    assert_eq!(state.validate_event(&event), Err(EventError::InvalidPlacement));
    let effects = state.apply_event(event);
    assert!(effects.is_empty());
    assert_eq!(state.num_swordsmen, 10);
    assert!(matches!(state.tiles[10].piece, Piece::Friendly(PieceType::Hound)));
    assert_eq!(state.events.len(), 1);
}

#[test]
fn test_placing_on_obstacle_rejected() {
    let mut state = GameState::default();
    state.num_hounds = 1;
    state.tiles[0].piece = Piece::Obstacle(PieceType::Wall);
    let event = GameEvent::PlacePlayerPiece {
        x: 0,
        y: 0,
        piece_type: PieceType::Hound,
    };
    assert_eq!(state.validate_event(&event), Err(EventError::InvalidPlacement));
    assert!(state.apply_event(event).is_empty());
}

#[test]
fn test_placing_off_board_rejected() {
    let mut state = GameState::default();
    state.num_hounds = 1;
    let event = GameEvent::PlacePlayerPiece {
        x: 8,
        y: 0,
        piece_type: PieceType::Hound,
    };
    assert_eq!(state.validate_event(&event), Err(EventError::InvalidPlacement));
    let sentinel = GameEvent::PlacePlayerPiece {
        x: usize::MAX,
        y: usize::MAX,
        piece_type: PieceType::Hound,
    };
    assert_eq!(state.validate_event(&sentinel), Err(EventError::InvalidPlacement));
}

#[test]
fn test_placing_without_capacity_rejected_despite_valid_tile() {
    let mut state = GameState::default();
    let event = GameEvent::PlacePlayerPiece {
        x: 2,
        y: 2,
        piece_type: PieceType::Bowman,
    };
    assert_eq!(
        state.validate_event(&event),
        Err(EventError::InsufficientCapacity)
    );
    let effects = state.apply_event(event);
    assert!(effects.is_empty());
    assert!(matches!(state.tiles[18].piece, Piece::Empty));
}

#[test]
fn test_wall_can_never_be_placed() {
    let mut state = GameState::default();
    state.num_swordsmen = 5;
    state.num_hounds = 5;
    state.num_bowmen = 5;
    let event = GameEvent::PlacePlayerPiece {
        x: 0,
        y: 0,
        piece_type: PieceType::Wall,
    };
    assert_eq!(
        state.validate_event(&event),
        Err(EventError::InsufficientCapacity)
    );
}

#[test]
fn test_empty_board_has_no_matches() {
    let state = GameState::default();
    assert_eq!(state.get_matches(), vec![]);
}

#[test]
fn test_three_friendly_pieces_in_a_row_match() {
    let mut state = GameState::default();
    for idx in [4, 5, 6] {
        state.tiles[idx].piece = Piece::Friendly(PieceType::Hound);
    }
    assert_eq!(
        state.get_matches(),
        vec![Match::Horizontal {
            start_idx: 4,
            length: 3
        }]
    );
}

#[test]
fn test_five_pieces_down_one_column_match() {
    let mut state = GameState::default();
    for idx in [9, 17, 25, 33, 41] {
        state.tiles[idx].piece = Piece::Friendly(PieceType::Bowman);
    }
    assert_eq!(
        state.get_matches(),
        vec![Match::Vertical {
            start_idx: 9,
            length: 5
        }]
    );
}

#[test]
fn test_friendly_and_enemy_pieces_of_one_type_match_together() {
    let mut state = GameState::default();
    state.tiles[40].piece = Piece::Enemy(PieceType::Swordsman);
    state.tiles[41].piece = Piece::Friendly(PieceType::Swordsman);
    state.tiles[42].piece = Piece::Enemy(PieceType::Swordsman);
    assert_eq!(
        state.get_matches(),
        vec![Match::Horizontal {
            start_idx: 40,
            length: 3
        }]
    );
}

#[test]
fn test_obstacles_break_runs() {
    let mut state = GameState::default();
    state.tiles[1].piece = Piece::Friendly(PieceType::Hound);
    state.tiles[2].piece = Piece::Obstacle(PieceType::Wall);
    state.tiles[3].piece = Piece::Friendly(PieceType::Hound);
    state.tiles[4].piece = Piece::Friendly(PieceType::Hound);
    assert_eq!(state.get_matches(), vec![]);
}

#[test]
fn test_capture_credits_souls_and_orders_effects() {
    let mut state = GameState::default();
    state.num_hounds = 1;
    state.tiles[4].piece = Piece::Enemy(PieceType::Hound);
    state.tiles[5].piece = Piece::Enemy(PieceType::Hound);

    let effects = state.apply_event(GameEvent::PlacePlayerPiece {
        x: 6,
        y: 0,
        piece_type: PieceType::Hound,
    });

    // The placed tile completed the match, so the spawn itself is marked for
    // destruction; the two enemy tiles each get a despawn, in scan order.
    assert_eq!(effects.len(), 4);
    assert_eq!(
        effects[0],
        SideEffect::SpawnAtTile {
            idx: 6,
            piece_type: PieceType::Hound,
            is_player_owned: true,
            also_destroy: true,
        }
    );
    assert_eq!(
        effects[1],
        SideEffect::DespawnAtTile {
            idx: 4,
            delay_ms: DEFAULT_DESPAWN_DELAY_MS
        }
    );
    assert_eq!(
        effects[2],
        SideEffect::DespawnAtTile {
            idx: 5,
            delay_ms: DEFAULT_DESPAWN_DELAY_MS
        }
    );
    // Those were the last enemies, and a further level exists.
    assert_eq!(effects[3], SideEffect::GameOver { load_another: true });

    // One hound was paid for the placement and two enemy hounds were
    // captured: the counter rose by exactly two over the paid-up state.
    assert_eq!(state.num_hounds, 2);
    for idx in [4, 5, 6] {
        assert!(matches!(state.tiles[idx].piece, Piece::Empty));
    }
}

#[test]
fn test_placement_without_match_keeps_piece() {
    let mut state = GameState::default();
    state.num_swordsmen = 2;
    let effects = state.apply_event(GameEvent::PlacePlayerPiece {
        x: 3,
        y: 3,
        piece_type: PieceType::Swordsman,
    });
    assert_eq!(effects.len(), 2);
    assert_eq!(
        effects[0],
        SideEffect::SpawnAtTile {
            idx: 27,
            piece_type: PieceType::Swordsman,
            is_player_owned: true,
            also_destroy: false,
        }
    );
    // An empty board holds no enemies, so the placement also wins the level.
    assert_eq!(effects[1], SideEffect::GameOver { load_another: true });
    assert!(matches!(
        state.tiles[27].piece,
        Piece::Friendly(PieceType::Swordsman)
    ));
    assert_eq!(state.num_swordsmen, 1);
}

#[test]
fn test_overlapping_matches_credit_each_capture_once() {
    // A row run (16,17,18) and a column run (2,10,18) share tile 18. Both
    // are cleared when any placement triggers a scan: the shared tile gets a
    // despawn from each match, but only one capture credit, because it is
    // already empty when the second match reaches it.
    let mut state = GameState::default();
    for idx in [16, 17, 18, 2, 10] {
        state.tiles[idx].piece = Piece::Enemy(PieceType::Hound);
    }
    state.num_swordsmen = 1;

    let effects = state.apply_event(GameEvent::PlacePlayerPiece {
        x: 7,
        y: 7,
        piece_type: PieceType::Swordsman,
    });

    let despawn = |idx: usize| SideEffect::DespawnAtTile {
        idx,
        delay_ms: DEFAULT_DESPAWN_DELAY_MS,
    };
    assert_eq!(
        effects,
        vec![
            SideEffect::SpawnAtTile {
                idx: 63,
                piece_type: PieceType::Swordsman,
                is_player_owned: true,
                also_destroy: false,
            },
            // The horizontal match first, then the vertical one; tile 18
            // appears in both.
            despawn(16),
            despawn(17),
            despawn(18),
            despawn(2),
            despawn(10),
            despawn(18),
            SideEffect::GameOver { load_another: true },
        ]
    );
    // Five enemy hounds were captured; the shared tile was credited once.
    assert_eq!(state.num_hounds, 5);
    assert!(matches!(
        state.tiles[63].piece,
        Piece::Friendly(PieceType::Swordsman)
    ));
}

#[test]
fn test_placement_with_enemies_left_emits_spawn_only() {
    let mut state = GameState::default();
    state.num_bowmen = 1;
    state.tiles[0].piece = Piece::Enemy(PieceType::Swordsman);
    let effects = state.apply_event(GameEvent::PlacePlayerPiece {
        x: 5,
        y: 5,
        piece_type: PieceType::Bowman,
    });
    assert_eq!(
        effects,
        vec![SideEffect::SpawnAtTile {
            idx: 45,
            piece_type: PieceType::Bowman,
            is_player_owned: true,
            also_destroy: false,
        }]
    );
}

#[test]
fn test_seed_rng_is_logged_and_emits_nothing() {
    let mut state = GameState::default();
    let effects = state.apply_event(GameEvent::SeedRng { seed: 99 });
    assert!(effects.is_empty());
    assert_eq!(state.events.len(), 2);
    assert_eq!(state.events[1], GameEvent::SeedRng { seed: 99 });
}

#[test]
fn test_invalid_level_id_rejected() {
    let mut state = GameState::default();
    let event = GameEvent::LoadLevel { level_id: 7 };
    assert_eq!(state.validate_event(&event), Err(EventError::InvalidLevelId));
    let effects = state.apply_event(event);
    assert!(effects.is_empty());
    assert_eq!(state.current_level, 0);
    assert_eq!(state.events.len(), 1);
}

#[test]
fn test_next_level_advances_until_the_last() {
    let mut state = GameState::default();
    let effects = state.apply_event(GameEvent::LoadLevel { level_id: 0 });
    assert_eq!(effects, vec![SideEffect::FullRespawnTiles]);
    assert_eq!(state.current_level, 0);

    let effects = state.apply_event(GameEvent::NextLevel);
    assert_eq!(effects, vec![SideEffect::FullRespawnTiles]);
    assert_eq!(state.current_level, 1);
}

#[test]
fn test_next_level_rejected_at_the_last_level() {
    let mut state = GameState::default();
    state.apply_event(GameEvent::LoadLevel { level_id: 4 });
    assert_eq!(
        state.validate_event(&GameEvent::NextLevel),
        Err(EventError::NoNextLevel)
    );
    let effects = state.apply_event(GameEvent::NextLevel);
    assert!(effects.is_empty());
    assert_eq!(state.current_level, 4);
}

#[test]
fn test_reset_mid_campaign_reloads_current_level() {
    let mut state = GameState::default();
    state.apply_event(GameEvent::LoadLevel { level_id: 1 });
    let events_before = state.events.len();
    state.num_swordsmen = 0;
    state.tiles[0].piece = Piece::Friendly(PieceType::Hound);

    let effects = state.apply_event(GameEvent::Reset);
    assert_eq!(effects, vec![SideEffect::FullRespawnTiles]);
    assert_eq!(state.current_level, 1);
    // The rampart level grants 6 swordsmen and leaves tile 0 empty.
    assert_eq!(state.num_swordsmen, 6);
    assert!(matches!(state.tiles[0].piece, Piece::Empty));
    // The reset and the reseed both land in the log.
    assert_eq!(state.events.len(), events_before + 2);
}

#[test]
fn test_reset_after_campaign_restores_level_0_exactly() {
    let mut state = GameState::default();
    state.apply_event(GameEvent::LoadLevel { level_id: 4 });
    // Scramble the board state a little first.
    state.num_bowmen = 9;
    state.tiles[63].piece = Piece::Friendly(PieceType::Bowman);

    let effects = state.apply_event(GameEvent::Reset);
    assert_eq!(
        effects,
        vec![
            SideEffect::FullRespawnTiles,
            SideEffect::RemoveGameOverCondition
        ]
    );

    // The log was wiped: only level 0's reseed remains, with its original
    // seed; the counts and tiles are exactly level 0's.
    assert_eq!(state.events, vec![GameEvent::SeedRng { seed: 4242 }]);
    assert_eq!(state.current_level, 0);
    assert_eq!(state.num_bowmen, 2);
    assert_eq!(state.num_hounds, 6);
    assert_eq!(state.num_swordsmen, 2);
    assert_eq!(
        state.level_message.as_str(),
        "A quiet courtyard. Three of a kind clears the board."
    );
    for (i, tile) in state.tiles.iter().enumerate() {
        if i == 18 || i == 19 {
            assert!(matches!(tile.piece, Piece::Enemy(PieceType::Hound)));
        } else {
            assert!(matches!(tile.piece, Piece::Empty));
        }
    }

    // And it converges: a fresh load of level 0 gives the same board.
    let mut fresh = GameState::default();
    fresh.apply_event(GameEvent::LoadLevel { level_id: 0 });
    for i in 0..64 {
        assert_eq!(state.tiles[i], fresh.tiles[i]);
    }
    assert_eq!(state.num_bowmen, fresh.num_bowmen);
    assert_eq!(state.num_hounds, fresh.num_hounds);
    assert_eq!(state.num_swordsmen, fresh.num_swordsmen);
}

#[test]
fn test_count_red_cells_and_level_over() {
    let mut state = GameState::default();
    assert_eq!(state.count_red_cells(), 0);
    assert!(state.is_level_over());
    state.tiles[3].piece = Piece::Enemy(PieceType::Bowman);
    state.tiles[9].piece = Piece::Enemy(PieceType::Hound);
    state.tiles[12].piece = Piece::Friendly(PieceType::Hound);
    assert_eq!(state.count_red_cells(), 2);
    assert!(!state.is_level_over());
}

#[test]
fn test_has_capacity_per_type() {
    let mut state = GameState::default();
    state.num_hounds = 1;
    assert!(state.has_capacity(PieceType::Hound));
    assert!(!state.has_capacity(PieceType::Swordsman));
    assert!(!state.has_capacity(PieceType::Bowman));
    assert!(!state.has_capacity(PieceType::Wall));
}

#[test]
fn test_get_neighbours_by_piece_type() {
    let state = GameState::default();
    // The full 8-neighbourhood, clipped at the corner.
    assert_eq!(
        state.get_neighbours(0, 0, PieceType::Hound),
        vec![(1, 0), (0, 1), (1, 1)]
    );
    // Orthogonal neighbours only.
    assert_eq!(
        state.get_neighbours(3, 3, PieceType::Swordsman),
        vec![(3, 2), (2, 3), (4, 3), (3, 4)]
    );
    // Vertical neighbours only.
    assert_eq!(
        state.get_neighbours(3, 3, PieceType::Bowman),
        vec![(3, 2), (3, 4)]
    );
    // A wall has no neighbourhood, and neither has the sentinel.
    assert_eq!(state.get_neighbours(3, 3, PieceType::Wall), vec![]);
    assert_eq!(
        state.get_neighbours(usize::MAX, 3, PieceType::Hound),
        vec![]
    );
}

#[test]
fn test_is_valid_placement_position() {
    let mut state = GameState::default();
    assert!(state.is_valid_placement_position(4, 4));
    state.tiles[36].piece = Piece::Enemy(PieceType::Hound);
    assert!(!state.is_valid_placement_position(4, 4));
    assert!(!state.is_valid_placement_position(8, 0));
    assert!(!state.is_valid_placement_position(usize::MAX, usize::MAX));
}

#[test]
fn test_get_current_level_is_one_based() {
    let mut state = GameState::default();
    assert_eq!(state.get_current_level(), 1);
    state.apply_event(GameEvent::LoadLevel { level_id: 2 });
    assert_eq!(state.get_current_level(), 3);
}
