use grid_match::matching::Match;
use grid_match::state::{GameState, Piece, PieceType};

#[test]
fn test_matches_horizontal_at_any_index() {
    let mut state = GameState::default();
    state.tiles[1].piece = Piece::Friendly(PieceType::Swordsman);
    state.tiles[2].piece = Piece::Friendly(PieceType::Swordsman);
    state.tiles[3].piece = Piece::Friendly(PieceType::Swordsman);
    assert_eq!(
        state.get_matches(),
        vec![Match::Horizontal {
            start_idx: 1,
            length: 3
        }]
    );
}

#[test]
fn test_matches_horizontal_more_than_3() {
    let mut state = GameState::default();
    state.tiles[1].piece = Piece::Friendly(PieceType::Swordsman);
    state.tiles[2].piece = Piece::Friendly(PieceType::Swordsman);
    state.tiles[3].piece = Piece::Friendly(PieceType::Swordsman);
    state.tiles[4].piece = Piece::Friendly(PieceType::Swordsman);
    state.tiles[5].piece = Piece::Friendly(PieceType::Swordsman);
    assert_eq!(
        state.get_matches(),
        vec![Match::Horizontal {
            start_idx: 1,
            length: 5
        }]
    );
}

#[test]
fn test_matches_horizontal_at_the_end_of_the_grid() {
    let mut state = GameState::default();
    state.tiles[60].piece = Piece::Friendly(PieceType::Swordsman);
    state.tiles[61].piece = Piece::Friendly(PieceType::Swordsman);
    state.tiles[62].piece = Piece::Friendly(PieceType::Swordsman);
    state.tiles[63].piece = Piece::Friendly(PieceType::Swordsman);

    assert_eq!(
        state.get_matches(),
        vec![Match::Horizontal {
            start_idx: 60,
            length: 4
        }]
    );
}

#[test]
fn test_matches_vertical_at_the_end_of_the_grid() {
    let mut state = GameState::default();
    state.tiles[39].piece = Piece::Friendly(PieceType::Swordsman);
    state.tiles[47].piece = Piece::Friendly(PieceType::Swordsman);
    state.tiles[55].piece = Piece::Friendly(PieceType::Swordsman);
    state.tiles[63].piece = Piece::Friendly(PieceType::Swordsman);

    assert_eq!(
        state.get_matches(),
        vec![Match::Vertical {
            start_idx: 39,
            length: 4
        }]
    );
}

#[test]
fn test_doesnt_match_horizontal_over_row_boundary() {
    let mut state = GameState::default();
    state.tiles[6].piece = Piece::Friendly(PieceType::Swordsman);
    state.tiles[7].piece = Piece::Friendly(PieceType::Swordsman);
    state.tiles[8].piece = Piece::Friendly(PieceType::Swordsman);
    assert_eq!(state.get_matches(), vec![]);
}

#[test]
fn test_matches_horizontal_at_row_start() {
    let mut state = GameState::default();
    state.tiles[8].piece = Piece::Friendly(PieceType::Swordsman);
    state.tiles[9].piece = Piece::Friendly(PieceType::Swordsman);
    state.tiles[10].piece = Piece::Friendly(PieceType::Swordsman);
    assert_eq!(
        state.get_matches(),
        vec![Match::Horizontal {
            start_idx: 8,
            length: 3
        }]
    );
}

#[test]
fn test_matches_horizontal_at_row_end() {
    let mut state = GameState::default();
    for idx in 5..=7 {
        state.tiles[idx].piece = Piece::Friendly(PieceType::Hound);
    }
    assert_eq!(
        state.get_matches(),
        vec![Match::Horizontal {
            start_idx: 5,
            length: 3
        }]
    );
}

#[test]
fn test_multiple_horizontal_matches() {
    let mut state = GameState::default();
    for idx in 4..=10 {
        state.tiles[idx].piece = Piece::Friendly(PieceType::Bowman);
    }

    assert_eq!(
        state.get_matches(),
        vec![
            Match::Horizontal {
                start_idx: 4,
                length: 4
            },
            Match::Horizontal {
                start_idx: 8,
                length: 3
            }
        ]
    );
}

#[test]
fn test_multiple_horizontal_and_vertical_matches() {
    let mut state = GameState::default();
    for idx in [4, 5, 6, 13, 21] {
        state.tiles[idx].piece = Piece::Friendly(PieceType::Bowman);
    }

    assert_eq!(
        state.get_matches(),
        vec![
            Match::Horizontal {
                start_idx: 4,
                length: 3
            },
            Match::Vertical {
                start_idx: 5,
                length: 3
            }
        ]
    );
}

#[test]
fn test_matches_vertical_at_any_index() {
    let mut state = GameState::default();
    state.tiles[17].piece = Piece::Friendly(PieceType::Swordsman);
    state.tiles[25].piece = Piece::Friendly(PieceType::Swordsman);
    state.tiles[33].piece = Piece::Friendly(PieceType::Swordsman);
    assert_eq!(
        state.get_matches(),
        vec![Match::Vertical {
            start_idx: 17,
            length: 3
        }]
    );
}

#[test]
fn test_matches_vertical_more_than_3() {
    let mut state = GameState::default();
    state.tiles[9].piece = Piece::Friendly(PieceType::Swordsman);
    state.tiles[17].piece = Piece::Friendly(PieceType::Swordsman);
    state.tiles[25].piece = Piece::Friendly(PieceType::Swordsman);
    state.tiles[33].piece = Piece::Friendly(PieceType::Swordsman);
    state.tiles[41].piece = Piece::Friendly(PieceType::Swordsman);

    assert_eq!(
        state.get_matches(),
        vec![Match::Vertical {
            start_idx: 9,
            length: 5
        }]
    );
}

#[test]
fn test_doesnt_match_vertical_over_column_boundary() {
    let mut state = GameState::default();
    state.tiles[52].piece = Piece::Friendly(PieceType::Swordsman);
    state.tiles[60].piece = Piece::Friendly(PieceType::Swordsman);
    state.tiles[61].piece = Piece::Friendly(PieceType::Swordsman);
    assert_eq!(state.get_matches(), vec![]);

    let mut state = GameState::default();
    state.tiles[48].piece = Piece::Friendly(PieceType::Swordsman);
    state.tiles[56].piece = Piece::Friendly(PieceType::Swordsman);
    state.tiles[1].piece = Piece::Friendly(PieceType::Swordsman);
    assert_eq!(state.get_matches(), vec![]);
}

#[test]
fn test_matches_vertical_at_col_start() {
    let mut state = GameState::default();
    state.tiles[1].piece = Piece::Friendly(PieceType::Swordsman);
    state.tiles[9].piece = Piece::Friendly(PieceType::Swordsman);
    state.tiles[17].piece = Piece::Friendly(PieceType::Swordsman);
    assert_eq!(
        state.get_matches(),
        vec![Match::Vertical {
            start_idx: 1,
            length: 3
        }]
    );
}

#[test]
fn test_matches_vertical_at_col_end() {
    let mut state = GameState::default();
    for idx in [46, 54, 62] {
        state.tiles[idx].piece = Piece::Friendly(PieceType::Hound);
    }
    assert_eq!(
        state.get_matches(),
        vec![Match::Vertical {
            start_idx: 46,
            length: 3
        }]
    );
}

#[test]
fn test_multiple_vertical_matches() {
    let mut state = GameState::default();
    for idx in [22, 30, 38, 46, 17, 25, 33] {
        state.tiles[idx].piece = Piece::Friendly(PieceType::Bowman);
    }

    assert_eq!(
        state.get_matches(),
        vec![
            Match::Vertical {
                start_idx: 17,
                length: 3
            },
            Match::Vertical {
                start_idx: 22,
                length: 4
            }
        ]
    );
}
