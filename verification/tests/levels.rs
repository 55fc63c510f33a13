use grid_match::level_loader::{level_text, parse_level_file, LevelData, NUM_LEVELS};
use grid_match::state::{Piece, PieceType};

fn parsed(id: usize) -> LevelData {
    parse_level_file(level_text(id)).expect("compiled-in level must parse")
}

#[test]
fn test_every_compiled_level_parses() {
    for id in 0..NUM_LEVELS {
        assert!(parse_level_file(level_text(id)).is_some());
    }
}

#[test]
fn test_level_0_contents() {
    let ld = parsed(0);
    assert_eq!(ld.seed, 4242);
    assert_eq!(
        ld.intro.as_str(),
        "A quiet courtyard. Three of a kind clears the board."
    );
    assert_eq!(ld.num_bowmen, 2);
    assert_eq!(ld.num_hounds, 6);
    assert_eq!(ld.num_swordsmen, 2);
    assert_eq!(ld.pieces.len(), 64);
    for (i, p) in ld.pieces.iter().enumerate() {
        if i == 18 || i == 19 {
            assert!(matches!(p, Piece::Enemy(PieceType::Hound)));
        } else {
            assert!(matches!(p, Piece::Empty));
        }
    }
}

#[test]
fn test_level_vocabulary_covers_all_codes() {
    // Walls and two-digit codes.
    let rampart = parsed(1);
    assert!(matches!(rampart.pieces[9], Piece::Obstacle(PieceType::Wall)));
    assert!(matches!(rampart.pieces[13], Piece::Enemy(PieceType::Swordsman)));

    let kennels = parsed(2);
    assert!(matches!(kennels.pieces[9], Piece::Enemy(PieceType::Hound)));
    assert!(matches!(kennels.pieces[19], Piece::Friendly(PieceType::Hound)));
    assert!(matches!(kennels.pieces[34], Piece::Obstacle(PieceType::Wall)));

    let range = parsed(3);
    assert!(matches!(range.pieces[3], Piece::Enemy(PieceType::Bowman)));
    assert!(matches!(range.pieces[26], Piece::Friendly(PieceType::Bowman)));

    let keep = parsed(4);
    assert!(matches!(keep.pieces[49], Piece::Friendly(PieceType::Swordsman)));
}

fn cells(rows: usize, code: &str) -> String {
    let row = vec![code; 8].join(",");
    vec![row; rows].join("\n")
}

#[test]
fn test_parse_accepts_minimal_level() {
    let text = format!("\n0\n1,2,3\n{}", cells(8, "0"));
    let ld = parse_level_file(&text).expect("well-formed text");
    assert_eq!(ld.intro.as_str(), "");
    assert_eq!(ld.seed, 0);
    assert_eq!(ld.num_bowmen, 1);
    assert_eq!(ld.num_hounds, 2);
    assert_eq!(ld.num_swordsmen, 3);
    assert!(ld.pieces.iter().all(|p| matches!(p, Piece::Empty)));
}

#[test]
fn test_parse_rejects_bad_seed() {
    let text = format!("intro\nnot-a-number\n1,2,3\n{}", cells(8, "0"));
    assert!(parse_level_file(&text).is_none());
    let text = format!("intro\n\n1,2,3\n{}", cells(8, "0"));
    assert!(parse_level_file(&text).is_none());
    // One past u64::MAX.
    let text = format!("intro\n18446744073709551616\n1,2,3\n{}", cells(8, "0"));
    assert!(parse_level_file(&text).is_none());
}

#[test]
fn test_parse_accepts_max_seed() {
    let text = format!("intro\n18446744073709551615\n1,2,3\n{}", cells(8, "0"));
    let ld = parse_level_file(&text).expect("u64::MAX seed fits");
    assert_eq!(ld.seed, u64::MAX);
}

#[test]
fn test_parse_rejects_wrong_count_of_counts() {
    let text = format!("intro\n1\n1,2\n{}", cells(8, "0"));
    assert!(parse_level_file(&text).is_none());
    let text = format!("intro\n1\n1,2,3,4\n{}", cells(8, "0"));
    assert!(parse_level_file(&text).is_none());
}

#[test]
fn test_parse_rejects_unknown_cell_code() {
    let text = format!("intro\n1\n1,2,3\n7,0,0,0,0,0,0,0\n{}", cells(7, "0"));
    assert!(parse_level_file(&text).is_none());
    let text = format!("intro\n1\n1,2,3\n10,0,0,0,0,0,0,0\n{}", cells(7, "0"));
    assert!(parse_level_file(&text).is_none());
}

#[test]
fn test_parse_rejects_wrong_cell_count() {
    let text = format!("intro\n1\n1,2,3\n{}", cells(7, "0"));
    assert!(parse_level_file(&text).is_none());
    let text = format!("intro\n1\n1,2,3\n{}", cells(9, "0"));
    assert!(parse_level_file(&text).is_none());
    let text = String::from("intro\n1\n1,2,3");
    assert!(parse_level_file(&text).is_none());
}
