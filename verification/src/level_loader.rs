//! Level definitions, the level text parser, and the loader that installs a
//! parsed level into the game state.
//!
//! A level is a small line-oriented text: a free-text narrative line, a
//! decimal generator seed, three comma-separated resource counts (for
//! Bowman, Hound and Swordsman pieces, in that order), and then 64
//! comma-separated cell codes in row-major order. The texts compiled into
//! the engine are trusted build-time data: a text that does not parse loads
//! nothing.

use vstd::prelude::*;
use vstd::string::StrSliceExecFns;

use crate::rng::rng_from_seed;
use crate::state::{
    enemy_count, lemma_enemy_count_le_len, GameState, Piece, PieceType, Tile,
};
use crate::text::{parse_u64, spec_parse_u64, split_chars, split_on, str_to_chars};
use crate::text::lemma_split_first_prefix;
use crate::event::GameEvent;
use crate::NUM_TILES;

verus! {

/// Number of levels compiled into the engine.
pub const NUM_LEVELS: usize = 5;

pub const LEVEL_TEXT_0: &'static str = "A quiet courtyard. Three of a kind clears the board.\n4242\n2,6,2\n0,0,0,0,0,0,0,0\n0,0,0,0,0,0,0,0\n0,0,11,11,0,0,0,0\n0,0,0,0,0,0,0,0\n0,0,0,0,0,0,0,0\n0,0,0,0,0,0,0,0\n0,0,0,0,0,0,0,0\n0,0,0,0,0,0,0,0";

pub const LEVEL_TEXT_1: &'static str = "The rampart. Walls block both placements and matches.\n777\n3,3,6\n0,0,0,0,0,0,0,0\n0,99,99,0,0,12,0,0\n0,0,0,0,0,12,0,0\n0,0,12,0,0,0,0,0\n0,0,12,0,0,0,0,0\n0,0,0,0,99,0,0,0\n0,0,0,0,0,0,0,0\n0,0,0,0,0,0,0,0";

pub const LEVEL_TEXT_2: &'static str = "The kennels. A stray hound of yours is already inside.\n31337\n2,8,2\n00,00,00,00,00,00,00,00\n00,11,00,00,00,00,11,00\n00,11,00,01,00,00,11,00\n00,00,00,00,00,00,00,00\n00,00,99,00,00,99,00,00\n00,00,00,11,11,00,00,00\n00,00,00,00,00,00,00,00\n00,00,00,00,00,00,00,00";

pub const LEVEL_TEXT_3: &'static str = "The archery range. Bowmen match along columns best.\n9001\n8,2,2\n0,0,0,13,0,0,0,0\n0,0,0,13,0,0,0,0\n0,0,0,0,0,0,13,0\n0,0,3,0,0,0,13,0\n0,0,0,0,0,0,0,0\n0,13,0,0,0,99,0,0\n0,13,0,0,0,0,0,0\n0,0,0,0,0,0,0,0";

pub const LEVEL_TEXT_4: &'static str = "The keep. Clear every foe to finish the campaign.\n860\n4,4,4\n0,0,0,0,0,0,0,0\n0,11,0,0,99,0,13,0\n0,11,0,0,0,0,13,0\n0,0,0,12,0,0,0,0\n0,0,0,12,0,0,0,0\n0,99,0,0,0,11,0,0\n0,2,0,0,0,11,0,0\n0,0,0,0,0,0,0,0";

/// The text of the level with the given id.
pub open spec fn level_seq(id: int) -> Seq<char> {
    if id == 0 {
        LEVEL_TEXT_0@
    } else if id == 1 {
        LEVEL_TEXT_1@
    } else if id == 2 {
        LEVEL_TEXT_2@
    } else if id == 3 {
        LEVEL_TEXT_3@
    } else {
        LEVEL_TEXT_4@
    }
}

/// Returns the compiled-in text of the level with the given id.
pub fn level_text(level_id: usize) -> (r: &'static str)
    requires
        level_id < NUM_LEVELS,
    ensures
        r@ == level_seq(level_id as int),
{
    match level_id {
        0 => LEVEL_TEXT_0,
        1 => LEVEL_TEXT_1,
        2 => LEVEL_TEXT_2,
        3 => LEVEL_TEXT_3,
        _ => LEVEL_TEXT_4,
    }
}

/// A parsed level: the generator seed, the narrative line, the initial
/// resource counts, and the 64 board pieces in row-major order.
pub struct LevelData {
    /// Narrative text shown when the level starts.
    pub intro: String,
    /// Seed for the pseudo-random generator.
    pub seed: u64,
    /// Initial count of placeable Bowman pieces.
    pub num_bowmen: usize,
    /// Initial count of placeable Hound pieces.
    pub num_hounds: usize,
    /// Initial count of placeable Swordsman pieces.
    pub num_swordsmen: usize,
    /// The 64 board pieces, row-major.
    pub pieces: Vec<Piece>,
}

/// The mathematical model of a parsed level.
pub struct LevelModel {
    pub intro: Seq<char>,
    pub seed: u64,
    pub num_bowmen: usize,
    pub num_hounds: usize,
    pub num_swordsmen: usize,
    pub pieces: Seq<Piece>,
}

impl View for LevelData {
    type V = LevelModel;

    open spec fn view(&self) -> LevelModel {
        LevelModel {
            intro: self.intro@,
            seed: self.seed,
            num_bowmen: self.num_bowmen,
            num_hounds: self.num_hounds,
            num_swordsmen: self.num_swordsmen,
            pieces: self.pieces@,
        }
    }
}

/// The piece a cell code stands for: "0"/"00" an empty cell, "1"/"01",
/// "2"/"02", "3"/"03" a friendly Hound, Swordsman or Bowman, "11", "12",
/// "13" the enemy counterparts, "99" a wall; anything else is an error.
pub open spec fn spec_piece_of_code(t: Seq<char>) -> Option<Piece> {
    if t.len() == 1 {
        spec_piece_of_digit(t[0], false)
    } else if t.len() == 2 && t[0] == '0' {
        spec_piece_of_digit(t[1], false)
    } else if t.len() == 2 && t[0] == '1' {
        spec_piece_of_digit(t[1], true)
    } else if t.len() == 2 && t[0] == '9' && t[1] == '9' {
        Some(Piece::Obstacle(PieceType::Wall))
    } else {
        None
    }
}

/// The piece a single code digit stands for, on the friendly or the enemy
/// side; '0' on the enemy side is no code ("10" is not in the vocabulary).
pub open spec fn spec_piece_of_digit(c: char, enemy: bool) -> Option<Piece> {
    if c == '0' && !enemy {
        Some(Piece::Empty)
    } else if c == '1' && enemy {
        Some(Piece::Enemy(PieceType::Hound))
    } else if c == '1' {
        Some(Piece::Friendly(PieceType::Hound))
    } else if c == '2' && enemy {
        Some(Piece::Enemy(PieceType::Swordsman))
    } else if c == '2' {
        Some(Piece::Friendly(PieceType::Swordsman))
    } else if c == '3' && enemy {
        Some(Piece::Enemy(PieceType::Bowman))
    } else if c == '3' {
        Some(Piece::Friendly(PieceType::Bowman))
    } else {
        None
    }
}

/// The cell tokens of all board lines from line `i` on: each line split at
/// commas, in line order.
pub open spec fn cells_tokens(lines: Seq<Seq<char>>, i: int) -> Seq<Seq<char>>
    decreases lines.len() - i,
{
    if i < 0 || i >= lines.len() {
        Seq::empty()
    } else {
        split_on(lines[i], ',') + cells_tokens(lines, i + 1)
    }
}

/// The pieces the given cell tokens stand for; any unknown code spoils the
/// whole list.
pub open spec fn pieces_of(tokens: Seq<Seq<char>>) -> Option<Seq<Piece>>
    decreases tokens.len(),
{
    if tokens.len() == 0 {
        Some(Seq::empty())
    } else {
        match spec_piece_of_code(tokens[0]) {
            None => None,
            Some(p) => match pieces_of(tokens.skip(1)) {
                None => None,
                Some(ps) => Some(seq![p] + ps),
            },
        }
    }
}

/// A resource count: a decimal that also leaves room for every piece the
/// 64-tile board could ever credit back, so counters cannot overflow.
pub open spec fn spec_parse_count(t: Seq<char>) -> Option<usize> {
    match spec_parse_u64(t) {
        None => None,
        Some(v) => if v <= usize::MAX - 64 {
            Some(v as usize)
        } else {
            None
        },
    }
}

/// The parse of a whole level text. Defined exactly when the text has an
/// intro line, a seed line, a line of exactly three counts, and board lines
/// whose cell codes are all known and number exactly 64.
pub open spec fn spec_parse_level(s: Seq<char>) -> Option<LevelModel> {
    let lines = split_on(s, '\n');
    if lines.len() < 3 {
        None
    } else {
        let counts = split_on(lines[2], ',');
        match (spec_parse_u64(lines[1]), pieces_of(cells_tokens(lines, 3))) {
            (Some(seed), Some(ps)) => {
                match (
                    spec_parse_count(counts[0]),
                    spec_parse_count(counts[1]),
                    spec_parse_count(counts[2]),
                ) {
                    (Some(b), Some(h), Some(sw)) => {
                        if counts.len() == 3 && ps.len() == NUM_TILES {
                            Some(
                                LevelModel {
                                    intro: lines[0],
                                    seed,
                                    num_bowmen: b,
                                    num_hounds: h,
                                    num_swordsmen: sw,
                                    pieces: ps,
                                },
                            )
                        } else {
                            None
                        }
                    },
                    _ => None,
                }
            },
            _ => None,
        }
    }
}

/// Maps one cell code to its piece.
fn piece_of_code(t: &Vec<char>) -> (r: Option<Piece>)
    ensures
        r == spec_piece_of_code(t@),
{
    if t.len() == 1 {
        piece_of_digit(t[0], false)
    } else if t.len() == 2 {
        let c0 = t[0];
        let c1 = t[1];
        if c0 == '0' {
            piece_of_digit(c1, false)
        } else if c0 == '1' {
            piece_of_digit(c1, true)
        } else if c0 == '9' && c1 == '9' {
            Some(Piece::Obstacle(PieceType::Wall))
        } else {
            None
        }
    } else {
        None
    }
}

/// Maps one code digit to its piece.
fn piece_of_digit(c: char, enemy: bool) -> (r: Option<Piece>)
    ensures
        r == spec_piece_of_digit(c, enemy),
{
    if c == '0' && !enemy {
        Some(Piece::Empty)
    } else if c == '1' && enemy {
        Some(Piece::Enemy(PieceType::Hound))
    } else if c == '1' {
        Some(Piece::Friendly(PieceType::Hound))
    } else if c == '2' && enemy {
        Some(Piece::Enemy(PieceType::Swordsman))
    } else if c == '2' {
        Some(Piece::Friendly(PieceType::Swordsman))
    } else if c == '3' && enemy {
        Some(Piece::Enemy(PieceType::Bowman))
    } else if c == '3' {
        Some(Piece::Friendly(PieceType::Bowman))
    } else {
        None
    }
}

/// Parses one count token.
fn parse_count(t: &Vec<char>) -> (r: Option<usize>)
    ensures
        r == spec_parse_count(t@),
{
    match parse_u64(t) {
        None => None,
        Some(v) => {
            if v <= (usize::MAX - 64) as u64 {
                Some(v as usize)
            } else {
                None
            }
        },
    }
}

/// The pieces of a token list split in two are the pieces of the two halves
/// in order, and fail exactly when either half fails.
proof fn lemma_pieces_of_concat(a: Seq<Seq<char>>, b: Seq<Seq<char>>)
    ensures
        pieces_of(a + b) == match (pieces_of(a), pieces_of(b)) {
            (Some(x), Some(y)) => Some(x + y),
            _ => None::<Seq<Piece>>,
        },
    decreases a.len(),
{
    if a.len() == 0 {
        assert(a + b =~= b);
        if pieces_of(b) is Some {
            assert(Seq::<Piece>::empty() + pieces_of(b).unwrap() =~= pieces_of(b).unwrap());
        }
    } else {
        assert((a + b).len() > 0);
        assert((a + b)[0] == a[0]);
        assert((a + b).skip(1) =~= a.skip(1) + b);
        lemma_pieces_of_concat(a.skip(1), b);
        if pieces_of(a) is Some && pieces_of(b) is Some {
            let p = spec_piece_of_code(a[0]).unwrap();
            let x = pieces_of(a.skip(1)).unwrap();
            let y = pieces_of(b).unwrap();
            assert(seq![p] + (x + y) =~= (seq![p] + x) + y);
        }
    }
}

/// Parses a level text. Returns the parsed level exactly when the text is
/// well-formed: an intro line, a decimal seed, three resource counts, and
/// exactly 64 known cell codes on the remaining lines.
#[verifier::loop_isolation(false)]
pub fn parse_level_file(data: &str) -> (r: Option<LevelData>)
    ensures
        r is Some == spec_parse_level(data@) is Some,
        r matches Some(ld) ==> ld@ == spec_parse_level(data@).unwrap(),
{
    let chars = str_to_chars(data);
    let lines = split_chars(&chars, '\n');
    let ghost lines_s = split_on(data@, '\n');

    if lines.len() < 3 {
        return None;
    }

    // Intro: the first line is a prefix of the text.
    let n0 = lines[0].len();
    proof {
        lemma_split_first_prefix(data@, '\n');
        assert(data@.subrange(0, n0 as int) =~= data@.take(n0 as int));
    }
    let intro = data.substring_char(0, n0).to_owned();

    let seed = match parse_u64(&lines[1]) {
        Some(s) => s,
        None => {
            return None;
        },
    };

    let count_tokens = split_chars(&lines[2], ',');
    if count_tokens.len() != 3 {
        return None;
    }
    let num_bowmen = match parse_count(&count_tokens[0]) {
        Some(v) => v,
        None => {
            return None;
        },
    };
    let num_hounds = match parse_count(&count_tokens[1]) {
        Some(v) => v,
        None => {
            return None;
        },
    };
    let num_swordsmen = match parse_count(&count_tokens[2]) {
        Some(v) => v,
        None => {
            return None;
        },
    };

    // Board cells: split every remaining line at commas and map each token.
    let ghost target = pieces_of(cells_tokens(lines_s, 3));
    let mut pieces: Vec<Piece> = Vec::new();
    let mut li: usize = 3;
    while li < lines.len()
        invariant
            3 <= li <= lines@.len(),
            lines@.len() == lines_s.len(),
            forall|k: int| 0 <= k < lines@.len() ==> (#[trigger] lines@[k])@ == lines_s[k],
            target == pieces_of(cells_tokens(lines_s, 3)),
            target == match pieces_of(cells_tokens(lines_s, li as int)) {
                Some(rest) => Some(pieces@ + rest),
                None => None::<Seq<Piece>>,
            },
        decreases lines@.len() - li,
    {
        let tokens = split_chars(&lines[li], ',');
        let ghost tokens_s = split_on(lines_s[li as int], ',');
        let ghost next = cells_tokens(lines_s, li as int + 1);
        proof {
            assert(cells_tokens(lines_s, li as int) == tokens_s + next);
            assert(tokens_s.skip(0) =~= tokens_s);
        }
        let mut ti: usize = 0;
        while ti < tokens.len()
            invariant
                0 <= ti <= tokens@.len(),
                tokens@.len() == tokens_s.len(),
                forall|k: int| 0 <= k < tokens@.len() ==> (#[trigger] tokens@[k])@ == tokens_s[k],
                target == match pieces_of(tokens_s.skip(ti as int) + next) {
                    Some(rest) => Some(pieces@ + rest),
                    None => None::<Seq<Piece>>,
                },
            decreases tokens@.len() - ti,
        {
            let ghost cur_rem = tokens_s.skip(ti as int) + next;
            proof {
                assert(cur_rem.len() > 0);
                assert(cur_rem[0] == tokens_s[ti as int]);
                assert(cur_rem.skip(1) =~= tokens_s.skip(ti as int + 1) + next);
            }
            let p = match piece_of_code(&tokens[ti]) {
                Some(p) => p,
                None => {
                    return None;
                },
            };
            proof {
                let x = pieces_of(cur_rem.skip(1));
                if x is Some {
                    assert(pieces@ + (seq![p] + x.unwrap()) =~= pieces@.push(p) + x.unwrap());
                }
            }
            pieces.push(p);
            ti += 1;
        }
        proof {
            assert(tokens_s.skip(tokens_s.len() as int) =~= Seq::<Seq<char>>::empty());
            assert(Seq::<Seq<char>>::empty() + next =~= next);
            assert(cells_tokens(lines_s, li as int + 1) == next);
        }
        li += 1;
    }
    proof {
        assert(cells_tokens(lines_s, lines_s.len() as int) =~= Seq::<Seq<char>>::empty());
        assert(pieces@ + Seq::<Piece>::empty() =~= pieces@);
    }

    if pieces.len() != NUM_TILES {
        return None;
    }

    Some(
        LevelData {
            intro,
            seed,
            num_bowmen,
            num_hounds,
            num_swordsmen,
            pieces,
        },
    )
}

/// What a successful load installs: the parsed level's pieces on the board
/// (coordinates untouched), its counts and narrative, the generator reseeded
/// with its seed, and that seeding appended to the event log. The current
/// level index is the caller's to set. A text that does not parse loads
/// nothing.
pub open spec fn level_loaded(pre: GameState, post: GameState, id: int) -> bool {
    match spec_parse_level(level_seq(id)) {
        Some(ld) => {
            &&& post.tiles@.len() == pre.tiles@.len()
            &&& forall|i: int|
                0 <= i < pre.tiles@.len() ==> #[trigger] post.tiles@[i] == (Tile {
                    x: pre.tiles@[i].x,
                    y: pre.tiles@[i].y,
                    piece: ld.pieces[i],
                })
            &&& post.num_bowmen == ld.num_bowmen
            &&& post.num_hounds == ld.num_hounds
            &&& post.num_swordsmen == ld.num_swordsmen
            &&& post.level_message@ == ld.intro
            &&& post.rng_seed@ == ld.seed
            &&& post.events@ == pre.events@.push(GameEvent::SeedRng { seed: ld.seed })
            &&& post.current_level == pre.current_level
        },
        None => post == pre,
    }
}

/// Installs a level into the game state.
pub trait StateLevelLoader {
    /// Whether the state is fit to receive a level.
    spec fn loader_wf(&self) -> bool;

    /// Loads the level with the given id; an id at or past [`NUM_LEVELS`] is
    /// ignored.
    fn load_level(&mut self, level_id: usize)
        requires
            old(self).loader_wf(),
        ensures
            final (self).loader_wf(),
    ;
}

impl StateLevelLoader for GameState {
    open spec fn loader_wf(&self) -> bool {
        self.wf()
    }

    /// Loads a compiled-in level: reseeds the generator from the level's
    /// seed (recording that in the event log), then overwrites the resource
    /// counters, the narrative text and all 64 tile pieces. A level id at or
    /// past [`NUM_LEVELS`] is ignored, as is a level text that does not
    /// parse.
    fn load_level(&mut self, level_id: usize)
        ensures
            final (self).wf(),
            level_id >= NUM_LEVELS ==> *final (self) == *old(self),
            level_id < NUM_LEVELS ==> level_loaded(*old(self), *final (self), level_id as int),
    {
        if level_id >= NUM_LEVELS {
            return ;
        }
        let text = level_text(level_id);
        let ld = match parse_level_file(text) {
            Some(ld) => ld,
            None => {
                return ;
            },
        };
        let ghost model = spec_parse_level(level_seq(level_id as int)).unwrap();
        proof {
            assert(model.num_bowmen <= usize::MAX - 64);
            assert(model.num_hounds <= usize::MAX - 64);
            assert(model.num_swordsmen <= usize::MAX - 64);
            assert(model.pieces.len() == NUM_TILES);
        }

        self.rng = rng_from_seed(ld.seed);
        self.rng_seed = Ghost(ld.seed);
        self.events.push(GameEvent::SeedRng { seed: ld.seed });

        self.num_bowmen = ld.num_bowmen;
        self.num_hounds = ld.num_hounds;
        self.num_swordsmen = ld.num_swordsmen;
        self.level_message = ld.intro;

        let ghost pre_tiles = self.tiles@;
        let mut i: usize = 0;
        while i < NUM_TILES
            invariant
                0 <= i <= NUM_TILES,
                old(self).wf(),
                pre_tiles == old(self).tiles@,
                self.tiles@.len() == NUM_TILES,
                pre_tiles.len() == NUM_TILES,
                ld.pieces@.len() == NUM_TILES,
                ld.pieces@ == model.pieces,
                spec_parse_level(level_seq(level_id as int)) == Some(model),
                level_id < NUM_LEVELS,
                self.num_bowmen == model.num_bowmen,
                self.num_hounds == model.num_hounds,
                self.num_swordsmen == model.num_swordsmen,
                self.level_message@ == model.intro,
                self.rng_seed@ == model.seed,
                self.events@ == old(self).events@.push(GameEvent::SeedRng { seed: model.seed }),
                self.current_level == old(self).current_level,
                forall|j: int|
                    0 <= j < i ==> #[trigger] self.tiles@[j] == (Tile {
                        x: pre_tiles[j].x,
                        y: pre_tiles[j].y,
                        piece: model.pieces[j],
                    }),
                forall|j: int| i <= j < NUM_TILES ==> #[trigger] self.tiles@[j] == pre_tiles[j],
            decreases NUM_TILES - i,
        {
            let t = self.tiles[i];
            self.tiles.set(i, Tile { x: t.x, y: t.y, piece: ld.pieces[i] });
            i += 1;
        }

        proof {
            lemma_enemy_count_le_len(self.tiles@, PieceType::Swordsman);
            lemma_enemy_count_le_len(self.tiles@, PieceType::Hound);
            lemma_enemy_count_le_len(self.tiles@, PieceType::Bowman);
        }
    }
}

} // verus!
