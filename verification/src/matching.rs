//! The match detector: scans every row and then every column of the board
//! for runs of at least three same-type pieces.
//!
//! Cells are classified by piece type only: empty cells and obstacles have no
//! type, and friendly and enemy pieces of one type are indistinguishable, so
//! a run may mix the two. Runs never wrap across a row or column boundary.

use vstd::arithmetic::div_mod::{lemma_mod_multiples_vanish, lemma_small_mod};
use vstd::prelude::*;

use crate::state::{GameState, Piece, PieceType, Tile};
use crate::{COLS, NUM_TILES, ROWS};

verus! {

/// A detected run of at least three same-type pieces, identified by the
/// linear index of its first tile and its length.
#[derive(Debug, Clone, Copy, PartialEq, Eq, Structural)]
pub enum Match {
    Horizontal { start_idx: usize, length: usize },
    Vertical { start_idx: usize, length: usize },
}

/// The piece type a cell contributes to a run: none for an empty cell or an
/// obstacle, the piece's type otherwise, whoever owns it.
pub open spec fn cell_type(p: Piece) -> Option<PieceType> {
    match p {
        Piece::Empty => None,
        Piece::Obstacle(_) => None,
        Piece::Friendly(t) => Some(t),
        Piece::Enemy(t) => Some(t),
    }
}

/// Row `y` of the board as a sequence of cell types, left to right.
pub open spec fn row_line(tiles: Seq<Tile>, y: int) -> Seq<Option<PieceType>> {
    Seq::new(COLS as nat, |x: int| cell_type(tiles[y * (COLS as int) + x].piece))
}

/// Column `x` of the board as a sequence of cell types, top to bottom.
pub open spec fn col_line(tiles: Seq<Tile>, x: int) -> Seq<Option<PieceType>> {
    Seq::new(ROWS as nat, |y: int| cell_type(tiles[x + y * (COLS as int)].piece))
}

/// The match reported for the run covering line positions [start, end) of a
/// line whose cells sit at board indices `base + stride * position`.
pub open spec fn run_match(horizontal: bool, base: int, stride: int, start: int, end: int) -> Match {
    if horizontal {
        Match::Horizontal {
            start_idx: (base + stride * start) as usize,
            length: (end - start) as usize,
        }
    } else {
        Match::Vertical {
            start_idx: (base + stride * start) as usize,
            length: (end - start) as usize,
        }
    }
}

/// Closes the run covering line positions [start, end): a match is reported
/// exactly when the run is at least three cells long and typed.
pub open spec fn emit_run(
    line: Seq<Option<PieceType>>,
    horizontal: bool,
    base: int,
    stride: int,
    start: int,
    end: int,
) -> Seq<Match> {
    if end - start >= 3 && line[start] is Some {
        seq![run_match(horizontal, base, stride, start, end)]
    } else {
        Seq::empty()
    }
}

/// The matches found in `line` from position `i` on, while a run that began
/// at position `start` is open: a cell of the same type as the run extends
/// it, anything else closes it and opens a new run.
pub open spec fn scan_line_from(
    line: Seq<Option<PieceType>>,
    horizontal: bool,
    base: int,
    stride: int,
    i: int,
    start: int,
) -> Seq<Match>
    decreases line.len() - i,
{
    if i >= line.len() {
        emit_run(line, horizontal, base, stride, start, i)
    } else if line[i] is Some && line[i] == line[start] {
        scan_line_from(line, horizontal, base, stride, i + 1, start)
    } else {
        emit_run(line, horizontal, base, stride, start, i) + scan_line_from(
            line,
            horizontal,
            base,
            stride,
            i + 1,
            i,
        )
    }
}

/// All matches found in one line of the board.
pub open spec fn line_matches(
    line: Seq<Option<PieceType>>,
    horizontal: bool,
    base: int,
    stride: int,
) -> Seq<Match> {
    if line.len() == 0 {
        Seq::empty()
    } else {
        scan_line_from(line, horizontal, base, stride, 1, 0)
    }
}

/// The horizontal matches of the first `y` rows, scanned row-major.
pub open spec fn rows_matches(tiles: Seq<Tile>, y: int) -> Seq<Match>
    decreases y,
{
    if y <= 0 {
        Seq::empty()
    } else {
        rows_matches(tiles, y - 1) + line_matches(
            row_line(tiles, y - 1),
            true,
            (y - 1) * (COLS as int),
            1,
        )
    }
}

/// The vertical matches of the first `x` columns, scanned column-major.
pub open spec fn cols_matches(tiles: Seq<Tile>, x: int) -> Seq<Match>
    decreases x,
{
    if x <= 0 {
        Seq::empty()
    } else {
        cols_matches(tiles, x - 1) + line_matches(col_line(tiles, x - 1), false, x - 1, COLS as int)
    }
}

/// Every match on the board: all horizontal matches (row-major), then all
/// vertical matches (column-major). Overlapping matches are not merged.
pub open spec fn board_matches(tiles: Seq<Tile>) -> Seq<Match> {
    rows_matches(tiles, ROWS as int) + cols_matches(tiles, COLS as int)
}

/// The board indices covered by a match: a contiguous range for a horizontal
/// match, a stride-`COLS` progression for a vertical one.
pub open spec fn match_indices(m: Match) -> Seq<int> {
    match m {
        Match::Horizontal { start_idx, length } => Seq::new(
            length as nat,
            |k: int| start_idx + k,
        ),
        Match::Vertical { start_idx, length } => Seq::new(
            length as nat,
            |k: int| start_idx + k * (COLS as int),
        ),
    }
}

/// Geometric well-formedness of a reported match: it is at least three tiles
/// long, lies on the board, and does not cross a row boundary (horizontal)
/// or the bottom edge (vertical).
pub open spec fn match_wf(m: Match) -> bool {
    match m {
        Match::Horizontal { start_idx, length } => {
            &&& 3 <= length <= COLS
            &&& start_idx as int % (COLS as int) + length <= COLS
            &&& start_idx + length <= NUM_TILES
        },
        Match::Vertical { start_idx, length } => {
            &&& 3 <= length <= ROWS
            &&& start_idx + (length - 1) * (COLS as int) < NUM_TILES
        },
    }
}

/// Every index covered by a well-formed match is a board index.
pub proof fn lemma_match_indices_in_range(m: Match)
    requires
        match_wf(m),
    ensures
        match_indices(m).len() >= 3,
        forall|k: int|
            0 <= k < match_indices(m).len() ==> 0 <= #[trigger] match_indices(m)[k] < NUM_TILES,
{
}

/// A run closed by `emit_run` under the row or column geometry yields only
/// well-formed matches.
proof fn lemma_emit_run_wf(
    line: Seq<Option<PieceType>>,
    horizontal: bool,
    base: int,
    stride: int,
    row: int,
    start: int,
    end: int,
)
    requires
        line.len() == COLS,
        0 <= start < end <= COLS,
        horizontal ==> stride == 1 && 0 <= row < ROWS && base == row * (COLS as int),
        !horizontal ==> stride == COLS && 0 <= base < COLS,
    ensures
        forall|j: int|
            0 <= j < emit_run(line, horizontal, base, stride, start, end).len() ==> match_wf(
                #[trigger] emit_run(line, horizontal, base, stride, start, end)[j],
            ),
{
    if end - start >= 3 && line[start] is Some {
        let m = run_match(horizontal, base, stride, start, end);
        if horizontal {
            let s = base + start;
            assert(s % (COLS as int) == start) by {
                lemma_mod_multiples_vanish(row, start, COLS as int);
                lemma_small_mod(start as nat, COLS as nat);
            }
            assert(match_wf(m));
        } else {
            assert(match_wf(m));
        }
    }
}

/// Scanning a line under the row or column geometry yields only well-formed
/// matches.
proof fn lemma_scan_line_wf(
    line: Seq<Option<PieceType>>,
    horizontal: bool,
    base: int,
    stride: int,
    row: int,
    i: int,
    start: int,
)
    requires
        line.len() == COLS,
        0 <= start < i <= COLS,
        horizontal ==> stride == 1 && 0 <= row < ROWS && base == row * (COLS as int),
        !horizontal ==> stride == COLS && 0 <= base < COLS,
    ensures
        forall|j: int|
            0 <= j < scan_line_from(line, horizontal, base, stride, i, start).len() ==> match_wf(
                #[trigger] scan_line_from(line, horizontal, base, stride, i, start)[j],
            ),
    decreases line.len() - i,
{
    let res = scan_line_from(line, horizontal, base, stride, i, start);
    if i >= line.len() {
        lemma_emit_run_wf(line, horizontal, base, stride, row, start, i);
        let a = emit_run(line, horizontal, base, stride, start, i);
        assert forall|j: int| 0 <= j < res.len() implies match_wf(#[trigger] res[j]) by {
            assert(res[j] == a[j]);
        }
    } else if line[i] is Some && line[i] == line[start] {
        lemma_scan_line_wf(line, horizontal, base, stride, row, i + 1, start);
        let a = scan_line_from(line, horizontal, base, stride, i + 1, start);
        assert forall|j: int| 0 <= j < res.len() implies match_wf(#[trigger] res[j]) by {
            assert(res[j] == a[j]);
        }
    } else {
        lemma_emit_run_wf(line, horizontal, base, stride, row, start, i);
        lemma_scan_line_wf(line, horizontal, base, stride, row, i + 1, i);
        let a = emit_run(line, horizontal, base, stride, start, i);
        let b = scan_line_from(line, horizontal, base, stride, i + 1, i);
        assert forall|j: int| 0 <= j < res.len() implies match_wf(#[trigger] res[j]) by {
            if j < a.len() {
                assert(res[j] == a[j]);
            } else {
                assert(res[j] == b[j - a.len()]);
            }
        }
    }
}

/// The horizontal matches of the first `y` rows are all well-formed.
proof fn lemma_rows_matches_wf(tiles: Seq<Tile>, y: int)
    requires
        0 <= y <= ROWS,
    ensures
        forall|j: int|
            0 <= j < rows_matches(tiles, y).len() ==> match_wf(
                #[trigger] rows_matches(tiles, y)[j],
            ),
    decreases y,
{
    if y > 0 {
        lemma_rows_matches_wf(tiles, y - 1);
        let prev = rows_matches(tiles, y - 1);
        let lm = line_matches(row_line(tiles, y - 1), true, (y - 1) * (COLS as int), 1);
        lemma_scan_line_wf(row_line(tiles, y - 1), true, (y - 1) * (COLS as int), 1, y - 1, 1, 0);
        assert forall|j: int| 0 <= j < rows_matches(tiles, y).len() implies match_wf(
            #[trigger] rows_matches(tiles, y)[j],
        ) by {
            if j < prev.len() {
                assert(rows_matches(tiles, y)[j] == prev[j]);
            } else {
                assert(rows_matches(tiles, y)[j] == lm[j - prev.len()]);
            }
        }
    }
}

/// The vertical matches of the first `x` columns are all well-formed.
proof fn lemma_cols_matches_wf(tiles: Seq<Tile>, x: int)
    requires
        0 <= x <= COLS,
    ensures
        forall|j: int|
            0 <= j < cols_matches(tiles, x).len() ==> match_wf(
                #[trigger] cols_matches(tiles, x)[j],
            ),
    decreases x,
{
    if x > 0 {
        lemma_cols_matches_wf(tiles, x - 1);
        let prev = cols_matches(tiles, x - 1);
        let lm = line_matches(col_line(tiles, x - 1), false, x - 1, COLS as int);
        lemma_scan_line_wf(col_line(tiles, x - 1), false, x - 1, COLS as int, 0, 1, 0);
        assert forall|j: int| 0 <= j < cols_matches(tiles, x).len() implies match_wf(
            #[trigger] cols_matches(tiles, x)[j],
        ) by {
            if j < prev.len() {
                assert(cols_matches(tiles, x)[j] == prev[j]);
            } else {
                assert(cols_matches(tiles, x)[j] == lm[j - prev.len()]);
            }
        }
    }
}

/// Every match the detector reports is well-formed: at least three tiles
/// long, on the board, and confined to a single row or column — in
/// particular no horizontal match crosses a row boundary and no vertical
/// match runs past the bottom edge.
pub proof fn lemma_board_matches_wf(tiles: Seq<Tile>)
    ensures
        forall|j: int|
            0 <= j < board_matches(tiles).len() ==> match_wf(#[trigger] board_matches(tiles)[j]),
{
    lemma_rows_matches_wf(tiles, ROWS as int);
    lemma_cols_matches_wf(tiles, COLS as int);
}

/// A line with no typed cell yields no match.
proof fn lemma_scan_line_none(
    line: Seq<Option<PieceType>>,
    horizontal: bool,
    base: int,
    stride: int,
    i: int,
    start: int,
)
    requires
        0 <= start < line.len(),
        0 <= i,
        forall|k: int| 0 <= k < line.len() ==> (#[trigger] line[k]) is None,
    ensures
        scan_line_from(line, horizontal, base, stride, i, start) =~= Seq::<Match>::empty(),
    decreases line.len() - i,
{
    if i >= line.len() {
    } else {
        lemma_scan_line_none(line, horizontal, base, stride, i + 1, i);
    }
}

/// An all-empty board has no matches.
pub proof fn lemma_no_matches_on_empty_board(tiles: Seq<Tile>)
    requires
        tiles.len() == NUM_TILES,
        forall|i: int| 0 <= i < tiles.len() ==> (#[trigger] tiles[i]).piece is Empty,
    ensures
        board_matches(tiles) =~= Seq::<Match>::empty(),
{
    assert forall|y: int| 0 <= y <= ROWS implies rows_matches(tiles, y) =~= Seq::<Match>::empty() by {
        lemma_rows_matches_empty(tiles, y);
    }
    assert forall|x: int| 0 <= x <= COLS implies cols_matches(tiles, x) =~= Seq::<Match>::empty() by {
        lemma_cols_matches_empty(tiles, x);
    }
}

proof fn lemma_rows_matches_empty(tiles: Seq<Tile>, y: int)
    requires
        tiles.len() == NUM_TILES,
        0 <= y <= ROWS,
        forall|i: int| 0 <= i < tiles.len() ==> (#[trigger] tiles[i]).piece is Empty,
    ensures
        rows_matches(tiles, y) =~= Seq::<Match>::empty(),
    decreases y,
{
    if y > 0 {
        lemma_rows_matches_empty(tiles, y - 1);
        let line = row_line(tiles, y - 1);
        assert(forall|k: int| 0 <= k < line.len() ==> (#[trigger] line[k]) is None);
        lemma_scan_line_none(line, true, (y - 1) * (COLS as int), 1, 1, 0);
    }
}

proof fn lemma_cols_matches_empty(tiles: Seq<Tile>, x: int)
    requires
        tiles.len() == NUM_TILES,
        0 <= x <= COLS,
        forall|i: int| 0 <= i < tiles.len() ==> (#[trigger] tiles[i]).piece is Empty,
    ensures
        cols_matches(tiles, x) =~= Seq::<Match>::empty(),
    decreases x,
{
    if x > 0 {
        lemma_cols_matches_empty(tiles, x - 1);
        let line = col_line(tiles, x - 1);
        assert(forall|k: int| 0 <= k < line.len() ==> (#[trigger] line[k]) is None);
        lemma_scan_line_none(line, false, x - 1, COLS as int, 1, 0);
    }
}

/// All cells covered by `m` hold a piece of one same type: each is typed
/// (no empty cell, no obstacle) and classifies like the first covered cell.
pub open spec fn match_covers_one_type(tiles: Seq<Tile>, m: Match) -> bool {
    forall|k: int|
        0 <= k < match_indices(m).len() ==> cell_type(
            tiles[#[trigger] match_indices(m)[k]].piece,
        ) is Some && cell_type(tiles[match_indices(m)[k]].piece) == cell_type(
            tiles[match_indices(m)[0]].piece,
        )
}

/// A run closed by `emit_run` covers only cells of one same type, provided
/// the open run was uniform and the line mirrors the board.
proof fn lemma_emit_run_sound(
    tiles: Seq<Tile>,
    line: Seq<Option<PieceType>>,
    horizontal: bool,
    base: int,
    stride: int,
    row: int,
    start: int,
    end: int,
)
    requires
        line.len() == COLS,
        0 <= start < end <= COLS,
        horizontal ==> stride == 1 && 0 <= row < ROWS && base == row * (COLS as int),
        !horizontal ==> stride == COLS && 0 <= base < COLS,
        forall|j: int|
            0 <= j < line.len() ==> #[trigger] line[j] == cell_type(
                tiles[base + stride * j].piece,
            ),
        forall|j: int| start <= j < end ==> #[trigger] line[j] == line[start],
    ensures
        forall|j: int|
            0 <= j < emit_run(line, horizontal, base, stride, start, end).len()
                ==> match_covers_one_type(
                tiles,
                #[trigger] emit_run(line, horizontal, base, stride, start, end)[j],
            ),
{
    if end - start >= 3 && line[start] is Some {
        let m = run_match(horizontal, base, stride, start, end);
        let s0 = base + stride * start;
        assert forall|k: int|
            0 <= k < match_indices(m).len() implies cell_type(
            tiles[#[trigger] match_indices(m)[k]].piece,
        ) is Some && cell_type(tiles[match_indices(m)[k]].piece) == cell_type(
            tiles[match_indices(m)[0]].piece,
        ) by {
            if horizontal {
                assert(stride * start == start) by (nonlinear_arith)
                    requires
                        stride == 1,
                ;
                assert(stride * (start + k) == start + k) by (nonlinear_arith)
                    requires
                        stride == 1,
                ;
            } else {
                assert(stride * start == 8 * start) by (nonlinear_arith)
                    requires
                        stride == 8,
                ;
                assert(stride * (start + k) == 8 * start + 8 * k) by (nonlinear_arith)
                    requires
                        stride == 8,
                ;
            }
            assert(0 <= s0 < NUM_TILES);
            assert(match_indices(m)[0] == s0);
            assert(match_indices(m)[k] == base + stride * (start + k));
            assert(line[start + k] == cell_type(tiles[base + stride * (start + k)].piece));
            assert(line[start + k] == line[start]);
            assert(line[start] == cell_type(tiles[base + stride * start].piece));
        }
    }
}

/// Scanning a line reports only runs whose cells all hold one same type.
proof fn lemma_scan_line_sound(
    tiles: Seq<Tile>,
    line: Seq<Option<PieceType>>,
    horizontal: bool,
    base: int,
    stride: int,
    row: int,
    i: int,
    start: int,
)
    requires
        line.len() == COLS,
        0 <= start < i <= COLS,
        horizontal ==> stride == 1 && 0 <= row < ROWS && base == row * (COLS as int),
        !horizontal ==> stride == COLS && 0 <= base < COLS,
        forall|j: int|
            0 <= j < line.len() ==> #[trigger] line[j] == cell_type(
                tiles[base + stride * j].piece,
            ),
        forall|j: int| start <= j < i ==> #[trigger] line[j] == line[start],
    ensures
        forall|j: int|
            0 <= j < scan_line_from(line, horizontal, base, stride, i, start).len()
                ==> match_covers_one_type(
                tiles,
                #[trigger] scan_line_from(line, horizontal, base, stride, i, start)[j],
            ),
    decreases line.len() - i,
{
    let res = scan_line_from(line, horizontal, base, stride, i, start);
    if i >= line.len() {
        lemma_emit_run_sound(tiles, line, horizontal, base, stride, row, start, i);
        let a = emit_run(line, horizontal, base, stride, start, i);
        assert forall|j: int|
            0 <= j < res.len() implies match_covers_one_type(tiles, #[trigger] res[j]) by {
            assert(res[j] == a[j]);
        }
    } else if line[i] is Some && line[i] == line[start] {
        lemma_scan_line_sound(tiles, line, horizontal, base, stride, row, i + 1, start);
        let a = scan_line_from(line, horizontal, base, stride, i + 1, start);
        assert forall|j: int|
            0 <= j < res.len() implies match_covers_one_type(tiles, #[trigger] res[j]) by {
            assert(res[j] == a[j]);
        }
    } else {
        lemma_emit_run_sound(tiles, line, horizontal, base, stride, row, start, i);
        lemma_scan_line_sound(tiles, line, horizontal, base, stride, row, i + 1, i);
        let a = emit_run(line, horizontal, base, stride, start, i);
        let b = scan_line_from(line, horizontal, base, stride, i + 1, i);
        assert forall|j: int|
            0 <= j < res.len() implies match_covers_one_type(tiles, #[trigger] res[j]) by {
            if j < a.len() {
                assert(res[j] == a[j]);
            } else {
                assert(res[j] == b[j - a.len()]);
            }
        }
    }
}

/// The horizontal matches of the first `y` rows each cover one same type.
proof fn lemma_rows_matches_sound(tiles: Seq<Tile>, y: int)
    requires
        tiles.len() == NUM_TILES,
        0 <= y <= ROWS,
    ensures
        forall|j: int|
            0 <= j < rows_matches(tiles, y).len() ==> match_covers_one_type(
                tiles,
                #[trigger] rows_matches(tiles, y)[j],
            ),
    decreases y,
{
    if y > 0 {
        lemma_rows_matches_sound(tiles, y - 1);
        let prev = rows_matches(tiles, y - 1);
        let line = row_line(tiles, y - 1);
        let base = (y - 1) * (COLS as int);
        let lm = line_matches(line, true, base, 1);
        assert(forall|j: int|
            0 <= j < line.len() ==> #[trigger] line[j] == cell_type(tiles[base + 1 * j].piece));
        lemma_scan_line_sound(tiles, line, true, base, 1, y - 1, 1, 0);
        assert forall|j: int|
            0 <= j < rows_matches(tiles, y).len() implies match_covers_one_type(
            tiles,
            #[trigger] rows_matches(tiles, y)[j],
        ) by {
            if j < prev.len() {
                assert(rows_matches(tiles, y)[j] == prev[j]);
            } else {
                assert(rows_matches(tiles, y)[j] == lm[j - prev.len()]);
            }
        }
    }
}

/// The vertical matches of the first `x` columns each cover one same type.
proof fn lemma_cols_matches_sound(tiles: Seq<Tile>, x: int)
    requires
        tiles.len() == NUM_TILES,
        0 <= x <= COLS,
    ensures
        forall|j: int|
            0 <= j < cols_matches(tiles, x).len() ==> match_covers_one_type(
                tiles,
                #[trigger] cols_matches(tiles, x)[j],
            ),
    decreases x,
{
    if x > 0 {
        lemma_cols_matches_sound(tiles, x - 1);
        let prev = cols_matches(tiles, x - 1);
        let line = col_line(tiles, x - 1);
        let base = x - 1;
        let lm = line_matches(line, false, base, COLS as int);
        assert(forall|j: int|
            0 <= j < line.len() ==> #[trigger] line[j] == cell_type(
                tiles[base + (COLS as int) * j].piece,
            ));
        lemma_scan_line_sound(tiles, line, false, base, COLS as int, 0, 1, 0);
        assert forall|j: int|
            0 <= j < cols_matches(tiles, x).len() implies match_covers_one_type(
            tiles,
            #[trigger] cols_matches(tiles, x)[j],
        ) by {
            if j < prev.len() {
                assert(cols_matches(tiles, x)[j] == prev[j]);
            } else {
                assert(cols_matches(tiles, x)[j] == lm[j - prev.len()]);
            }
        }
    }
}

/// The detector reports only genuine runs: every cell covered by a reported
/// match holds a piece — never an empty cell or an obstacle — and all of a
/// match's cells classify as one same piece type, whoever owns them.
pub proof fn lemma_board_matches_sound(tiles: Seq<Tile>)
    requires
        tiles.len() == NUM_TILES,
    ensures
        forall|j: int|
            0 <= j < board_matches(tiles).len() ==> match_covers_one_type(
                tiles,
                #[trigger] board_matches(tiles)[j],
            ),
{
    lemma_rows_matches_sound(tiles, ROWS as int);
    lemma_cols_matches_sound(tiles, COLS as int);
    let a = rows_matches(tiles, ROWS as int);
    let b = cols_matches(tiles, COLS as int);
    assert forall|j: int|
        0 <= j < board_matches(tiles).len() implies match_covers_one_type(
        tiles,
        #[trigger] board_matches(tiles)[j],
    ) by {
        if j < a.len() {
            assert(board_matches(tiles)[j] == a[j]);
        } else {
            assert(board_matches(tiles)[j] == b[j - a.len()]);
        }
    }
}

/// A same-type run covering positions [a, b) of a line that cannot be
/// extended on either side: its cells are typed and equal, and the cell
/// before it (if any) and after it (if any) would break the run.
pub open spec fn maximal_run(line: Seq<Option<PieceType>>, a: int, b: int) -> bool {
    &&& 0 <= a < b <= line.len()
    &&& line[a] is Some
    &&& forall|j: int| a <= j < b ==> #[trigger] line[j] == line[a]
    &&& (a == 0 || !(line[a - 1] is Some && line[a - 1] == line[a]))
    &&& (b == line.len() || !(line[b] is Some && line[b] == line[a]))
}

/// A sequence extended on the right still contains its left part's elements.
proof fn lemma_contains_in_concat_left(a: Seq<Match>, b: Seq<Match>, m: Match)
    requires
        a.contains(m),
    ensures
        (a + b).contains(m),
{
    let w = choose|w: int| 0 <= w < a.len() && a[w] == m;
    assert((a + b)[w] == m);
}

/// A sequence extended on the left still contains its right part's elements.
proof fn lemma_contains_in_concat_right(a: Seq<Match>, b: Seq<Match>, m: Match)
    requires
        b.contains(m),
    ensures
        (a + b).contains(m),
{
    let w = choose|w: int| 0 <= w < b.len() && b[w] == m;
    assert((a + b)[a.len() + w] == m);
}

/// The scan reports every maximal run of length at least three that starts
/// at the open run's own start or has not been reached yet.
proof fn lemma_scan_emits_maximal_run(
    line: Seq<Option<PieceType>>,
    horizontal: bool,
    base: int,
    stride: int,
    i: int,
    start: int,
    a: int,
    b: int,
)
    requires
        line.len() == COLS,
        0 <= start < i <= COLS,
        forall|j: int| start <= j < i ==> #[trigger] line[j] == line[start],
        maximal_run(line, a, b),
        b - a >= 3,
        a == start || a >= i,
        a == start ==> i <= b,
    ensures
        scan_line_from(line, horizontal, base, stride, i, start).contains(
            run_match(horizontal, base, stride, a, b),
        ),
    decreases line.len() - i,
{
    let res = scan_line_from(line, horizontal, base, stride, i, start);
    let m = run_match(horizontal, base, stride, a, b);
    if i >= line.len() {
        assert(a == start);
        assert(b == line.len());
        assert(res == emit_run(line, horizontal, base, stride, start, i));
        assert(res[0] == m);
        assert(res.contains(m));
    } else if line[i] is Some && line[i] == line[start] {
        if a == start {
            // The run cannot end right at i: the cell at i continues it.
            assert(i != b);
            lemma_scan_emits_maximal_run(line, horizontal, base, stride, i + 1, start, a, b);
        } else {
            // The run cannot begin right at i: the cell before i matches it.
            assert(a != i) by {
                assert(line[i - 1] == line[start]);
            }
            lemma_scan_emits_maximal_run(line, horizontal, base, stride, i + 1, start, a, b);
        }
    } else {
        let emitted = emit_run(line, horizontal, base, stride, start, i);
        let rest = scan_line_from(line, horizontal, base, stride, i + 1, i);
        if a == start {
            // The run ends exactly where the scan broke.
            assert(b == i);
            assert(emitted[0] == m);
            assert(emitted.contains(m));
            lemma_contains_in_concat_left(emitted, rest, m);
        } else {
            lemma_scan_emits_maximal_run(line, horizontal, base, stride, i + 1, i, a, b);
            lemma_contains_in_concat_right(emitted, rest, m);
        }
    }
}

/// A line's matches report every maximal run of length at least three.
proof fn lemma_line_matches_complete(
    line: Seq<Option<PieceType>>,
    horizontal: bool,
    base: int,
    stride: int,
    a: int,
    b: int,
)
    requires
        line.len() == COLS,
        maximal_run(line, a, b),
        b - a >= 3,
    ensures
        line_matches(line, horizontal, base, stride).contains(
            run_match(horizontal, base, stride, a, b),
        ),
{
    lemma_scan_emits_maximal_run(line, horizontal, base, stride, 1, 0, a, b);
}

/// A match found in row `y` is among the matches of the first `yy` rows for
/// any `yy` past `y`.
proof fn lemma_rows_matches_contains(tiles: Seq<Tile>, y: int, yy: int, m: Match)
    requires
        0 <= y < yy,
        line_matches(row_line(tiles, y), true, y * (COLS as int), 1).contains(m),
    ensures
        rows_matches(tiles, yy).contains(m),
    decreases yy,
{
    let prev = rows_matches(tiles, yy - 1);
    let lm = line_matches(row_line(tiles, yy - 1), true, (yy - 1) * (COLS as int), 1);
    if yy == y + 1 {
        lemma_contains_in_concat_right(prev, lm, m);
    } else {
        lemma_rows_matches_contains(tiles, y, yy - 1, m);
        lemma_contains_in_concat_left(prev, lm, m);
    }
}

/// A match found in column `x` is among the matches of the first `xx`
/// columns for any `xx` past `x`.
proof fn lemma_cols_matches_contains(tiles: Seq<Tile>, x: int, xx: int, m: Match)
    requires
        0 <= x < xx,
        line_matches(col_line(tiles, x), false, x, COLS as int).contains(m),
    ensures
        cols_matches(tiles, xx).contains(m),
    decreases xx,
{
    let prev = cols_matches(tiles, xx - 1);
    let lm = line_matches(col_line(tiles, xx - 1), false, xx - 1, COLS as int);
    if xx == x + 1 {
        lemma_contains_in_concat_right(prev, lm, m);
    } else {
        lemma_cols_matches_contains(tiles, x, xx - 1, m);
        lemma_contains_in_concat_left(prev, lm, m);
    }
}

/// The detector misses no horizontal run: a maximal same-type run covering
/// columns [a, b) of row `y`, at least three tiles long, is reported as a
/// horizontal match with exactly that start and length.
pub proof fn lemma_horizontal_run_is_reported(tiles: Seq<Tile>, y: int, a: int, b: int)
    requires
        tiles.len() == NUM_TILES,
        0 <= y < ROWS,
        maximal_run(row_line(tiles, y), a, b),
        b - a >= 3,
    ensures
        board_matches(tiles).contains(
            Match::Horizontal {
                start_idx: (y * (COLS as int) + a) as usize,
                length: (b - a) as usize,
            },
        ),
{
    let base = y * (COLS as int);
    lemma_line_matches_complete(row_line(tiles, y), true, base, 1, a, b);
    let m = run_match(true, base, 1, a, b);
    lemma_rows_matches_contains(tiles, y, ROWS as int, m);
    lemma_contains_in_concat_left(
        rows_matches(tiles, ROWS as int),
        cols_matches(tiles, COLS as int),
        m,
    );
}

/// The detector misses no vertical run: a maximal same-type run covering
/// rows [a, b) of column `x`, at least three tiles long, is reported as a
/// vertical match with exactly that start and length.
pub proof fn lemma_vertical_run_is_reported(tiles: Seq<Tile>, x: int, a: int, b: int)
    requires
        tiles.len() == NUM_TILES,
        0 <= x < COLS,
        maximal_run(col_line(tiles, x), a, b),
        b - a >= 3,
    ensures
        board_matches(tiles).contains(
            Match::Vertical {
                start_idx: (x + a * (COLS as int)) as usize,
                length: (b - a) as usize,
            },
        ),
{
    lemma_line_matches_complete(col_line(tiles, x), false, x, COLS as int, a, b);
    let m = run_match(false, x, COLS as int, a, b);
    lemma_cols_matches_contains(tiles, x, COLS as int, m);
    lemma_contains_in_concat_right(
        rows_matches(tiles, ROWS as int),
        cols_matches(tiles, COLS as int),
        m,
    );
}

/// The number of tiles a match covers.
pub fn match_len(m: &Match) -> (r: usize)
    ensures
        r as int == match_indices(*m).len(),
{
    match m {
        Match::Horizontal { start_idx: _, length } => *length,
        Match::Vertical { start_idx: _, length } => *length,
    }
}

/// The board index of the k-th tile covered by a well-formed match.
pub fn match_index(m: &Match, k: usize) -> (r: usize)
    requires
        match_wf(*m),
        (k as int) < match_indices(*m).len(),
    ensures
        r as int == match_indices(*m)[k as int],
        r < NUM_TILES,
{
    match m {
        Match::Horizontal { start_idx, length: _ } => *start_idx + k,
        Match::Vertical { start_idx, length: _ } => *start_idx + k * COLS,
    }
}

/// Classifies one cell for matching.
fn cell_type_of(p: Piece) -> (r: Option<PieceType>)
    ensures
        r == cell_type(p),
{
    match p {
        Piece::Empty => None,
        Piece::Obstacle(_) => None,
        Piece::Friendly(t) => Some(t),
        Piece::Enemy(t) => Some(t),
    }
}

/// Copies one row (or column) of the board out as a sequence of cell types.
fn extract_line(tiles: &Vec<Tile>, horizontal: bool, line_no: usize) -> (line: Vec<
    Option<PieceType>,
>)
    requires
        tiles@.len() == NUM_TILES,
        line_no < 8,
    ensures
        line@ == if horizontal {
            row_line(tiles@, line_no as int)
        } else {
            col_line(tiles@, line_no as int)
        },
        line@.len() == 8,
{
    let ghost target = if horizontal {
        row_line(tiles@, line_no as int)
    } else {
        col_line(tiles@, line_no as int)
    };
    let mut line: Vec<Option<PieceType>> = Vec::new();
    let mut k: usize = 0;
    while k < 8
        invariant
            0 <= k <= 8,
            line_no < 8,
            tiles@.len() == NUM_TILES,
            line@.len() == k,
            target == if horizontal {
                row_line(tiles@, line_no as int)
            } else {
                col_line(tiles@, line_no as int)
            },
            forall|j: int| 0 <= j < k ==> line@[j] == target[j],
        decreases 8 - k,
    {
        let idx = if horizontal {
            line_no * 8 + k
        } else {
            line_no + k * 8
        };
        line.push(cell_type_of(tiles[idx].piece));
        k += 1;
    }
    proof {
        assert(line@ =~= target);
    }
    line
}

/// Reports the run covering line positions [start, end) as a match.
fn run_to_match(horizontal: bool, base: usize, stride: usize, start: usize, end: usize) -> (m:
    Match)
    requires
        1 <= stride,
        base + stride * 7 < NUM_TILES,
        start < end <= 8,
        start <= 7,
    ensures
        m == run_match(horizontal, base as int, stride as int, start as int, end as int),
{
    proof {
        assert(stride * start <= stride * 7) by (nonlinear_arith)
            requires
                start <= 7,
                stride >= 1,
        ;
    }
    let start_idx = base + stride * start;
    let length = end - start;
    if horizontal {
        Match::Horizontal { start_idx, length }
    } else {
        Match::Vertical { start_idx, length }
    }
}

/// Scans one line for runs and appends the matches found to `result`.
fn scan_line(
    line: &Vec<Option<PieceType>>,
    horizontal: bool,
    base: usize,
    stride: usize,
    result: &mut Vec<Match>,
)
    requires
        line@.len() == 8,
        1 <= stride,
        base + stride * 7 < NUM_TILES,
    ensures
        final(result)@ == old(result)@ + line_matches(
            line@,
            horizontal,
            base as int,
            stride as int,
        ),
{
    let ghost orig = result@;
    let ghost mut done: Seq<Match> = Seq::empty();
    proof {
        assert(result@ =~= orig + done);
        assert(scan_line_from(line@, horizontal, base as int, stride as int, 1, 0) =~= done
            + scan_line_from(line@, horizontal, base as int, stride as int, 1, 0));
    }
    let mut start: usize = 0;
    let mut i: usize = 1;
    while i < 8
        invariant
            1 <= i <= 8,
            0 <= start < i,
            line@.len() == 8,
            1 <= stride,
            base + stride * 7 < NUM_TILES,
            result@ == orig + done,
            scan_line_from(line@, horizontal, base as int, stride as int, 1, 0) == done
                + scan_line_from(
                line@,
                horizontal,
                base as int,
                stride as int,
                i as int,
                start as int,
            ),
        decreases 8 - i,
    {
        let cont = match (line[i], line[start]) {
            (Some(a), Some(b)) => a == b,
            _ => false,
        };
        if !cont {
            let ghost emitted = emit_run(
                line@,
                horizontal,
                base as int,
                stride as int,
                start as int,
                i as int,
            );
            if i - start >= 3 && line[start].is_some() {
                let m = run_to_match(horizontal, base, stride, start, i);
                result.push(m);
                proof {
                    assert(emitted =~= seq![m]);
                    assert(result@ =~= orig + done.push(m));
                    assert(done.push(m) =~= done + emitted);
                }
            } else {
                proof {
                    assert(emitted =~= Seq::<Match>::empty());
                    assert(done =~= done + emitted);
                }
            }
            proof {
                let rest = scan_line_from(
                    line@,
                    horizontal,
                    base as int,
                    stride as int,
                    i as int + 1,
                    i as int,
                );
                assert((done + emitted) + rest =~= done + (emitted + rest));
                done = done + emitted;
            }
            start = i;
        }
        i += 1;
    }
    let ghost emitted = emit_run(
        line@,
        horizontal,
        base as int,
        stride as int,
        start as int,
        8,
    );
    if 8 - start >= 3 && line[start].is_some() {
        let m = run_to_match(horizontal, base, stride, start, 8);
        result.push(m);
        proof {
            assert(emitted =~= seq![m]);
            assert(result@ =~= orig + (done + emitted));
        }
    } else {
        proof {
            assert(emitted =~= Seq::<Match>::empty());
            assert(result@ =~= orig + (done + emitted));
        }
    }
}

impl GameState {
    /// Every run of at least three same-type pieces on the board: all
    /// horizontal matches in row-major order, then all vertical matches in
    /// column-major order.
    pub fn get_matches(&self) -> (r: Vec<Match>)
        requires
            self.tiles@.len() == NUM_TILES,
        ensures
            r@ == board_matches(self.tiles@),
            forall|j: int|
                0 <= j < r@.len() ==> match_wf(#[trigger] r@[j]) && match_covers_one_type(
                    self.tiles@,
                    r@[j],
                ),
    {
        let mut result: Vec<Match> = Vec::new();
        proof {
            assert(result@ =~= rows_matches(self.tiles@, 0));
        }
        let mut y: usize = 0;
        while y < 8
            invariant
                0 <= y <= 8,
                self.tiles@.len() == NUM_TILES,
                result@ == rows_matches(self.tiles@, y as int),
            decreases 8 - y,
        {
            let line = extract_line(&self.tiles, true, y);
            scan_line(&line, true, y * 8, 1, &mut result);
            y += 1;
        }
        let mut x: usize = 0;
        proof {
            assert(result@ =~= rows_matches(self.tiles@, 8) + cols_matches(self.tiles@, 0));
        }
        while x < 8
            invariant
                0 <= x <= 8,
                self.tiles@.len() == NUM_TILES,
                result@ == rows_matches(self.tiles@, 8) + cols_matches(self.tiles@, x as int),
            decreases 8 - x,
        {
            let line = extract_line(&self.tiles, false, x);
            scan_line(&line, false, x, 8, &mut result);
            proof {
                assert(result@ =~= rows_matches(self.tiles@, 8) + cols_matches(
                    self.tiles@,
                    x as int + 1,
                ));
            }
            x += 1;
        }
        proof {
            lemma_board_matches_wf(self.tiles@);
            lemma_board_matches_sound(self.tiles@);
        }
        result
    }
}

} // verus!
