//! Laws of the game rules that relate several operations: the gravity
//! law of the landing row, the tie-break order of win detection, and the
//! openness of a fresh board.

use vstd::prelude::*;
use crate::board::{
    cell_of, col_is, column_full_at, col_scan, diag_down_is, diag_up_is, drop_row, drop_row_from,
    full_of, row_scan, winner_of, Board, Team, Tile,
};
use crate::render::{row_prefix, rows_render, suffix_render};

verus! {

/// Gravity law: a tile dropped into a column that is not full lands in
/// the lowest empty cell — the landing row is an interior row, its cell
/// is empty, and every cell below it is occupied.
pub proof fn lemma_drop_row_is_lowest_empty(g: Seq<Tile>, x: int)
    requires
        !column_full_at(g, x),
    ensures
        0 <= drop_row(g, x) < 4,
        cell_of(g, x, drop_row(g, x)) == Tile::Empty,
        forall|y: int| drop_row(g, x) < y < 4 ==> #[trigger] cell_of(g, x, y) != Tile::Empty,
{
    if cell_of(g, x, 3) == Tile::Empty {
        assert(drop_row(g, x) == 3);
    } else if cell_of(g, x, 2) == Tile::Empty {
        assert(drop_row_from(g, x, 2) == 2);
        assert(drop_row(g, x) == 2);
    } else if cell_of(g, x, 1) == Tile::Empty {
        assert(drop_row_from(g, x, 1) == 1);
        assert(drop_row_from(g, x, 2) == 1);
        assert(drop_row(g, x) == 1);
    } else {
        assert(cell_of(g, x, 0) == Tile::Empty);
        assert(drop_row_from(g, x, 0) == 0);
        assert(drop_row_from(g, x, 1) == 0);
        assert(drop_row_from(g, x, 2) == 0);
        assert(drop_row(g, x) == 0);
    }
}

/// The column scan skips columns that no team fully occupies: if column
/// `c` is fully occupied by `team` and no earlier column is fully
/// occupied by either team, the scan starting at `x` reports `team`.
proof fn lemma_col_scan_finds(g: Seq<Tile>, x: int, c: int, team: Team)
    requires
        1 <= x <= c < 5,
        col_is(g, c, team.tile()),
        forall|x2: int|
            1 <= x2 < c ==> !col_is(g, x2, Tile::Cookie) && !col_is(g, x2, Tile::Milk),
    ensures
        col_scan(g, x) == Some(team),
    decreases c - x,
{
    if x == c {
        if team == Team::Milk {
            assert(cell_of(g, c, 0) == Tile::Milk);
            assert(!col_is(g, c, Tile::Cookie));
        }
    } else {
        lemma_col_scan_finds(g, x + 1, c, team);
    }
}

/// Tie-break law: a fully occupied column wins for its team no matter
/// what the rows and diagonals hold, provided no earlier column is fully
/// occupied by either team — columns are scanned before rows and
/// diagonals.
pub proof fn lemma_column_wins_tie_break(g: Seq<Tile>, c: int, team: Team)
    requires
        1 <= c < 5,
        col_is(g, c, team.tile()),
        forall|x2: int|
            1 <= x2 < c ==> !col_is(g, x2, Tile::Cookie) && !col_is(g, x2, Tile::Milk),
    ensures
        winner_of(g) == Some(team),
{
    lemma_col_scan_finds(g, 1, c, team);
}

/// Each diagonal passes through every interior column, so a column fully
/// occupied by one tile rules out either diagonal being fully occupied
/// by a different tile. In particular no grid has both a fully-cookie
/// column and a fully-milk diagonal.
pub proof fn lemma_full_column_excludes_other_diagonal(g: Seq<Tile>, c: int, t1: Tile, t2: Tile)
    requires
        1 <= c < 5,
        col_is(g, c, t1),
        t1 != t2,
    ensures
        !diag_down_is(g, t2),
        !diag_up_is(g, t2),
{
    assert(cell_of(g, c, c - 1) == t1);
    assert(cell_of(g, c, 4 - c) == t1);
}

/// A fresh board is open: it has no winner and is not full, so its
/// rendering carries no result line.
pub proof fn lemma_fresh_board_open(b: Board)
    requires
        b.fresh(),
    ensures
        b.winner() is None,
        !b.full(),
{
    let g = b.grid@;
    assert(cell_of(g, 1, 0) == Tile::Empty);
    assert(cell_of(g, 2, 0) == Tile::Empty);
    assert(cell_of(g, 3, 0) == Tile::Empty);
    assert(cell_of(g, 4, 0) == Tile::Empty);
    assert(col_scan(g, 5) == None::<Team>);
    assert(col_scan(g, 4) == None::<Team>);
    assert(col_scan(g, 3) == None::<Team>);
    assert(col_scan(g, 2) == None::<Team>);
    assert(col_scan(g, 1) == None::<Team>);
    assert(cell_of(g, 1, 1) == Tile::Empty);
    assert(cell_of(g, 1, 2) == Tile::Empty);
    assert(cell_of(g, 1, 3) == Tile::Empty);
    assert(row_scan(g, 4) == None::<Team>);
    assert(row_scan(g, 3) == None::<Team>);
    assert(row_scan(g, 2) == None::<Team>);
    assert(row_scan(g, 1) == None::<Team>);
    assert(row_scan(g, 0) == None::<Team>);
    assert(!diag_down_is(g, Tile::Cookie));
    assert(!column_full_at(g, 1));
    assert(!full_of(g));
}

/// A randomized board has every playable cell occupied, so it is full
/// and any further placement is refused until a reset.
pub proof fn lemma_randomized_board_full(b: Board)
    requires
        b.randomized(),
    ensures
        b.full(),
{
    let g = b.grid@;
    assert forall|x: int| 1 <= x < 5 implies #[trigger] column_full_at(g, x) by {
        assert forall|y: int| 0 <= y < 4 implies #[trigger] cell_of(g, x, y) != Tile::Empty by {
            assert(cell_of(g, x, y) == Tile::Cookie || cell_of(g, x, y) == Tile::Milk);
        }
    }
}

/// The fixed rendering of the default board: four lines of walled empty
/// cells, the wall line, and no result line.
pub open spec fn default_rendering() -> Seq<char> {
    seq![
        '⬜', '⬛', '⬛', '⬛', '⬛', '⬜', '\n',
        '⬜', '⬛', '⬛', '⬛', '⬛', '⬜', '\n',
        '⬜', '⬛', '⬛', '⬛', '⬛', '⬜', '\n',
        '⬜', '⬛', '⬛', '⬛', '⬛', '⬜', '\n',
        '⬜', '⬜', '⬜', '⬜', '⬜', '⬜', '\n',
    ]
}

/// A fresh board renders to the fixed default text, with no result line.
pub proof fn lemma_fresh_rendering(b: Board)
    requires
        b.fresh(),
    ensures
        b.render() == default_rendering(),
{
    let g = b.grid@;
    lemma_fresh_board_open(b);
    assert(suffix_render(g) =~= Seq::<char>::empty());
    assert forall|y: int| 0 <= y < 4 implies #[trigger] row_prefix(g, y, 6) =~= seq![
        '⬜',
        '⬛',
        '⬛',
        '⬛',
        '⬛',
        '⬜',
    ] by {
        assert(cell_of(g, 0, y) == Tile::Wall);
        assert(cell_of(g, 5, y) == Tile::Wall);
        reveal_with_fuel(row_prefix, 7);
    }
    assert(row_prefix(g, 4, 6) =~= seq!['⬜', '⬜', '⬜', '⬜', '⬜', '⬜']) by {
        assert(cell_of(g, 0, 4) == Tile::Wall);
        assert(cell_of(g, 1, 4) == Tile::Wall);
        assert(cell_of(g, 2, 4) == Tile::Wall);
        assert(cell_of(g, 3, 4) == Tile::Wall);
        assert(cell_of(g, 4, 4) == Tile::Wall);
        assert(cell_of(g, 5, 4) == Tile::Wall);
        reveal_with_fuel(row_prefix, 7);
    }
    assert(b.render() =~= default_rendering()) by {
        reveal_with_fuel(rows_render, 6);
    }
}

} // verus!
