//! The board model: tiles, teams, the walled 6x5 grid and its invariant.
//!
//! Coordinates are `(x, y)` with `x` the column (`0..6`, growing right) and
//! `y` the row (`0..5`, growing downward). Columns `0` and `5` and row `4`
//! are a permanent wall; the playable interior is columns `1..5` by rows
//! `0..4`. Row `3` is the lowest interior row, so a dropped tile comes to
//! rest at the largest empty `y` of its column.

use vstd::prelude::*;

verus! {

/// One cell of the grid.
#[derive(Debug, Copy, Clone, PartialEq, Eq, Structural)]
pub enum Tile {
    Empty,
    Cookie,
    Milk,
    Wall,
}

/// One of the two sides. Either side may move at any time; the board does
/// not enforce alternation.
#[derive(Debug, Copy, Clone, PartialEq, Eq, Structural)]
pub enum Team {
    Cookie,
    Milk,
}

impl Team {
    /// The tile this team plays.
    pub open spec fn spec_tile(self) -> Tile {
        match self {
            Team::Cookie => Tile::Cookie,
            Team::Milk => Tile::Milk,
        }
    }

    #[verifier::when_used_as_spec(spec_tile)]
    pub fn tile(self) -> (t: Tile)
        ensures
            t == self.spec_tile(),
    {
        match self {
            Team::Cookie => Tile::Cookie,
            Team::Milk => Tile::Milk,
        }
    }
}

/// The flat index of cell `(x, y)` in the row-major grid vector.
pub open spec fn idx(x: int, y: int) -> int {
    y * 6 + x
}

/// The tile at `(x, y)` of a row-major grid sequence.
pub open spec fn cell_of(g: Seq<Tile>, x: int, y: int) -> Tile {
    g[idx(x, y)]
}

/// Cells of the permanent wall border.
pub open spec fn is_border(x: int, y: int) -> bool {
    0 <= x < 6 && 0 <= y < 5 && (x == 0 || x == 5 || y == 4)
}

/// The 16 playable cells.
pub open spec fn is_interior(x: int, y: int) -> bool {
    1 <= x < 5 && 0 <= y < 4
}

/// Distinct in-range coordinates have distinct flat indices.
pub proof fn lemma_idx_injective(x1: int, y1: int, x2: int, y2: int)
    requires
        0 <= x1 < 6,
        0 <= y1 < 5,
        0 <= x2 < 6,
        0 <= y2 < 5,
        idx(x1, y1) == idx(x2, y2),
    ensures
        x1 == x2 && y1 == y2,
{
}

/// Column `x` is fully occupied by `t` over the four interior rows.
pub open spec fn col_is(g: Seq<Tile>, x: int, t: Tile) -> bool {
    forall|y: int| 0 <= y < 4 ==> #[trigger] cell_of(g, x, y) == t
}

/// Row `y` is fully occupied by `t` over the four interior columns.
pub open spec fn row_is(g: Seq<Tile>, y: int, t: Tile) -> bool {
    forall|x: int| 1 <= x < 5 ==> #[trigger] cell_of(g, x, y) == t
}

/// The down-right diagonal `(1,0)-(2,1)-(3,2)-(4,3)` is fully `t`.
pub open spec fn diag_down_is(g: Seq<Tile>, t: Tile) -> bool {
    &&& cell_of(g, 1, 0) == t
    &&& cell_of(g, 2, 1) == t
    &&& cell_of(g, 3, 2) == t
    &&& cell_of(g, 4, 3) == t
}

/// The up-right diagonal `(4,0)-(3,1)-(2,2)-(1,3)` is fully `t`.
pub open spec fn diag_up_is(g: Seq<Tile>, t: Tile) -> bool {
    &&& cell_of(g, 4, 0) == t
    &&& cell_of(g, 3, 1) == t
    &&& cell_of(g, 2, 2) == t
    &&& cell_of(g, 1, 3) == t
}

/// The verdict of scanning columns `x..5` in order, cookie checked before
/// milk within each column.
pub open spec fn col_scan(g: Seq<Tile>, x: int) -> Option<Team>
    decreases 5 - x,
{
    if x < 1 || x >= 5 {
        None
    } else if col_is(g, x, Tile::Cookie) {
        Some(Team::Cookie)
    } else if col_is(g, x, Tile::Milk) {
        Some(Team::Milk)
    } else {
        col_scan(g, x + 1)
    }
}

/// The verdict of scanning rows `y..4` in order, cookie checked before
/// milk within each row.
pub open spec fn row_scan(g: Seq<Tile>, y: int) -> Option<Team>
    decreases 4 - y,
{
    if y < 0 || y >= 4 {
        None
    } else if row_is(g, y, Tile::Cookie) {
        Some(Team::Cookie)
    } else if row_is(g, y, Tile::Milk) {
        Some(Team::Milk)
    } else {
        row_scan(g, y + 1)
    }
}

/// The verdict of the two diagonals: cookie on either diagonal is checked
/// before milk on either.
pub open spec fn diag_verdict(g: Seq<Tile>) -> Option<Team> {
    if diag_down_is(g, Tile::Cookie) || diag_up_is(g, Tile::Cookie) {
        Some(Team::Cookie)
    } else if diag_down_is(g, Tile::Milk) || diag_up_is(g, Tile::Milk) {
        Some(Team::Milk)
    } else {
        None
    }
}

/// The winner, if any: the first fully-occupied line in the fixed scan
/// order columns 1..5, then rows 0..4, then the two diagonals. This order
/// is the canonical tie-break rule.
pub open spec fn winner_of(g: Seq<Tile>) -> Option<Team> {
    if col_scan(g, 1) is Some {
        col_scan(g, 1)
    } else if row_scan(g, 0) is Some {
        row_scan(g, 0)
    } else {
        diag_verdict(g)
    }
}

/// Column `x` has no empty interior cell.
pub open spec fn column_full_at(g: Seq<Tile>, x: int) -> bool {
    forall|y: int| 0 <= y < 4 ==> #[trigger] cell_of(g, x, y) != Tile::Empty
}

/// Every interior column is full.
pub open spec fn full_of(g: Seq<Tile>) -> bool {
    forall|x: int| 1 <= x < 5 ==> #[trigger] column_full_at(g, x)
}

/// The row a tile dropped into column `x` comes to rest in, scanning rows
/// `y` down to `0` for the first empty cell; `-1` if all are occupied.
pub open spec fn drop_row_from(g: Seq<Tile>, x: int, y: int) -> int
    decreases y + 1,
{
    if y < 0 {
        -1
    } else if cell_of(g, x, y) == Tile::Empty {
        y
    } else {
        drop_row_from(g, x, y - 1)
    }
}

/// The landing row of a gravity drop into column `x`: the lowest empty
/// interior row (row 3 is the lowest), `-1` if the column is full.
pub open spec fn drop_row(g: Seq<Tile>, x: int) -> int {
    drop_row_from(g, x, 3)
}

/// Why a placement was refused.
#[derive(Debug, Copy, Clone, PartialEq, Eq, Structural)]
pub enum PlaceError {
    /// A line is already complete; no further moves are accepted.
    HasWinner,
    /// Every interior cell is occupied.
    BoardFull,
    /// The target column has no empty cell.
    ColumnFull,
}

/// The fixed 6x5 game board.
#[derive(Debug, Clone)]
pub struct Board {
    pub grid: Vec<Tile>,
}

impl Board {
    /// The tile at `(x, y)`.
    pub open spec fn cell(self, x: int, y: int) -> Tile {
        cell_of(self.grid@, x, y)
    }

    /// The board invariant: 30 cells, wall on the whole border and nowhere
    /// in the interior, so every interior cell is exactly one of empty,
    /// cookie or milk.
    pub open spec fn wf(self) -> bool {
        &&& self.grid@.len() == 30
        &&& forall|x: int, y: int|
            is_border(x, y) ==> #[trigger] cell_of(self.grid@, x, y) == Tile::Wall
        &&& forall|x: int, y: int|
            is_interior(x, y) ==> #[trigger] cell_of(self.grid@, x, y) != Tile::Wall
    }

    /// A freshly reset board: well-formed with an all-empty interior.
    pub open spec fn fresh(self) -> bool {
        &&& self.wf()
        &&& forall|x: int, y: int|
            is_interior(x, y) ==> #[trigger] cell_of(self.grid@, x, y) == Tile::Empty
    }

    /// A randomly filled board: well-formed with every playable cell
    /// holding a cookie or milk tile.
    pub open spec fn randomized(self) -> bool {
        &&& self.wf()
        &&& forall|x: int, y: int|
            is_interior(x, y) ==> #[trigger] cell_of(self.grid@, x, y) == Tile::Cookie || cell_of(
                self.grid@,
                x,
                y,
            ) == Tile::Milk
    }

    /// Decide the board invariant: 30 cells, wall on the whole border and
    /// nowhere in the interior.
    pub fn is_well_formed(&self) -> (r: bool)
        ensures
            r == self.wf(),
    {
        if self.grid.len() != 30 {
            return false;
        }
        let mut y: usize = 0;
        while y < 5
            invariant
                self.grid@.len() == 30,
                y <= 5,
                forall|xx: int, yy: int|
                    is_border(xx, yy) && yy < y ==> #[trigger] cell_of(self.grid@, xx, yy)
                        == Tile::Wall,
                forall|xx: int, yy: int|
                    is_interior(xx, yy) && yy < y ==> #[trigger] cell_of(self.grid@, xx, yy)
                        != Tile::Wall,
            decreases 5 - y,
        {
            let mut x: usize = 0;
            while x < 6
                invariant
                    self.grid@.len() == 30,
                    y < 5,
                    x <= 6,
                    forall|xx: int, yy: int|
                        is_border(xx, yy) && yy < y ==> #[trigger] cell_of(self.grid@, xx, yy)
                            == Tile::Wall,
                    forall|xx: int, yy: int|
                        is_interior(xx, yy) && yy < y ==> #[trigger] cell_of(self.grid@, xx, yy)
                            != Tile::Wall,
                    forall|xx: int|
                        is_border(xx, y as int) && xx < x ==> #[trigger] cell_of(
                            self.grid@,
                            xx,
                            y as int,
                        ) == Tile::Wall,
                    forall|xx: int|
                        is_interior(xx, y as int) && xx < x ==> #[trigger] cell_of(
                            self.grid@,
                            xx,
                            y as int,
                        ) != Tile::Wall,
                decreases 6 - x,
            {
                let t = self.grid[y * 6 + x];
                proof {
                    assert(t == cell_of(self.grid@, x as int, y as int));
                }
                if x == 0 || x == 5 || y == 4 {
                    if t != Tile::Wall {
                        return false;
                    }
                } else {
                    if t == Tile::Wall {
                        return false;
                    }
                }
                x += 1;
            }
            y += 1;
        }
        true
    }

    /// Read one cell.
    pub fn at(&self, x: usize, y: usize) -> (t: Tile)
        requires
            self.wf(),
            x < 6,
            y < 5,
        ensures
            t == self.cell(x as int, y as int),
    {
        self.grid[y * 6 + x]
    }

    /// The winner of this board under the canonical scan order.
    pub open spec fn winner(self) -> Option<Team> {
        winner_of(self.grid@)
    }

    /// Every interior column of this board is full.
    pub open spec fn full(self) -> bool {
        full_of(self.grid@)
    }

    /// Whether column `x` is fully occupied by tile `t`.
    fn col_has(&self, x: usize, t: Tile) -> (r: bool)
        requires
            self.wf(),
            1 <= x < 5,
        ensures
            r == col_is(self.grid@, x as int, t),
    {
        self.at(x, 0) == t && self.at(x, 1) == t && self.at(x, 2) == t && self.at(x, 3) == t
    }

    /// Whether row `y` is fully occupied by tile `t`.
    fn row_has(&self, y: usize, t: Tile) -> (r: bool)
        requires
            self.wf(),
            y < 4,
        ensures
            r == row_is(self.grid@, y as int, t),
    {
        self.at(1, y) == t && self.at(2, y) == t && self.at(3, y) == t && self.at(4, y) == t
    }

    /// The first team found to fully occupy a four-cell line, scanning
    /// every column, then every row, then the two diagonals, and checking
    /// cookie before milk at each step; `None` if no line is fully
    /// occupied by one team.
    pub fn has_winner(&self) -> (r: Option<Team>)
        requires
            self.wf(),
        ensures
            r == self.winner(),
    {
        let mut x: usize = 1;
        while x < 5
            invariant
                self.wf(),
                1 <= x <= 5,
                col_scan(self.grid@, 1) == col_scan(self.grid@, x as int),
            decreases 5 - x,
        {
            if self.col_has(x, Tile::Cookie) {
                return Some(Team::Cookie);
            }
            if self.col_has(x, Tile::Milk) {
                return Some(Team::Milk);
            }
            x += 1;
        }
        let mut y: usize = 0;
        while y < 4
            invariant
                self.wf(),
                y <= 4,
                col_scan(self.grid@, 1) is None,
                row_scan(self.grid@, 0) == row_scan(self.grid@, y as int),
            decreases 4 - y,
        {
            if self.row_has(y, Tile::Cookie) {
                return Some(Team::Cookie);
            }
            if self.row_has(y, Tile::Milk) {
                return Some(Team::Milk);
            }
            y += 1;
        }
        let diag_down_cookie = self.at(1, 0) == Tile::Cookie && self.at(2, 1) == Tile::Cookie
            && self.at(3, 2) == Tile::Cookie && self.at(4, 3) == Tile::Cookie;
        let diag_up_cookie = self.at(4, 0) == Tile::Cookie && self.at(3, 1) == Tile::Cookie
            && self.at(2, 2) == Tile::Cookie && self.at(1, 3) == Tile::Cookie;
        if diag_down_cookie || diag_up_cookie {
            return Some(Team::Cookie);
        }
        let diag_down_milk = self.at(1, 0) == Tile::Milk && self.at(2, 1) == Tile::Milk
            && self.at(3, 2) == Tile::Milk && self.at(4, 3) == Tile::Milk;
        let diag_up_milk = self.at(4, 0) == Tile::Milk && self.at(3, 1) == Tile::Milk
            && self.at(2, 2) == Tile::Milk && self.at(1, 3) == Tile::Milk;
        if diag_down_milk || diag_up_milk {
            return Some(Team::Milk);
        }
        None
    }

    /// True iff none of the four interior rows of `column` is empty.
    pub fn is_column_full(&self, column: u8) -> (r: bool)
        requires
            self.wf(),
            1 <= column <= 4,
        ensures
            r == column_full_at(self.grid@, column as int),
    {
        let x = column as usize;
        self.at(x, 0) != Tile::Empty && self.at(x, 1) != Tile::Empty && self.at(x, 2)
            != Tile::Empty && self.at(x, 3) != Tile::Empty
    }

    /// True iff all four interior columns are full.
    pub fn is_full(&self) -> (r: bool)
        requires
            self.wf(),
        ensures
            r == self.full(),
    {
        let mut x: u8 = 1;
        while x < 5
            invariant
                self.wf(),
                1 <= x <= 5,
                forall|xx: int| 1 <= xx < x ==> #[trigger] column_full_at(self.grid@, xx),
            decreases 5 - x,
        {
            if !self.is_column_full(x) {
                return false;
            }
            x += 1;
        }
        true
    }

    /// Drop a tile of `team` into `column` (1-based over the playable
    /// columns). Rules, checked in order: refused while a winner exists,
    /// then while the whole board is full, then while the target column is
    /// full; otherwise the tile fills the lowest empty cell of the column
    /// and every other cell is left untouched.
    pub fn place(&mut self, team: Team, column: u8) -> (r: Result<(), PlaceError>)
        requires
            old(self).wf(),
            1 <= column <= 4,
        ensures
            final(self).wf(),
            r is Err ==> *final(self) == *old(self),
            r == (if old(self).winner() is Some {
                Err::<(), PlaceError>(PlaceError::HasWinner)
            } else if old(self).full() {
                Err::<(), PlaceError>(PlaceError::BoardFull)
            } else if column_full_at(old(self).grid@, column as int) {
                Err::<(), PlaceError>(PlaceError::ColumnFull)
            } else {
                Ok::<(), PlaceError>(())
            }),
            r is Ok ==> final(self).grid@ == old(self).grid@.update(
                idx(column as int, drop_row(old(self).grid@, column as int)),
                team.tile(),
            ),
    {
        if self.has_winner().is_some() {
            return Err(PlaceError::HasWinner);
        }
        if self.is_full() {
            return Err(PlaceError::BoardFull);
        }
        if self.is_column_full(column) {
            return Err(PlaceError::ColumnFull);
        }
        let x = column as usize;
        let row: usize = if self.at(x, 3) == Tile::Empty {
            3
        } else if self.at(x, 2) == Tile::Empty {
            2
        } else if self.at(x, 1) == Tile::Empty {
            1
        } else {
            0
        };
        proof {
            let g = self.grid@;
            let xi = x as int;
            if row == 3 {
                assert(drop_row_from(g, xi, 3) == 3);
            } else if row == 2 {
                assert(drop_row_from(g, xi, 2) == 2);
            } else if row == 1 {
                assert(drop_row_from(g, xi, 1) == 1);
                assert(drop_row_from(g, xi, 2) == 1);
            } else {
                assert(cell_of(g, xi, 0) == Tile::Empty);
                assert(drop_row_from(g, xi, 0) == 0);
                assert(drop_row_from(g, xi, 1) == 0);
                assert(drop_row_from(g, xi, 2) == 0);
            }
            assert(row as int == drop_row(g, xi));
        }
        self.set_interior(x, row, team.tile());
        Ok(())
    }

    /// Overwrite one interior cell with a non-wall tile, leaving every
    /// other cell untouched.
    pub(crate) fn set_interior(&mut self, x: usize, y: usize, t: Tile)
        requires
            old(self).wf(),
            is_interior(x as int, y as int),
            t != Tile::Wall,
        ensures
            final(self).wf(),
            final(self).grid@ == old(self).grid@.update(idx(x as int, y as int), t),
    {
        let ghost prev = self.grid@;
        self.grid[y * 6 + x] = t;
        proof {
            assert(self.grid@ == prev.update(idx(x as int, y as int), t));
            assert forall|xx: int, yy: int| is_border(xx, yy) implies #[trigger] cell_of(
                self.grid@,
                xx,
                yy,
            ) == Tile::Wall by {
                if idx(xx, yy) == idx(x as int, y as int) {
                    lemma_idx_injective(xx, yy, x as int, y as int);
                } else {
                    assert(cell_of(self.grid@, xx, yy) == cell_of(prev, xx, yy));
                }
            }
            assert forall|xx: int, yy: int| is_interior(xx, yy) implies #[trigger] cell_of(
                self.grid@,
                xx,
                yy,
            ) != Tile::Wall by {
                if idx(xx, yy) == idx(x as int, y as int) {
                    assert(cell_of(self.grid@, xx, yy) == t);
                } else {
                    assert(cell_of(self.grid@, xx, yy) == cell_of(prev, xx, yy));
                }
            }
        }
    }

    /// Replace the grid with the default configuration, discarding all
    /// prior placements.
    pub fn reset(&mut self)
        ensures
            final(self).fresh(),
    {
        let new_board = Board::default();
        self.grid = new_board.grid;
    }
}

impl Default for Board {
    /// The default board: wall border, empty interior.
    fn default() -> (b: Board)
        ensures
            b.fresh(),
    {
        let mut grid: Vec<Tile> = Vec::new();
        let mut y: usize = 0;
        while y < 5
            invariant
                y <= 5,
                grid@.len() == y * 6,
                forall|xx: int, yy: int|
                    0 <= xx < 6 && 0 <= yy < y ==> #[trigger] cell_of(grid@, xx, yy) == (
                    if is_border(xx, yy) {
                        Tile::Wall
                    } else {
                        Tile::Empty
                    }),
            decreases 5 - y,
        {
            let mut x: usize = 0;
            while x < 6
                invariant
                    y < 5,
                    x <= 6,
                    grid@.len() == y * 6 + x,
                    forall|xx: int, yy: int|
                        0 <= xx < 6 && 0 <= yy < y ==> #[trigger] cell_of(grid@, xx, yy) == (
                        if is_border(xx, yy) {
                            Tile::Wall
                        } else {
                            Tile::Empty
                        }),
                    forall|xx: int|
                        0 <= xx < x ==> #[trigger] cell_of(grid@, xx, y as int) == (
                        if is_border(xx, y as int) {
                            Tile::Wall
                        } else {
                            Tile::Empty
                        }),
                decreases 6 - x,
            {
                let ghost prev = grid@;
                if x == 0 || x == 5 || y == 4 {
                    grid.push(Tile::Wall);
                } else {
                    grid.push(Tile::Empty);
                }
                proof {
                    assert forall|xx: int, yy: int| 0 <= xx < 6 && 0 <= yy < y implies
                        #[trigger] cell_of(grid@, xx, yy) == (
                        if is_border(xx, yy) {
                            Tile::Wall
                        } else {
                            Tile::Empty
                        }) by {
                        assert(cell_of(grid@, xx, yy) == cell_of(prev, xx, yy));
                    }
                    assert forall|xx: int| 0 <= xx <= x implies
                        #[trigger] cell_of(grid@, xx, y as int) == (
                        if is_border(xx, y as int) {
                            Tile::Wall
                        } else {
                            Tile::Empty
                        }) by {
                        if xx < x {
                            assert(cell_of(grid@, xx, y as int) == cell_of(prev, xx, y as int));
                        } else {
                            assert(cell_of(grid@, xx, y as int) == grid@[y * 6 + x]);
                        }
                    }
                }
                x += 1;
            }
            y += 1;
        }
        Board { grid }
    }
}

} // verus!
