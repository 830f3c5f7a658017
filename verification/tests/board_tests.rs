use grid_game::board::{Board, PlaceError, Team, Tile};

/// A board with the given interior, rows top to bottom, columns left to
/// right: 'C' cookie, 'M' milk, anything else empty.
fn custom_board(interior: [[char; 4]; 4]) -> Board {
    let mut grid = vec![Tile::Wall; 30];
    for y in 0..4 {
        for x in 1..5 {
            grid[y * 6 + x] = match interior[y][x - 1] {
                'C' => Tile::Cookie,
                'M' => Tile::Milk,
                _ => Tile::Empty,
            };
        }
    }
    Board { grid }
}

const FRESH_RENDERING: &str = "\u{2b1c}\u{2b1b}\u{2b1b}\u{2b1b}\u{2b1b}\u{2b1c}\n\
\u{2b1c}\u{2b1b}\u{2b1b}\u{2b1b}\u{2b1b}\u{2b1c}\n\
\u{2b1c}\u{2b1b}\u{2b1b}\u{2b1b}\u{2b1b}\u{2b1c}\n\
\u{2b1c}\u{2b1b}\u{2b1b}\u{2b1b}\u{2b1b}\u{2b1c}\n\
\u{2b1c}\u{2b1c}\u{2b1c}\u{2b1c}\u{2b1c}\u{2b1c}\n";

#[test]
fn default_board_renders_fresh() {
    let b = Board::default();
    assert!(b.is_well_formed());
    assert_eq!(b.display(), FRESH_RENDERING);
}

#[test]
fn reset_restores_default_rendering() {
    let mut b = Board::default();
    assert!(b.place(Team::Cookie, 2).is_ok());
    assert!(b.place(Team::Milk, 3).is_ok());
    b.reset();
    assert_eq!(b.display(), FRESH_RENDERING);
}

#[test]
fn border_cells_are_walls() {
    let b = Board::default();
    for y in 0..5 {
        assert_eq!(b.at(0, y), Tile::Wall);
        assert_eq!(b.at(5, y), Tile::Wall);
    }
    for x in 0..6 {
        assert_eq!(b.at(x, 4), Tile::Wall);
    }
    for y in 0..4 {
        for x in 1..5 {
            assert_eq!(b.at(x, y), Tile::Empty);
        }
    }
}

#[test]
fn gravity_drop_lands_in_lowest_empty_cell() {
    // Column 2 holds, top to bottom, [Empty, Empty, Milk, Cookie].
    let mut b = Board::default();
    assert!(b.place(Team::Cookie, 2).is_ok());
    assert!(b.place(Team::Milk, 2).is_ok());
    assert_eq!(b.at(2, 3), Tile::Cookie);
    assert_eq!(b.at(2, 2), Tile::Milk);
    // The next drop lands in the first empty cell scanning bottom-up.
    assert!(b.place(Team::Cookie, 2).is_ok());
    assert_eq!(b.at(2, 1), Tile::Cookie);
    assert_eq!(b.at(2, 0), Tile::Empty);
}

#[test]
fn gravity_drop_leaves_other_cells_untouched() {
    let mut b = Board::default();
    assert!(b.place(Team::Milk, 1).is_ok());
    let before = b.grid.clone();
    assert!(b.place(Team::Cookie, 4).is_ok());
    for y in 0..5 {
        for x in 0..6 {
            if !(x == 4 && y == 3) {
                assert_eq!(b.grid[y * 6 + x], before[y * 6 + x]);
            }
        }
    }
    assert_eq!(b.at(4, 3), Tile::Cookie);
}

#[test]
fn four_in_a_column_wins_and_refuses_further_moves() {
    let mut b = Board::default();
    for _ in 0..4 {
        assert!(b.place(Team::Cookie, 1).is_ok());
    }
    for y in 0..4 {
        assert_eq!(b.at(1, y), Tile::Cookie);
    }
    assert_eq!(b.has_winner(), Some(Team::Cookie));
    assert!(b.display().ends_with("\u{1f36a} wins!\n"));
    // The winner check precedes the column-full check, so the refusal
    // reports the winner condition; the grid stays identical.
    let before = b.grid.clone();
    assert_eq!(b.place(Team::Cookie, 1), Err(PlaceError::HasWinner));
    assert_eq!(b.grid, before);
    assert_eq!(b.place(Team::Milk, 1), Err(PlaceError::HasWinner));
    assert_eq!(b.grid, before);
    // Other columns are refused just the same once a winner exists.
    assert_eq!(b.place(Team::Milk, 3), Err(PlaceError::HasWinner));
    assert_eq!(b.grid, before);
    assert!(b.is_well_formed());
}

#[test]
fn row_win_is_detected() {
    let mut b = Board::default();
    for c in 1..5 {
        assert!(b.place(Team::Milk, c).is_ok());
    }
    assert_eq!(b.has_winner(), Some(Team::Milk));
    assert!(b.display().ends_with("\u{1f95b} wins!\n"));
}

#[test]
fn diagonal_win_is_detected() {
    let b = custom_board([
        ['C', ' ', ' ', ' '],
        ['M', 'C', ' ', ' '],
        ['M', 'M', 'C', ' '],
        ['M', 'C', 'M', 'C'],
    ]);
    assert!(b.is_well_formed());
    assert_eq!(b.has_winner(), Some(Team::Cookie));
}

#[test]
fn earlier_column_wins_the_tie_break() {
    // Columns are scanned left to right, so a full milk column 1 beats a
    // full cookie column 2.
    let b = custom_board([
        ['M', 'C', ' ', ' '],
        ['M', 'C', ' ', ' '],
        ['M', 'C', ' ', ' '],
        ['M', 'C', ' ', ' '],
    ]);
    assert!(b.is_well_formed());
    assert_eq!(b.has_winner(), Some(Team::Milk));
}

#[test]
fn full_cookie_column_wins_despite_milk_tiles_on_the_diagonals() {
    // Column 2 is fully cookie; every diagonal cell off column 2 is milk.
    // Both diagonals pass through column 2, so neither can be fully milk,
    // and the column scan reports cookie.
    let b = custom_board([
        ['M', 'C', ' ', 'M'],
        [' ', 'C', 'M', ' '],
        [' ', 'C', 'M', ' '],
        ['M', 'C', ' ', 'M'],
    ]);
    assert!(b.is_well_formed());
    assert_eq!(b.has_winner(), Some(Team::Cookie));
}

#[test]
fn cookie_diagonal_beats_milk_diagonal() {
    // The down-right diagonal is fully milk and the up-right diagonal is
    // fully cookie: cookie is checked first on the diagonals.
    let b = custom_board([
        ['M', ' ', ' ', 'C'],
        [' ', 'M', 'C', ' '],
        [' ', 'C', 'M', ' '],
        ['C', ' ', ' ', 'M'],
    ]);
    assert!(b.is_well_formed());
    assert_eq!(b.has_winner(), Some(Team::Cookie));
}

#[test]
fn full_board_without_winner_renders_no_winner() {
    let b = custom_board([
        ['C', 'M', 'C', 'M'],
        ['C', 'M', 'C', 'M'],
        ['M', 'C', 'M', 'C'],
        ['M', 'C', 'M', 'C'],
    ]);
    assert!(b.is_well_formed());
    assert_eq!(b.has_winner(), None);
    assert!(b.is_full());
    assert!(b.display().ends_with("No winner.\n"));
}

#[test]
fn place_on_full_board_reports_board_full() {
    let mut b = custom_board([
        ['C', 'M', 'C', 'M'],
        ['C', 'M', 'C', 'M'],
        ['M', 'C', 'M', 'C'],
        ['M', 'C', 'M', 'C'],
    ]);
    let before = b.grid.clone();
    assert_eq!(b.place(Team::Cookie, 1), Err(PlaceError::BoardFull));
    assert_eq!(b.grid, before);
}

#[test]
fn place_in_full_column_reports_column_full() {
    let mut b = Board::default();
    assert!(b.place(Team::Cookie, 1).is_ok());
    assert!(b.place(Team::Milk, 1).is_ok());
    assert!(b.place(Team::Cookie, 1).is_ok());
    assert!(b.place(Team::Milk, 1).is_ok());
    assert!(b.is_column_full(1));
    assert!(!b.is_full());
    assert_eq!(b.has_winner(), None);
    let before = b.grid.clone();
    assert_eq!(b.place(Team::Cookie, 1), Err(PlaceError::ColumnFull));
    assert_eq!(b.grid, before);
    // A different column still accepts a move.
    assert!(b.place(Team::Cookie, 2).is_ok());
}

#[test]
fn is_column_full_tracks_each_column() {
    let mut b = Board::default();
    for c in 1..5 {
        assert!(!b.is_column_full(c));
    }
    assert!(b.place(Team::Cookie, 3).is_ok());
    assert!(b.place(Team::Milk, 3).is_ok());
    assert!(b.place(Team::Milk, 3).is_ok());
    assert!(!b.is_column_full(3));
    assert!(b.place(Team::Cookie, 3).is_ok());
    assert!(b.is_column_full(3));
    assert!(!b.is_full());
}

#[test]
fn in_progress_board_renders_without_result_line() {
    let mut b = Board::default();
    assert!(b.place(Team::Cookie, 1).is_ok());
    let shown = b.display();
    assert_eq!(shown.lines().count(), 5);
    assert!(!shown.contains("wins!"));
    assert!(!shown.contains("No winner."));
    assert!(shown.ends_with("\n"));
}

#[test]
fn moves_preserve_the_board_invariant() {
    let mut b = Board::default();
    let moves = [(Team::Cookie, 1), (Team::Milk, 2), (Team::Cookie, 2), (Team::Milk, 4)];
    for (team, col) in moves {
        assert!(b.place(team, col).is_ok());
        assert!(b.is_well_formed());
    }
    b.reset();
    assert!(b.is_well_formed());
}
