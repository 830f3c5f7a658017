//! Textual rendering of the board: one line of glyphs per row, then a
//! result line when the game is over.

use vstd::prelude::*;
use vstd::string::StringExecFns;
use crate::board::{cell_of, full_of, winner_of, Board, Team, Tile};

verus! {

/// The glyph of one tile.
pub open spec fn glyph(t: Tile) -> char {
    match t {
        Tile::Wall => '⬜',
        Tile::Empty => '⬛',
        Tile::Milk => '🥛',
        Tile::Cookie => '🍪',
    }
}

/// The glyphs of the first `x` cells of row `y`.
pub open spec fn row_prefix(g: Seq<Tile>, y: int, x: int) -> Seq<char>
    decreases x,
{
    if x <= 0 {
        Seq::empty()
    } else {
        row_prefix(g, y, x - 1).push(glyph(cell_of(g, x - 1, y)))
    }
}

/// One rendered line: the six glyphs of row `y`, then a newline.
pub open spec fn row_render(g: Seq<Tile>, y: int) -> Seq<char> {
    row_prefix(g, y, 6).push('\n')
}

/// The first `y` rendered lines.
pub open spec fn rows_render(g: Seq<Tile>, y: int) -> Seq<char>
    decreases y,
{
    if y <= 0 {
        Seq::empty()
    } else {
        rows_render(g, y - 1) + row_render(g, y - 1)
    }
}

/// The result line that follows the grid: the winning team's glyph and
/// " wins!", or "No winner." on a full board, or nothing while the game
/// is still open.
pub open spec fn suffix_render(g: Seq<Tile>) -> Seq<char> {
    match winner_of(g) {
        Some(Team::Cookie) => seq!['🍪', ' ', 'w', 'i', 'n', 's', '!', '\n'],
        Some(Team::Milk) => seq!['🥛', ' ', 'w', 'i', 'n', 's', '!', '\n'],
        None => if full_of(g) {
            seq!['N', 'o', ' ', 'w', 'i', 'n', 'n', 'e', 'r', '.', '\n']
        } else {
            Seq::<char>::empty()
        },
    }
}

/// The glyph of `t` as a one-character string slice.
fn glyph_str(t: Tile) -> (s: &'static str)
    ensures
        s@ == seq![glyph(t)],
{
    proof {
        reveal_strlit("⬜");
        reveal_strlit("⬛");
        reveal_strlit("🥛");
        reveal_strlit("🍪");
    }
    let s: &'static str = match t {
        Tile::Wall => "⬜",
        Tile::Empty => "⬛",
        Tile::Milk => "🥛",
        Tile::Cookie => "🍪",
    };
    proof {
        assert(s@ =~= seq![glyph(t)]);
    }
    s
}

impl Board {
    /// The full rendering: five glyph lines, then the result line.
    pub open spec fn render(self) -> Seq<char> {
        rows_render(self.grid@, 5) + suffix_render(self.grid@)
    }

    /// Produce the textual rendering of the board. Pure: the board is not
    /// changed.
    pub fn display(&self) -> (r: String)
        requires
            self.wf(),
        ensures
            r@ == self.render(),
    {
        let mut out = String::new();
        proof {
            assert(out@ =~= rows_render(self.grid@, 0));
        }
        let mut y: usize = 0;
        while y < 5
            invariant
                self.wf(),
                y <= 5,
                out@ == rows_render(self.grid@, y as int),
            decreases 5 - y,
        {
            proof {
                assert(out@ =~= rows_render(self.grid@, y as int) + row_prefix(
                    self.grid@,
                    y as int,
                    0,
                ));
            }
            let mut x: usize = 0;
            while x < 6
                invariant
                    self.wf(),
                    y < 5,
                    x <= 6,
                    out@ == rows_render(self.grid@, y as int) + row_prefix(
                        self.grid@,
                        y as int,
                        x as int,
                    ),
                decreases 6 - x,
            {
                out.append(glyph_str(self.at(x, y)));
                proof {
                    assert(out@ =~= rows_render(self.grid@, y as int) + row_prefix(
                        self.grid@,
                        y as int,
                        x as int + 1,
                    ));
                }
                x += 1;
            }
            out.append("\n");
            proof {
                reveal_strlit("\n");
                assert(out@ =~= rows_render(self.grid@, y as int + 1));
            }
            y += 1;
        }
        match self.has_winner() {
            Some(Team::Cookie) => {
                out.append("🍪 wins!\n");
                proof {
                    reveal_strlit("🍪 wins!\n");
                    assert(out@ =~= self.render());
                }
            },
            Some(Team::Milk) => {
                out.append("🥛 wins!\n");
                proof {
                    reveal_strlit("🥛 wins!\n");
                    assert(out@ =~= self.render());
                }
            },
            None => {
                if self.is_full() {
                    out.append("No winner.\n");
                    proof {
                        reveal_strlit("No winner.\n");
                        assert(out@ =~= self.render());
                    }
                } else {
                    proof {
                        assert(out@ =~= self.render());
                    }
                }
            },
        }
        out
    }
}

} // verus!
