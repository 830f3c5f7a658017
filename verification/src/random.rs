//! The random board filler, driven by rand's seeded standard generator.
//!
//! The generator is opaque to the verifier: the wrappers below promise
//! nothing of the values drawn, and everything proved of a randomized
//! board holds whatever the draws were. Reproducibility of a fixed seed
//! is exercised by the test suite, not assumed here.

use vstd::prelude::*;
use crate::board::{cell_of, is_interior, Board, Tile};

verus! {

#[verifier::external_type_specification]
#[verifier::external_body]
pub struct ExStdRng(rand::rngs::StdRng);

/// Relies on rand's `SeedableRng::seed_from_u64` for `StdRng`: builds a
/// generator from the seed alone.
#[verifier::external_body]
pub(crate) fn rng_from_seed(seed: u64) -> rand::rngs::StdRng {
    <rand::rngs::StdRng as rand::SeedableRng>::seed_from_u64(seed)
}

/// Relies on rand's `Rng::gen::<bool>`: draws one boolean, advancing the
/// generator; nothing is promised of the value drawn.
#[verifier::external_body]
pub(crate) fn rng_next_bool(rng: &mut rand::rngs::StdRng) -> bool {
    rand::Rng::gen::<bool>(rng)
}

impl Board {
    /// Reset the board, then give each of the 16 playable cells an
    /// independent draw between cookie and milk from the supplied
    /// generator. A winner the random fill may have created is not
    /// checked here; it shows on the next read.
    pub fn create_random_board(&mut self, rng: &mut rand::rngs::StdRng)
        ensures
            final(self).randomized(),
    {
        self.reset();
        let mut y: usize = 0;
        while y < 4
            invariant
                self.wf(),
                y <= 4,
                forall|xx: int, yy: int|
                    is_interior(xx, yy) && yy < y ==> #[trigger] cell_of(self.grid@, xx, yy)
                        != Tile::Empty,
            decreases 4 - y,
        {
            let mut x: usize = 1;
            while x < 5
                invariant
                    self.wf(),
                    y < 4,
                    1 <= x <= 5,
                    forall|xx: int, yy: int|
                        is_interior(xx, yy) && (yy < y || (yy == y && xx < x))
                            ==> #[trigger] cell_of(self.grid@, xx, yy) != Tile::Empty,
                decreases 5 - x,
            {
                let tile = match rng_next_bool(rng) {
                    true => Tile::Cookie,
                    false => Tile::Milk,
                };
                let ghost prev = self.grid@;
                self.set_interior(x, y, tile);
                proof {
                    assert forall|xx: int, yy: int|
                        is_interior(xx, yy) && (yy < y || (yy == y && xx < x + 1))
                            implies #[trigger] cell_of(self.grid@, xx, yy) != Tile::Empty by {
                        if xx == x as int && yy == y as int {
                            assert(cell_of(self.grid@, xx, yy) == tile);
                        } else {
                            assert(cell_of(self.grid@, xx, yy) == cell_of(prev, xx, yy));
                        }
                    }
                }
                x += 1;
            }
            y += 1;
        }
    }
}

} // verus!
