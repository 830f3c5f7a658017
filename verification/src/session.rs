//! The game session: one board and one seeded generator, owned by the
//! embedding layer for the process lifetime (lock-guarded there if it
//! serves concurrent requests; no locking is needed here).

use vstd::prelude::*;
use crate::board::Board;
use crate::random::rng_from_seed;

verus! {

/// The fixed seed. Every reset returns the generator to this constant,
/// so the sequence of random boards is reproducible across resets.
pub const DEFAULT_SEED: u64 = 2024;

/// One game session.
pub struct GameSession {
    /// The shared board; read and mutate it through its own methods.
    pub board: Board,
    /// The seeded generator behind `randomize`.
    pub rng: rand::rngs::StdRng,
}

impl GameSession {
    /// A fresh session: default board, generator at the fixed seed.
    pub fn new() -> (s: GameSession)
        ensures
            s.board.fresh(),
    {
        GameSession { board: Board::default(), rng: rng_from_seed(DEFAULT_SEED) }
    }

    /// Reset the board and return the generator to the fixed seed.
    pub fn reset(&mut self)
        ensures
            final(self).board.fresh(),
    {
        self.rng = rng_from_seed(DEFAULT_SEED);
        self.board.reset();
    }

    /// Fill the board with the next random layout from the session's
    /// generator.
    pub fn randomize(&mut self)
        ensures
            final(self).board.randomized(),
    {
        self.board.create_random_board(&mut self.rng);
    }
}

impl Default for GameSession {
    /// The same fresh session `new` builds.
    fn default() -> (s: GameSession)
        ensures
            s.board.fresh(),
    {
        GameSession::new()
    }
}

} // verus!
