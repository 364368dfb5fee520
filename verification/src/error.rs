//! The errors the engine can surface. Both are fatal to the round they
//! interrupt: the caller is told at once and nothing is retried.

use vstd::prelude::*;

verus! {

/// What can go wrong while running a round.
#[derive(Clone, Copy, PartialEq, Eq, Structural, Debug)]
pub enum GameError {
    /// The finite shoe has no cards left to draw. The current round cannot
    /// continue; a fresh shoe is needed.
    ShoeExhausted,
    /// The bankroll cannot cover the wager at deal time. The round is not
    /// started and no state changes.
    InsufficientFunds,
}

} // verus!
