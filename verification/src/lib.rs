//! A single-player blackjack engine: cards and hand evaluation, a depletable
//! shoe of cards, and the round state machine with outcome and wager
//! resolution.

pub mod cards;
pub mod error;
pub mod game;
pub mod shoe;
pub mod text;
