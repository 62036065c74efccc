//! Which rules a game is played by.

use vstd::prelude::*;

verus! {

/// Which rules a game is played by.
#[derive(Copy, Clone, PartialEq, Eq, Debug, Structural)]
pub enum GameMode {
    /// Apples are eaten and digested (eaten segments you can pass through);
    /// snakes never shrink on their own.
    Classic,
    /// Apples grow snakes right away and apple-eating snakes shrink
    /// steadily; the player starving is game over.
    Hunger,
}

/// How fast apple-eating snakes shrink under [`GameMode::Hunger`], in
/// thousandths of a cell per second.
pub const STARVATION: u64 = 300;

impl GameMode {
    /// How fast apple-eating snakes shrink on their own, in thousandths of a
    /// cell per second.
    pub fn starvation(self) -> (rate: u64)
        ensures
            rate == match self {
                GameMode::Classic => 0,
                GameMode::Hunger => STARVATION,
            },
    {
        match self {
            GameMode::Classic => 0,
            GameMode::Hunger => STARVATION,
        }
    }
}

} // verus!
