use vstd::prelude::*;

verus! {

/// How fast the game runs: each level fixes the time between two ticks.
#[derive(Clone, Copy, Debug, PartialEq, Eq, Structural)]
pub enum GameDifficulty {
    Easy,
    Medium,
    Hard,
    Extreme,
    Impossible,
}

impl GameDifficulty {
    /// Milliseconds between two ticks at this level.
    pub open spec fn tick_interval(self) -> u64 {
        match self {
            GameDifficulty::Easy => 500,
            GameDifficulty::Medium => 250,
            GameDifficulty::Hard => 166,
            GameDifficulty::Extreme => 125,
            GameDifficulty::Impossible => 100,
        }
    }

    pub fn get_speed(&self) -> (r: u64)
        ensures
            r == self.tick_interval(),
    {
        match self {
            GameDifficulty::Easy => 500,
            GameDifficulty::Medium => 250,
            GameDifficulty::Hard => 166,
            GameDifficulty::Extreme => 125,
            GameDifficulty::Impossible => 100,
        }
    }

    /// Whether the next tick is due, `elapsed_ms` milliseconds after the last one.
    pub fn tick_due(&self, elapsed_ms: u128) -> (r: bool)
        ensures
            r == (elapsed_ms >= self.tick_interval()),
    {
        elapsed_ms >= self.get_speed() as u128
    }
}

} // verus!
