use vstd::prelude::*;

use crate::piece::Color;

verus! {

/// Game outcome (terminal state).
#[derive(Debug, Clone, Copy, PartialEq, Eq, Structural)]
pub enum Outcome {
    /// Igo: four yugos of one color in a line.
    Igo(Color),
    /// Wego: the side to move has no legal move.
    Wego(WegoResult),
}

/// Result of a Wego (end by no legal moves).
#[derive(Debug, Clone, Copy, PartialEq, Eq, Structural)]
pub enum WegoResult {
    Win(Color),
    Draw,
}

impl Outcome {
    pub open spec fn spec_winner(self) -> Option<Color> {
        match self {
            Outcome::Igo(c) => Some(c),
            Outcome::Wego(WegoResult::Win(c)) => Some(c),
            Outcome::Wego(WegoResult::Draw) => None,
        }
    }

    /// The winner, if any.
    pub fn winner(self) -> (r: Option<Color>)
        ensures
            r == self.spec_winner(),
    {
        match self {
            Outcome::Igo(c) => Some(c),
            Outcome::Wego(WegoResult::Win(c)) => Some(c),
            Outcome::Wego(WegoResult::Draw) => None,
        }
    }
}

} // verus!
