//! Messages between a user (or arena) and an engine.

use vstd::prelude::*;

use crate::sq::Sq;

verus! {

/// Message from the engine.
#[derive(Debug)]
pub enum EngineMsg {
    /// Sent at startup with the engine's identification.
    Id { name: Option<String>, author: Option<String>, version: Option<String> },
    /// Answer to `UserMsg::Sync`.
    Ready,
    /// Search progress.
    Info { pv: Vec<Sq>, eval: Eval, depth: u32, nodes: u64, time: u64, knps: u64 },
    /// The best move found, or `None` when there is none.
    Best(Option<Sq>),
    /// An error message.
    Error(String),
}

/// Message to the engine.
#[derive(Debug)]
pub enum UserMsg {
    /// Reset to the initial position, stopping any search.
    Reset,
    /// Synchronization barrier; the engine answers `Ready`.
    Sync,
    /// Undo this many half-moves.
    Undo(usize),
    /// Play these moves on the current board.
    Play(Vec<Sq>),
    /// Search with these limits.
    Go(Vec<Limit>),
    /// Stop the search.
    Stop,
}

/// Evaluation of a position.
#[derive(Debug, Clone, Copy, PartialEq, Eq, Structural)]
pub enum Eval {
    /// A score in engine-defined units.
    Score(i32),
    /// A forced result, in plies: positive for a win, negative for a loss.
    Decisive(i32),
}

/// Search limit.
#[derive(Debug, Clone, Copy, PartialEq, Eq, Structural)]
pub enum Limit {
    /// Search to a fixed depth.
    Depth(u32),
    /// Search a fixed number of nodes.
    Nodes(u64),
    /// Search for a fixed time, in milliseconds.
    Ms(u64),
}

} // verus!
