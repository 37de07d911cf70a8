//! The arena's side of the engine protocol.

use vstd::prelude::*;

use crate::sq::Sq;

verus! {

/// Limits sent with a search request; `None` leaves a kind unlimited.
#[derive(Debug, Clone, Copy, PartialEq, Eq, Structural)]
pub struct Limits {
    pub depth: Option<u32>,
    pub nodes: Option<u64>,
    pub time: Option<u64>,
}

impl Default for Limits {
    fn default() -> (r: Limits)
        ensures
            r == (Limits { depth: None, nodes: None, time: None }),
    {
        Limits { depth: None, nodes: None, time: None }
    }
}

impl Limits {
    /// A search of `ms` milliseconds and no other limit.
    pub fn time(ms: u64) -> (r: Limits)
        ensures
            r == (Limits { depth: None, nodes: None, time: Some(ms) }),
    {
        Limits { time: Some(ms), ..Limits::default() }
    }
}

/// A protocol move: the square a piece is placed on.
#[derive(Debug, Clone, Copy, PartialEq, Eq, Hash, Structural)]
pub struct Mv(pub Sq);

impl Mv {
    /// The move on square `raw`, if `raw < 64`.
    pub fn from_raw(raw: u8) -> (r: Option<Mv>)
        ensures
            r is Some <==> raw < 64,
            r matches Some(m) ==> m.0@ == raw,
    {
        match Sq::from_raw(raw) {
            Some(sq) => Some(Mv(sq)),
            None => None,
        }
    }

    /// The square.
    pub fn sq(&self) -> (r: Sq)
        ensures
            r == self.0,
    {
        self.0
    }
}

/// Message from an engine.
#[derive(Debug)]
pub enum EngineMsg {
    /// Identification at startup.
    About { name: Option<String> },
    /// Answer to a synchronization request.
    Ready,
    /// The best move found, if any.
    Best(Option<Mv>),
    /// An error.
    Error(String),
    /// A message the arena does not use.
    Unknown,
}

/// Message to an engine.
#[derive(Debug)]
pub enum UserMsg {
    Play(Vec<Mv>),
    Reset,
    Sync,
    Go(Limits),
}

} // verus!
