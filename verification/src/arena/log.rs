//! What the arena records of its exchanges with engines.

use vstd::prelude::*;

use crate::sq::Sq;

verus! {

/// One line of an engine's exchange log.
#[derive(Debug, Clone)]
pub struct LogEntry {
    pub timestamp_ms: u64,
    pub direction: LogDirection,
    pub content: String,
}

/// Whether a line went to the engine or came from it.
#[derive(Debug, Clone, Copy, PartialEq, Eq, Structural)]
pub enum LogDirection {
    Sent,
    Received,
}

/// Why an engine's log is written out.
#[derive(Debug, Clone, Copy, PartialEq, Eq, Structural)]
pub enum LogReason {
    IllegalMove,
    NoMove,
    Timeout,
    Crash,
    ProtocolError,
}

/// The name under which each reason is written.
pub open spec fn spec_reason_str(r: LogReason) -> Seq<char> {
    match r {
        LogReason::IllegalMove => "illegal_move"@,
        LogReason::NoMove => "no_move"@,
        LogReason::Timeout => "timeout"@,
        LogReason::Crash => "crash"@,
        LogReason::ProtocolError => "protocol_error"@,
    }
}

impl LogReason {
    /// The reason's name in log file names.
    pub fn as_str(self) -> (r: &'static str)
        ensures
            r@ == spec_reason_str(self),
    {
        match self {
            LogReason::IllegalMove => "illegal_move",
            LogReason::NoMove => "no_move",
            LogReason::Timeout => "timeout",
            LogReason::Crash => "crash",
            LogReason::ProtocolError => "protocol_error",
        }
    }
}

/// What came of waiting for an engine's move.
#[derive(Debug)]
pub enum MoveResult {
    Move(Sq),
    /// The engine answered that it has no move.
    NoMove,
    Timeout,
    Crash,
    /// The match is shutting down.
    Stopped,
    ProtocolError(String),
    EngineError(String),
}

/// The verdict of a sequential test.
#[derive(Debug, Clone, Copy, PartialEq, Eq, Structural)]
pub enum GsprtResult {
    /// The development engine is better.
    Accept,
    /// It is not.
    Reject,
    /// More games are needed.
    Continue,
}

} // verus!
