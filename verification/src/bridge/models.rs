//! Messages exchanged with the site, and the bridge's own events.

use vstd::prelude::*;

verus! {

/// A challenge's time control.
#[derive(Debug, Clone, Copy, PartialEq, Eq, Structural)]
pub struct TimerSettings {
    pub minutes_per_player: u32,
    pub increment_seconds: u32,
}

/// Credentials sent to log in.
#[derive(Debug, Clone)]
pub struct LoginRequest {
    pub email: String,
    pub password: String,
}

/// The site's answer to a login.
#[derive(Debug, Clone)]
pub struct LoginResponse {
    pub message: String,
    pub token: String,
}

/// The site's answer to accepting a challenge.
#[derive(Debug, Clone)]
pub struct AcceptChallengeResponse {
    pub success: bool,
    pub game_id: String,
}

/// The site's answer to declining a challenge.
#[derive(Debug, Clone)]
pub struct DeclineChallengeResponse {
    pub success: bool,
    pub message: String,
}

/// A player challenges the bridge.
#[derive(Debug, Clone)]
pub struct ChallengeReceivedEvent {
    pub challenge_id: u64,
    pub challenger_username: String,
    pub timer_settings: TimerSettings,
}

/// A game begins.
#[derive(Debug, Clone)]
pub struct GameStartEvent {
    pub game_id: String,
    pub player_color: String,
    pub opponent_name: String,
    pub timer_settings: GameTimerSettings,
    pub timers: GameTimers,
    pub timestamp: u64,
}

/// A game's time control.
#[derive(Debug, Clone, Copy, PartialEq, Eq, Structural)]
pub struct GameTimerSettings {
    pub timer_enabled: bool,
    pub minutes_per_player: u32,
    pub increment_seconds: u32,
}

/// Seconds left on each clock.
#[derive(Debug, Clone, Copy, PartialEq, Eq, Structural)]
pub struct GameTimers {
    pub white: u32,
    pub black: u32,
}

/// A move was made; the board is addressed with row 0 at the top.
#[derive(Debug, Clone)]
pub struct MoveUpdateEvent {
    pub row: u8,
    pub col: u8,
    pub player: String,
    pub current_player: String,
    pub game_over: bool,
    pub winner: Option<String>,
    pub reason: Option<String>,
    pub timers: GameTimers,
    pub timestamp: u64,
}

/// A game ended.
#[derive(Debug, Clone)]
pub struct GameEndEvent {
    pub game_id: String,
    pub winner: Option<String>,
    pub reason: String,
}

/// A move sent to the site.
#[derive(Debug, Clone)]
pub struct MakeMovePayload {
    pub game_id: String,
    pub row: u8,
    pub col: u8,
}

/// The opponent asks for a rematch.
#[derive(Debug, Clone)]
pub struct RematchRequestedEvent {
    pub game_id: String,
    pub requester_name: String,
}

/// What the site's socket reports.
#[derive(Debug)]
pub enum BridgeEvent {
    ChallengeReceived(ChallengeReceivedEvent),
    GameStart(GameStartEvent),
    MoveUpdate(MoveUpdateEvent),
    GameEnd(GameEndEvent),
    RematchRequested(RematchRequestedEvent),
    RematchAccepted(GameStartEvent),
    Connected,
    Disconnected,
    Pong,
}

/// A search request for the engine; `None` leaves a kind unlimited.
#[derive(Debug, Clone, Copy, PartialEq, Eq, Structural)]
pub struct GoCommand {
    pub depth: Option<u32>,
    pub nodes: Option<u64>,
    pub time: Option<u64>,
    pub clock_left: Option<u64>,
    pub clock_incr: Option<i64>,
}

} // verus!
