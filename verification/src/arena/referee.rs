//! The decisions of a game between two engines: whose turn it is, and what becomes of each reply.
//! The caller asks the engines and passes their moves on; this module decides.

use vstd::prelude::*;

use crate::arena::log::{LogReason, MoveResult};
use crate::arena::stats::TerminationKind;
use crate::error::PlayError;
use crate::game::{game_current, game_play, game_wf, Game, GameView};
use crate::mv::Mv;
use crate::outcome::Outcome;
use crate::piece::Color;
use crate::sq::Sq;

verus! {

/// Turns after which a game that has not ended is given up as endless.
pub const MAX_MOVES: usize = 500;

/// What happens before the next move of a game.
#[derive(Debug, Clone, Copy, PartialEq, Eq, Structural)]
pub enum Turn {
    /// The game has taken too many turns; the side to move (white when `white`) is blamed.
    TooLong { white: bool },
    /// The match was stopped.
    Stopped,
    /// The game is over.
    Over(Outcome),
    /// The side to move (white when `white`) is asked for its move.
    Ask { white: bool },
}

/// What comes of an engine's reply.
#[derive(Debug, Clone, Copy, PartialEq, Eq, Structural)]
pub enum Ruling {
    /// The move was played: both engines are told of it.
    Relay(Sq),
    /// The engine is asked again.
    AskAgain,
    /// The match was stopped.
    Stopped,
    /// The move cannot be played; the engine that sent it loses.
    Illegal(PlayError),
    /// The engine failed and loses; when `log` is given, its exchange log is kept for that reason.
    Fault { kind: TerminationKind, log: Option<LogReason> },
}

/// The turn of a game that has taken `turns` turns, the match stopped when `stopped`.
pub open spec fn spec_next_turn(g: GameView, stopped: bool, turns: int) -> Turn {
    let white = game_current(g).spec_side() == Color::White;
    if turns >= MAX_MOVES {
        Turn::TooLong { white }
    } else if stopped {
        Turn::Stopped
    } else {
        match game_current(g).spec_outcome() {
            Some(o) => Turn::Over(o),
            None => Turn::Ask { white },
        }
    }
}

/// Below the turn limit and with the match going on, a game is declared over exactly when no
/// move can be played on it any more, and then with the outcome of its current position;
/// otherwise the side to move in that position is asked.
pub proof fn law_next_turn_over(g: GameView, turns: int, mv: Mv)
    requires
        game_wf(g),
        0 <= turns < MAX_MOVES,
    ensures
        (spec_next_turn(g, false, turns) is Over) <==> game_play(g, mv) == Err::<GameView, PlayError>(
            PlayError::GameOver,
        ),
        spec_next_turn(g, false, turns) matches Turn::Over(o) ==> game_current(g).spec_outcome()
            == Some(o),
        spec_next_turn(g, false, turns) matches Turn::Ask { white } ==> white == (game_current(
            g,
        ).spec_side() == Color::White),
        spec_next_turn(g, true, turns) == Turn::Stopped,
        spec_next_turn(g, true, MAX_MOVES as int) == (Turn::TooLong {
            white: game_current(g).spec_side() == Color::White,
        }),
        spec_next_turn(g, false, MAX_MOVES as int) == (Turn::TooLong {
            white: game_current(g).spec_side() == Color::White,
        }),
{
}

/// The turn of `game` after `turns` turns, the match stopped when `stopped`.
pub fn next_turn(game: &Game, stopped: bool, turns: usize) -> (r: Turn)
    requires
        game_wf(game@),
    ensures
        r == spec_next_turn(game@, stopped, turns as int),
{
    let white = match game.current_state().side_to_move() {
        Color::White => true,
        Color::Black => false,
    };
    if turns >= MAX_MOVES {
        Turn::TooLong { white }
    } else if stopped {
        Turn::Stopped
    } else {
        match game.outcome() {
            Some(o) => Turn::Over(o),
            None => Turn::Ask { white },
        }
    }
}

/// The ruling on `reply` in a game at `g`, and the game after it.
pub open spec fn spec_rule(g: GameView, reply: MoveResult) -> (Ruling, GameView) {
    match reply {
        MoveResult::Move(sq) => match game_play(g, Mv { sq, yugos_formed: 0 }) {
            Ok(w) => (Ruling::Relay(sq), w),
            Err(e) => (Ruling::Illegal(e), g),
        },
        MoveResult::NoMove => (
            Ruling::Fault { kind: TerminationKind::NoMove, log: Some(LogReason::NoMove) },
            g,
        ),
        MoveResult::Timeout => (Ruling::Fault { kind: TerminationKind::Timeout, log: None }, g),
        MoveResult::Crash => (Ruling::Fault { kind: TerminationKind::Crash, log: None }, g),
        MoveResult::Stopped => (Ruling::Stopped, g),
        MoveResult::ProtocolError(_) => (
            Ruling::Fault {
                kind: TerminationKind::ProtocolError,
                log: Some(LogReason::ProtocolError),
            },
            g,
        ),
        MoveResult::EngineError(_) => (Ruling::AskAgain, g),
    }
}

/// Rules on the reply of the engine to move: plays its move on `game` when it is legal.
pub fn rule(game: &mut Game, reply: &MoveResult) -> (r: Ruling)
    requires
        game_wf(old(game)@),
    ensures
        game_wf(final(game)@),
        (r, final(game)@) == spec_rule(old(game)@, *reply),
{
    match reply {
        MoveResult::Move(sq) => match game.play(Mv::new(*sq)) {
            Ok(()) => Ruling::Relay(*sq),
            Err(e) => Ruling::Illegal(e),
        },
        MoveResult::NoMove => Ruling::Fault {
            kind: TerminationKind::NoMove,
            log: Some(LogReason::NoMove),
        },
        MoveResult::Timeout => Ruling::Fault { kind: TerminationKind::Timeout, log: None },
        MoveResult::Crash => Ruling::Fault { kind: TerminationKind::Crash, log: None },
        MoveResult::Stopped => Ruling::Stopped,
        MoveResult::ProtocolError(_) => Ruling::Fault {
            kind: TerminationKind::ProtocolError,
            log: Some(LogReason::ProtocolError),
        },
        MoveResult::EngineError(_) => Ruling::AskAgain,
    }
}

} // verus!
