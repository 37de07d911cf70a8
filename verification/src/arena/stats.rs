//! Results of paired games and the statistics gathered from them.

use vstd::prelude::*;

use crate::game::Game;
use crate::outcome::Outcome;
use crate::piece::Color;

verus! {

/// The development engine's result in one game.
#[derive(Debug, Clone, Copy, PartialEq, Eq, Structural)]
pub enum Score {
    Loss,
    Draw,
    Win,
}

/// Half-points of a result.
pub open spec fn half_points(s: Score) -> int {
    match s {
        Score::Loss => 0,
        Score::Draw => 1,
        Score::Win => 2,
    }
}

/// The outcome of a pair of games, from the development engine's side.
#[derive(Debug, Clone, Copy, PartialEq, Eq, Structural)]
pub enum Pentanomial {
    /// Both games lost (0 points).
    Ll,
    /// One loss, one draw (0.5 points).
    Ld,
    /// Two draws, or one win and one loss (1 point).
    DdWl,
    /// One win, one draw (1.5 points).
    Wd,
    /// Both games won (2 points).
    Ww,
}

/// The slot of each outcome in the counts, which is also its number of half-points.
pub open spec fn spec_index(p: Pentanomial) -> int {
    match p {
        Pentanomial::Ll => 0,
        Pentanomial::Ld => 1,
        Pentanomial::DdWl => 2,
        Pentanomial::Wd => 3,
        Pentanomial::Ww => 4,
    }
}

impl Pentanomial {
    /// The outcome of a pair from the two results.
    pub fn from_scores(score1: Score, score2: Score) -> (r: Pentanomial)
        ensures
            spec_index(r) == half_points(score1) + half_points(score2),
    {
        let h1: u8 = match score1 {
            Score::Loss => 0,
            Score::Draw => 1,
            Score::Win => 2,
        };
        let h2: u8 = match score2 {
            Score::Loss => 0,
            Score::Draw => 1,
            Score::Win => 2,
        };
        match h1 + h2 {
            0 => Pentanomial::Ll,
            1 => Pentanomial::Ld,
            2 => Pentanomial::DdWl,
            3 => Pentanomial::Wd,
            _ => Pentanomial::Ww,
        }
    }

    /// The outcome's slot in the counts.
    pub fn index(self) -> (r: usize)
        ensures
            r == spec_index(self),
            r < 5,
    {
        match self {
            Pentanomial::Ll => 0,
            Pentanomial::Ld => 1,
            Pentanomial::DdWl => 2,
            Pentanomial::Wd => 3,
            Pentanomial::Ww => 4,
        }
    }

    /// The outcome's short name.
    pub fn label(self) -> (r: &'static str)
        ensures
            r@ == match self {
                Pentanomial::Ll => "LL"@,
                Pentanomial::Ld => "LD"@,
                Pentanomial::DdWl => "DD/WL"@,
                Pentanomial::Wd => "WD"@,
                Pentanomial::Ww => "WW"@,
            },
    {
        match self {
            Pentanomial::Ll => "LL",
            Pentanomial::Ld => "LD",
            Pentanomial::DdWl => "DD/WL",
            Pentanomial::Wd => "WD",
            Pentanomial::Ww => "WW",
        }
    }
}

/// Which engine was at fault.
#[derive(Debug, Clone, Copy, PartialEq, Eq, Structural)]
pub enum FaultyEngine {
    Dev,
    Base,
}

/// How a game ended abnormally.
#[derive(Debug, Clone, Copy, PartialEq, Eq, Structural)]
pub enum TerminationKind {
    Crash,
    SpawnFailed,
    SyncFailed,
    Timeout,
    IllegalMove,
    ProtocolError,
    NoMove,
    InfiniteLoop,
    /// The match was stopped; nobody's fault.
    Stopped,
}

/// An abnormal end of a game.
#[derive(Debug, Clone)]
pub struct Termination {
    pub kind: TerminationKind,
    pub reason: String,
    pub faulty_engine: Option<FaultyEngine>,
}

/// The result of one game.
#[derive(Debug, Clone)]
pub struct GameResult {
    pub game: Game,
    /// The development engine's result.
    pub dev_score: Score,
    pub termination: Option<Termination>,
}

/// The results of a pair of games on one opening, the development engine white in the first.
#[derive(Debug, Clone)]
pub struct GamePairResult {
    pub game1: GameResult,
    pub game2: GameResult,
    pub outcome: Pentanomial,
}

/// The development engine's result given how the game ended.
pub open spec fn spec_dev_score(outcome: Outcome, dev_is_white: bool) -> Score {
    match outcome.spec_winner() {
        Some(w) => if (w == Color::White) == dev_is_white {
            Score::Win
        } else {
            Score::Loss
        },
        None => Score::Draw,
    }
}

/// The development engine's result given how the game ended.
pub fn dev_score(outcome: &Outcome, dev_is_white: bool) -> (r: Score)
    ensures
        r == spec_dev_score(*outcome, dev_is_white),
{
    match outcome.winner() {
        Some(winner) => {
            let white_won = match winner {
                Color::White => true,
                Color::Black => false,
            };
            if white_won == dev_is_white {
                Score::Win
            } else {
                Score::Loss
            }
        },
        None => Score::Draw,
    }
}

/// A game lost by the engine that failed: white's when `white_failed`.
pub fn error_result(
    game: Game,
    dev_is_white: bool,
    white_failed: bool,
    kind: TerminationKind,
    reason: String,
) -> (r: GameResult)
    ensures
        r.game == game,
        r.dev_score == if dev_is_white == white_failed {
            Score::Loss
        } else {
            Score::Win
        },
        r.termination matches Some(t) && t.kind == kind && t.reason@ == reason@ && t.faulty_engine
            == Some(
            if dev_is_white == white_failed {
                FaultyEngine::Dev
            } else {
                FaultyEngine::Base
            },
        ),
{
    let dev_failed = dev_is_white == white_failed;
    GameResult {
        game,
        dev_score: if dev_failed {
            Score::Loss
        } else {
            Score::Win
        },
        termination: Some(
            Termination {
                kind,
                reason,
                faulty_engine: Some(
                    if dev_failed {
                        FaultyEngine::Dev
                    } else {
                        FaultyEngine::Base
                    },
                ),
            },
        ),
    }
}

/// Pair outcome counts, indexed by `Pentanomial::index`: LL, LD, DD/WL, WD, WW.
#[derive(Debug, Clone, Copy)]
pub struct PentanomialCounts(pub [u64; 5]);

impl Default for PentanomialCounts {
    fn default() -> (r: PentanomialCounts)
        ensures
            r.0@ == seq![0u64, 0, 0, 0, 0],
    {
        PentanomialCounts([0, 0, 0, 0, 0])
    }
}

/// The total of the counts.
pub open spec fn counts_total(c: Seq<u64>) -> int {
    c[0] + c[1] + c[2] + c[3] + c[4]
}

impl PentanomialCounts {
    /// Count one more pair with this outcome.
    pub fn record(&mut self, outcome: Pentanomial)
        requires
            old(self).0@[spec_index(outcome)] < u64::MAX,
        ensures
            final(self).0@ == old(self).0@.update(
                spec_index(outcome),
                (old(self).0@[spec_index(outcome)] + 1) as u64,
            ),
    {
        let i = outcome.index();
        self.0[i] = self.0[i] + 1;
    }
}

/// Totals over a match.
#[derive(Debug, Clone, Copy)]
pub struct MatchStats {
    pub pentanomial: PentanomialCounts,
    pub dev_wins: u64,
    pub dev_losses: u64,
    pub draws: u64,
    pub dev_crashes: u64,
    pub dev_timeouts: u64,
    pub dev_illegal_moves: u64,
    pub dev_infinite_loops: u64,
    pub base_crashes: u64,
    pub base_timeouts: u64,
    pub base_illegal_moves: u64,
    pub base_infinite_loops: u64,
}

impl Default for MatchStats {
    fn default() -> (r: MatchStats)
        ensures
            r.pentanomial.0@ == seq![0u64, 0, 0, 0, 0],
            r.spec_total_games() == 0,
            r.counters_below(0),
    {
        MatchStats {
            pentanomial: PentanomialCounts::default(),
            dev_wins: 0,
            dev_losses: 0,
            draws: 0,
            dev_crashes: 0,
            dev_timeouts: 0,
            dev_illegal_moves: 0,
            dev_infinite_loops: 0,
            base_crashes: 0,
            base_timeouts: 0,
            base_illegal_moves: 0,
            base_infinite_loops: 0,
        }
    }
}

/// Which counter a fault goes to: crashes, timeouts, illegal moves or endless games; `None` for a
/// stop, which is nobody's fault.
pub open spec fn fault_slot(k: TerminationKind) -> Option<u8> {
    match k {
        TerminationKind::Crash | TerminationKind::SpawnFailed | TerminationKind::SyncFailed => Some(
            0,
        ),
        TerminationKind::Timeout => Some(1),
        TerminationKind::IllegalMove | TerminationKind::ProtocolError | TerminationKind::NoMove => Some(
            2,
        ),
        TerminationKind::InfiniteLoop => Some(3),
        TerminationKind::Stopped => None,
    }
}

impl MatchStats {
    /// Games recorded: wins, losses and draws.
    pub open spec fn spec_total_games(self) -> int {
        self.dev_wins + self.dev_losses + self.draws
    }

    /// Every game counter is at most `u64::MAX - k`.
    pub open spec fn counters_below(self, k: int) -> bool {
        &&& self.dev_wins + k <= u64::MAX
        &&& self.dev_losses + k <= u64::MAX
        &&& self.draws + k <= u64::MAX
        &&& self.dev_crashes + k <= u64::MAX
        &&& self.dev_timeouts + k <= u64::MAX
        &&& self.dev_illegal_moves + k <= u64::MAX
        &&& self.dev_infinite_loops + k <= u64::MAX
        &&& self.base_crashes + k <= u64::MAX
        &&& self.base_timeouts + k <= u64::MAX
        &&& self.base_illegal_moves + k <= u64::MAX
        &&& self.base_infinite_loops + k <= u64::MAX
    }

    /// `self` after counting the game `g`.
    #[verifier::opaque]
    pub open spec fn after_game(self, g: GameResult) -> MatchStats {
        let s1 = match g.dev_score {
            Score::Loss => MatchStats { dev_losses: (self.dev_losses + 1) as u64, ..self },
            Score::Draw => MatchStats { draws: (self.draws + 1) as u64, ..self },
            Score::Win => MatchStats { dev_wins: (self.dev_wins + 1) as u64, ..self },
        };
        match g.termination {
            None => s1,
            Some(t) => {
                let dev = t.faulty_engine == Some(FaultyEngine::Dev);
                match fault_slot(t.kind) {
                    None => s1,
                    Some(0) => if dev {
                        MatchStats { dev_crashes: (s1.dev_crashes + 1) as u64, ..s1 }
                    } else {
                        MatchStats { base_crashes: (s1.base_crashes + 1) as u64, ..s1 }
                    },
                    Some(1) => if dev {
                        MatchStats { dev_timeouts: (s1.dev_timeouts + 1) as u64, ..s1 }
                    } else {
                        MatchStats { base_timeouts: (s1.base_timeouts + 1) as u64, ..s1 }
                    },
                    Some(2) => if dev {
                        MatchStats { dev_illegal_moves: (s1.dev_illegal_moves + 1) as u64, ..s1 }
                    } else {
                        MatchStats { base_illegal_moves: (s1.base_illegal_moves + 1) as u64, ..s1 }
                    },
                    Some(_) => if dev {
                        MatchStats { dev_infinite_loops: (s1.dev_infinite_loops + 1) as u64, ..s1 }
                    } else {
                        MatchStats {
                            base_infinite_loops: (s1.base_infinite_loops + 1) as u64,
                            ..s1
                        }
                    },
                }
            },
        }
    }

    /// Counting a game adds it to exactly one of wins, losses and draws, and leaves the pair
    /// counts alone.
    pub proof fn lemma_after_game(self, g: GameResult, p: PentanomialCounts)
        requires
            self.counters_below(1),
        ensures
            self.after_game(g).spec_total_games() == self.spec_total_games() + 1,
            self.after_game(g).pentanomial == self.pentanomial,
            (MatchStats { pentanomial: p, ..self }).after_game(g) == (MatchStats {
                pentanomial: p,
                ..self.after_game(g)
            }),
    {
        reveal(MatchStats::after_game);
    }

    /// Counting a game adds one to the development engine's wins, losses or draws as its score
    /// says, and charges the game's fault to the engine that committed it and to nobody else:
    /// crashes (and failed starts), timeouts, illegal moves (with protocol errors and missing
    /// moves) and endless games each go to the development engine's counter when it is the
    /// faulty one and to the base engine's otherwise; a game with no fault, or stopped, changes
    /// no fault counter.
    pub proof fn law_fault_charged(self, g: GameResult)
        requires
            self.counters_below(1),
        ensures
            ({
                let s = self.after_game(g);
                let dev = g.termination matches Some(t) && t.faulty_engine == Some(FaultyEngine::Dev);
                let kind_is = |ks: spec_fn(TerminationKind) -> bool| g.termination matches Some(t) && ks(t.kind);
                let crash = kind_is(|k: TerminationKind| k == TerminationKind::Crash || k == TerminationKind::SpawnFailed || k == TerminationKind::SyncFailed);
                let timeout = kind_is(|k: TerminationKind| k == TerminationKind::Timeout);
                let illegal = kind_is(|k: TerminationKind| k == TerminationKind::IllegalMove || k == TerminationKind::ProtocolError || k == TerminationKind::NoMove);
                let endless = kind_is(|k: TerminationKind| k == TerminationKind::InfiniteLoop);
                &&& s.dev_wins == self.dev_wins + if g.dev_score == Score::Win { 1int } else { 0 }
                &&& s.dev_losses == self.dev_losses + if g.dev_score == Score::Loss { 1int } else { 0 }
                &&& s.draws == self.draws + if g.dev_score == Score::Draw { 1int } else { 0 }
                &&& s.dev_crashes == self.dev_crashes + if crash && dev { 1int } else { 0 }
                &&& s.base_crashes == self.base_crashes + if crash && !dev { 1int } else { 0 }
                &&& s.dev_timeouts == self.dev_timeouts + if timeout && dev { 1int } else { 0 }
                &&& s.base_timeouts == self.base_timeouts + if timeout && !dev { 1int } else { 0 }
                &&& s.dev_illegal_moves == self.dev_illegal_moves + if illegal && dev { 1int } else { 0 }
                &&& s.base_illegal_moves == self.base_illegal_moves + if illegal && !dev { 1int } else { 0 }
                &&& s.dev_infinite_loops == self.dev_infinite_loops + if endless && dev { 1int } else { 0 }
                &&& s.base_infinite_loops == self.base_infinite_loops + if endless && !dev { 1int } else { 0 }
            }),
    {
        reveal(MatchStats::after_game);
    }

    /// Count one game.
    fn record_game(&mut self, g: &GameResult)
        requires
            old(self).counters_below(1),
        ensures
            *final(self) == old(self).after_game(*g),
            old(self).counters_below(2) ==> final(self).counters_below(1),
    {
        proof {
            reveal(MatchStats::after_game);
        }
        match g.dev_score {
            Score::Loss => self.dev_losses = self.dev_losses + 1,
            Score::Draw => self.draws = self.draws + 1,
            Score::Win => self.dev_wins = self.dev_wins + 1,
        }
        match &g.termination {
            None => {},
            Some(t) => {
                let is_dev = t.faulty_engine == Some(FaultyEngine::Dev);
                match t.kind {
                    TerminationKind::Crash | TerminationKind::SpawnFailed
                    | TerminationKind::SyncFailed => {
                        if is_dev {
                            self.dev_crashes = self.dev_crashes + 1;
                        } else {
                            self.base_crashes = self.base_crashes + 1;
                        }
                    },
                    TerminationKind::Timeout => {
                        if is_dev {
                            self.dev_timeouts = self.dev_timeouts + 1;
                        } else {
                            self.base_timeouts = self.base_timeouts + 1;
                        }
                    },
                    TerminationKind::IllegalMove | TerminationKind::ProtocolError
                    | TerminationKind::NoMove => {
                        if is_dev {
                            self.dev_illegal_moves = self.dev_illegal_moves + 1;
                        } else {
                            self.base_illegal_moves = self.base_illegal_moves + 1;
                        }
                    },
                    TerminationKind::InfiniteLoop => {
                        if is_dev {
                            self.dev_infinite_loops = self.dev_infinite_loops + 1;
                        } else {
                            self.base_infinite_loops = self.base_infinite_loops + 1;
                        }
                    },
                    TerminationKind::Stopped => {},
                }
            },
        }
    }

    /// Count a pair of games: its outcome, and each game's result and fault.
    pub fn record_pair(&mut self, pair: &GamePairResult)
        requires
            old(self).counters_below(2),
            old(self).pentanomial.0@[spec_index(pair.outcome)] < u64::MAX,
        ensures
            final(self).pentanomial.0@ == old(self).pentanomial.0@.update(
                spec_index(pair.outcome),
                (old(self).pentanomial.0@[spec_index(pair.outcome)] + 1) as u64,
            ),
            *final(self) == (MatchStats {
                pentanomial: final(self).pentanomial,
                ..old(self).after_game(pair.game1).after_game(pair.game2)
            }),
            final(self).spec_total_games() == old(self).spec_total_games() + 2,
    {
        self.pentanomial.record(pair.outcome);
        let ghost p = self.pentanomial;
        let ghost o = *old(self);
        proof {
            o.lemma_after_game(pair.game1, p);
            assert(*self == MatchStats { pentanomial: p, ..o });
        }
        self.record_game(&pair.game1);
        proof {
            o.after_game(pair.game1).lemma_after_game(pair.game2, p);
        }
        self.record_game(&pair.game2);
    }

    /// Games recorded.
    pub fn total_games(&self) -> (r: u64)
        requires
            self.spec_total_games() <= u64::MAX,
        ensures
            r == self.spec_total_games(),
    {
        self.dev_wins + self.dev_losses + self.draws
    }
}

} // verus!
