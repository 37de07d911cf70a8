//! The bridge's session: what it knows between events from the site and from its engine, and
//! what it does on each.
//!
//! Each event is a method that updates the session and returns the action to take (a reply to
//! the site, a search request for the engine); the caller performs the action.

use std::collections::VecDeque;

use vstd::prelude::*;

use crate::bridge::config::{copy_string, is_text};
use crate::bridge::controller::{
    average_latency, challenge_decision, go_command, site_square, spec_average_latency,
    spec_site_square, sum_seq, AcceptRule, ChallengeDecision, TIME_BUFFER,
};
use crate::bridge::models::GoCommand;

verus! {

/// At most this many latency samples are kept, the newest.
pub const LATENCY_SAMPLES: usize = 10;

/// The game being played.
pub struct ActiveGame {
    /// Empty until the game starts.
    pub game_id: String,
    /// `white` or `black`; empty until the game starts.
    pub my_color: String,
    /// The challenge accepted for this game, until it starts.
    pub pending_challenge_id: Option<u64>,
    pub rule: AcceptRule,
    pub matched_incr_ms: i64,
    pub matched_time_ms: u64,
    /// Moves our engine has made.
    pub moves_played: u32,
}

/// What a rematch of the last game needs.
pub struct LastGame {
    pub rule: AcceptRule,
    pub matched_time_ms: u64,
    pub matched_incr_ms: i64,
}

/// Everything the bridge keeps between events.
pub struct Session {
    pub rules: Vec<AcceptRule>,
    pub active_game: Option<ActiveGame>,
    pub last_game: Option<LastGame>,
    /// Measured round trips, oldest first, in milliseconds.
    pub latency_samples: VecDeque<u64>,
    /// When the unanswered ping was sent, in milliseconds on the caller's clock.
    pub ping_sent_at: Option<u64>,
    pub shutting_down: bool,
}

/// A copy of a list of strings.
fn copy_strings(v: &Vec<String>) -> (r: Vec<String>)
    ensures
        r@.map_values(|s: String| s@) == v@.map_values(|s: String| s@),
{
    let mut r: Vec<String> = Vec::new();
    let mut i: usize = 0;
    while i < v.len()
        invariant
            i <= v.len(),
            r.len() == i,
            r@.map_values(|s: String| s@) == v@.take(i as int).map_values(|s: String| s@),
        decreases v.len() - i,
    {
        let s = copy_string(&v[i]);
        let ghost before = r@;
        r.push(s);
        proof {
            let a = r@.map_values(|s: String| s@);
            let b = v@.take(i + 1).map_values(|s: String| s@);
            assert(a.len() == b.len());
            assert forall|k: int| 0 <= k < a.len() implies a[k] == b[k] by {
                if k < i {
                    assert(r@[k] == before[k]);
                    assert(before.map_values(|s: String| s@)[k] == v@.take(i as int).map_values(
                        |s: String| s@,
                    )[k]);
                }
            }
            assert(a =~= b);
        }
        i += 1;
    }
    assert(v@.take(i as int) =~= v@);
    r
}

/// A copy of a rule.
pub fn copy_rule(rule: &AcceptRule) -> (r: AcceptRule)
    ensures
        r@ == rule@,
{
    let engine_set = match &rule.engine_set {
        Some(s) => Some(copy_string(s)),
        None => None,
    };
    AcceptRule {
        time: rule.time,
        incr: rule.incr,
        engine_cmd: copy_string(&rule.engine_cmd),
        engine_args: copy_strings(&rule.engine_args),
        engine_set,
    }
}

/// The samples after one more measurement: the oldest is dropped when there are already
/// `LATENCY_SAMPLES`.
pub open spec fn samples_after(s: Seq<u64>, latency: u64) -> Seq<u64> {
    if s.len() >= LATENCY_SAMPLES {
        s.drop_first().push(latency)
    } else {
        s.push(latency)
    }
}

/// At most `LATENCY_SAMPLES` samples are kept, the newest last.
pub proof fn law_samples_window(s: Seq<u64>, latency: u64)
    requires
        s.len() <= LATENCY_SAMPLES,
    ensures
        samples_after(s, latency).len() <= LATENCY_SAMPLES,
        samples_after(s, latency).last() == latency,
        s.len() < LATENCY_SAMPLES ==> samples_after(s, latency).drop_last() == s,
{
    assert(s.len() < LATENCY_SAMPLES ==> s.push(latency).drop_last() =~= s);
}

/// The milliseconds left on our clock, from the site's timers in seconds.
pub open spec fn ms_left(my_color: Seq<char>, white_secs: u32, black_secs: u32) -> int {
    (if my_color == "white"@ {
        white_secs
    } else {
        black_secs
    }) * 1000
}

/// A search request built from the session's latency can be computed without overflow.
pub open spec fn go_fits(samples: Seq<u64>, matched_incr_ms: i64) -> bool {
    &&& sum_seq(samples) <= u64::MAX
    &&& spec_average_latency(samples) + TIME_BUFFER <= u64::MAX
    &&& spec_average_latency(samples) <= i64::MAX
    &&& matched_incr_ms - spec_average_latency(samples) >= i64::MIN
}

/// What to do after a move on the site: tell the engine, and ask for a search when it is our turn.
pub struct MoveAction {
    pub play: String,
    pub go: Option<GoCommand>,
}

/// A move to make on the site.
pub struct SiteMove {
    pub game_id: String,
    pub row: u8,
    pub col: u8,
}

impl Session {
    /// A session with the given rules, no game and no samples.
    pub fn new(rules: Vec<AcceptRule>) -> (r: Session)
        ensures
            r.rules@ == rules@,
            r.active_game is None,
            r.last_game is None,
            r.latency_samples@ == Seq::<u64>::empty(),
            r.ping_sent_at is None,
            !r.shutting_down,
    {
        Session {
            rules,
            active_game: None,
            last_game: None,
            latency_samples: VecDeque::new(),
            ping_sent_at: None,
            shutting_down: false,
        }
    }

    /// Whether the bridge is done: shutting down with no game left.
    pub fn should_exit(&self) -> (r: bool)
        ensures
            r == (self.shutting_down && self.active_game is None),
    {
        self.shutting_down && self.active_game.is_none()
    }

    /// Ctrl-C: refuse new games, and stop once the current one ends.
    pub fn on_ctrl_c(&mut self)
        ensures
            final(self).shutting_down,
            final(self).rules@ == old(self).rules@,
            final(self).active_game == old(self).active_game,
            final(self).last_game == old(self).last_game,
            final(self).latency_samples@ == old(self).latency_samples@,
            final(self).ping_sent_at == old(self).ping_sent_at,
    {
        self.shutting_down = true;
    }

    /// The configuration file was read again.
    pub fn on_config_reloaded(&mut self, rules: Vec<AcceptRule>)
        ensures
            final(self).rules@ == rules@,
            final(self).active_game == old(self).active_game,
            final(self).last_game == old(self).last_game,
            final(self).latency_samples@ == old(self).latency_samples@,
            final(self).ping_sent_at == old(self).ping_sent_at,
            final(self).shutting_down == old(self).shutting_down,
    {
        self.rules = rules;
    }

    /// A ping went out at `at`.
    pub fn on_ping_sent(&mut self, at: u64)
        ensures
            final(self).ping_sent_at == Some(at),
            final(self).rules@ == old(self).rules@,
            final(self).active_game == old(self).active_game,
            final(self).last_game == old(self).last_game,
            final(self).latency_samples@ == old(self).latency_samples@,
            final(self).shutting_down == old(self).shutting_down,
    {
        self.ping_sent_at = Some(at);
    }

    /// A pong came back at `now`: the round trip since the ping is a new sample; a pong with no
    /// ping out is ignored.
    pub fn on_pong(&mut self, now: u64)
        ensures
            final(self).ping_sent_at is None,
            final(self).latency_samples@ == match old(self).ping_sent_at {
                Some(at) => samples_after(
                    old(self).latency_samples@,
                    if now >= at {
                        (now - at) as u64
                    } else {
                        0
                    },
                ),
                None => old(self).latency_samples@,
            },
            final(self).rules@ == old(self).rules@,
            final(self).active_game == old(self).active_game,
            final(self).last_game == old(self).last_game,
            final(self).shutting_down == old(self).shutting_down,
    {
        if let Some(at) = self.ping_sent_at {
            self.ping_sent_at = None;
            let latency = now.saturating_sub(at);
            if self.latency_samples.len() >= LATENCY_SAMPLES {
                self.latency_samples.pop_front();
            }
            self.latency_samples.push_back(latency);
            proof {
                assert(old(self).latency_samples@.len() >= LATENCY_SAMPLES ==> old(
                    self,
                ).latency_samples@.subrange(1, old(self).latency_samples@.len() as int)
                    =~= old(self).latency_samples@.drop_first());
            }
        }
    }

    /// The mean measured latency, or the default before any measurement.
    pub fn average_latency(&self) -> (r: u64)
        requires
            sum_seq(self.latency_samples@) <= u64::MAX,
        ensures
            r == spec_average_latency(self.latency_samples@),
    {
        average_latency(&self.latency_samples)
    }

    /// A challenge arrived: whether to decline it, or accept it with which rule.
    pub fn on_challenge(&self, minutes: u32, incr_seconds: u32) -> (r: ChallengeDecision)
        ensures
            r == crate::bridge::controller::spec_challenge_decision(
                self.shutting_down,
                self.active_game is Some,
                self.rules@,
                minutes as int,
                incr_seconds as int,
            ),
    {
        challenge_decision(
            self.shutting_down,
            self.active_game.is_some(),
            self.rules.as_slice(),
            minutes,
            incr_seconds,
        )
    }

    /// The site took our acceptance of challenge `challenge_id` under rule `rule` and the
    /// engine is running: the game is pending until it starts.
    pub fn on_challenge_accepted(
        &mut self,
        challenge_id: u64,
        rule: usize,
        minutes: u32,
        incr_seconds: u32,
    )
        requires
            rule < old(self).rules@.len(),
        ensures
            final(self).active_game matches Some(g) && g.game_id@ == Seq::<char>::empty()
                && g.my_color@ == Seq::<char>::empty() && g.pending_challenge_id == Some(challenge_id)
                && g.rule@ == old(self).rules@[rule as int]@ && g.matched_incr_ms == incr_seconds
                * 1000 && g.matched_time_ms == minutes * 60 * 1000 && g.moves_played == 0,
            final(self).rules@ == old(self).rules@,
            final(self).last_game == old(self).last_game,
            final(self).latency_samples@ == old(self).latency_samples@,
            final(self).ping_sent_at == old(self).ping_sent_at,
            final(self).shutting_down == old(self).shutting_down,
    {
        let r = copy_rule(&self.rules[rule]);
        self.active_game = Some(
            ActiveGame {
                game_id: String::new(),
                my_color: String::new(),
                pending_challenge_id: Some(challenge_id),
                rule: r,
                matched_incr_ms: incr_seconds as i64 * 1000,
                matched_time_ms: minutes as u64 * 60 * 1000,
                moves_played: 0,
            },
        );
    }

    /// The game started: it takes its id and our color. Returns whether there was a pending
    /// game, whose engine is then to be synchronized.
    pub fn on_game_start(&mut self, game_id: String, player_color: String) -> (r: bool)
        ensures
            r == (old(self).active_game is Some),
            match old(self).active_game {
                Some(g) => final(self).active_game == Some(
                    (ActiveGame { game_id, my_color: player_color, ..g }),
                ),
                None => final(self).active_game is None,
            },
            final(self).rules@ == old(self).rules@,
            final(self).last_game == old(self).last_game,
            final(self).latency_samples@ == old(self).latency_samples@,
            final(self).ping_sent_at == old(self).ping_sent_at,
            final(self).shutting_down == old(self).shutting_down,
    {
        match &mut self.active_game {
            Some(g) => {
                g.game_id = game_id;
                g.my_color = player_color;
                true
            },
            None => false,
        }
    }

    /// A game ended: if it is ours, remember it for a rematch and leave it.
    pub fn on_game_end(&mut self, game_id: &String)
        ensures
            match old(self).active_game {
                Some(g) => if g.game_id@ == game_id@ {
                    &&& final(self).active_game is None
                    &&& final(self).last_game matches Some(l) && l.rule@ == g.rule@
                        && l.matched_time_ms == g.matched_time_ms && l.matched_incr_ms
                        == g.matched_incr_ms
                } else {
                    final(self).active_game == old(self).active_game && final(self).last_game
                        == old(self).last_game
                },
                None => final(self).active_game is None && final(self).last_game == old(
                    self,
                ).last_game,
            },
            final(self).rules@ == old(self).rules@,
            final(self).latency_samples@ == old(self).latency_samples@,
            final(self).ping_sent_at == old(self).ping_sent_at,
            final(self).shutting_down == old(self).shutting_down,
    {
        let ours = match &self.active_game {
            Some(g) => g.game_id == *game_id,
            None => false,
        };
        if ours {
            let g = self.active_game.take().unwrap();
            self.last_game = Some(
                LastGame {
                    rule: g.rule,
                    matched_time_ms: g.matched_time_ms,
                    matched_incr_ms: g.matched_incr_ms,
                },
            );
        }
    }

    /// A rematch was requested: accept only after a game, when not playing and not shutting
    /// down.
    pub fn on_rematch_requested(&self) -> (r: bool)
        ensures
            r == (!self.shutting_down && self.last_game is Some && self.active_game is None),
    {
        crate::bridge::controller::rematch_decision(
            self.shutting_down,
            self.last_game.is_some(),
            self.active_game.is_some(),
        )
    }

    /// The rematch was accepted: unless a game is running, the last game's rule and clock are
    /// handed out (and forgotten) to start its engine.
    pub fn on_rematch_accepted(&mut self) -> (r: Option<LastGame>)
        ensures
            old(self).active_game is Some ==> r is None && final(self).last_game == old(
                self,
            ).last_game,
            old(self).active_game is None ==> r == old(self).last_game && final(self).last_game is None,
            final(self).active_game == old(self).active_game,
            final(self).rules@ == old(self).rules@,
            final(self).latency_samples@ == old(self).latency_samples@,
            final(self).ping_sent_at == old(self).ping_sent_at,
            final(self).shutting_down == old(self).shutting_down,
    {
        if self.active_game.is_some() {
            return None;
        }
        self.last_game.take()
    }

    /// The rematch's engine is running: the rematch is the game now.
    pub fn start_rematch(&mut self, game_id: String, player_color: String, last: LastGame)
        ensures
            final(self).active_game == Some(
                (ActiveGame {
                    game_id,
                    my_color: player_color,
                    pending_challenge_id: None,
                    rule: last.rule,
                    matched_incr_ms: last.matched_incr_ms,
                    matched_time_ms: last.matched_time_ms,
                    moves_played: 0,
                }),
            ),
            final(self).rules@ == old(self).rules@,
            final(self).last_game == old(self).last_game,
            final(self).latency_samples@ == old(self).latency_samples@,
            final(self).ping_sent_at == old(self).ping_sent_at,
            final(self).shutting_down == old(self).shutting_down,
    {
        self.active_game = Some(
            ActiveGame {
                game_id,
                my_color: player_color,
                pending_challenge_id: None,
                rule: last.rule,
                matched_incr_ms: last.matched_incr_ms,
                matched_time_ms: last.matched_time_ms,
                moves_played: 0,
            },
        );
    }

    /// A move was made on the site at `row` (0 at the top) and `col`: the engine is told, and
    /// when the site says it is now our turn, asked to search on our clock. Nothing is done
    /// without a game, or once the game is over.
    pub fn on_move_update(
        &self,
        row: u8,
        col: u8,
        current_player: &String,
        game_over: bool,
        white_secs: u32,
        black_secs: u32,
    ) -> (r: Option<MoveAction>)
        requires
            row <= 8,
            col <= 158,
            match self.active_game {
                Some(g) => !game_over && current_player@ == g.my_color@ ==> {
                    &&& ms_left(g.my_color@, white_secs, black_secs) <= u32::MAX
                    &&& go_fits(self.latency_samples@, g.matched_incr_ms)
                },
                None => true,
            },
        ensures
            match self.active_game {
                None => r is None,
                Some(g) => if game_over {
                    r is None
                } else {
                    r matches Some(a) && a.play@ == spec_site_square(row as int, col as int) && if current_player@
                        == g.my_color@ {
                        a.go == Some(
                            crate::bridge::controller::spec_go_command(
                                ms_left(g.my_color@, white_secs, black_secs) as u64,
                                g.matched_incr_ms,
                                spec_average_latency(self.latency_samples@) as u64,
                            ),
                        )
                    } else {
                        a.go is None
                    }
                },
            },
    {
        match &self.active_game {
            None => None,
            Some(g) => {
                if game_over {
                    return None;
                }
                let play = site_square(row, col);
                let go = if *current_player == g.my_color {
                    let secs = if is_text(&g.my_color, "white") {
                        white_secs
                    } else {
                        black_secs
                    };
                    proof {
                        reveal_strlit("white");
                    }
                    let left = (secs * 1000) as u64;
                    let avg = self.average_latency();
                    Some(go_command(left, g.matched_incr_ms, avg))
                } else {
                    None
                };
                Some(MoveAction { play, go })
            },
        }
    }

    /// The engine's best move: on the site's board, in our game, as a move to make there. The
    /// column is the first character's byte less `a`, the row eight less the second
    /// character's digit; a move of fewer than two characters is dropped.
    pub fn on_engine_best(&mut self, mv: &Vec<char>) -> (r: Option<SiteMove>)
        requires
            old(self).active_game matches Some(g) ==> g.moves_played < u32::MAX,
            old(self).active_game is Some && mv@.len() >= 2 ==> 97 <= (mv@[0] as u32) as u8 && 48
                <= (mv@[1] as u32) as u8 <= 56,
        ensures
            match old(self).active_game {
                Some(g) => if mv@.len() >= 2 {
                    &&& r matches Some(m) && m.game_id@ == g.game_id@ && m.row == 56 - (mv@[1] as u32) as u8
                        && m.col == (mv@[0] as u32) as u8 - 97
                    &&& final(self).active_game == Some(
                        (ActiveGame { moves_played: (g.moves_played + 1) as u32, ..g }),
                    )
                } else {
                    r is None && final(self).active_game == old(self).active_game
                },
                None => r is None && final(self).active_game is None,
            },
            final(self).rules@ == old(self).rules@,
            final(self).last_game == old(self).last_game,
            final(self).latency_samples@ == old(self).latency_samples@,
            final(self).ping_sent_at == old(self).ping_sent_at,
            final(self).shutting_down == old(self).shutting_down,
    {
        match &mut self.active_game {
            None => None,
            Some(g) => {
                if mv.len() < 2 {
                    return None;
                }
                let c = #[verifier::truncate] (mv[0] as u32 as u8);
                let d = #[verifier::truncate] (mv[1] as u32 as u8);
                let col = c - 97;
                let row = 8 - (d - 48);
                g.moves_played = g.moves_played + 1;
                Some(SiteMove { game_id: copy_string(&g.game_id), row, col })
            },
        }
    }

    /// The engine is ready: if we are white and have not moved yet, it is asked to search on
    /// the full clock.
    pub fn on_engine_ready(&self) -> (r: Option<GoCommand>)
        requires
            self.active_game matches Some(g) ==> go_fits(self.latency_samples@, g.matched_incr_ms),
        ensures
            match self.active_game {
                Some(g) => if g.my_color@ == "white"@ && g.moves_played == 0 {
                    r == Some(
                        crate::bridge::controller::spec_go_command(
                            g.matched_time_ms,
                            g.matched_incr_ms,
                            spec_average_latency(self.latency_samples@) as u64,
                        ),
                    )
                } else {
                    r is None
                },
                None => r is None,
            },
    {
        match &self.active_game {
            Some(g) => {
                if is_text(&g.my_color, "white") && g.moves_played == 0 {
                    let avg = self.average_latency();
                    Some(go_command(g.matched_time_ms, g.matched_incr_ms, avg))
                } else {
                    None
                }
            },
            None => None,
        }
    }
}

} // verus!
