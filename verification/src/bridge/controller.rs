//! The bridge's decisions: which challenges to take, how much clock to give the engine, and how
//! squares are written on each side.

use vstd::prelude::*;

use std::collections::VecDeque;

use crate::bridge::models::GoCommand;
use crate::text::push_char;

verus! {

/// Milliseconds kept back from the clock for safety.
pub const TIME_BUFFER: u64 = 2000;

/// Latency assumed before any ping has been measured, in milliseconds.
pub const DEFAULT_LATENCY: u64 = 500;

/// A time control the bridge accepts, and the engine it plays with.
#[derive(Debug, Clone)]
pub struct AcceptRule {
    /// Seconds per player.
    pub time: u64,
    /// Increment in seconds.
    pub incr: i64,
    pub engine_cmd: String,
    pub engine_args: Vec<String>,
    /// Settings sent to the engine first, as JSON text.
    pub engine_set: Option<String>,
}

/// What to do with a challenge.
#[derive(Debug, Clone, Copy, PartialEq, Eq, Structural)]
pub enum ChallengeDecision {
    /// The bridge is shutting down.
    DeclineShuttingDown,
    /// A game is already running.
    DeclineBusy,
    /// Play it with the engine of rule `rule`.
    Accept { rule: usize },
    /// No rule accepts the time control.
    DeclineNoRule,
}

/// Sum of the samples.
pub open spec fn sum_seq(s: Seq<u64>) -> int
    decreases s.len(),
{
    if s.len() == 0 {
        0
    } else {
        sum_seq(s.drop_last()) + s.last()
    }
}

/// The mean latency of the samples, rounded down, or the default when there is none.
pub open spec fn spec_average_latency(s: Seq<u64>) -> int {
    if s.len() == 0 {
        DEFAULT_LATENCY as int
    } else {
        sum_seq(s) / (s.len() as int)
    }
}

proof fn lemma_sum_prefix(s: Seq<u64>, i: int)
    requires
        0 <= i <= s.len(),
    ensures
        0 <= sum_seq(s.take(i)) <= sum_seq(s),
    decreases s.len() - i,
{
    if i < s.len() {
        lemma_sum_prefix(s, i + 1);
        assert(s.take(i + 1).drop_last() =~= s.take(i));
    } else {
        assert(s.take(i) =~= s);
    }
    lemma_sum_nonneg(s.take(i));
}

proof fn lemma_sum_nonneg(s: Seq<u64>)
    ensures
        sum_seq(s) >= 0,
    decreases s.len(),
{
    if s.len() > 0 {
        lemma_sum_nonneg(s.drop_last());
    }
}

/// The mean of the latency samples, in milliseconds.
pub fn average_latency(samples: &VecDeque<u64>) -> (r: u64)
    requires
        sum_seq(samples@) <= u64::MAX,
    ensures
        r == spec_average_latency(samples@),
{
    if samples.len() == 0 {
        return DEFAULT_LATENCY;
    }
    let mut sum: u64 = 0;
    let mut i: usize = 0;
    while i < samples.len()
        invariant
            i <= samples@.len(),
            sum == sum_seq(samples@.take(i as int)),
            sum_seq(samples@) <= u64::MAX,
        decreases samples@.len() - i,
    {
        proof {
            assert(samples@.take(i as int + 1).drop_last() =~= samples@.take(i as int));
            lemma_sum_prefix(samples@, i as int + 1);
        }
        sum = sum + samples[i];
        i += 1;
    }
    proof {
        assert(samples@.take(i as int) =~= samples@);
    }
    sum / (samples.len() as u64)
}

/// The search request for our move: the clock less a safety buffer and the latency (none left
/// when it does not cover them), and the increment less the latency.
pub open spec fn spec_go_command(ms_left: u64, matched_incr_ms: i64, average_latency_ms: u64) -> GoCommand {
    GoCommand {
        depth: None,
        nodes: None,
        time: None,
        clock_left: Some(
            if ms_left >= TIME_BUFFER + average_latency_ms {
                (ms_left - TIME_BUFFER - average_latency_ms) as u64
            } else {
                0
            },
        ),
        clock_incr: Some((matched_incr_ms - average_latency_ms) as i64),
    }
}

/// The search request for our move: the clock less a safety buffer and the latency, and the
/// increment less the latency.
pub fn go_command(ms_left: u64, matched_incr_ms: i64, average_latency_ms: u64) -> (r: GoCommand)
    requires
        average_latency_ms <= i64::MAX,
        TIME_BUFFER + average_latency_ms <= u64::MAX,
        matched_incr_ms - average_latency_ms >= i64::MIN,
    ensures
        r == spec_go_command(ms_left, matched_incr_ms, average_latency_ms),
{
    let real_left = ms_left.saturating_sub(TIME_BUFFER + average_latency_ms);
    let real_incr = matched_incr_ms - average_latency_ms as i64;
    GoCommand { depth: None, nodes: None, time: None, clock_left: Some(real_left), clock_incr: Some(real_incr) }
}

/// The first rule that accepts `time_sec` seconds with `incr_sec` increment.
pub open spec fn first_rule(rules: Seq<(u64, i64)>, time_sec: int, incr_sec: int, from: int) -> Option<
    int,
>
    decreases rules.len() - from,
{
    if from >= rules.len() || from < 0 {
        None
    } else if rules[from].0 == time_sec && rules[from].1 == incr_sec {
        Some(from)
    } else {
        first_rule(rules, time_sec, incr_sec, from + 1)
    }
}

/// The time controls of the rules.
pub open spec fn rule_controls(rules: Seq<AcceptRule>) -> Seq<(u64, i64)> {
    rules.map_values(|r: AcceptRule| (r.time, r.incr))
}

/// What to do with a challenge of `minutes` per player and `incr_seconds` increment: decline
/// while shutting down or playing, else accept with the first rule of that time control.
pub open spec fn spec_challenge_decision(
    shutting_down: bool,
    in_game: bool,
    rules: Seq<AcceptRule>,
    minutes: int,
    incr_seconds: int,
) -> ChallengeDecision {
    if shutting_down {
        ChallengeDecision::DeclineShuttingDown
    } else if in_game {
        ChallengeDecision::DeclineBusy
    } else {
        match first_rule(rule_controls(rules), minutes * 60, incr_seconds, 0) {
            Some(k) => ChallengeDecision::Accept { rule: k as usize },
            None => ChallengeDecision::DeclineNoRule,
        }
    }
}

/// What to do with a challenge of `minutes` per player and `incr_seconds` increment.
pub fn challenge_decision(
    shutting_down: bool,
    in_game: bool,
    rules: &[AcceptRule],
    minutes: u32,
    incr_seconds: u32,
) -> (r: ChallengeDecision)
    ensures
        r == spec_challenge_decision(shutting_down, in_game, rules@, minutes as int, incr_seconds as int),
{
    if shutting_down {
        return ChallengeDecision::DeclineShuttingDown;
    }
    if in_game {
        return ChallengeDecision::DeclineBusy;
    }
    let time_sec: u64 = minutes as u64 * 60;
    let incr_sec: i64 = incr_seconds as i64;
    let ghost c = rule_controls(rules@);
    let mut i: usize = 0;
    while i < rules.len()
        invariant
            !shutting_down && !in_game,
            time_sec == minutes * 60,
            incr_sec == incr_seconds,
            i <= rules@.len(),
            c == rule_controls(rules@),
            first_rule(c, minutes * 60, incr_seconds as int, 0) == first_rule(
                c,
                minutes * 60,
                incr_seconds as int,
                i as int,
            ),
        decreases rules@.len() - i,
    {
        assert(c[i as int] == (rules@[i as int].time, rules@[i as int].incr));
        if rules[i].time == time_sec && rules[i].incr == incr_sec {
            return ChallengeDecision::Accept { rule: i };
        }
        i += 1;
    }
    ChallengeDecision::DeclineNoRule
}

/// Whether to accept a rematch: only after a game, when not already playing and not shutting
/// down.
pub fn rematch_decision(shutting_down: bool, has_last_game: bool, in_game: bool) -> (r: bool)
    ensures
        r == (!shutting_down && has_last_game && !in_game),
{
    if shutting_down {
        return false;
    }
    has_last_game && !in_game
}

/// The engine's name for the square at `row` (0 at the top) and `col` on the site's board.
pub open spec fn spec_site_square(row: int, col: int) -> Seq<char> {
    seq![(97 + col) as char, (48 + 8 - row) as char]
}

/// The engine's name, such as `a1`, for the site's `row` and `col`.
pub fn site_square(row: u8, col: u8) -> (r: String)
    requires
        row <= 8,
        col <= 158,
    ensures
        r@ == spec_site_square(row as int, col as int),
{
    let mut s = String::new();
    push_char(&mut s, (97u8 + col) as char);
    push_char(&mut s, (48u8 + 8 - row) as char);
    proof {
        assert(s@ =~= spec_site_square(row as int, col as int));
    }
    s
}

/// The site's `(row, col)` for an engine move such as `a1`, if it has two characters that name a
/// square.
pub fn site_coords(mv: &Vec<char>) -> (r: Option<(u8, u8)>)
    ensures
        r == if mv@.len() >= 2 && 97 <= mv@[0] as u32 <= 104 && 49 <= mv@[1] as u32 <= 56 {
            Some(((56 - mv@[1] as u32) as u8, (mv@[0] as u32 - 97) as u8))
        } else {
            None::<(u8, u8)>
        },
{
    if mv.len() < 2 {
        return None;
    }
    let c = mv[0] as u32;
    let r = mv[1] as u32;
    if c < 97 || c > 104 || r < 49 || r > 56 {
        return None;
    }
    Some(((56 - r) as u8, (c - 97) as u8))
}

} // verus!
