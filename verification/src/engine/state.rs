//! The first engine's search state and move maker.
//!
//! Lines are found by index arithmetic on each bitboard: lane `l` steps by 1, 9, 7 and 8 squares,
//! and keeps a four only where it starts on a square of the lane's mask.

use vstd::prelude::*;

use crate::bits::{bit, group_bits, is_set, lemma_bits_ext, lemma_bits_zero, lemma_shl, lemma_shr};
use crate::engine::protocol::Limit;

verus! {

broadcast use group_bits;

/// What every search thread shares: when the search started, whether to stop, and the limits.
pub struct Global {
    /// Start of the search, in milliseconds on the caller's clock.
    pub started_at: u64,
    pub stop: bool,
    pub limits: Vec<Limit>,
}

impl Global {
    /// Milliseconds since the search started, `now` being the current time on the same clock.
    pub fn elapsed(&self, now: u64) -> (r: u64)
        ensures
            r == if now >= self.started_at {
                now - self.started_at
            } else {
                0
            },
    {
        now.saturating_sub(self.started_at)
    }
}

/// The countdown after `j` ticks from `c`, and whether the last of them passed zero: each tick
/// takes one off, wrapping from zero to `u32::MAX`.
pub open spec fn wrapping_ticks(c: u32, j: nat) -> (u32, bool)
    decreases j,
{
    if j == 0 {
        (c, false)
    } else {
        let d = wrapping_ticks(c, (j - 1) as nat).0;
        (if d == 0 {
            u32::MAX
        } else {
            (d - 1) as u32
        }, d == 0)
    }
}

/// From a countdown of `c` (zero for a new thread; after `reset_countdown`, the smaller of the
/// nodes left and 8192), the first `c` ticks do not pass zero and the next one does.
pub proof fn law_wrapping_countdown_run(c: u32, j: nat)
    requires
        1 <= j <= c + 1,
    ensures
        wrapping_ticks(c, j).1 == (j == c + 1),
        j <= c ==> wrapping_ticks(c, j).0 == c - j,
    decreases j,
{
    reveal_with_fuel(wrapping_ticks, 2);
    if j > 1 {
        law_wrapping_countdown_run(c, (j - 1) as nat);
    }
}

/// Node counters of one search thread.
pub struct Thread {
    pub nodes: u64,
    pub node_limit: u64,
    /// Nodes left before the next check of the limits, counting down through zero.
    pub countdown: u32,
}

impl Thread {
    /// Fresh counters; the first node checks the limits.
    pub fn new(node_limit: u64) -> (r: Thread)
        ensures
            r.nodes == 0,
            r.node_limit == node_limit,
            r.countdown == 0,
    {
        Thread { nodes: 0, node_limit, countdown: 0 }
    }

    /// Count down one node, wrapping; `true` when the count passes zero.
    pub fn tick_countdown(&mut self) -> (r: bool)
        ensures
            final(self).countdown == if old(self).countdown == 0 {
                u32::MAX
            } else {
                (old(self).countdown - 1) as u32
            },
            r == (old(self).countdown == 0),
            (final(self).countdown, r) == wrapping_ticks(old(self).countdown, 1),
            final(self).nodes == old(self).nodes,
            final(self).node_limit == old(self).node_limit,
    {
        proof {
            reveal_with_fuel(wrapping_ticks, 2);
        }
        self.countdown = self.countdown.wrapping_sub(1);
        self.countdown == u32::MAX
    }

    /// Check again after the nodes left, or after 8192 nodes if sooner.
    pub fn reset_countdown(&mut self)
        requires
            old(self).nodes <= old(self).node_limit,
        ensures
            final(self).countdown == if old(self).node_limit - old(self).nodes < 8192 {
                old(self).node_limit - old(self).nodes
            } else {
                8192
            },
            final(self).nodes == old(self).nodes,
            final(self).node_limit == old(self).node_limit,
    {
        let left = self.node_limit - self.nodes;
        self.countdown = if left < 8192 {
            left as u32
        } else {
            8192
        };
    }
}

/// One ply: the pieces of the player who made it, and the score from the side to move.
#[derive(Debug, Clone, Copy, PartialEq, Eq, Structural)]
pub struct Frame {
    pub opp_migo: u64,
    pub opp_yugo: u64,
    pub score: i32,
    pub ply: i32,
}

/// The mover's pieces and score (from the next side to move) after a move.
#[derive(Debug, Clone, Copy, PartialEq, Eq, Structural)]
pub struct MakeData {
    pub migo: u64,
    pub yugo: u64,
    pub score: i32,
}

/// How a move went.
#[derive(Debug, Clone, Copy, PartialEq, Eq, Structural)]
pub enum MakeResult {
    /// The move was made.
    Made(MakeData),
    /// The move makes a line of five or more.
    Illegal,
    /// The move ends the game.
    Igo,
}

/// Index step of lane `l`.
pub open spec fn step(l: int) -> int {
    if l == 0 {
        1
    } else if l == 1 {
        9
    } else if l == 2 {
        7
    } else {
        8
    }
}

/// The squares where lane `l` may start a four.
pub open spec fn start_mask(l: int) -> u64 {
    if l == 0 {
        0x1F1F1F1F1F1F1F1F
    } else if l == 1 {
        0x0000001F1F1F1F1F
    } else if l == 2 {
        0x000000FFFFFFFFFF
    } else {
        0x000000F8F8F8F8F8
    }
}

/// `j` starts four squares of `m` along lane `l`.
pub open spec fn four_from(m: u64, l: int, j: int) -> bool {
    let s = step(l);
    &&& is_set(start_mask(l), j)
    &&& is_set(m, j) && is_set(m, j + s) && is_set(m, j + 2 * s) && is_set(m, j + 3 * s)
}

/// Square `i` lies in a four of `m` along lane `l`.
pub open spec fn covered(m: u64, l: int, i: int) -> bool {
    let s = step(l);
    four_from(m, l, i) || four_from(m, l, i - s) || four_from(m, l, i - 2 * s) || four_from(
        m,
        l,
        i - 3 * s,
    )
}

pub open spec fn covered_any(m: u64, i: int) -> bool {
    covered(m, 0, i) || covered(m, 1, i) || covered(m, 2, i) || covered(m, 3, i)
}

/// Lane `l` holds a four.
pub open spec fn lane_has_four(m: u64, l: int) -> bool {
    exists|j: int| #[trigger] four_from(m, l, j)
}

/// Some lane holds two fours one step apart: five in a row.
pub open spec fn has_five(m: u64) -> bool {
    exists|l: int, j: int| 0 <= l < 4 && #[trigger] four_from(m, l, j) && four_from(m, l, j + step(l))
}

/// How many lanes' covers reach the last square (the high bit of each lane).
pub open spec fn top_count(m: u64) -> int {
    (if covered(m, 0, 63) {
        1int
    } else {
        0
    }) + (if covered(m, 1, 63) {
        1int
    } else {
        0
    }) + (if covered(m, 2, 63) {
        1int
    } else {
        0
    }) + (if covered(m, 3, 63) {
        1int
    } else {
        0
    })
}

/// The result of `make`.
pub open spec fn spec_make(prev: Frame, cur: Frame, mv: int) -> MakeResult {
    let migo = prev.opp_migo | bit(mv);
    let own = migo | prev.opp_yugo;
    let yugo = prev.opp_yugo | bit(mv);
    if !(lane_has_four(own, 0) || lane_has_four(own, 1) || lane_has_four(own, 2) || lane_has_four(
        own,
        3,
    )) {
        MakeResult::Made(MakeData { migo, yugo: prev.opp_yugo, score: -cur.score as i32 })
    } else if has_five(own) {
        MakeResult::Illegal
    } else if exists|l: int, i: int| 0 <= l < 4 && #[trigger] covered(own, l, i) && !is_set(yugo, i) {
        MakeResult::Igo
    } else {
        MakeResult::Made(
            MakeData {
                migo: crate::itgo::state::bits_where(|i: int| is_set(migo, i) && !covered_any(own, i)),
                yugo,
                score: (-(cur.score + top_count(own))) as i32,
            },
        )
    }
}

/// Per-lane values of the computation.
struct Lanes {
    f: [u64; 4],
    cover: [u64; 4],
}

fn lane_step(l: usize) -> (r: u64)
    requires
        l < 4,
    ensures
        r == step(l as int),
{
    if l == 0 {
        1
    } else if l == 1 {
        9
    } else if l == 2 {
        7
    } else {
        8
    }
}

fn lane_mask(l: usize) -> (r: u64)
    requires
        l < 4,
    ensures
        r == start_mask(l as int),
{
    if l == 0 {
        0x1F1F1F1F1F1F1F1F
    } else if l == 1 {
        0x0000001F1F1F1F1F
    } else if l == 2 {
        0x000000FFFFFFFFFF
    } else {
        0x000000F8F8F8F8F8
    }
}

/// The fours of `m` along lane `l`, by starting square, and the squares they cover.
fn lane_fours(m: u64, l: usize) -> (r: (u64, u64))
    requires
        l < 4,
    ensures
        forall|j: int| 0 <= j < 64 ==> #[trigger] is_set(r.0, j) == four_from(m, l as int, j),
        forall|i: int| 0 <= i < 64 ==> #[trigger] is_set(r.1, i) == covered(m, l as int, i),
{
    let s = lane_step(l);
    let a = m & (m >> s);
    let f = (a & ((a >> s) >> s)) & lane_mask(l);
    let c = f | (f << s);
    let cover = c | ((c << s) << s);
    proof {
        assert forall|j: int| 0 <= j < 64 implies #[trigger] is_set(f, j) == four_from(m, l as int, j) by {
            lemma_shr(m, s, j);
            lemma_shr(a, s, j);
            lemma_shr(a >> s, s, j);
            lemma_shr(a, s, j + s);
            lemma_shr(m, s, j + 2 * s);
            lemma_shr(m, s, j + s);
        }
        assert forall|i: int| 0 <= i < 64 implies #[trigger] is_set(cover, i) == covered(m, l as int, i) by {
            lemma_shl(f, s, i);
            lemma_shl(c, s, i);
            lemma_shl(c << s, s, i);
            lemma_shl(c, s, i - s);
            lemma_shl(f, s, i - s);
            lemma_shl(f, s, i - 2 * s);
            if i - s >= 0 {
                assert(is_set(f, i - s) == four_from(m, l as int, i - s));
            }
            if i - 2 * s >= 0 {
                assert(is_set(f, i - 2 * s) == four_from(m, l as int, i - 2 * s));
            }
            if i - 3 * s >= 0 {
                assert(is_set(f, i - 3 * s) == four_from(m, l as int, i - 3 * s));
            }
        }
    }
    (f, cover)
}

/// Place a migo of the side to move on `mv`; a line of four turns the piece into a yugo, and a
/// line of five is illegal.
pub fn make(prev: &Frame, cur: &Frame, mv: u8) -> (r: MakeResult)
    requires
        mv < 64,
        i32::MIN + 4 < cur.score,
        cur.score + 4 <= i32::MAX,
    ensures
        r == spec_make(*prev, *cur, mv as int),
{
    let b = 1u64 << (mv as u64);
    assert(b == bit(mv as int));
    let migo = prev.opp_migo | b;
    let own = migo | prev.opp_yugo;
    let yugo = prev.opp_yugo | b;
    let (f0, c0) = lane_fours(own, 0);
    let (f1, c1) = lane_fours(own, 1);
    let (f2, c2) = lane_fours(own, 2);
    let (f3, c3) = lane_fours(own, 3);
    proof {
        lemma_bits_zero(f0);
        lemma_bits_zero(f1);
        lemma_bits_zero(f2);
        lemma_bits_zero(f3);
        lemma_lane_nonzero(own, 0, f0);
        lemma_lane_nonzero(own, 1, f1);
        lemma_lane_nonzero(own, 2, f2);
        lemma_lane_nonzero(own, 3, f3);
    }
    if f0 | f1 | f2 | f3 == 0 {
        proof {
            lemma_bits_zero(f0 | f1 | f2 | f3);
            if f0 != 0 {
                let j = choose|j: int| 0 <= j < 64 && is_set(f0, j);
                assert(is_set(f0 | f1 | f2 | f3, j));
            }
            if f1 != 0 {
                let j = choose|j: int| 0 <= j < 64 && is_set(f1, j);
                assert(is_set(f0 | f1 | f2 | f3, j));
            }
            if f2 != 0 {
                let j = choose|j: int| 0 <= j < 64 && is_set(f2, j);
                assert(is_set(f0 | f1 | f2 | f3, j));
            }
            if f3 != 0 {
                let j = choose|j: int| 0 <= j < 64 && is_set(f3, j);
                assert(is_set(f0 | f1 | f2 | f3, j));
            }
        }
        return MakeResult::Made(MakeData { migo, yugo: prev.opp_yugo, score: -cur.score });
    }
    proof {
        if f0 | f1 | f2 | f3 != 0 {
            lemma_bits_zero(f0 | f1 | f2 | f3);
        }
    }
    let five = (f0 & (f0 >> 1u64)) | (f1 & (f1 >> 9u64)) | (f2 & (f2 >> 7u64)) | (f3 & (f3 >> 8u64));
    proof {
        lemma_five(own, f0, f1, f2, f3, five);
    }
    if five != 0 {
        return MakeResult::Illegal;
    }
    let not_yugo = !yugo;
    let open = (c0 & not_yugo) | (c1 & not_yugo) | (c2 & not_yugo) | (c3 & not_yugo);
    proof {
        lemma_bits_zero(open);
        if open != 0 {
            let i = choose|i: int| 0 <= i < 64 && is_set(open, i);
            if is_set(c0 & not_yugo, i) {
                assert(covered(own, 0, i));
            } else if is_set(c1 & not_yugo, i) {
                assert(covered(own, 1, i));
            } else if is_set(c2 & not_yugo, i) {
                assert(covered(own, 2, i));
            } else {
                assert(covered(own, 3, i));
            }
        } else {
            assert forall|l: int, i: int| 0 <= l < 4 && #[trigger] covered(own, l, i) implies is_set(
                yugo,
                i,
            ) by {
                lemma_covered_range(own, l, i);
                assert(!is_set(open, i));
            }
        }
    }
    if open != 0 {
        return MakeResult::Igo;
    }
    let lines = c0 | c1 | c2 | c3;
    let new_migo = migo & !lines;
    let mut count: i32 = 0;
    if (c0 >> 63u64) & 1 == 1 {
        count += 1;
    }
    if (c1 >> 63u64) & 1 == 1 {
        count += 1;
    }
    if (c2 >> 63u64) & 1 == 1 {
        count += 1;
    }
    if (c3 >> 63u64) & 1 == 1 {
        count += 1;
    }
    proof {
        assert(is_set(c0, 63) == covered(own, 0, 63));
        assert(is_set(c1, 63) == covered(own, 1, 63));
        assert(is_set(c2, 63) == covered(own, 2, 63));
        assert(is_set(c3, 63) == covered(own, 3, 63));
        assert forall|i: int| 0 <= i < 64 implies #[trigger] is_set(new_migo, i) == (is_set(migo, i)
            && !covered_any(own, i)) by {
            assert(is_set(c0, i) == covered(own, 0, i));
            assert(is_set(c1, i) == covered(own, 1, i));
            assert(is_set(c2, i) == covered(own, 2, i));
            assert(is_set(c3, i) == covered(own, 3, i));
        }
        crate::itgo::state::lemma_bits_where(|i: int| is_set(migo, i) && !covered_any(own, i), new_migo);
    }
    MakeResult::Made(MakeData { migo: new_migo, yugo, score: -(cur.score + count) })
}

proof fn lemma_covered_range(m: u64, l: int, i: int)
    requires
        0 <= l < 4,
        covered(m, l, i),
    ensures
        0 <= i < 64,
{
}

proof fn lemma_lane_nonzero(m: u64, l: int, f: u64)
    requires
        0 <= l < 4,
        forall|j: int| 0 <= j < 64 ==> #[trigger] is_set(f, j) == four_from(m, l, j),
    ensures
        f != 0 <==> lane_has_four(m, l),
{
    lemma_bits_zero(f);
    if lane_has_four(m, l) {
        let j = choose|j: int| #[trigger] four_from(m, l, j);
        assert(is_set(f, j));
    }
    if f != 0 {
        let j = choose|j: int| 0 <= j < 64 && is_set(f, j);
        assert(four_from(m, l, j));
    }
}

proof fn lemma_five(m: u64, f0: u64, f1: u64, f2: u64, f3: u64, five: u64)
    requires
        forall|j: int| 0 <= j < 64 ==> #[trigger] is_set(f0, j) == four_from(m, 0, j),
        forall|j: int| 0 <= j < 64 ==> #[trigger] is_set(f1, j) == four_from(m, 1, j),
        forall|j: int| 0 <= j < 64 ==> #[trigger] is_set(f2, j) == four_from(m, 2, j),
        forall|j: int| 0 <= j < 64 ==> #[trigger] is_set(f3, j) == four_from(m, 3, j),
        five == (f0 & (f0 >> 1u64)) | (f1 & (f1 >> 9u64)) | (f2 & (f2 >> 7u64)) | (f3 & (f3 >> 8u64)),
    ensures
        five != 0 <==> has_five(m),
{
    lemma_bits_zero(five);
    if five != 0 {
        let j = choose|j: int| 0 <= j < 64 && is_set(five, j);
        lemma_shr(f0, 1, j);
        lemma_shr(f1, 9, j);
        lemma_shr(f2, 7, j);
        lemma_shr(f3, 8, j);
        if is_set(f0 & (f0 >> 1u64), j) {
            assert(four_from(m, 0, j) && four_from(m, 0, j + 1));
        } else if is_set(f1 & (f1 >> 9u64), j) {
            assert(four_from(m, 1, j) && four_from(m, 1, j + 9));
        } else if is_set(f2 & (f2 >> 7u64), j) {
            assert(four_from(m, 2, j) && four_from(m, 2, j + 7));
        } else {
            assert(four_from(m, 3, j) && four_from(m, 3, j + 8));
        }
    }
    if has_five(m) {
        let (l, j) = choose|l: int, j: int|
            0 <= l < 4 && #[trigger] four_from(m, l, j) && four_from(m, l, j + step(l));
        lemma_shr(f0, 1, j);
        lemma_shr(f1, 9, j);
        lemma_shr(f2, 7, j);
        lemma_shr(f3, 8, j);
        assert(is_set(five, j));
    }
}

/// Write the move into the frame that follows it.
pub fn apply(f: &mut Frame, make: MakeData)
    ensures
        *final(f) == (Frame { opp_migo: make.migo, opp_yugo: make.yugo, score: make.score, ply: old(f).ply }),
{
    f.opp_migo = make.migo;
    f.opp_yugo = make.yugo;
    f.score = make.score;
}

/// An empty game: frames for plies -1 to 415, the current one at index 1.
pub struct Position {
    pub stack: Vec<Frame>,
    pub index: usize,
    pub unplayable: bool,
}

impl Default for Position {
    fn default() -> (r: Position)
        ensures
            r.stack@.len() == 417,
            forall|k: int| 0 <= k < 417 ==> (#[trigger] r.stack@[k]) == (Frame {
                opp_migo: 0,
                opp_yugo: 0,
                score: 0,
                ply: (k - 1) as i32,
            }),
            r.index == 1,
            !r.unplayable,
    {
        let mut stack: Vec<Frame> = Vec::new();
        let mut k: usize = 0;
        while k < 417
            invariant
                k <= 417,
                stack@.len() == k,
                forall|j: int| 0 <= j < k ==> (#[trigger] stack@[j]) == (Frame {
                    opp_migo: 0,
                    opp_yugo: 0,
                    score: 0,
                    ply: (j - 1) as i32,
                }),
            decreases 417 - k,
        {
            stack.push(Frame { opp_migo: 0, opp_yugo: 0, score: 0, ply: k as i32 - 1 });
            k += 1;
        }
        Position { stack, index: 1, unplayable: false }
    }
}

/// Why a position refused a request.
#[derive(Debug, Clone, Copy, PartialEq, Eq, Structural)]
pub enum PositionError {
    /// More moves were to be taken back than were played.
    TooManyUndos,
    /// A move came after the game had ended.
    Unplayable,
    /// A search was asked for after the game had ended.
    Unsearchable,
}

/// The message of each refusal.
pub open spec fn spec_position_error_message(e: PositionError) -> Seq<char> {
    match e {
        PositionError::TooManyUndos => "Too many undos"@,
        PositionError::Unplayable => "Cannot play on this game state"@,
        PositionError::Unsearchable => "Cannot search this game state"@,
    }
}

impl PositionError {
    /// The message sent for this refusal.
    pub fn message(&self) -> (r: &'static str)
        ensures
            r@ == spec_position_error_message(*self),
    {
        match self {
            PositionError::TooManyUndos => "Too many undos",
            PositionError::Unplayable => "Cannot play on this game state",
            PositionError::Unsearchable => "Cannot search this game state",
        }
    }
}

/// Whether `make` can be asked to move from frame `i` of `s`: both frames exist, one is left to
/// write, and the score is four away from the bounds of `i32`.
pub open spec fn can_make(s: Seq<Frame>, i: int) -> bool {
    &&& 1 <= i && i + 1 < s.len()
    &&& i32::MIN + 4 < s[i].score && s[i].score + 4 <= i32::MAX
}

/// The frames, current index and ended flag after playing `mvs` one by one from frame `index` of
/// `stack`, and whether a move was refused because the game had ended. A move that forms a line
/// of five, or that `make` cannot be asked for, gives `None`.
pub open spec fn spec_play_run(stack: Seq<Frame>, index: int, ended: bool, mvs: Seq<crate::engine::protocol::Mv>) -> Option<
    (Seq<Frame>, int, bool, bool),
>
    decreases mvs.len(),
{
    if mvs.len() == 0 {
        Some((stack, index, ended, false))
    } else {
        match spec_play_run(stack, index, ended, mvs.drop_last()) {
            None => None,
            Some((s, i, u, refused)) => if refused || u {
                Some((s, i, u, true))
            } else if !can_make(s, i) {
                None
            } else {
                match spec_make(s[i - 1], s[i], mvs.last()@) {
                    MakeResult::Made(d) => Some(
                        (
                            s.update(
                                i + 1,
                                Frame { opp_migo: d.migo, opp_yugo: d.yugo, score: d.score, ply: s[i + 1].ply },
                            ),
                            i + 1,
                            false,
                            false,
                        ),
                    ),
                    MakeResult::Illegal => None,
                    MakeResult::Igo => Some((s, i, true, false)),
                }
            },
        }
    }
}

proof fn lemma_refused_stays(
    stack: Seq<Frame>,
    index: int,
    ended: bool,
    mvs: Seq<crate::engine::protocol::Mv>,
    k: int,
    j: int,
)
    requires
        0 <= k <= j <= mvs.len(),
        spec_play_run(stack, index, ended, mvs.take(k)) matches Some((_, _, u, r)) && (u || r),
    ensures
        spec_play_run(stack, index, ended, mvs.take(k)) matches Some((s, i, u, r))
            && spec_play_run(stack, index, ended, mvs.take(j)) == Some((s, i, u, r || j > k)),
    decreases j - k,
{
    if j > k {
        lemma_refused_stays(stack, index, ended, mvs, k, j - 1);
        assert(mvs.take(j).drop_last() =~= mvs.take(j - 1));
    }
}

impl Position {
    /// Takes back `n` moves; the game can be played on again when at least one was taken back.
    pub fn undo(&mut self, n: usize) -> (r: Result<(), PositionError>)
        ensures
            final(self).stack@ == old(self).stack@,
            n < old(self).index ==> r is Ok && final(self).index == old(self).index - n
                && final(self).unplayable == (old(self).unplayable && n == 0),
            n >= old(self).index ==> r == Err::<(), PositionError>(PositionError::TooManyUndos)
                && final(self).index == old(self).index && final(self).unplayable == old(self).unplayable,
    {
        if n >= self.index {
            return Err(PositionError::TooManyUndos);
        }
        if n > 0 {
            self.unplayable = false;
        }
        self.index = self.index - n;
        Ok(())
    }

    /// Plays `mvs` one by one, each on the frame after the current one; a move that ends the game
    /// leaves the position unplayable, and a move after that is refused.
    pub fn play(&mut self, mvs: &[crate::engine::protocol::Mv]) -> (r: Result<(), PositionError>)
        requires
            spec_play_run(old(self).stack@, old(self).index as int, old(self).unplayable, mvs@) is Some,
        ensures
            spec_play_run(old(self).stack@, old(self).index as int, old(self).unplayable, mvs@)
                == Some((final(self).stack@, final(self).index as int, final(self).unplayable, r is Err)),
            r is Err ==> r == Err::<(), PositionError>(PositionError::Unplayable),
    {
        let ghost stack0 = self.stack@;
        let ghost index0 = self.index as int;
        let ghost ended0 = self.unplayable;
        let mut k: usize = 0;
        while k < mvs.len()
            invariant
                k <= mvs@.len(),
                stack0 == old(self).stack@,
                index0 == old(self).index,
                ended0 == old(self).unplayable,
                spec_play_run(stack0, index0, ended0, mvs@) is Some,
                spec_play_run(stack0, index0, ended0, mvs@.take(k as int)) == Some(
                    (self.stack@, self.index as int, self.unplayable, false),
                ),
            decreases mvs@.len() - k,
        {
            proof {
                assert(mvs@.take(k as int + 1).drop_last() =~= mvs@.take(k as int));
                assert(mvs@.take(k as int + 1).last() == mvs@[k as int]);
            }
            if self.unplayable {
                proof {
                    assert(spec_play_run(stack0, index0, ended0, mvs@.take(k as int + 1)) == Some(
                        (self.stack@, self.index as int, true, true),
                    ));
                    lemma_refused_stays(stack0, index0, ended0, mvs@, k as int + 1, mvs@.len() as int);
                    assert(mvs@.take(mvs@.len() as int) =~= mvs@);
                }
                return Err(PositionError::Unplayable);
            }
            proof {
                if !can_make(self.stack@, self.index as int) {
                    lemma_none_stays(stack0, index0, ended0, mvs@, k as int + 1, mvs@.len() as int);
                    assert(mvs@.take(mvs@.len() as int) =~= mvs@);
                }
            }
            assert(can_make(self.stack@, self.index as int));
            assert(self.index + 1 < self.stack.len());
            let i = self.index;
            let mv = mvs[k];
            let made = make(&self.stack[i - 1], &self.stack[i], mv.raw());
            match made {
                MakeResult::Made(data) => {
                    let mut f = self.stack[i + 1];
                    apply(&mut f, data);
                    self.stack.set(i + 1, f);
                    self.index = i + 1;
                },
                MakeResult::Illegal => {
                    proof {
                        lemma_none_stays(stack0, index0, ended0, mvs@, k as int + 1, mvs@.len() as int);
                        assert(mvs@.take(mvs@.len() as int) =~= mvs@);
                    }
                },
                MakeResult::Igo => {
                    self.unplayable = true;
                },
            }
            k += 1;
        }
        proof {
            assert(mvs@.take(k as int) =~= mvs@);
        }
        Ok(())
    }

    /// Whether the position can be searched: not after the game has ended.
    pub fn searchable(&self) -> (r: Result<(), PositionError>)
        ensures
            r is Ok <==> !self.unplayable,
            r is Err ==> r == Err::<(), PositionError>(PositionError::Unsearchable),
    {
        if self.unplayable {
            Err(PositionError::Unsearchable)
        } else {
            Ok(())
        }
    }
}

proof fn lemma_none_stays(
    stack: Seq<Frame>,
    index: int,
    ended: bool,
    mvs: Seq<crate::engine::protocol::Mv>,
    k: int,
    j: int,
)
    requires
        0 <= k <= j <= mvs.len(),
        spec_play_run(stack, index, ended, mvs.take(k)) is None,
    ensures
        spec_play_run(stack, index, ended, mvs.take(j)) is None,
    decreases j - k,
{
    if j > k {
        lemma_none_stays(stack, index, ended, mvs, k, j - 1);
        assert(mvs.take(j).drop_last() =~= mvs.take(j - 1));
    }
}

} // verus!
