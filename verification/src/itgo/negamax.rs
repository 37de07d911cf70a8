//! The value that Itgo's search computes: negamax over the frames, to a fixed depth, with the
//! engine's static evaluation at the leaves.

use vstd::prelude::*;

use crate::bits::is_set;
use crate::itgo::state::{spec_apply, spec_gen_mv, spec_make, Frame, MakeData};

verus! {

/// Largest evaluation: a win at ply 0.
pub open spec fn max_value() -> int {
    0x7FFF
}

/// Below every evaluation.
pub open spec fn neg_inf() -> int {
    -0x7FFF_FFFF
}

/// The side to move can complete a line of four yugos: a win on the next ply.
pub open spec fn igo_value(cur: Frame) -> int {
    max_value() - (cur.ply + 1)
}

/// No legal move: the side ahead on lines wins, at this ply.
pub open spec fn wego_value(cur: Frame) -> int {
    if cur.score > 0 {
        max_value() - cur.ply
    } else if cur.score == 0 {
        0
    } else {
        cur.ply - max_value()
    }
}

/// Static evaluation of a move, from the mover's side: lines weigh twenty square-table points.
pub open spec fn leaf_eval(d: MakeData) -> int {
    d.score * 20 + d.psqt_value
}

/// The frame after move `d` at `cur`.
pub open spec fn child(cur: Frame, d: MakeData) -> Frame {
    spec_apply(Frame::new_spec(cur.ply + 1), d, true)
}

/// Squares the side to move may take at `cur` that complete a line of four yugos.
pub open spec fn makes_igo(prev: Frame, cur: Frame) -> u64 {
    prev.opp_makes_igo & spec_gen_mv(prev, cur).playable
}

/// The value of the position at `cur` (after `prev`) for the side to move, searched `depth`
/// plies.
pub open spec fn negamax(prev: Frame, cur: Frame, keys: Seq<u64>, depth: nat) -> int
    decreases depth, 2int, 0int,
{
    let playable = spec_gen_mv(prev, cur).playable;
    if makes_igo(prev, cur) != 0 {
        igo_value(cur)
    } else if playable == 0 {
        wego_value(cur)
    } else {
        best_of(prev, cur, keys, depth, playable, 64)
    }
}

/// With no square left to play, the game ends by lines: the side to move wins if it has more
/// lines (a positive value, at least as large as any value reached later in the game), loses if
/// it has fewer (a negative value), and draws on equal lines (zero), whatever the depth.
pub proof fn law_wego_sign(prev: Frame, cur: Frame, keys: Seq<u64>, depth: nat)
    requires
        spec_gen_mv(prev, cur).playable == 0,
        0 <= cur.ply < max_value(),
    ensures
        cur.score > 0 ==> negamax(prev, cur, keys, depth) > 0,
        cur.score < 0 ==> negamax(prev, cur, keys, depth) < 0,
        cur.score == 0 ==> negamax(prev, cur, keys, depth) == 0,
        cur.score != 0 ==> negamax(prev, cur, keys, depth) >= max_value() - cur.ply
            || negamax(prev, cur, keys, depth) <= cur.ply - max_value(),
{
    let x = prev.opp_makes_igo;
    assert(x & 0u64 == 0u64) by (bit_vector);
}

/// When the side to move can complete four yugos in a line, it wins on its next ply: the value
/// is positive and beats every value of a win later in the game, whatever the depth.
pub proof fn law_igo_win(prev: Frame, cur: Frame, keys: Seq<u64>, depth: nat)
    requires
        makes_igo(prev, cur) != 0,
        0 <= cur.ply < max_value() - 1,
    ensures
        negamax(prev, cur, keys, depth) > 0,
        negamax(prev, cur, keys, depth) >= max_value() - (cur.ply + 1),
{
}

/// The best value among the moves of `set` below square `n`, or `neg_inf()` if there are none.
pub open spec fn best_of(prev: Frame, cur: Frame, keys: Seq<u64>, depth: nat, set: u64, n: int) -> int
    decreases depth, 1int, n,
{
    if n <= 0 {
        neg_inf()
    } else {
        let rest = best_of(prev, cur, keys, depth, set, n - 1);
        if is_set(set, n - 1) {
            let v = move_value(prev, cur, keys, depth, n - 1);
            if v > rest {
                v
            } else {
                rest
            }
        } else {
            rest
        }
    }
}

/// The value of move `mv` for the side that makes it.
pub open spec fn move_value(prev: Frame, cur: Frame, keys: Seq<u64>, depth: nat, mv: int) -> int
    decreases depth, 0int, 0int,
{
    let d = spec_make(prev, cur, keys, mv);
    if depth <= 1 {
        leaf_eval(d)
    } else {
        -negamax(cur, child(cur, d), keys, (depth - 1) as nat)
    }
}

/// `v` is what a fail-soft alpha-beta search with window `(alpha, beta)` may return for a
/// position of value `value`.
pub open spec fn fail_soft(v: int, alpha: int, beta: int, value: int) -> bool {
    &&& v <= alpha ==> value <= v
    &&& v >= beta ==> value >= v
    &&& alpha < v < beta ==> value == v
}

/// A frame as a previous frame: what the search reads of it.
pub open spec fn same_prev(a: Frame, b: Frame) -> bool {
    &&& a.opp_migo == b.opp_migo
    &&& a.opp_yugo == b.opp_yugo
    &&& a.opp_makes_yugo == b.opp_makes_yugo
    &&& a.opp_makes_igo == b.opp_makes_igo
    &&& a.opp_too_long == b.opp_too_long
}

/// A frame as the current frame of a search `depth` plies deep: what the search reads of it.
pub open spec fn same_cur(a: Frame, b: Frame, depth: nat) -> bool {
    &&& a.opp_migo == b.opp_migo
    &&& a.opp_yugo == b.opp_yugo
    &&& a.score == b.score
    &&& a.psqt_value == b.psqt_value
    &&& a.hash == b.hash
    &&& a.ply == b.ply
    &&& depth >= 2 ==> same_prev(a, b)
}

/// The value reads only what `same_prev` and `same_cur` compare.
pub proof fn lemma_negamax_congruent(p1: Frame, c1: Frame, p2: Frame, c2: Frame, keys: Seq<u64>, depth: nat)
    requires
        same_prev(p1, p2),
        same_cur(c1, c2, depth),
    ensures
        negamax(p1, c1, keys, depth) == negamax(p2, c2, keys, depth),
    decreases depth, 2int, 0int,
{
    assert(spec_gen_mv(p1, c1) == spec_gen_mv(p2, c2));
    lemma_best_of_congruent(p1, c1, p2, c2, keys, depth, spec_gen_mv(p1, c1).playable, 64);
}

proof fn lemma_best_of_congruent(
    p1: Frame,
    c1: Frame,
    p2: Frame,
    c2: Frame,
    keys: Seq<u64>,
    depth: nat,
    set: u64,
    n: int,
)
    requires
        same_prev(p1, p2),
        same_cur(c1, c2, depth),
    ensures
        best_of(p1, c1, keys, depth, set, n) == best_of(p2, c2, keys, depth, set, n),
    decreases depth, 1int, n,
{
    if n > 0 {
        lemma_best_of_congruent(p1, c1, p2, c2, keys, depth, set, n - 1);
        if is_set(set, n - 1) {
            lemma_move_value_congruent(p1, c1, p2, c2, keys, depth, n - 1);
        }
    }
}

proof fn lemma_move_value_congruent(
    p1: Frame,
    c1: Frame,
    p2: Frame,
    c2: Frame,
    keys: Seq<u64>,
    depth: nat,
    mv: int,
)
    requires
        same_prev(p1, p2),
        same_cur(c1, c2, depth),
    ensures
        move_value(p1, c1, keys, depth, mv) == move_value(p2, c2, keys, depth, mv),
    decreases depth, 0int, 0int,
{
    assert(spec_gen_mv(p1, c1) == spec_gen_mv(p2, c2));
    let d = spec_make(p1, c1, keys, mv);
    assert(d == spec_make(p2, c2, keys, mv));
    if depth > 1 {
        assert(child(c1, d) == child(c2, d));
        lemma_negamax_congruent(c1, child(c1, d), c2, child(c2, d), keys, (depth - 1) as nat);
    }
}

/// Every move of `set` is worth at most the best, and a best is reached by some move or the set
/// is empty below `n`.
pub proof fn lemma_best_of_bounds(prev: Frame, cur: Frame, keys: Seq<u64>, depth: nat, set: u64, n: int)
    ensures
        forall|m: int|
            0 <= m < n && is_set(set, m) ==> #[trigger] move_value(prev, cur, keys, depth, m)
                <= best_of(prev, cur, keys, depth, set, n),
    decreases n,
{
    if n > 0 {
        lemma_best_of_bounds(prev, cur, keys, depth, set, n - 1);
    }
}

/// If every move of `set` is worth at most `b`, so is the best, or there is no move.
pub proof fn lemma_best_of_upper(prev: Frame, cur: Frame, keys: Seq<u64>, depth: nat, set: u64, n: int, b: int)
    requires
        b >= neg_inf(),
        forall|m: int|
            0 <= m < n && is_set(set, m) ==> #[trigger] move_value(prev, cur, keys, depth, m) <= b,
    ensures
        best_of(prev, cur, keys, depth, set, n) <= b,
    decreases n,
{
    if n > 0 {
        lemma_best_of_upper(prev, cur, keys, depth, set, n - 1, b);
        if is_set(set, n - 1) {
            assert(move_value(prev, cur, keys, depth, n - 1) <= b);
        }
    }
}

} // verus!
