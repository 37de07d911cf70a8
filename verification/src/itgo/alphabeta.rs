//! Itgo's search: fail-soft alpha-beta with principal-variation search, a transposition table
//! move, two killer moves and a history table for ordering.

use vstd::prelude::*;

use crate::bits::{bit, group_bits, is_set};
use crate::itgo::game::{frame_bounded, frame_moves_ok, stack_wf, LOOKBEHIND, STACK_LEN};
use crate::itgo::negamax::{
    child, fail_soft, lemma_best_of_bounds, lemma_best_of_upper, lemma_negamax_congruent,
    makes_igo, max_value, move_value, negamax, neg_inf, same_cur, same_prev,
};
use crate::itgo::search::ExitSearch;
use crate::itgo::state::{
    apply, lemma_psqt_bounds, lemma_removed_psqt_bound, make_migo, make_yugo, occ, spec_apply,
    spec_gen_mv, spec_make, yugo_own, Frame, MakeData,
};
use crate::itgo::thread::Thread;
use crate::itgo::tt::{HashKeys, Table};

verus! {

broadcast use group_bits;

/// Bound on every value the search returns.
pub open spec fn value_bound() -> int {
    1_000_000
}

/// History scores stay within what their updates can reach.
pub open spec fn hist_ok(h: [[i8; 64]; 2]) -> bool {
    forall|s: int, i: int| 0 <= s < 2 && 0 <= i < 64 ==> -64 <= #[trigger] h@[s]@[i] <= 64
}

/// The table has slots, and each holds a square.
pub open spec fn tt_ok(t: Table) -> bool {
    &&& t.raw@.len() > 0
    &&& forall|i: int| 0 <= i < t.raw@.len() ==> (#[trigger] t.raw@[i]).mv < 64
}

/// The node counter stays ahead of the limit check.
pub open spec fn thread_ok(t: Thread) -> bool {
    &&& t.countdown >= 1
    &&& t.nodes + t.countdown <= t.node_limit + 1
}

/// Frames before `index` are untouched, and frame `index` changes only in its killers and line.
pub open spec fn frames_kept(a: Seq<Frame>, b: Seq<Frame>, index: int) -> bool {
    &&& a.len() == b.len()
    &&& forall|k: int| 0 <= k < index ==> #[trigger] b[k] == a[k]
    &&& b[index] == (Frame { killers: b[index].killers, pv: b[index].pv, pv_len: b[index].pv_len, ..a[index] })
}

/// Why a search gives up: the node limit is reached, or `stop` can answer `true`.
pub open spec fn stopped<F: Fn() -> bool>(t: Thread, stop: &F) -> bool {
    t.nodes >= t.node_limit || stop.ensures((), true)
}

/// What a search may assume about the frames and tables it works on.
pub open spec fn search_ok(stack: Seq<Frame>, tt: Table, hist: [[i8; 64]; 2]) -> bool {
    &&& stack_wf(stack)
    &&& tt_ok(tt)
    &&& hist_ok(hist)
}

/// The state of a node while its moves are tried.
pub struct NodeState {
    pub best_value: i32,
    pub best_mv: u8,
    pub alpha: i32,
}

/// Every move tried is worth at most the best value, the best value beyond `alpha0` is the worth
/// of the best move, and the window's lower end has risen to it.
pub open spec fn node_ok(
    n: NodeState,
    tried: Set<int>,
    alpha0: int,
    prev: Frame,
    cur: Frame,
    keys: Seq<u64>,
    depth: nat,
) -> bool {
    &&& neg_inf() <= n.best_value <= value_bound()
    &&& n.alpha == if n.best_value > alpha0 {
        n.best_value as int
    } else {
        alpha0
    }
    &&& forall|m: int| #[trigger] tried.contains(m) ==> move_value(prev, cur, keys, depth, m) <= n.best_value
    &&& (n.best_mv != 255) == (n.best_value > alpha0)
    &&& n.best_mv != 255 ==> n.best_mv < 64 && tried.contains(n.best_mv as int) && move_value(
        prev,
        cur,
        keys,
        depth,
        n.best_mv as int,
    ) == n.best_value
    &&& forall|m: int| #[trigger] tried.contains(m) ==> 0 <= m < 64
    &&& forall|m: int| #[trigger] tried.contains(m) ==> -value_bound() <= n.best_value
}

/// Replacing a frame by one of the same ply, bounded and with valid moves, keeps the stack well
/// formed.
proof fn lemma_set_frame(s: Seq<Frame>, k: int, f: Frame)
    requires
        stack_wf(s),
        0 <= k < STACK_LEN,
        f.ply == s[k].ply,
        frame_bounded(f, k),
        frame_moves_ok(f),
    ensures
        stack_wf(s.update(k, f)),
{
    let t = s.update(k, f);
    assert forall|j: int| 0 <= j < STACK_LEN implies (#[trigger] t[j]).ply == j - 1 && frame_bounded(t[j], j) && frame_moves_ok(t[j]) by {
        if j != k {
            assert(t[j] == s[j]);
        }
    }
}

/// Every move of `all` is tried or still in `left`.
pub open spec fn covered_by(all: u64, left: u64, tried: Set<int>) -> bool {
    &&& forall|m: int| 0 <= m < 64 && is_set(all, m) && !is_set(left, m) ==> #[trigger] tried.contains(m)
    &&& forall|m: int| 0 <= m < 64 && is_set(left, m) ==> #[trigger] is_set(all, m)
}

/// A cutoff: the best value reaches `beta`, and the move found is worth at least that.
pub open spec fn cut_ok(n: NodeState, beta: int, prev: Frame, cur: Frame, keys: Seq<u64>, depth: nat) -> bool {
    &&& n.best_value >= beta
    &&& -value_bound() <= n.best_value <= value_bound()
    &&& n.best_mv < 64
    &&& is_set(spec_gen_mv(prev, cur).playable, n.best_mv as int)
    &&& move_value(prev, cur, keys, depth, n.best_mv as int) >= n.best_value
}

/// One history update: toward `direction` by `change`, pulled back in proportion to the score.
pub open spec fn spec_hist_update(e: int, direction: int, change: int) -> int {
    e + direction * change - (e * change) / 64
}

fn hist_update(e: i8, direction: i32, change: i32) -> (r: i8)
    requires
        -64 <= e <= 64,
        direction == 1 || direction == -1,
        0 <= change <= 64,
    ensures
        r == spec_hist_update(e as int, direction as int, change as int),
        -64 <= r <= 64,
{
    assert(-4096 <= e * change <= 4096) by (nonlinear_arith)
        requires
            -64 <= e <= 64,
            0 <= change <= 64,
    ;
    let t: i32 = e as i32 * change;
    let q = t >> 6u32;
    assert(q == t / 64) by (bit_vector)
        requires
            q == t >> 6u32,
    ;
    let nv: i32 = e as i32 + (direction * change - q);
    assert(-64 <= nv <= 64) by (nonlinear_arith)
        requires
            -64 <= e <= 64,
            0 <= change <= 64,
            direction == 1 || direction == -1,
            t == e * change,
            64 * q <= t < 64 * q + 64,
            nv == e + direction * change - q,
    ;
    nv as i8
}

/// Among the squares of `mvs`, the one with the highest score, the lowest such square on ties.
fn pick_by_history(mvs: u64, scores: &[i8; 64]) -> (r: u8)
    requires
        mvs != 0,
    ensures
        r < 64,
        is_set(mvs, r as int),
        forall|i: int| 0 <= i < 64 && is_set(mvs, i) ==> #[trigger] scores@[i] <= scores@[r as int],
        forall|i: int| 0 <= i < r && is_set(mvs, i) ==> #[trigger] scores@[i] < scores@[r as int],
{
    let mut best: u8 = 64;
    let mut i: u8 = 0;
    while i < 64
        invariant
            i <= 64,
            best <= 64,
            best == 64 <==> forall|k: int| 0 <= k < i ==> !is_set(mvs, k),
            best < 64 ==> best < i && is_set(mvs, best as int),
            best < 64 ==> forall|k: int| 0 <= k < i && is_set(mvs, k) ==> #[trigger] scores@[k] <= scores@[best as int],
            best < 64 ==> forall|k: int| 0 <= k < best && is_set(mvs, k) ==> #[trigger] scores@[k] < scores@[best as int],
        decreases 64 - i,
    {
        if (mvs >> (i as u64)) & 1 == 1 {
            assert(is_set(mvs, i as int));
            if best == 64 || scores[i as usize] > scores[best as usize] {
                best = i;
            }
        } else {
            assert(!is_set(mvs, i as int));
        }
        i += 1;
    }
    proof {
        if best == 64 {
            crate::bits::lemma_bits_zero(mvs);
            assert(false);
        }
    }
    best
}

/// Number of squares of `x` below `n`.
pub open spec fn bits_count(x: u64, n: int) -> nat
    decreases n,
{
    if n <= 0 {
        0
    } else {
        bits_count(x, n - 1) + if is_set(x, n - 1) {
            1nat
        } else {
            0nat
        }
    }
}

proof fn lemma_bits_count_clear(x: u64, j: int, n: int)
    requires
        0 <= j < 64,
        is_set(x, j),
        0 <= n,
    ensures
        j < n ==> bits_count(x & !bit(j), n) + 1 == bits_count(x, n),
        j >= n ==> bits_count(x & !bit(j), n) == bits_count(x, n),
    decreases n,
{
    if n > 0 {
        lemma_bits_count_clear(x, j, n - 1);
    }
}

proof fn lemma_bits_count_zero(x: u64, n: int)
    requires
        0 <= n <= 64,
        bits_count(x, n) == 0,
    ensures
        forall|i: int| 0 <= i < n ==> !is_set(x, i),
    decreases n,
{
    if n > 0 {
        lemma_bits_count_zero(x, n - 1);
    }
}

/// Facts about a node that its helpers share.
pub open spec fn node_ctx(keys: Seq<u64>, index: int, depth: int, alpha0: int, beta: int, pv: bool) -> bool {
    &&& keys.len() == 256
    &&& LOOKBEHIND <= index
    &&& index + depth < STACK_LEN
    &&& 1 <= depth <= 64
    &&& i32::MIN < alpha0 < beta <= i32::MAX
    &&& !pv ==> alpha0 == beta - 1
}

/// The node so far: consistent, below `beta`, and every legal move tried or still left.
pub open spec fn progress(
    n: NodeState,
    tried: Set<int>,
    playable0: u64,
    left: u64,
    alpha0: int,
    beta: int,
    prev: Frame,
    cur: Frame,
    keys: Seq<u64>,
    depth: nat,
) -> bool {
    &&& node_ok(n, tried, alpha0, prev, cur, keys, depth)
    &&& n.best_value < beta
    &&& covered_by(playable0, left, tried)
    &&& forall|m: int| #[trigger] tried.contains(m) ==> is_set(playable0, m)
}

/// What a phase of move trying leaves: either progress with the moves still `left`, or a cutoff.
pub open spec fn phase_post(
    ending: u8,
    n: NodeState,
    tried: Set<int>,
    playable0: u64,
    left: u64,
    alpha0: int,
    beta: int,
    prev: Frame,
    cur: Frame,
    keys: Seq<u64>,
    depth: nat,
) -> bool {
    &&& ending == 0 ==> progress(n, tried, playable0, left, alpha0, beta, prev, cur, keys, depth)
    &&& ending != 0 ==> cut_ok(n, beta, prev, cur, keys, depth)
}

/// At a principal-variation node with a best move, the frame's line starts with that move.
pub open spec fn pv_ok(pv: bool, f: Frame, n: NodeState) -> bool {
    pv && n.best_mv != 255 ==> f.pv_len >= 1 && f.pv@[0] == n.best_mv
}

/// `m` is the lowest square of `x`.
pub open spec fn lowest(x: u64, m: int) -> bool {
    &&& 0 <= m < 64
    &&& is_set(x, m)
    &&& forall|j: int| 0 <= j < m ==> !is_set(x, j)
}

/// What a completed search leaves of the node at frame `index`: at a node where a line of four
/// yugos can be completed, its value and a line of that lowest such square; at a node with no
/// legal move, the value of the score and an empty line; elsewhere, at a principal-variation
/// node whose value rises above `alpha`, a line starting with a legal move worth the value (at
/// least the value, at a cutoff).
pub open spec fn node_line(
    pv: bool,
    p0: Frame,
    c0: Frame,
    f: Frame,
    keys: Seq<u64>,
    depth: nat,
    alpha: int,
    beta: int,
    v: int,
) -> bool {
    let playable = spec_gen_mv(p0, c0).playable;
    if makes_igo(p0, c0) != 0 {
        &&& v == crate::itgo::negamax::igo_value(c0)
        &&& f.pv_len == 1
        &&& lowest(makes_igo(p0, c0), f.pv@[0] as int)
    } else if playable == 0 {
        &&& v == crate::itgo::negamax::wego_value(c0)
        &&& f.pv_len == 0
    } else {
        pv && v > alpha ==> {
            &&& f.pv_len >= 1
            &&& f.pv@[0] < 64
            &&& is_set(playable, f.pv@[0] as int)
            &&& v < beta ==> move_value(p0, c0, keys, depth, f.pv@[0] as int) == v
            &&& v >= beta ==> move_value(p0, c0, keys, depth, f.pv@[0] as int) >= v
        }
    }
}

/// Search frame `index` of `stack` to `depth` plies with window `(alpha, beta)`; a zero-window
/// node (`!pv`) has `alpha == beta - 1`. Stops with `ExitSearch` once the node limit is reached
/// or `stop` says so when the limits are checked.
pub fn search<F: Fn() -> bool>(
    pv: bool,
    keys: &HashKeys,
    tt: &mut Table,
    hist: &mut [[i8; 64]; 2],
    thread: &mut Thread,
    stop: &F,
    stack: &mut Vec<Frame>,
    index: usize,
    depth: u32,
    alpha: i32,
    beta: i32,
) -> (r: Result<i32, ExitSearch>)
    requires
        search_ok(old(stack)@, *old(tt), *old(hist)),
        thread_ok(*old(thread)),
        node_ctx(keys@, index as int, depth as int, alpha as int, beta as int, pv),
        stop.requires(()),
    ensures
        search_ok(final(stack)@, *final(tt), *final(hist)),
        r is Ok ==> thread_ok(*final(thread)),
        frames_kept(old(stack)@, final(stack)@, index as int),
        final(thread).node_limit == old(thread).node_limit,
        r is Err ==> stopped(*final(thread), stop),
        r matches Ok(v) ==> -value_bound() <= v <= value_bound() && fail_soft(
            v as int,
            alpha as int,
            beta as int,
            negamax(old(stack)@[index - 1], old(stack)@[index as int], keys@, depth as nat),
        ),
        r is Ok ==> final(thread).nodes > old(thread).nodes,
        r matches Ok(v) ==> node_line(
            pv,
            old(stack)@[index - 1],
            old(stack)@[index as int],
            final(stack)@[index as int],
            keys@,
            depth as nat,
            alpha as int,
            beta as int,
            v as int,
        ),
    decreases depth, 3int,
{
    if thread.tick_countdown() {
        if thread.nodes >= thread.node_limit || stop() {
            return Err(ExitSearch);
        }
        thread.reset_countdown();
    }
    thread.nodes = thread.nodes + 1;
    if pv {
        thread.pv_nodes = thread.pv_nodes.wrapping_add(1);
    }
    let ghost old_stack = stack@;
    let prev = stack[index - 1];
    let cur = stack[index];
    let playable0 = !occ(&prev, &cur) & !prev.opp_too_long;
    let makes_igo_bits = prev.opp_makes_igo & playable0;
    proof {
        assert(playable0 == spec_gen_mv(prev, cur).playable);
        assert(makes_igo_bits == makes_igo(prev, cur));
        assert(frame_bounded(stack@[index as int], index as int));
        assert(stack@[index as int].ply == index - 1);
        assert(frame_moves_ok(stack@[index as int]));
    }
    if makes_igo_bits != 0 {
        let mv = makes_igo_bits.trailing_zeros() as u8;
        proof {
            vstd::std_specs::bits::axiom_u64_trailing_zeros(makes_igo_bits);
        }
        let mut pvs = cur.pv;
        pvs[0] = mv;
        let f = Frame { pv: pvs, pv_len: 1, ..cur };
        proof {
            lemma_set_frame(stack@, index as int, f);
            assert forall|j: int| 0 <= j < mv implies !is_set(makes_igo_bits, j) by {
                let ju = j as u64;
                assert((makes_igo_bits >> ju) & 1u64 == 0u64);
            }
            assert(is_set(makes_igo_bits, mv as int));
        }
        stack.set(index, f);
        return Ok(0x7FFF - (cur.ply + 1));
    }
    if playable0 == 0 {
        let v = if cur.score > 0 {
            0x7FFF - cur.ply
        } else if cur.score == 0 {
            0
        } else {
            cur.ply - 0x7FFF
        };
        let f = Frame { pv_len: 0, ..cur };
        proof {
            lemma_set_frame(stack@, index as int, f);
        }
        stack.set(index, f);
        return Ok(v);
    }
    let (tt_sig, tt_mv) = if pv {
        let e = tt.get(cur.hash);
        (e.sig, e.mv)
    } else {
        (0u8, 0u8)
    };
    let curr_sig = (cur.hash & 0xff) as u8;
    let mut node = NodeState { best_value: -0x7FFF_FFFF, best_mv: 255, alpha };
    let ghost dn = depth as nat;
    proof {
        assert(progress(node, Set::empty(), playable0, playable0, alpha as int, beta as int, prev, cur, keys@, dn));
    }
    // The move from the table and the killer moves.
    let (mut ending, left, Ghost(tried)) = phase_first(
        pv, keys, tt, hist, thread, stop, stack, index, depth, beta, &mut node, playable0,
        pv && tt_sig == curr_sig, tt_mv, Ghost(old_stack), Ghost(Set::empty()), Ghost(alpha as int),
    )?;
    // Moves that complete a line, in square order.
    let mut left = left;
    let ghost mut tried = tried;
    if ending == 0 {
        let (e, l, Ghost(t)) = phase_yugo(
            pv, keys, tt, hist, thread, stop, stack, index, depth, beta, &mut node, left,
            prev.opp_makes_yugo, Ghost(old_stack), Ghost(tried), Ghost(alpha as int),
        )?;
        ending = e;
        left = l;
        proof {
            tried = t;
        }
    }
    // The other moves: in square order before the leaves, else by history.
    if ending == 0 {
        let (e, l, Ghost(t)) = if depth == 1 {
            phase_quiet(
                pv, keys, tt, hist, thread, stop, stack, index, depth, beta, &mut node, left,
                Ghost(old_stack), Ghost(tried), Ghost(alpha as int),
            )?
        } else {
            phase_history(
                pv, keys, tt, hist, thread, stop, stack, index, depth, beta, &mut node, left,
                Ghost(old_stack), Ghost(tried), Ghost(alpha as int),
            )?
        };
        ending = e;
        left = l;
        proof {
            tried = t;
        }
    }
    finish_node(pv, tt, stack, index, ending, node.best_mv, cur.hash, curr_sig);
    proof {
        lemma_node_result(prev, cur, keys@, dn, playable0, node, tried, alpha as int, beta as int, ending);
    }
    Ok(node.best_value)
}

/// What a node's value is, from how its moves went.
proof fn lemma_node_result(
    prev: Frame,
    cur: Frame,
    keys: Seq<u64>,
    dn: nat,
    playable0: u64,
    node: NodeState,
    tried: Set<int>,
    alpha0: int,
    beta: int,
    ending: u8,
)
    requires
        playable0 == spec_gen_mv(prev, cur).playable,
        playable0 != 0,
        makes_igo(prev, cur) == 0,
        alpha0 < beta,
        phase_post(ending, node, tried, playable0, 0, alpha0, beta, prev, cur, keys, dn),
    ensures
        -value_bound() <= node.best_value <= value_bound(),
        fail_soft(node.best_value as int, alpha0, beta, negamax(prev, cur, keys, dn)),
{
    let v = node.best_value as int;
    assert(negamax(prev, cur, keys, dn) == crate::itgo::negamax::best_of(prev, cur, keys, dn, playable0, 64));
    lemma_best_of_bounds(prev, cur, keys, dn, playable0, 64);
    if ending == 0 {
        crate::bits::lemma_bits_zero(playable0);
        let m0 = choose|m: int| 0 <= m < 64 && is_set(playable0, m);
        assert(tried.contains(m0));
        assert forall|m: int| 0 <= m < 64 && is_set(playable0, m) implies #[trigger] move_value(prev, cur, keys, dn, m) <= v by {
            assert(tried.contains(m));
        }
        lemma_best_of_upper(prev, cur, keys, dn, playable0, 64, v);
        if v > alpha0 {
            let b = node.best_mv as int;
            assert(tried.contains(b));
            assert(is_set(playable0, b));
            assert(move_value(prev, cur, keys, dn, b) == v);
            assert(move_value(prev, cur, keys, dn, b) <= crate::itgo::negamax::best_of(prev, cur, keys, dn, playable0, 64));
        }
        assert(v < beta);
        assert(crate::itgo::negamax::best_of(prev, cur, keys, dn, playable0, 64) <= v);
        assert(fail_soft(v, alpha0, beta, negamax(prev, cur, keys, dn)));
    } else {
        let b = node.best_mv as int;
        assert(is_set(playable0, b));
        assert(move_value(prev, cur, keys, dn, b) >= v);
        assert(move_value(prev, cur, keys, dn, b) <= crate::itgo::negamax::best_of(prev, cur, keys, dn, playable0, 64));
    }
}

/// The killer moves after a node ends with `ending` (0: no cutoff, 3: a cutoff by the second
/// killer) and best move `best`: the second killer's cutoff moves it to the front; another
/// cutoff by a move that is no killer yet puts it second, and one by the second killer moves it
/// to the front.
pub open spec fn spec_killers(k0: u8, k1: u8, ending: u8, best: u8) -> (u8, u8) {
    if ending == 3 {
        (best, k0)
    } else if ending != 0 && k0 != best {
        if k1 != best {
            (k0, best)
        } else {
            (best, k0)
        }
    } else {
        (k0, k1)
    }
}

/// Record how the node ended: the killer moves after a cutoff, and at a principal-variation node
/// with a best move, that move in the table.
fn finish_node(pv: bool, tt: &mut Table, stack: &mut Vec<Frame>, index: usize, ending: u8, best_mv: u8, hash: u64, sig: u8)
    requires
        stack_wf(old(stack)@),
        tt_ok(*old(tt)),
        index < STACK_LEN,
        ending <= 3,
        ending != 0 || best_mv != 255 ==> best_mv < 64,
    ensures
        stack_wf(final(stack)@),
        tt_ok(*final(tt)),
        final(stack)@ == old(stack)@.update(index as int, Frame { killers: final(stack)@[index as int].killers, ..old(stack)@[index as int] }),
        (final(stack)@[index as int].killers@[0], final(stack)@[index as int].killers@[1]) == spec_killers(
            old(stack)@[index as int].killers@[0],
            old(stack)@[index as int].killers@[1],
            ending,
            best_mv,
        ),
        pv && (ending != 0 || best_mv != 255) ==> final(tt).raw@ == old(tt).raw@.update(
            crate::itgo::tt::spec_to_index(hash, old(tt).raw@.len() as int),
            crate::itgo::tt::Entry { mv: best_mv, sig },
        ),
        !(pv && (ending != 0 || best_mv != 255)) ==> final(tt).raw@ == old(tt).raw@,
{
    let f0 = stack[index];
    proof {
        assert(frame_moves_ok(stack@[index as int]));
    }
    let mut killers = f0.killers;
    if ending == 3 {
        killers = [best_mv, f0.killers[0]];
    } else if ending != 0 {
        if f0.killers[0] != best_mv {
            if f0.killers[1] != best_mv {
                killers[1] = best_mv;
            } else {
                killers = [best_mv, f0.killers[0]];
            }
        }
    }
    let f = Frame { killers, ..f0 };
    proof {
        assert(stack@[index as int] == f0);
        lemma_set_frame(stack@, index as int, f);
    }
    stack.set(index, f);
    if pv && (ending != 0 || best_mv != 255) {
        let ghost raw0 = tt.raw@;
        let ghost k = crate::itgo::tt::spec_to_index(hash, raw0.len() as int);
        let n = tt.raw.len();
        proof {
            crate::itgo::tt::lemma_to_index_range(hash, n as int);
        }
        tt.store(hash, best_mv, sig);
        proof {
            assert forall|i: int| 0 <= i < tt.raw@.len() implies (#[trigger] tt.raw@[i]).mv < 64 by {
                if i != k {
                    assert(tt.raw@[i] == raw0[i]);
                }
            }
        }
    }
}

/// The move from the table (if `use_tt`), then the two killer moves.
#[verifier::loop_isolation(false)]
fn phase_first<F: Fn() -> bool>(
    pv: bool,
    keys: &HashKeys,
    tt: &mut Table,
    hist: &mut [[i8; 64]; 2],
    thread: &mut Thread,
    stop: &F,
    stack: &mut Vec<Frame>,
    index: usize,
    depth: u32,
    beta: i32,
    node: &mut NodeState,
    left: u64,
    use_tt: bool,
    tt_mv: u8,
    Ghost(node_stack): Ghost<Seq<Frame>>,
    Ghost(tried): Ghost<Set<int>>,
    Ghost(alpha0): Ghost<int>,
) -> (r: Result<(u8, u64, Ghost<Set<int>>), ExitSearch>)
    requires
        search_ok(old(stack)@, *old(tt), *old(hist)),
        thread_ok(*old(thread)),
        frames_kept(node_stack, old(stack)@, index as int),
        node_ctx(keys@, index as int, depth as int, alpha0, beta as int, pv),
        stop.requires(()),
        progress(*old(node), tried, spec_gen_mv(node_stack[index - 1], node_stack[index as int]).playable, left, alpha0, beta as int, node_stack[index - 1], node_stack[index as int], keys@, depth as nat),
        pv_ok(pv, old(stack)@[index as int], *old(node)),
    ensures
        search_ok(final(stack)@, *final(tt), *final(hist)),
        frames_kept(node_stack, final(stack)@, index as int),
        final(thread).node_limit == old(thread).node_limit,
        r is Err ==> stopped(*final(thread), stop),
        r matches Ok((ending, l, t)) ==> thread_ok(*final(thread)) && (ending == 0 || ending == 1 || ending == 2 || ending == 3) && phase_post(ending, *final(node), t@, spec_gen_mv(node_stack[index - 1], node_stack[index as int]).playable, l, alpha0, beta as int, node_stack[index - 1], node_stack[index as int], keys@, depth as nat),
        r is Ok ==> pv_ok(pv, final(stack)@[index as int], *final(node)) && final(thread).nodes >= old(thread).nodes,
    decreases depth, 2int,
{
    let ghost playable0 = spec_gen_mv(node_stack[index - 1], node_stack[index as int]).playable;
    let mut left = left;
    let ghost mut tried = tried;
    if use_tt && tt_mv < 64 {
        let b = 1u64 << (tt_mv as u64);
        assert(b == bit(tt_mv as int));
        if left & b != 0 {
            let cut = try_mv(
                pv, keys, tt, hist, thread, stop, stack, index, depth, tt_mv, node, beta,
                Ghost(node_stack), Ghost(tried), Ghost(alpha0),
            )?;
            proof {
                tried = tried.insert(tt_mv as int);
            }
            if cut {
                return Ok((1, left, Ghost(tried)));
            }
            left = left & !b;
        }
    }
    let cur = stack[index];
    proof {
        assert(frame_moves_ok(stack@[index as int]));
    }
    let k0 = cur.killers[0];
    let k1 = cur.killers[1];
    let killer_0 = 1u64 << (k0 as u64);
    let killer_1 = 1u64 << (k1 as u64);
    assert(killer_0 == bit(k0 as int));
    assert(killer_1 == bit(k1 as int));
    if left & killer_0 != 0 {
        let cut = try_mv(
            pv, keys, tt, hist, thread, stop, stack, index, depth, k0, node, beta,
            Ghost(node_stack), Ghost(tried), Ghost(alpha0),
        )?;
        proof {
            tried = tried.insert(k0 as int);
        }
        if cut {
            return Ok((2, left, Ghost(tried)));
        }
    }
    if left & killer_1 != 0 {
        let cut = try_mv(
            pv, keys, tt, hist, thread, stop, stack, index, depth, k1, node, beta,
            Ghost(node_stack), Ghost(tried), Ghost(alpha0),
        )?;
        proof {
            tried = tried.insert(k1 as int);
        }
        if cut {
            return Ok((3, left, Ghost(tried)));
        }
    }
    left = left & !killer_0;
    left = left & !killer_1;
    Ok((0, left, Ghost(tried)))
}

/// Every move of `makes_yugo` still left, in square order; those moves are then no longer left.
#[verifier::loop_isolation(false)]
fn phase_yugo<F: Fn() -> bool>(
    pv: bool,
    keys: &HashKeys,
    tt: &mut Table,
    hist: &mut [[i8; 64]; 2],
    thread: &mut Thread,
    stop: &F,
    stack: &mut Vec<Frame>,
    index: usize,
    depth: u32,
    beta: i32,
    node: &mut NodeState,
    left: u64,
    makes_yugo: u64,
    Ghost(node_stack): Ghost<Seq<Frame>>,
    Ghost(tried): Ghost<Set<int>>,
    Ghost(alpha0): Ghost<int>,
) -> (r: Result<(u8, u64, Ghost<Set<int>>), ExitSearch>)
    requires
        search_ok(old(stack)@, *old(tt), *old(hist)),
        thread_ok(*old(thread)),
        frames_kept(node_stack, old(stack)@, index as int),
        node_ctx(keys@, index as int, depth as int, alpha0, beta as int, pv),
        stop.requires(()),
        progress(*old(node), tried, spec_gen_mv(node_stack[index - 1], node_stack[index as int]).playable, left, alpha0, beta as int, node_stack[index - 1], node_stack[index as int], keys@, depth as nat),
        pv_ok(pv, old(stack)@[index as int], *old(node)),
    ensures
        search_ok(final(stack)@, *final(tt), *final(hist)),
        frames_kept(node_stack, final(stack)@, index as int),
        final(thread).node_limit == old(thread).node_limit,
        r is Err ==> stopped(*final(thread), stop),
        r matches Ok((ending, l, t)) ==> thread_ok(*final(thread)) && (ending == 0 || ending == 1) && phase_post(ending, *final(node), t@, spec_gen_mv(node_stack[index - 1], node_stack[index as int]).playable, l, alpha0, beta as int, node_stack[index - 1], node_stack[index as int], keys@, depth as nat),
        r is Ok ==> pv_ok(pv, final(stack)@[index as int], *final(node)) && final(thread).nodes >= old(thread).nodes,
    decreases depth, 2int,
{
    let ghost playable0 = spec_gen_mv(node_stack[index - 1], node_stack[index as int]).playable;
    let ghost p0 = node_stack[index - 1];
    let ghost c0 = node_stack[index as int];
    let mvs = makes_yugo & left;
    let ghost mut tried = tried;
    let mut i: u8 = 0;
    while i < 64
        invariant
            i <= 64,
            search_ok(stack@, *tt, *hist),
            thread_ok(*thread),
            frames_kept(node_stack, stack@, index as int),
            thread.node_limit == old(thread).node_limit,
            pv_ok(pv, stack@[index as int], *node),
            thread.nodes >= old(thread).nodes,
            progress(*node, tried, playable0, left, alpha0, beta as int, p0, c0, keys@, depth as nat),
            forall|k: int| 0 <= k < i && is_set(mvs, k) ==> #[trigger] tried.contains(k),
        decreases 64 - i,
    {
        if (mvs >> (i as u64)) & 1 == 1 {
            proof {
                assert(is_set(mvs, i as int));
                assert(is_set(left, i as int));
            }
            let cut = try_mv(
                pv, keys, tt, hist, thread, stop, stack, index, depth, i, node, beta,
                Ghost(node_stack), Ghost(tried), Ghost(alpha0),
            )?;
            proof {
                tried = tried.insert(i as int);
            }
            if cut {
                return Ok((1, left, Ghost(tried)));
            }
        }
        i += 1;
    }
    let l = left & !makes_yugo;
    proof {
        assert forall|m: int| 0 <= m < 64 && is_set(playable0, m) && !is_set(l, m) implies #[trigger] tried.contains(m) by {
            if is_set(left, m) {
                assert(is_set(mvs, m));
            }
        }
    }
    Ok((0, l, Ghost(tried)))
}

/// Every move still left, in square order.
#[verifier::loop_isolation(false)]
fn phase_quiet<F: Fn() -> bool>(
    pv: bool,
    keys: &HashKeys,
    tt: &mut Table,
    hist: &mut [[i8; 64]; 2],
    thread: &mut Thread,
    stop: &F,
    stack: &mut Vec<Frame>,
    index: usize,
    depth: u32,
    beta: i32,
    node: &mut NodeState,
    left: u64,
    Ghost(node_stack): Ghost<Seq<Frame>>,
    Ghost(tried): Ghost<Set<int>>,
    Ghost(alpha0): Ghost<int>,
) -> (r: Result<(u8, u64, Ghost<Set<int>>), ExitSearch>)
    requires
        search_ok(old(stack)@, *old(tt), *old(hist)),
        thread_ok(*old(thread)),
        frames_kept(node_stack, old(stack)@, index as int),
        node_ctx(keys@, index as int, depth as int, alpha0, beta as int, pv),
        stop.requires(()),
        progress(*old(node), tried, spec_gen_mv(node_stack[index - 1], node_stack[index as int]).playable, left, alpha0, beta as int, node_stack[index - 1], node_stack[index as int], keys@, depth as nat),
        pv_ok(pv, old(stack)@[index as int], *old(node)),
    ensures
        search_ok(final(stack)@, *final(tt), *final(hist)),
        frames_kept(node_stack, final(stack)@, index as int),
        final(thread).node_limit == old(thread).node_limit,
        r is Err ==> stopped(*final(thread), stop),
        r matches Ok((ending, l, t)) ==> thread_ok(*final(thread)) && (ending == 0 || ending == 1) && l == 0 && phase_post(ending, *final(node), t@, spec_gen_mv(node_stack[index - 1], node_stack[index as int]).playable, l, alpha0, beta as int, node_stack[index - 1], node_stack[index as int], keys@, depth as nat),
        r is Ok ==> pv_ok(pv, final(stack)@[index as int], *final(node)) && final(thread).nodes >= old(thread).nodes,
    decreases depth, 2int,
{
    let ghost playable0 = spec_gen_mv(node_stack[index - 1], node_stack[index as int]).playable;
    let ghost p0 = node_stack[index - 1];
    let ghost c0 = node_stack[index as int];
    let ghost mut tried = tried;
    let mut i: u8 = 0;
    while i < 64
        invariant
            i <= 64,
            search_ok(stack@, *tt, *hist),
            thread_ok(*thread),
            frames_kept(node_stack, stack@, index as int),
            thread.node_limit == old(thread).node_limit,
            pv_ok(pv, stack@[index as int], *node),
            thread.nodes >= old(thread).nodes,
            progress(*node, tried, playable0, left, alpha0, beta as int, p0, c0, keys@, depth as nat),
            forall|k: int| 0 <= k < i && is_set(left, k) ==> #[trigger] tried.contains(k),
        decreases 64 - i,
    {
        if (left >> (i as u64)) & 1 == 1 {
            proof {
                assert(is_set(left, i as int));
            }
            let cut = try_mv(
                pv, keys, tt, hist, thread, stop, stack, index, depth, i, node, beta,
                Ghost(node_stack), Ghost(tried), Ghost(alpha0),
            )?;
            proof {
                tried = tried.insert(i as int);
            }
            if cut {
                return Ok((1, 0, Ghost(tried)));
            }
        }
        i += 1;
    }
    proof {
        assert forall|m: int| 0 <= m < 64 && is_set(playable0, m) && !is_set(0u64, m) implies #[trigger] tried.contains(m) by {}
    }
    Ok((0, 0, Ghost(tried)))
}

/// Every move still left, the highest history score first; a cutoff rewards the move that made
/// it and penalizes the moves tried before it.
#[verifier::loop_isolation(false)]
fn phase_history<F: Fn() -> bool>(
    pv: bool,
    keys: &HashKeys,
    tt: &mut Table,
    hist: &mut [[i8; 64]; 2],
    thread: &mut Thread,
    stop: &F,
    stack: &mut Vec<Frame>,
    index: usize,
    depth: u32,
    beta: i32,
    node: &mut NodeState,
    left: u64,
    Ghost(node_stack): Ghost<Seq<Frame>>,
    Ghost(tried): Ghost<Set<int>>,
    Ghost(alpha0): Ghost<int>,
) -> (r: Result<(u8, u64, Ghost<Set<int>>), ExitSearch>)
    requires
        search_ok(old(stack)@, *old(tt), *old(hist)),
        thread_ok(*old(thread)),
        frames_kept(node_stack, old(stack)@, index as int),
        node_ctx(keys@, index as int, depth as int, alpha0, beta as int, pv),
        depth >= 2,
        stop.requires(()),
        progress(*old(node), tried, spec_gen_mv(node_stack[index - 1], node_stack[index as int]).playable, left, alpha0, beta as int, node_stack[index - 1], node_stack[index as int], keys@, depth as nat),
        pv_ok(pv, old(stack)@[index as int], *old(node)),
    ensures
        search_ok(final(stack)@, *final(tt), *final(hist)),
        frames_kept(node_stack, final(stack)@, index as int),
        final(thread).node_limit == old(thread).node_limit,
        r is Err ==> stopped(*final(thread), stop),
        r matches Ok((ending, l, t)) ==> thread_ok(*final(thread)) && (ending == 0 || ending == 1) && l == 0 && phase_post(ending, *final(node), t@, spec_gen_mv(node_stack[index - 1], node_stack[index as int]).playable, l, alpha0, beta as int, node_stack[index - 1], node_stack[index as int], keys@, depth as nat),
        r is Ok ==> pv_ok(pv, final(stack)@[index as int], *final(node)) && final(thread).nodes >= old(thread).nodes,
    decreases depth, 2int,
{
    let ghost playable0 = spec_gen_mv(node_stack[index - 1], node_stack[index as int]).playable;
    let ghost p0 = node_stack[index - 1];
    let ghost c0 = node_stack[index as int];
    let ghost mut tried = tried;
    let cur = stack[index];
    proof {
        assert(stack@[index as int].ply == index - 1);
    }
    let ply = cur.ply;
    assert((ply & 1) == 0 || (ply & 1) == 1) by (bit_vector);
    let side = (ply & 1) as usize;
    let scores = hist[side];
    let depth1 = depth - 1;
    let mut mvs = left;
    let mut failed: u64 = 0;
    while mvs != 0
        invariant
            search_ok(stack@, *tt, *hist),
            thread_ok(*thread),
            frames_kept(node_stack, stack@, index as int),
            thread.node_limit == old(thread).node_limit,
            pv_ok(pv, stack@[index as int], *node),
            thread.nodes >= old(thread).nodes,
            progress(*node, tried, playable0, mvs, alpha0, beta as int, p0, c0, keys@, depth as nat),
        decreases bits_count(mvs, 64),
    {
        let mv = pick_by_history(mvs, &scores);
        let cut = try_mv(
            pv, keys, tt, hist, thread, stop, stack, index, depth, mv, node, beta,
            Ghost(node_stack), Ghost(tried), Ghost(alpha0),
        )?;
        proof {
            tried = tried.insert(mv as int);
        }
        if cut {
            assert(depth1 * depth1 <= 4096) by (nonlinear_arith)
                requires
                    depth1 <= 64,
            ;
            let bonus: i32 = if depth1 * depth1 < 64 {
                (depth1 * depth1) as i32
            } else {
                64
            };
            let mut row = hist[side];
            let e = row[mv as usize];
            row[mv as usize] = hist_update(e, 1, bonus);
            let mut j: u8 = 0;
            while j < 64
                invariant
                    j <= 64,
                    0 <= bonus <= 64,
                    forall|i: int| 0 <= i < 64 ==> -64 <= #[trigger] row@[i] <= 64,
                decreases 64 - j,
            {
                if (failed >> (j as u64)) & 1 == 1 {
                    row[j as usize] = hist_update(row[j as usize], -1, bonus / 2);
                }
                j += 1;
            }
            let ghost h_before = *hist;
            hist[side] = row;
            proof {
                assert forall|s: int, i: int| 0 <= s < 2 && 0 <= i < 64 implies -64 <= #[trigger] hist@[s]@[i] <= 64 by {
                    if s != side {
                        assert(hist@[s] == h_before@[s]);
                    }
                }
            }
            return Ok((1, 0, Ghost(tried)));
        }
        let b = 1u64 << (mv as u64);
        assert(b == bit(mv as int));
        proof {
            lemma_bits_count_clear(mvs, mv as int, 64);
        }
        failed = failed | b;
        mvs = mvs & !b;
    }
    Ok((0, 0, Ghost(tried)))
}

/// Try move `mv` at frame `index` of a node searched to `depth`, updating the node; `true` when
/// the move's value reaches `beta`.
#[verifier::rlimit(60)]
fn try_mv<F: Fn() -> bool>(
    pv: bool,
    keys: &HashKeys,
    tt: &mut Table,
    hist: &mut [[i8; 64]; 2],
    thread: &mut Thread,
    stop: &F,
    stack: &mut Vec<Frame>,
    index: usize,
    depth: u32,
    mv: u8,
    node: &mut NodeState,
    beta: i32,
    Ghost(node_stack): Ghost<Seq<Frame>>,
    Ghost(tried): Ghost<Set<int>>,
    Ghost(alpha0): Ghost<int>,
) -> (r: Result<bool, ExitSearch>)
    requires
        search_ok(old(stack)@, *old(tt), *old(hist)),
        thread_ok(*old(thread)),
        frames_kept(node_stack, old(stack)@, index as int),
        keys@.len() == 256,
        LOOKBEHIND <= index,
        index + depth < STACK_LEN,
        1 <= depth <= 64,
        i32::MIN < alpha0 < beta,
        !pv ==> alpha0 == beta - 1,
        stop.requires(()),
        mv < 64,
        is_set(spec_gen_mv(node_stack[index - 1], node_stack[index as int]).playable, mv as int),
        node_ok(*old(node), tried, alpha0, node_stack[index - 1], node_stack[index as int], keys@, depth as nat),
        old(node).best_value < beta,
        pv_ok(pv, old(stack)@[index as int], *old(node)),
    ensures
        search_ok(final(stack)@, *final(tt), *final(hist)),
        r is Ok ==> thread_ok(*final(thread)),
        frames_kept(node_stack, final(stack)@, index as int),
        final(thread).node_limit == old(thread).node_limit,
        r is Err ==> stopped(*final(thread), stop),
        r matches Ok(cut) ==> {
            let m = move_value(node_stack[index - 1], node_stack[index as int], keys@, depth as nat, mv as int);
            &&& !cut ==> node_ok(*final(node), tried.insert(mv as int), alpha0, node_stack[index - 1], node_stack[index as int], keys@, depth as nat)
            &&& !cut ==> final(node).best_value < beta
            &&& cut ==> final(node).best_value >= beta && m >= final(node).best_value && final(node).best_mv == mv
                && -value_bound() <= final(node).best_value <= value_bound()
        },
        r is Ok ==> pv_ok(pv, final(stack)@[index as int], *final(node)) && final(thread).nodes >= old(thread).nodes,
    decreases depth, 1int,
{
    let prev = stack[index - 1];
    let cur = stack[index];
    let ghost p0 = node_stack[index - 1];
    let ghost c0 = node_stack[index as int];
    let ghost dn = depth as nat;
    proof {
        assert(stack@[index as int - 1] == p0);
        assert(same_prev(cur, c0));
        lemma_psqt_bounds(mv as int);
        lemma_removed_psqt_bound(prev.opp_migo, yugo_own(prev, mv as int));
        assert(frame_bounded(stack@[index as int], index as int));
        assert(stack@[index as int].ply == index - 1);
    }
    let b = 1u64 << (mv as u64);
    assert(b == bit(mv as int));
    let new = if prev.opp_makes_yugo & b != 0 {
        make_yugo(&prev, &cur, keys, mv)
    } else {
        make_migo(&prev, &cur, keys, mv)
    };
    proof {
        assert(spec_gen_mv(prev, cur) == spec_gen_mv(p0, c0));
        assert(new == spec_make(p0, c0, keys@, mv as int));
    }
    let depth1 = depth - 1;
    let mut value: i32;
    if depth1 == 0 {
        thread.evals = thread.evals.wrapping_add(1);
        value = new.score * 20 + new.psqt_value;
        proof {
            assert(fail_soft(value as int, node.alpha as int, beta as int, move_value(p0, c0, keys@, dn, mv as int)));
        }
    } else {
        let mut next = stack[index + 1];
        apply(&mut next, new, depth1 >= 2);
        proof {
            assert(frame_bounded(next, index as int + 1));
            lemma_set_frame(stack@, index as int + 1, next);
        }
        stack.set(index + 1, next);
        let ghost m = move_value(p0, c0, keys@, dn, mv as int);
        proof {
            assert(same_cur(next, child(c0, new), depth1 as nat));
            lemma_negamax_congruent(cur, next, c0, child(c0, new), keys@, depth1 as nat);
            assert(m == -negamax(c0, child(c0, new), keys@, depth1 as nat));
            assert(stack@[index as int] == cur);
        }
        let a = node.alpha;
        let mut searched = false;
        value = 0;
        if !pv || node.best_value != -0x7FFF_FFFF {
            let ghost s1 = stack@;
            let c = search(false, keys, tt, hist, thread, stop, stack, index + 1, depth1, -a - 1, -a)?;
            proof {
                assert(negamax(s1[index as int], s1[index + 1], keys@, depth1 as nat) == -m);
            }
            value = -c;
            searched = !pv || value <= a;
            proof {
                if searched {
                    assert(fail_soft(value as int, node.alpha as int, beta as int, m));
                }
            }
        }
        if !searched {
            let ghost s2 = stack@;
            proof {
                assert(same_cur(s2[index + 1], next, depth1 as nat));
                lemma_negamax_congruent(s2[index as int], s2[index + 1], cur, next, keys@, depth1 as nat);
            }
            let c = search(true, keys, tt, hist, thread, stop, stack, index + 1, depth1, -beta, -a)?;
            value = -c;
        }
        proof {
            assert(fail_soft(value as int, node.alpha as int, beta as int, m));
        }
    }
    if value > node.best_value {
        node.best_value = value;
        if value > node.alpha {
            node.best_mv = mv;
            if pv {
                let f0 = stack[index];
                let n = stack[index + 1];
                let f = with_line(&f0, mv, &n, depth1 == 0);
                proof {
                    assert(stack@[index as int] == f0);
                    assert(frame_bounded(f0, index as int));
                    assert(frame_moves_ok(f0));
                    lemma_set_frame(stack@, index as int, f);
                }
                stack.set(index, f);
            }
            if value >= beta {
                return Ok(true);
            }
            node.alpha = value;
        }
    }
    Ok(false)
}


/// Frame `f0` with its line set to `mv`, followed (unless `leaf`) by the line of the next
/// frame `n`, cut to 63 moves.
fn with_line(f0: &Frame, mv: u8, n: &Frame, leaf: bool) -> (f: Frame)
    ensures
        f == (Frame { pv: f.pv, pv_len: f.pv_len, ..*f0 }),
        f.pv@[0] == mv,
        1 <= f.pv_len <= 64,
        leaf ==> f.pv_len == 1,
        !leaf ==> f.pv_len == 1 + (if n.pv_len < 64 { n.pv_len } else { 63 }),
        !leaf ==> forall|j: int| 1 <= j < f.pv_len ==> #[trigger] f.pv@[j] == n.pv@[j - 1],
{
    let mut pvs = f0.pv;
    pvs[0] = mv;
    let mut pv_len: usize = 1;
    if !leaf {
        let len = if n.pv_len < 64 {
            n.pv_len
        } else {
            63
        };
        let mut j: usize = 0;
        while j < len
            invariant
                j <= len <= 63,
                pvs@[0] == mv,
                forall|k: int| 1 <= k <= j ==> #[trigger] pvs@[k] == n.pv@[k - 1],
            decreases len - j,
        {
            pvs[j + 1] = n.pv[j];
            j += 1;
        }
        pv_len = len + 1;
    }
    Frame { pv: pvs, pv_len, ..*f0 }
}

/// The moves of a frame's principal variation./// The moves of a frame's principal variation.
pub fn pv_moves(f: &Frame) -> (r: Vec<crate::itgo::protocol::Mv>)
    requires
        f.pv_len <= 64,
        forall|i: int| 0 <= i < f.pv_len ==> #[trigger] f.pv@[i] < 64,
    ensures
        r@.len() == f.pv_len,
        forall|i: int| 0 <= i < f.pv_len ==> (#[trigger] r@[i])@ == f.pv@[i],
{
    let mut r: Vec<crate::itgo::protocol::Mv> = Vec::new();
    let mut i: usize = 0;
    while i < f.pv_len
        invariant
            i <= f.pv_len <= 64,
            forall|k: int| 0 <= k < f.pv_len ==> #[trigger] f.pv@[k] < 64,
            r@.len() == i,
            forall|k: int| 0 <= k < i ==> (#[trigger] r@[k])@ == f.pv@[k],
        decreases f.pv_len - i,
    {
        let m = crate::itgo::protocol::Mv::from_raw(f.pv[i]).unwrap();
        r.push(m);
        i += 1;
    }
    r
}

/// The deepest iteration to run from frame `index`: the depth asked for, at most `MAX_DEPTH`, and
/// no deeper than the frames left above `index`.
pub fn depth_bound(depth: u32, index: usize) -> (r: u32)
    requires
        index < STACK_LEN,
    ensures
        r <= depth,
        r <= crate::itgo::protocol::MAX_DEPTH,
        r <= STACK_LEN - 1 - index,
        r == depth || r == crate::itgo::protocol::MAX_DEPTH || r == STACK_LEN - 1 - index,
{
    let room = (STACK_LEN - 1 - index) as u32;
    let mut r = depth;
    if crate::itgo::protocol::MAX_DEPTH < r {
        r = crate::itgo::protocol::MAX_DEPTH;
    }
    if room < r {
        r = room;
    }
    r
}

/// What to report after a completed iteration to `depth`: the best move (none when the line is
/// empty, as at a root without a legal move), the progress message,
/// and whether to go deeper (not after a forced result). `time_ns` is the time spent so far.
pub fn depth_report(f: &Frame, eval: i32, depth: u32, time_ns: u64, thread: &Thread) -> (r: (
    Option<crate::itgo::protocol::Mv>,
    crate::itgo::protocol::EngineMsg,
    bool,
))
    requires
        f.pv_len <= 64,
        forall|i: int| 0 <= i < f.pv_len ==> #[trigger] f.pv@[i] < 64,
        eval > i32::MIN,
        -1 <= f.ply <= crate::itgo::game::MAX_LEN,
    ensures
        f.pv_len > 0 ==> (r.0 matches Some(m) && m@ == f.pv@[0]),
        f.pv_len == 0 ==> r.0 is None,
        r.2 == (crate::itgo::search::spec_convert_eval(f.ply as int, eval as int) is Score),
        r.1 matches crate::itgo::protocol::EngineMsg::Info { pv, eval: e, depth: d, time, nodes, knps, evals, keps, pv_nodes } && pv@.len() == f.pv_len && e == crate::itgo::search::spec_convert_eval(f.ply as int, eval as int) && d == depth && nodes == thread.nodes && evals == thread.evals && pv_nodes == thread.pv_nodes && time == (if time_ns == 0 { 1 } else { time_ns as int }) / 1_000_000 && knps == (thread.nodes * 1_000_000 / (if time_ns == 0 { 1 } else { time_ns as int })) as u64 && keps == (thread.evals * 1_000_000 / (if time_ns == 0 { 1 } else { time_ns as int })) as u64,
{
    let best = if f.pv_len > 0 {
        crate::itgo::protocol::Mv::from_raw(f.pv[0])
    } else {
        None
    };
    let pv = pv_moves(f);
    let e = crate::itgo::search::convert_eval(f.ply, eval);
    let t: u64 = if time_ns == 0 {
        1
    } else {
        time_ns
    };
    let time = t / 1_000_000;
    assert(thread.nodes * 1_000_000 < 0x1_0000_0000_0000_0000 * 1_000_000) by (nonlinear_arith)
        requires
            thread.nodes < 0x1_0000_0000_0000_0000,
    ;
    assert(thread.evals * 1_000_000 < 0x1_0000_0000_0000_0000 * 1_000_000) by (nonlinear_arith)
        requires
            thread.evals < 0x1_0000_0000_0000_0000,
    ;
    let knps = #[verifier::truncate] (((thread.nodes as u128) * 1_000_000u128 / (t as u128)) as u64);
    let keps = #[verifier::truncate] (((thread.evals as u128) * 1_000_000u128 / (t as u128)) as u64);
    let deeper = match e {
        crate::itgo::protocol::Eval::Score(_) => true,
        crate::itgo::protocol::Eval::Decisive(_) => false,
    };
    let msg = crate::itgo::protocol::EngineMsg::Info {
        pv,
        eval: e,
        depth,
        time,
        nodes: thread.nodes,
        knps,
        evals: thread.evals,
        keps,
        pv_nodes: thread.pv_nodes,
    };
    (best, msg, deeper)
}

} // verus!
