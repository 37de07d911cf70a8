//! Itgo's game: a stack of frames, one per ply, and the index of the current one.

use vstd::prelude::*;

use crate::bits::is_set;
use crate::itgo::protocol::Mv;
use crate::itgo::state::{
    checked_direct_make, direct_make_fits, lemma_removed_psqt_bound, spec_direct_make,
    spec_gen_mv, spec_make, spec_psqt_migo, spec_psqt_yugo, yugo_own, DirectMakeResult, Frame,
};
use crate::itgo::tt::HashKeys;

verus! {

/// Frames kept before the first ply.
pub const LOOKBEHIND: usize = 1;

/// Upper bound on a game's length: the board filled with yugos, each made by clearing up to
/// twelve migos.
pub const MAX_LEN: usize = 832;

/// Frames in the stack.
pub const STACK_LEN: usize = 833;

/// The engine's game: frames for every ply, the current one at `index`.
pub struct Game {
    pub stack: Vec<Frame>,
    pub index: usize,
    /// Zobrist keys for the hash.
    pub keys: HashKeys,
}

/// The values of frame `k` stay within what `k` plies can reach.
pub open spec fn frame_bounded(f: Frame, k: int) -> bool {
    &&& -1000 * k <= f.psqt_value <= 1000 * k
    &&& -4 * k <= f.score <= 4 * k
}

/// Killer moves are squares and the line fits its array.
pub open spec fn frame_moves_ok(f: Frame) -> bool {
    &&& f.killers@[0] < 64
    &&& f.killers@[1] < 64
    &&& f.pv_len <= 64
}

/// A stack of `STACK_LEN` frames, frame `k` at ply `k - 1`, with bounded values.
pub open spec fn stack_wf(s: Seq<Frame>) -> bool {
    &&& s.len() == STACK_LEN
    &&& forall|k: int| 0 <= k < STACK_LEN ==> (#[trigger] s[k]).ply == k - 1
    &&& forall|k: int| 0 <= k < STACK_LEN ==> frame_bounded(#[trigger] s[k], k)
    &&& forall|k: int| 0 <= k < STACK_LEN ==> frame_moves_ok(#[trigger] s[k])
}

/// Why a move sequence was refused.
pub open spec fn play_error(r: Option<DirectMakeResult>) -> Seq<char> {
    match r {
        Some(DirectMakeResult::Igo) => "Move sequence extends past Igo, cancelling"@,
        Some(DirectMakeResult::Wego) => "Move sequence extends past Wego, cancelling"@,
        Some(DirectMakeResult::Illegal) => "Sequence contains illegal move(s), cancelling"@,
        _ => "Move sequence longer than the game can be, cancelling"@,
    }
}

/// What `play` leaves: on success the frames and index reached. On a refusal the index it
/// started from and the reason; a replay from the start leaves every frame as it was, and
/// moves from the current ply leave the frames up to it as they were, having written only
/// frames above it.
pub open spec fn play_post(
    stack: Seq<Frame>,
    from_start: bool,
    index: int,
    keys: Seq<u64>,
    mvs: Seq<Mv>,
    final_stack: Seq<Frame>,
    final_index: int,
    r: Result<(), &'static str>,
) -> bool {
    let start = if from_start {
        LOOKBEHIND as int
    } else {
        index
    };
    let (st, idx, res) = spec_play_from(stack, start, keys, mvs);
    &&& res == Some(DirectMakeResult::Made) ==> r is Ok && final_index == idx && final_stack == st
    &&& res != Some(DirectMakeResult::Made) ==> final_index == index && (r matches Err(e) && e@
        == play_error(res)) && final_stack == (if from_start {
        stack
    } else {
        st
    })
}

/// A copy of the frames.
fn copy_frames(s: &Vec<Frame>) -> (r: Vec<Frame>)
    ensures
        r@ == s@,
{
    let mut r: Vec<Frame> = Vec::new();
    let mut k: usize = 0;
    while k < s.len()
        invariant
            k <= s@.len(),
            r@ == s@.take(k as int),
        decreases s@.len() - k,
    {
        let f = s[k];
        r.push(f);
        proof {
            assert(s@.take(k as int + 1) =~= s@.take(k as int).push(s@[k as int]));
        }
        k += 1;
    }
    assert(s@.take(s@.len() as int) =~= s@);
    r
}

/// The message for a refusal.
fn play_message(r: Option<DirectMakeResult>) -> (e: &'static str)
    ensures
        e@ == play_error(r),
{
    match r {
        Some(DirectMakeResult::Igo) => "Move sequence extends past Igo, cancelling",
        Some(DirectMakeResult::Wego) => "Move sequence extends past Wego, cancelling",
        Some(DirectMakeResult::Illegal) => "Sequence contains illegal move(s), cancelling",
        _ => "Move sequence longer than the game can be, cancelling",
    }
}

/// Playing `mvs` from frame `index` of `stack`: the frames afterwards, the index reached, and
/// the first refusal (`None` for a full stack), or `Some(Made)` when every move was made.
pub open spec fn spec_play_from(stack: Seq<Frame>, index: int, keys: Seq<u64>, mvs: Seq<Mv>) -> (
    Seq<Frame>,
    int,
    Option<DirectMakeResult>,
)
    decreases mvs.len(),
{
    if mvs.len() == 0 {
        (stack, index, Some(DirectMakeResult::Made))
    } else if index + 1 >= STACK_LEN {
        (stack, index, None)
    } else {
        let (r, next) = spec_direct_make(
            stack[index - 1],
            stack[index],
            stack[index + 1],
            keys,
            mvs[0]@,
        );
        if r != DirectMakeResult::Made {
            (stack, index, Some(r))
        } else {
            spec_play_from(stack.update(index + 1, next), index + 1, keys, mvs.drop_first())
        }
    }
}

/// Playing moves writes only the frames above the one it starts from, and when every move is
/// made the index has advanced by one per move: undoing that many plies comes back to the
/// starting frame as it was.
pub proof fn law_play_then_undo(stack: Seq<Frame>, index: int, keys: Seq<u64>, mvs: Seq<Mv>)
    requires
        stack.len() == STACK_LEN,
        LOOKBEHIND <= index < STACK_LEN,
    ensures
        ({
            let (st, idx, res) = spec_play_from(stack, index, keys, mvs);
            &&& st.len() == STACK_LEN
            &&& forall|k: int| 0 <= k <= index ==> #[trigger] st[k] == stack[k]
            &&& res == Some(DirectMakeResult::Made) ==> idx == index + mvs.len()
                && idx - mvs.len() == index && st[idx - mvs.len()] == stack[index]
        }),
    decreases mvs.len(),
{
    if mvs.len() > 0 && index + 1 < STACK_LEN {
        let (r, next) = spec_direct_make(
            stack[index - 1],
            stack[index],
            stack[index + 1],
            keys,
            mvs[0]@,
        );
        if r == DirectMakeResult::Made {
            let stack2 = stack.update(index + 1, next);
            law_play_then_undo(stack2, index + 1, keys, mvs.drop_first());
            let (st, idx, res) = spec_play_from(stack2, index + 1, keys, mvs.drop_first());
            assert forall|k: int| 0 <= k <= index implies #[trigger] st[k] == stack[k] by {
                assert(st[k] == stack2[k]);
            }
        }
    }
}

/// The frame `dst` with the position of `src`, keeping its own ply, killers and line.
pub open spec fn synced(dst: Frame, src: Frame) -> Frame {
    Frame {
        opp_migo: src.opp_migo,
        opp_yugo: src.opp_yugo,
        opp_makes_yugo: src.opp_makes_yugo,
        opp_makes_igo: src.opp_makes_igo,
        opp_too_long: src.opp_too_long,
        score: src.score,
        psqt_value: src.psqt_value,
        hash: src.hash,
        ..dst
    }
}

impl Game {
    /// The stack is well formed and the index within it.
    pub open spec fn wf(&self) -> bool {
        &&& stack_wf(self.stack@)
        &&& LOOKBEHIND <= self.index < STACK_LEN
    }

    /// The hash keys the game uses.
    pub open spec fn keys(&self) -> Seq<u64> {
        self.keys@
    }

    /// An empty game: every frame empty, at the first ply.
    pub fn new() -> (r: Game)
        ensures
            r.wf(),
            r.index == LOOKBEHIND,
            forall|k: int| 0 <= k < STACK_LEN ==> (#[trigger] r.stack@[k]) == Frame::new_spec(
                k - 1,
            ),
    {
        let mut stack: Vec<Frame> = Vec::new();
        let mut k: usize = 0;
        while k < STACK_LEN
            invariant
                k <= STACK_LEN,
                stack@.len() == k,
                forall|j: int| 0 <= j < k ==> (#[trigger] stack@[j]) == Frame::new_spec(j - 1),
            decreases STACK_LEN - k,
        {
            let f = Frame::new(k as i32 - 1);
            stack.push(f);
            k += 1;
        }
        Game { stack, index: LOOKBEHIND, keys: HashKeys::new() }
    }

    /// Play `mvs` from the current ply, or from the start when `from_start`. On a refusal the
    /// move list is cancelled: the index goes back to where it was, the game up to it is as it
    /// was, and the error says why.
    pub fn play(&mut self, mvs: &[Mv], from_start: bool) -> (r: Result<(), &'static str>)
        requires
            old(self).wf(),
        ensures
            final(self).wf(),
            final(self).keys() == old(self).keys(),
            r is Err ==> final(self).index == old(self).index && forall|k: int|
                0 <= k <= old(self).index ==> #[trigger] final(self).stack@[k] == old(self).stack@[k],
            play_post(
                old(self).stack@,
                from_start,
                old(self).index as int,
                old(self).keys(),
                mvs@,
                final(self).stack@,
                final(self).index as int,
                r,
            ),
    {
        let index = self.index;
        proof {
            law_play_then_undo(self.stack@, self.index as int, self.keys(), mvs@);
        }
        let saved = if from_start {
            Some(copy_frames(&self.stack))
        } else {
            None
        };
        if from_start {
            self.undo_all();
        }
        let ghost start = self.index as int;
        assert(mvs@.skip(0) =~= mvs@);
        let mut i: usize = 0;
        let mut refusal: Option<DirectMakeResult> = Some(DirectMakeResult::Made);
        while i < mvs.len()
            invariant_except_break
                refusal == Some(DirectMakeResult::Made),
                spec_play_from(old(self).stack@, start, old(self).keys(), mvs@) == spec_play_from(
                    self.stack@,
                    self.index as int,
                    self.keys(),
                    mvs@.skip(i as int),
                ),
            invariant
                self.wf(),
                self.keys() == old(self).keys(),
                i <= mvs@.len(),
                index == old(self).index,
                LOOKBEHIND <= index < STACK_LEN,
            ensures
                refusal == Some(DirectMakeResult::Made) ==> i == mvs@.len() && spec_play_from(
                    old(self).stack@,
                    start,
                    old(self).keys(),
                    mvs@,
                ) == spec_play_from(
                    self.stack@,
                    self.index as int,
                    self.keys(),
                    mvs@.skip(i as int),
                ),
                refusal != Some(DirectMakeResult::Made) ==> spec_play_from(
                    old(self).stack@,
                    start,
                    old(self).keys(),
                    mvs@,
                ) == (self.stack@, self.index as int, refusal),
            decreases mvs@.len() - i,
        {
            proof {
                assert(mvs@.skip(i as int).drop_first() =~= mvs@.skip(i as int + 1));
                assert(mvs@.skip(i as int)[0] == mvs@[i as int]);
            }
            if self.index + 1 >= STACK_LEN {
                refusal = None;
                break;
            }
            let r = self.step(mvs[i]);
            if r != DirectMakeResult::Made {
                refusal = Some(r);
                break;
            }
            i += 1;
        }
        proof {
            if refusal == Some(DirectMakeResult::Made) {
                assert(mvs@.skip(i as int) =~= Seq::<Mv>::empty());
            }
        }
        match refusal {
            Some(DirectMakeResult::Made) => Ok(()),
            _ => {
                if let Some(frames) = saved {
                    self.stack = frames;
                }
                self.index = index;
                Err(play_message(refusal))
            },
        }
    }

    /// Make one move at the current frame into the next one, advancing on success.
    fn step(&mut self, mv: Mv) -> (r: DirectMakeResult)
        requires
            old(self).wf(),
            old(self).index + 1 < STACK_LEN,
        ensures
            final(self).wf(),
            final(self).keys() == old(self).keys(),
            ({
                let i = old(self).index as int;
                let s = old(self).stack@;
                let (res, next) = spec_direct_make(s[i - 1], s[i], s[i + 1], old(self).keys(), mv@);
                &&& r == res
                &&& r == DirectMakeResult::Made ==> final(self).stack@ == s.update(i + 1, next)
                    && final(self).index == i + 1
                &&& r != DirectMakeResult::Made ==> final(self).stack@ == s && final(self).index
                    == i
            }),
    {
        let i = self.index;
        let m = mv.raw();
        let prev = self.stack[i - 1];
        let cur = self.stack[i];
        let mut next = self.stack[i + 1];
        proof {
            let s = self.stack@;
            assert(frame_bounded(s[i as int], i as int));
            assert(s[i as int].ply == i - 1);
            lemma_removed_psqt_bound(prev.opp_migo, yugo_own(prev, m as int));
            lemma_psqt_ranges(m as int);
        }
        let r = checked_direct_make(&prev, &cur, &mut next, &self.keys, m);
        if r == DirectMakeResult::Made {
            proof {
                let s = self.stack@;
                let d = spec_make(prev, cur, self.keys@, m as int);
                assert(next.ply == s[i as int + 1].ply);
                assert(frame_bounded(next, i as int + 1));
            }
            self.stack.set(i + 1, next);
            self.index = i + 1;
        }
        r
    }

    /// Take back `count` plies, unless that is more than were played.
    pub fn undo(&mut self, count: usize) -> (r: Result<(), &'static str>)
        requires
            old(self).wf(),
        ensures
            final(self).wf(),
            final(self).stack@ == old(self).stack@,
            final(self).keys() == old(self).keys(),
            count <= old(self).index - LOOKBEHIND ==> r is Ok && final(self).index == old(
                self,
            ).index - count,
            count > old(self).index - LOOKBEHIND ==> final(self).index == old(self).index
                && (r matches Err(e) && e@ == "Requested too many moves to undo, cancelling"@),
    {
        if count > self.index - LOOKBEHIND {
            return Err("Requested too many moves to undo, cancelling");
        }
        self.index = self.index - count;
        Ok(())
    }

    /// Go back to the first ply.
    pub fn undo_all(&mut self)
        requires
            old(self).wf(),
        ensures
            final(self).wf(),
            final(self).stack@ == old(self).stack@,
            final(self).keys() == old(self).keys(),
            final(self).index == LOOKBEHIND,
    {
        self.index = LOOKBEHIND;
    }

    /// Forget the killer moves of every frame.
    pub fn searcher_reset(&mut self)
        requires
            old(self).wf(),
        ensures
            final(self).wf(),
            final(self).index == old(self).index,
            final(self).keys() == old(self).keys(),
            forall|k: int|
                0 <= k < STACK_LEN ==> (#[trigger] final(self).stack@[k]) == (Frame {
                    killers: [0u8, 1u8],
                    ..old(self).stack@[k]
                }),
    {
        let mut k: usize = 0;
        while k < self.stack.len()
            invariant
                self.wf(),
                self.index == old(self).index,
                self.keys() == old(self).keys(),
                self.stack@.len() == STACK_LEN,
                k <= STACK_LEN,
                forall|j: int|
                    0 <= j < k ==> (#[trigger] self.stack@[j]) == (Frame {
                        killers: [0u8, 1u8],
                        ..old(self).stack@[j]
                    }),
                forall|j: int| k <= j < STACK_LEN ==> (#[trigger] self.stack@[j]) == old(
                    self,
                ).stack@[j],
            decreases STACK_LEN - k,
        {
            let mut f = self.stack[k];
            f.killers = [0, 1];
            self.stack.set(k, f);
            k += 1;
        }
    }

    /// Take the current position of `game`: its index, and the position of its current and
    /// previous frames.
    pub fn sync_with(&mut self, game: &Game)
        requires
            old(self).wf(),
            game.wf(),
        ensures
            final(self).wf(),
            final(self).keys() == old(self).keys(),
            final(self).index == game.index,
            forall|k: int|
                0 <= k < STACK_LEN ==> (#[trigger] final(self).stack@[k]) == if k == game.index
                    - 1 || k == game.index {
                    synced(old(self).stack@[k], game.stack@[k])
                } else {
                    old(self).stack@[k]
                },
    {
        self.index = game.index;
        let mut i = self.index - LOOKBEHIND;
        while i < self.index + 1
            invariant
                self.wf(),
                game.wf(),
                self.keys() == old(self).keys(),
                self.index == game.index,
                self.index - 1 <= i <= self.index + 1,
                forall|k: int|
                    0 <= k < STACK_LEN ==> (#[trigger] self.stack@[k]) == if self.index - 1 <= k
                        < i {
                        synced(old(self).stack@[k], game.stack@[k])
                    } else {
                        old(self).stack@[k]
                    },
            decreases self.index + 1 - i,
        {
            let other = game.stack[i];
            let mut this = self.stack[i];
            this.opp_migo = other.opp_migo;
            this.opp_yugo = other.opp_yugo;
            this.opp_makes_yugo = other.opp_makes_yugo;
            this.opp_makes_igo = other.opp_makes_igo;
            this.opp_too_long = other.opp_too_long;
            this.score = other.score;
            this.psqt_value = other.psqt_value;
            this.hash = other.hash;
            self.stack.set(i, this);
            i += 1;
        }
    }
}

proof fn lemma_psqt_ranges(mv: int)
    requires
        0 <= mv < 64,
    ensures
        2 <= spec_psqt_migo(mv) <= 12,
        50 <= spec_psqt_yugo(mv) <= 70,
{
    crate::itgo::state::lemma_psqt_bounds(mv);
}

} // verus!
