//! Opening books: move sequences that the games of a match start from.

use vstd::prelude::*;

use rand::seq::IndexedRandom;

use crate::error::PlayError;
use crate::error::ParseSqError;
use crate::mv::Mv;
use crate::sq::{parse_sq_agrees, parse_sq_chars, spec_parse_sq};
use crate::text::{split_whitespace, split_ws, trim, trim_chars};
use vstd::utf8::encode_utf8;
use crate::piece::Color;
use crate::sq::Sq;
use crate::state::State;

verus! {

/// Replaying the first `n` moves of `mvs` from the initial position: the state reached, or the
/// index of the first move that could not be played and why.
pub open spec fn replay_upto(mvs: Seq<Mv>, n: int) -> Result<State, (int, PlayError)>
    decreases n,
{
    if n <= 0 {
        Ok(State::spec_new())
    } else {
        match replay_upto(mvs, n - 1) {
            Err(e) => Err(e),
            Ok(s) => {
                let i = mvs[n - 1].sq@;
                if !s.spec_is_empty(i) {
                    Err((n - 1, PlayError::Occupied))
                } else if !s.spec_legal(i) {
                    Err((n - 1, PlayError::LineTooLong))
                } else {
                    Ok(s.spec_play(i).0)
                }
            },
        }
    }
}

/// Every legal move of the replay keeps the mover's score within a byte.
pub open spec fn replay_fits(mvs: Seq<Mv>) -> bool {
    forall|k: int|
        0 <= k < mvs.len() ==> match #[trigger] replay_upto(mvs, k) {
            Ok(s) => s.spec_legal(mvs[k].sq@) ==> s.spec_play_fits(mvs[k].sq@),
            Err(_) => true,
        }
}

/// Whether replaying `opening` keeps every mover's score within a byte: the condition under
/// which it can be validated.
pub fn line_fits(opening: &[Mv]) -> (r: bool)
    ensures
        r == replay_fits(opening@),
{
    let mut state = State::new();
    let mut i: usize = 0;
    while i < opening.len()
        invariant
            i <= opening@.len(),
            replay_upto(opening@, i as int) == Ok::<State, (int, PlayError)>(state),
            forall|k: int|
                0 <= k < i ==> match #[trigger] replay_upto(opening@, k) {
                    Ok(s) => s.spec_legal(opening@[k].sq@) ==> s.spec_play_fits(opening@[k].sq@),
                    Err(_) => true,
                },
        decreases opening@.len() - i,
    {
        let mv = opening[i];
        if !state.is_legal_placement(mv.sq) {
            proof {
                assert(replay_upto(opening@, i + 1) is Err);
                assert forall|k: int| 0 <= k < opening@.len() implies match #[trigger] replay_upto(
                    opening@,
                    k,
                ) {
                    Ok(s) => s.spec_legal(opening@[k].sq@) ==> s.spec_play_fits(opening@[k].sq@),
                    Err(_) => true,
                } by {
                    if k > i {
                        lemma_replay_err_stays(opening@, i + 1, k);
                    }
                }
            }
            return true;
        }
        if !state.play_fits(mv.sq) {
            assert(replay_upto(opening@, i as int) == Ok::<State, (int, PlayError)>(state));
            return false;
        }
        proof {
            state.lemma_legal_empty(mv.sq@);
        }
        let (next, _) = state.play_unchecked(mv);
        state = next;
        i += 1;
    }
    true
}

/// Why an opening is refused.
#[derive(Debug, Clone, Copy, PartialEq, Eq, Structural)]
pub enum OpeningError {
    /// The move at `index` (from 0) cannot be played.
    Move { index: usize, sq: Sq, error: PlayError },
    /// The opening ends the game.
    Terminal,
}

/// What checking an opening gives.
pub open spec fn spec_validate_opening(mvs: Seq<Mv>) -> Result<(), OpeningError> {
    match replay_upto(mvs, mvs.len() as int) {
        Err((k, e)) => Err(OpeningError::Move { index: k as usize, sq: mvs[k].sq, error: e }),
        Ok(s) => if s.spec_has_legal_moves() {
            Ok(())
        } else {
            Err(OpeningError::Terminal)
        },
    }
}

/// Calls `rand::seq::IndexedRandom::choose` on `legal` with the thread's generator.
///
/// Claimed: the move returned is one of `legal`; which one is left to chance.
#[verifier::external_body]
fn choose_move(legal: &Vec<Mv>) -> (r: Mv)
    requires
        legal@.len() > 0,
    ensures
        legal@.contains(r),
{
    *legal.choose(&mut rand::rng()).unwrap()
}

/// Opening lines; games of a pair start from the same one.
pub struct OpeningBook {
    openings: Vec<Vec<Mv>>,
}

impl View for OpeningBook {
    type V = Seq<Seq<Mv>>;

    closed spec fn view(&self) -> Seq<Seq<Mv>> {
        self.openings@.map_values(|v: Vec<Mv>| v@)
    }
}

/// The index and error of each of the first `n` openings that does not validate, in order.
pub open spec fn invalid_openings(book: Seq<Seq<Mv>>, n: int) -> Seq<(usize, OpeningError)>
    decreases n,
{
    if n <= 0 {
        seq![]
    } else {
        let prev = invalid_openings(book, n - 1);
        match spec_validate_opening(book[n - 1]) {
            Ok(()) => prev,
            Err(e) => prev.push(((n - 1) as usize, e)),
        }
    }
}

impl OpeningBook {
    #[verifier::type_invariant]
    spec fn inv(self) -> bool {
        self.openings@.len() >= 1
    }

    /// A book whose one opening is the empty line: games start from the initial position.
    pub fn empty() -> (r: OpeningBook)
        ensures
            r@ == seq![Seq::<Mv>::empty()],
    {
        let r = OpeningBook { openings: vec![Vec::new()] };
        assert(r@ =~= seq![Seq::<Mv>::empty()]);
        r
    }

    /// A book of the given openings; with none, the single empty opening.
    pub fn from_openings(openings: Vec<Vec<Mv>>) -> (r: OpeningBook)
        ensures
            openings@.len() > 0 ==> r@ == openings@.map_values(|v: Vec<Mv>| v@),
            openings@.len() == 0 ==> r@ == seq![Seq::<Mv>::empty()],
    {
        let mut openings = openings;
        if openings.len() == 0 {
            openings.push(Vec::new());
            let r = OpeningBook { openings };
            assert(r@ =~= seq![Seq::<Mv>::empty()]);
            return r;
        }
        OpeningBook { openings }
    }

    /// Number of openings.
    pub fn len(&self) -> (r: usize)
        ensures
            r == self@.len(),
            r >= 1,
    {
        proof {
            use_type_invariant(self);
        }
        self.openings.len()
    }

    /// The opening for pair `pair_index`: the book is cycled through.
    pub fn get_opening(&self, pair_index: usize) -> (r: Vec<Mv>)
        ensures
            r@ == self@[pair_index as int % self@.len() as int],
    {
        proof {
            use_type_invariant(self);
        }
        let k = pair_index % self.openings.len();
        let src = &self.openings[k];
        let mut r: Vec<Mv> = Vec::new();
        let mut i: usize = 0;
        while i < src.len()
            invariant
                i <= src@.len(),
                r@ == src@.take(i as int),
            decreases src@.len() - i,
        {
            r.push(src[i]);
            i += 1;
            assert(r@ =~= src@.take(i as int));
        }
        assert(src@.take(i as int) =~= src@);
        r
    }

    /// The book is cycled through: pair `i` and pair `i` plus the book's length get the same
    /// opening.
    pub proof fn lemma_openings_cycle(book: OpeningBook, i: int)
        requires
            i >= 0,
            book@.len() >= 1,
        ensures
            book@[(i + book@.len()) % (book@.len() as int)] == book@[i % (book@.len() as int)],
    {
        vstd::arithmetic::div_mod::lemma_mod_add_multiples_vanish(i, book@.len() as int);
    }

    /// Replay `opening` from the initial position: every move must be playable, and the game
    /// must not be over at the end.
    pub fn validate_opening(opening: &[Mv]) -> (r: Result<(), OpeningError>)
        requires
            replay_fits(opening@),
        ensures
            r == spec_validate_opening(opening@),
    {
        let mut state = State::new();
        let mut i: usize = 0;
        while i < opening.len()
            invariant
                i <= opening@.len(),
                replay_fits(opening@),
                replay_upto(opening@, i as int) == Ok::<State, (int, PlayError)>(state),
            decreases opening@.len() - i,
        {
            let mv = opening[i];
            assert(replay_upto(opening@, i as int) matches Ok(s) && s == state);
            match state.play(mv) {
                Ok((new_state, _)) => state = new_state,
                Err(e) => {
                    proof {
                        lemma_replay_err_stays(opening@, i as int + 1, opening@.len() as int);
                    }
                    return Err(OpeningError::Move { index: i, sq: mv.sq, error: e });
                },
            }
            i += 1;
        }
        if !state.has_legal_moves() {
            return Err(OpeningError::Terminal);
        }
        Ok(())
    }

    /// Drop the openings that do not validate, keeping the others in order, and return each
    /// dropped one's index and error; fails, leaving the book as it was, when none is valid.
    pub fn validate(&mut self) -> (r: Result<Vec<(usize, OpeningError)>, ()>)
        requires
            forall|k: int| 0 <= k < old(self)@.len() ==> replay_fits(#[trigger] old(self)@[k]),
        ensures
            r is Err <==> old(self)@.filter(|o: Seq<Mv>| spec_validate_opening(o) is Ok).len() == 0,
            r is Ok ==> final(self)@ == old(self)@.filter(|o: Seq<Mv>| spec_validate_opening(o) is Ok),
            r is Err ==> final(self)@ == old(self)@,
            r matches Ok(v) ==> v@ == invalid_openings(old(self)@, old(self)@.len() as int),
    {
        proof {
            use_type_invariant(&*self);
        }
        let mut kept: Vec<Vec<Mv>> = Vec::new();
        let mut invalid: Vec<(usize, OpeningError)> = Vec::new();
        let ghost orig = self@;
        let ghost p = |o: Seq<Mv>| spec_validate_opening(o) is Ok;
        let n = self.openings.len();
        let mut i: usize = 0;
        while i < n
            invariant
                n == self.openings@.len(),
                self@ == orig,
                i <= n,
                p == (|o: Seq<Mv>| spec_validate_opening(o) is Ok),
                forall|k: int| 0 <= k < orig.len() ==> replay_fits(#[trigger] orig[k]),
                kept@.map_values(|v: Vec<Mv>| v@) == orig.take(i as int).filter(p),
                invalid@ == invalid_openings(orig, i as int),
            decreases n - i,
        {
            assert(orig[i as int] == self.openings@[i as int]@);
            let v = Self::validate_opening(self.openings[i].as_slice());
            let ghost t = orig.take(i as int + 1);
            proof {
                assert(t.drop_last() =~= orig.take(i as int));
                assert(t.last() == orig[i as int]);
                reveal(Seq::filter);
            }
            match v {
                Ok(()) => {
                    let copy = self.get_line(i);
                    kept.push(copy);
                    assert(kept@.map_values(|v: Vec<Mv>| v@) =~= t.filter(p));
                },
                Err(e) => {
                    invalid.push((i, e));
                    assert(kept@.map_values(|v: Vec<Mv>| v@) =~= t.filter(p));
                },
            }
            i += 1;
        }
        assert(orig.take(n as int) =~= orig);
        if kept.len() == 0 {
            return Err(());
        }
        self.openings = kept;
        Ok(invalid)
    }

    /// A copy of opening `i`.
    fn get_line(&self, i: usize) -> (r: Vec<Mv>)
        requires
            i < self@.len(),
        ensures
            r@ == self@[i as int],
    {
        proof {
            use_type_invariant(self);
        }
        let src = &self.openings[i];
        let mut r: Vec<Mv> = Vec::new();
        let mut j: usize = 0;
        while j < src.len()
            invariant
                j <= src@.len(),
                r@ == src@.take(j as int),
            decreases src@.len() - j,
        {
            r.push(src[j]);
            j += 1;
            assert(r@ =~= src@.take(j as int));
        }
        assert(src@.take(j as int) =~= src@);
        r
    }

    /// `count` openings (one, if `count` is 0) of up to `depth` random legal moves each; an
    /// opening stops early where the game has no legal move.
    pub fn generate_random(count: usize, depth: usize) -> (r: OpeningBook)
        ensures
            count > 0 ==> forall|k: int| 0 <= k < r@.len() ==> line_drawn(#[trigger] r@[k], depth as int),
            r@.len() == if count == 0 {
                1
            } else {
                count as int
            },
            forall|k: int|
                0 <= k < r@.len() ==> (#[trigger] r@[k]).len() <= depth && replay_upto(
                    r@[k],
                    r@[k].len() as int,
                ) is Ok,
            forall|k: int|
                0 <= k < r@.len() ==> spec_validate_opening(#[trigger] r@[k]) is Ok
                    || spec_validate_opening(r@[k]) == Err::<(), OpeningError>(
                    OpeningError::Terminal,
                ),
    {
        let mut openings: Vec<Vec<Mv>> = Vec::new();
        let mut c: usize = 0;
        while c < count
            invariant
                c <= count,
                openings@.len() == c,
                forall|k: int|
                    0 <= k < c ==> (#[trigger] openings@[k])@.len() <= depth && replay_upto(
                        openings@[k]@,
                        openings@[k]@.len() as int,
                    ) is Ok && line_drawn(openings@[k]@, depth as int),
            decreases count - c,
        {
            let moves = random_line(depth);
            openings.push(moves);
            c += 1;
        }
        if openings.len() == 0 {
            openings.push(Vec::new());
            assert(replay_upto(openings@[0]@, 0) is Ok);
        }
        let r = OpeningBook { openings };
        proof {
            if count > 0 {
                assert forall|k: int| 0 <= k < r@.len() implies line_drawn(#[trigger] r@[k], depth as int) by {
                    assert(r@[k] == r.openings@[k]@);
                }
            }
            assert forall|k: int| 0 <= k < r@.len() implies (#[trigger] r@[k]).len() <= depth
                && replay_upto(r@[k], r@[k].len() as int) is Ok by {
                assert(r@[k] == r.openings@[k]@);
            }
            assert forall|k: int| 0 <= k < r@.len() implies spec_validate_opening(#[trigger] r@[k])
                is Ok || spec_validate_opening(r@[k]) == Err::<(), OpeningError>(
                OpeningError::Terminal,
            ) by {
                assert(r@[k] == r.openings@[k]@);
                assert(replay_upto(r@[k], r@[k].len() as int) is Ok);
            }
        }
        r
    }
}

/// A line of `depth` moves, or one that stops where no legal move is left or where a legal move
/// would form more yugos than the mover's byte score can take.
pub open spec fn line_drawn(m: Seq<Mv>, depth: int) -> bool {
    ||| m.len() == depth
    ||| (replay_upto(m, m.len() as int) matches Ok(s) && (!s.spec_has_legal_moves() || exists|i: int|
        s.spec_legal(i) && !s.spec_play_fits(i)))
}

/// Up to `depth` random legal moves from the initial position: the line is shorter only where
/// it reaches a position with no legal move, or where the move drawn would form more yugos than
/// the mover's byte score can take.
fn random_line(depth: usize) -> (r: Vec<Mv>)
    ensures
        r@.len() <= depth,
        replay_upto(r@, r@.len() as int) is Ok,
        r@.len() < depth ==> (replay_upto(r@, r@.len() as int) matches Ok(s) && (
        !s.spec_has_legal_moves() || exists|i: int| s.spec_legal(i) && !s.spec_play_fits(i))),
{
    let mut state = State::new();
    let mut moves: Vec<Mv> = Vec::new();
    let mut d: usize = 0;
    while d < depth
        invariant
            d <= depth,
            moves@.len() == d,
            replay_upto(moves@, d as int) == Ok::<State, (int, PlayError)>(state),
        ensures
            d <= depth,
            moves@.len() == d,
            replay_upto(moves@, d as int) == Ok::<State, (int, PlayError)>(state),
            d < depth ==> !state.spec_has_legal_moves() || exists|i: int| state.spec_legal(i)
                && !state.spec_play_fits(i),
        decreases depth - d,
    {
        let legal = state.legal_moves();
        if legal.len() == 0 {
            proof {
                state.lemma_no_legal_moves();
            }
            break;
        }
        let mv = choose_move(&legal);
        proof {
            state.lemma_legal_upto_members(64);
            let k = choose|k: int| 0 <= k < legal@.len() && legal@[k] == mv;
            assert(state.spec_legal(mv.sq@));
        }
        if !state.play_fits(mv.sq) {
            break;
        }
        proof {
            state.lemma_legal_empty(mv.sq@);
            lemma_replay_push(moves@, mv, d as int);
            assert(replay_upto(moves@.push(mv), d as int) == Ok::<State, (int, PlayError)>(state));
        }
        let (next, _) = state.play_unchecked(mv);
        moves.push(mv);
        state = next;
        d += 1;
    }
    moves
}

/// Replaying a line with one more move: the old moves replay as before.
proof fn lemma_replay_push(mvs: Seq<Mv>, mv: Mv, n: int)
    requires
        0 <= n == mvs.len(),
    ensures
        forall|k: int| 0 <= k <= n ==> #[trigger] replay_upto(mvs.push(mv), k) == replay_upto(mvs, k),
{
    assert forall|k: int| 0 <= k <= n implies #[trigger] replay_upto(mvs.push(mv), k) == replay_upto(
        mvs,
        k,
    ) by {
        lemma_replay_prefix(mvs.push(mv), mvs, k);
    }
}

/// Two lines that agree on their first `k` moves replay alike that far.
proof fn lemma_replay_prefix(a: Seq<Mv>, b: Seq<Mv>, k: int)
    requires
        0 <= k <= a.len(),
        k <= b.len(),
        forall|j: int| 0 <= j < k ==> a[j] == b[j],
    ensures
        replay_upto(a, k) == replay_upto(b, k),
    decreases k,
{
    if k > 0 {
        lemma_replay_prefix(a, b, k - 1);
    }
}

/// Once a replay fails, longer replays fail the same way.
proof fn lemma_replay_err_stays(mvs: Seq<Mv>, k: int, n: int)
    requires
        0 <= k <= n,
        replay_upto(mvs, k) is Err,
    ensures
        replay_upto(mvs, n) == replay_upto(mvs, k),
    decreases n - k,
{
    if n > k {
        lemma_replay_err_stays(mvs, k, n - 1);
    }
}

/// The moves that the tokens name, or the index of the first token that is not a square and
/// why.
pub open spec fn spec_line_moves(toks: Seq<Seq<char>>) -> Result<Seq<Mv>, (int, ParseSqError)>
    decreases toks.len(),
{
    if toks.len() == 0 {
        Ok(seq![])
    } else {
        match spec_line_moves(toks.drop_last()) {
            Err(e) => Err(e),
            Ok(ms) => match spec_parse_sq(encode_utf8(toks.last())) {
                Err(e) => Err((toks.len() - 1, e)),
                Ok(i) => Ok(ms.push(Mv { sq: Sq::spec_new(i), yugos_formed: 0 })),
            },
        }
    }
}

/// One line of an opening-book file: `None` for a blank line or a comment (starting with `#`
/// once trimmed), else the moves of its whitespace-separated squares, or the index of the first
/// one that is not a square and why.
pub open spec fn spec_book_line(cs: Seq<char>) -> Result<Option<Seq<Mv>>, (int, ParseSqError)> {
    let t = trim(cs);
    if t.len() == 0 || t[0] == '#' {
        Ok(None)
    } else {
        match spec_line_moves(split_ws(t)) {
            Err(e) => Err(e),
            Ok(ms) => Ok(Some(ms)),
        }
    }
}

/// Read one line of an opening-book file.
pub fn parse_book_line(line: &Vec<char>) -> (r: Result<Option<Vec<Mv>>, (usize, ParseSqError)>)
    ensures
        match r {
            Ok(None) => spec_book_line(line@) == Ok::<Option<Seq<Mv>>, (int, ParseSqError)>(None),
            Ok(Some(v)) => spec_book_line(line@) == Ok::<Option<Seq<Mv>>, (int, ParseSqError)>(
                Some(v@),
            ),
            Err((k, e)) => spec_book_line(line@) == Err::<Option<Seq<Mv>>, (int, ParseSqError)>(
                (k as int, e),
            ),
        },
{
    let t = trim_chars(line);
    if t.len() == 0 || t[0] == '#' {
        return Ok(None);
    }
    let toks = split_whitespace(&t);
    let ghost ts = toks.deep_view();
    let mut moves: Vec<Mv> = Vec::new();
    let mut k: usize = 0;
    while k < toks.len()
        invariant
            k <= toks.len(),
            ts == toks.deep_view(),
            ts == split_ws(t@),
            t@ == trim(line@),
            !(t@.len() == 0 || t@[0] == '#'),
            spec_line_moves(ts.take(k as int)) == Ok::<Seq<Mv>, (int, ParseSqError)>(moves@),
        decreases toks.len() - k,
    {
        let ghost tk = ts.take(k + 1);
        assert(tk.drop_last() =~= ts.take(k as int));
        assert(toks@[k as int]@ =~= ts[k as int]);
        assert(tk.last() == ts[k as int]);
        match parse_sq_chars(&toks[k]) {
            Err(e) => {
                proof {
                    assert(spec_parse_sq(encode_utf8(ts[k as int])) == Err::<int, ParseSqError>(e));
                    assert(spec_line_moves(tk) == Err::<Seq<Mv>, (int, ParseSqError)>((k as int, e)));
                    lemma_line_moves_err(ts, k as int + 1);
                    assert(spec_line_moves(ts) == Err::<Seq<Mv>, (int, ParseSqError)>((k as int, e)));
                }
                return Err((k, e));
            },
            Ok(sq) => {
                sq.index_range();
                proof {
                    Sq::lemma_spec_new(sq@);
                    Sq::lemma_view_eq(Sq::spec_new(sq@), sq);
                }
                moves.push(Mv::new(sq));
            },
        }
        k += 1;
    }
    assert(ts.take(k as int) =~= ts);
    Ok(Some(moves))
}

/// Once a token is refused, longer lines give the same error.
proof fn lemma_line_moves_err(ts: Seq<Seq<char>>, k: int)
    requires
        0 <= k <= ts.len(),
        spec_line_moves(ts.take(k)) is Err,
    ensures
        spec_line_moves(ts) == spec_line_moves(ts.take(k)),
    decreases ts.len() - k,
{
    if k < ts.len() {
        assert(ts.drop_last().take(k) =~= ts.take(k));
        lemma_line_moves_err(ts.drop_last(), k);
    } else {
        assert(ts.take(k) =~= ts);
    }
}

} // verus!
