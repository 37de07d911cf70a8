use vstd::prelude::*;

use crate::error::{ParseGameError, ParseGameErrorView, PlayError};
use crate::mv::{
    format_mv, lemma_sq_text, parse_mv_auto_chars, spec_format_mv, spec_parse_mv_auto, Mv, MvFormat,
};
use crate::sq::spec_format_sq;
use crate::outcome::{Outcome, WegoResult};
use crate::piece::Color;
use crate::lines::has_five_line;
use crate::state::State;
use crate::text::{
    all_digits, chars_of, contains_char, decimal, ends_with, ends_with_str, ends_with_char,
    eq_str, extend_chars, find, find_char, is_all_digits, join_spaced, push_char, push_decimal,
    push_str, split_whitespace, split_ws, starts_with, string_of, sub_chars, trim, trim_chars,
    trim_end_dots, trim_end_dots_chars, is_ws, lemma_split_ws_append, lemma_split_ws_trailing,
};

verus! {

/// A game as moves and the states they lead through.
pub type GameView = (Seq<Mv>, Seq<State>);

/// The game holds the states that its moves lead to from the empty board,
/// every move was legal in a state with no outcome, and records the yugos it formed.
pub open spec fn game_wf(v: GameView) -> bool {
    let (moves, states) = v;
    &&& states.len() == moves.len() + 1
    &&& states[0] == State::spec_new()
    &&& forall|i: int|
        0 <= i < moves.len() ==> {
            &&& 0 <= moves[i].sq@ < 64
            &&& (#[trigger] states[i]).spec_outcome() is None
            &&& states[i].spec_legal(moves[i].sq@)
            &&& states[i].spec_play(moves[i].sq@) == (states[i + 1], moves[i].yugos_formed)
        }
}

/// The last state of a game.
pub open spec fn game_current(v: GameView) -> State {
    v.1.last()
}

/// The game after playing `mv`, or why it cannot be played.
pub open spec fn game_play(v: GameView, mv: Mv) -> Result<GameView, PlayError> {
    let s = game_current(v);
    if s.spec_outcome() is Some {
        Err(PlayError::GameOver)
    } else if !s.spec_is_empty(mv.sq@) {
        Err(PlayError::Occupied)
    } else if !s.spec_legal(mv.sq@) {
        Err(PlayError::LineTooLong)
    } else {
        let (n, k) = s.spec_play(mv.sq@);
        Ok((v.0.push(Mv { sq: mv.sq, yugos_formed: k }), v.1.push(n)))
    }
}

/// The game with its last move taken back, and that move.
pub open spec fn game_undo(v: GameView) -> (GameView, Option<Mv>) {
    if v.0.len() == 0 {
        (v, None)
    } else {
        ((v.0.drop_last(), v.1.drop_last()), Some(v.0.last()))
    }
}

/// Plays `moves` one by one from `v`, stopping at the first that cannot be played.
pub open spec fn game_replay(v: GameView, moves: Seq<Mv>) -> Result<GameView, PlayError>
    decreases moves.len(),
{
    if moves.len() == 0 {
        Ok(v)
    } else {
        match game_replay(v, moves.drop_last()) {
            Err(e) => Err(e),
            Ok(w) => game_play(w, moves.last()),
        }
    }
}

pub open spec fn game_empty() -> GameView {
    (seq![], seq![State::spec_new()])
}

/// A complete game: move history with derived states.
#[derive(Debug, Clone)]
pub struct Game {
    moves: Vec<Mv>,
    states: Vec<State>,
}

impl View for Game {
    type V = GameView;

    closed spec fn view(&self) -> GameView {
        (self.moves@, self.states@)
    }
}

/// Playing keeps a game well formed.
pub proof fn lemma_game_play_wf(v: GameView, mv: Mv)
    requires
        game_wf(v),
        0 <= mv.sq@ < 64,
        game_play(v, mv) is Ok,
    ensures
        game_wf(game_play(v, mv)->Ok_0),
{
    let w = game_play(v, mv)->Ok_0;
    let n = v.0.len();
    assert forall|i: int| 0 <= i < w.0.len() implies {
        &&& 0 <= w.0[i].sq@ < 64
        &&& (#[trigger] w.1[i]).spec_outcome() is None
        &&& w.1[i].spec_legal(w.0[i].sq@)
        &&& w.1[i].spec_play(w.0[i].sq@) == (w.1[i + 1], w.0[i].yugos_formed)
    } by {
        if i < n {
            assert(w.1[i] == v.1[i]);
            assert(w.1[i + 1] == v.1[i + 1]);
            assert(w.0[i] == v.0[i]);
        }
    }
}

proof fn lemma_game_bounds_upto(v: GameView, j: int)
    requires
        game_wf(v),
        0 <= j < v.1.len(),
    ensures
        v.1[j].reachable_bounds(),
    decreases j,
{
    if j == 0 {
        State::lemma_new_bounds();
    } else {
        lemma_game_bounds_upto(v, j - 1);
        assert(v.1[j - 1].spec_outcome() is None);
        v.1[j - 1].law_play_bounds(v.0[j - 1].sq@);
    }
}

/// Every state of a well-formed game is within the bounds of the states reached from the empty
/// board, so that a mover's byte score can always take the yugos of a placement.
pub proof fn law_game_bounds(v: GameView)
    requires
        game_wf(v),
    ensures
        forall|j: int| 0 <= j < v.1.len() ==> #[trigger] v.1[j].reachable_bounds(),
{
    assert forall|j: int| 0 <= j < v.1.len() implies #[trigger] v.1[j].reachable_bounds() by {
        lemma_game_bounds_upto(v, j);
    }
}

proof fn lemma_game_no_five_upto(v: GameView, j: int)
    requires
        game_wf(v),
        0 <= j < v.1.len(),
    ensures
        !has_five_line(v.1[j].spec_pieces(Color::White)),
        !has_five_line(v.1[j].spec_pieces(Color::Black)),
    decreases j,
{
    if j == 0 {
        State::lemma_new_no_five();
    } else {
        lemma_game_no_five_upto(v, j - 1);
        assert(v.1[j - 1].spec_outcome() is None);
        v.1[j - 1].law_play_no_five(v.0[j - 1].sq@);
    }
}

/// No state of a well-formed game holds five pieces of one side in a line.
pub proof fn law_game_no_five(v: GameView)
    requires
        game_wf(v),
    ensures
        forall|j: int|
            #![trigger v.1[j]]
            0 <= j < v.1.len() ==> !has_five_line(v.1[j].spec_pieces(Color::White))
                && !has_five_line(v.1[j].spec_pieces(Color::Black)),
{
    assert forall|j: int| #![trigger v.1[j]] 0 <= j < v.1.len() implies !has_five_line(
        v.1[j].spec_pieces(Color::White),
    ) && !has_five_line(v.1[j].spec_pieces(Color::Black)) by {
        lemma_game_no_five_upto(v, j);
    }
}

/// In a well-formed game the mover's byte score can take the yugos of any placement.
proof fn lemma_game_fits(v: GameView, i: int)
    requires
        game_wf(v),
    ensures
        game_current(v).spec_play_fits(i),
{
    lemma_game_bounds_upto(v, v.1.len() - 1);
    let s = game_current(v);
    if s.spec_side() == Color::White {
        assert(s.spec_score(s.spec_side()) <= 196);
    } else {
        assert(s.spec_score(s.spec_side()) <= 196);
    }
    s.lemma_play_fits(i);
}

/// Taking back a move keeps a game well formed.
pub proof fn lemma_game_undo_wf(v: GameView)
    requires
        game_wf(v),
    ensures
        game_wf(game_undo(v).0),
{
    let w = game_undo(v).0;
    if v.0.len() > 0 {
        assert forall|i: int| 0 <= i < w.0.len() implies {
            &&& (#[trigger] w.1[i]).spec_outcome() is None
            &&& w.1[i].spec_legal(w.0[i].sq@)
            &&& w.1[i].spec_play(w.0[i].sq@) == (w.1[i + 1], w.0[i].yugos_formed)
        } by {
            assert(w.1[i] == v.1[i]);
            assert(w.1[i + 1] == v.1[i + 1]);
            assert(w.0[i] == v.0[i]);
        }
    }
}

/// Undoing a move that was just played gives back the game before it,
/// and the move with the yugos it formed.
pub proof fn law_undo_after_play(v: GameView, mv: Mv)
    requires
        game_play(v, mv) is Ok,
    ensures
        game_undo(game_play(v, mv)->Ok_0) == (
            v,
            Some(
                Mv {
                    sq: mv.sq,
                    yugos_formed: game_current(v).spec_play(mv.sq@).1,
                },
            ),
        ),
{
    let w = game_play(v, mv)->Ok_0;
    assert(w.0.drop_last() =~= v.0);
    assert(w.1.drop_last() =~= v.1);
}

impl Game {
    /// Create an empty game.
    pub fn new() -> (r: Game)
        ensures
            r@ == game_empty(),
            game_wf(r@),
    {
        let mut states: Vec<State> = Vec::new();
        states.push(State::new());
        let r = Game { moves: Vec::new(), states };
        assert(r@.1 =~= seq![State::spec_new()]);
        r
    }

    /// All moves played.
    pub fn moves(&self) -> (r: &[Mv])
        ensures
            r@ == self@.0,
    {
        self.moves.as_slice()
    }

    /// All states (initial + after each move).
    pub fn states(&self) -> (r: &[State])
        ensures
            r@ == self@.1,
    {
        self.states.as_slice()
    }

    /// Current (latest) state.
    pub fn current_state(&self) -> (r: &State)
        requires
            game_wf(self@),
        ensures
            *r == game_current(self@),
    {
        &self.states[self.states.len() - 1]
    }

    /// Initial state.
    pub fn initial_state(&self) -> (r: &State)
        requires
            game_wf(self@),
        ensures
            *r == self@.1[0],
    {
        &self.states[0]
    }

    /// Number of moves played.
    pub fn len(&self) -> (r: usize)
        ensures
            r == self@.0.len(),
    {
        self.moves.len()
    }

    /// Whether no moves have been played.
    pub fn is_empty(&self) -> (r: bool)
        ensures
            r == (self@.0.len() == 0),
    {
        self.moves.len() == 0
    }

    /// Current game outcome.
    pub fn outcome(&self) -> (r: Option<Outcome>)
        requires
            game_wf(self@),
        ensures
            r == game_current(self@).spec_outcome(),
    {
        self.current_state().outcome()
    }

    /// Play a move, appending to history.
    pub fn play(&mut self, mv: Mv) -> (r: Result<(), PlayError>)
        requires
            game_wf(old(self)@),
        ensures
            game_wf(final(self)@),
            match game_play(old(self)@, mv) {
                Ok(w) => r is Ok && final(self)@ == w,
                Err(e) => r == Err::<(), PlayError>(e) && final(self)@ == old(self)@,
            },
    {
        if self.outcome().is_some() {
            return Err(PlayError::GameOver);
        }
        mv.sq.index_range();
        proof {
            lemma_game_fits(self@, mv.sq@);
        }
        let (new_state, yugos) = match self.current_state().play(mv) {
            Ok(x) => x,
            Err(e) => return Err(e),
        };
        proof {
            lemma_game_play_wf(self@, mv);
        }
        self.moves.push(Mv::with_yugos(mv.sq, yugos));
        self.states.push(new_state);
        Ok(())
    }

    /// Undo the last move.
    pub fn undo(&mut self) -> (r: Option<Mv>)
        requires
            game_wf(old(self)@),
        ensures
            game_wf(final(self)@),
            (final(self)@, r) == game_undo(old(self)@),
    {
        proof {
            lemma_game_undo_wf(self@);
        }
        if self.moves.len() == 0 {
            return None;
        }
        self.states.pop();
        let r = self.moves.pop();
        assert(self@ =~= game_undo(old(self)@).0);
        r
    }

    /// Create a game from a sequence of moves.
    pub fn from_moves(moves: &[Mv]) -> (r: Result<Game, PlayError>)
        ensures
            match game_replay(game_empty(), moves@) {
                Ok(w) => r matches Ok(g) && g@ == w && game_wf(g@),
                Err(e) => r matches Err(e2) && e2 == e,
            },
    {
        let mut game = Game::new();
        let mut i: usize = 0;
        while i < moves.len()
            invariant
                i <= moves.len(),
                game_wf(game@),
                game_replay(game_empty(), moves@.take(i as int)) == Ok::<GameView, PlayError>(game@),
            decreases moves.len() - i,
        {
            proof {
                assert(moves@.take(i + 1).drop_last() =~= moves@.take(i as int));
            }
            match game.play(moves[i]) {
                Ok(()) => {},
                Err(e) => {
                    proof {
                        lemma_replay_err(game_empty(), moves@, i + 1);
                    }
                    return Err(e);
                },
            }
            i += 1;
        }
        assert(moves@.take(moves.len() as int) =~= moves@);
        Ok(game)
    }
}

/// Replaying moves is playing them one by one. When every move is accepted the game grows by
/// them, square by square, each recording the yugos it actually formed (the game stays well
/// formed); otherwise the error is that of the first move refused, all before it accepted.
pub proof fn law_replay_plays(v: GameView, moves: Seq<Mv>)
    requires
        game_wf(v),
        forall|i: int| 0 <= i < moves.len() ==> 0 <= #[trigger] moves[i].sq@ < 64,
    ensures
        match game_replay(v, moves) {
            Ok(w) => {
                &&& game_wf(w)
                &&& w.0.len() == v.0.len() + moves.len()
                &&& w.0.take(v.0.len() as int) == v.0
                &&& forall|i: int| 0 <= i < moves.len() ==> (#[trigger] w.0[v.0.len() + i]).sq == moves[i].sq
            },
            Err(e) => exists|k: int|
                0 <= k < moves.len() && (game_replay(v, moves.take(k)) matches Ok(w) && game_play(
                    w,
                    #[trigger] moves[k],
                ) == Err::<GameView, PlayError>(e)),
        },
    decreases moves.len(),
{
    if moves.len() > 0 {
        let m = moves.drop_last();
        let n = moves.len() - 1;
        assert forall|i: int| 0 <= i < m.len() implies 0 <= #[trigger] m[i].sq@ < 64 by {
            assert(m[i] == moves[i]);
        }
        law_replay_plays(v, m);
        match game_replay(v, m) {
            Err(e) => {
                let k = choose|k: int|
                    0 <= k < m.len() && (game_replay(v, m.take(k)) matches Ok(w) && game_play(
                        w,
                        #[trigger] m[k],
                    ) == Err::<GameView, PlayError>(e));
                assert(m.take(k) =~= moves.take(k));
                assert(m[k] == moves[k]);
            },
            Ok(w) => {
                assert(moves.take(n) =~= m);
                assert(moves[n] == moves.last());
                match game_play(w, moves.last()) {
                    Ok(w2) => {
                        lemma_game_play_wf(w, moves.last());
                        assert(w2.0.take(v.0.len() as int) =~= w.0.take(v.0.len() as int));
                        assert forall|i: int| 0 <= i < moves.len() implies (#[trigger] w2.0[v.0.len()
                            + i]).sq == moves[i].sq by {
                            if i < n {
                                assert(m[i] == moves[i]);
                                assert(w2.0[v.0.len() + i] == w.0[v.0.len() + i]);
                            }
                        }
                    },
                    Err(e) => {},
                }
            },
        }
    }
}

proof fn lemma_replay_err(v: GameView, moves: Seq<Mv>, k: int)
    requires
        0 <= k <= moves.len(),
        game_replay(v, moves.take(k)) is Err,
    ensures
        game_replay(v, moves) == game_replay(v, moves.take(k)),
    decreases moves.len(),
{
    if k == moves.len() {
        assert(moves.take(k) =~= moves);
    } else {
        assert(moves.drop_last().take(k) =~= moves.take(k));
        lemma_replay_err(v, moves.drop_last(), k);
    }
}

/// Configuration for the move-list format.
#[derive(Debug, Clone, Copy)]
pub struct PgnFormat {
    /// Include move numbers: "1. d4 c3 2. e4 e5"
    pub move_numbers: bool,
    /// Use newlines between move pairs
    pub newlines: bool,
    /// Format for individual moves
    pub mv_format: MvFormat,
}

impl Default for PgnFormat {
    fn default() -> (r: PgnFormat)
        ensures
            r == (PgnFormat { move_numbers: false, newlines: false, mv_format: MvFormat::Plain }),
    {
        PgnFormat { move_numbers: false, newlines: false, mv_format: MvFormat::Plain }
    }
}

/// The result string of an outcome.
pub open spec fn spec_format_result(outcome: Option<Outcome>, include_type: bool) -> Seq<char> {
    match outcome {
        None => "*"@,
        Some(Outcome::Igo(Color::White)) => if include_type {
            "1-0 (igo)"@
        } else {
            "1-0"@
        },
        Some(Outcome::Igo(Color::Black)) => if include_type {
            "0-1 (igo)"@
        } else {
            "0-1"@
        },
        Some(Outcome::Wego(WegoResult::Win(Color::White))) => if include_type {
            "1-0 (wego)"@
        } else {
            "1-0"@
        },
        Some(Outcome::Wego(WegoResult::Win(Color::Black))) => if include_type {
            "0-1 (wego)"@
        } else {
            "0-1"@
        },
        Some(Outcome::Wego(WegoResult::Draw)) => if include_type {
            "1/2-1/2 (wego)"@
        } else {
            "1/2-1/2"@
        },
    }
}

/// Result string for a game outcome.
pub fn format_result(outcome: Option<Outcome>, include_type: bool) -> (r: String)
    ensures
        r@ == spec_format_result(outcome, include_type),
{
    match outcome {
        None => "*".to_owned(),
        Some(Outcome::Igo(Color::White)) => {
            if include_type {
                "1-0 (igo)".to_owned()
            } else {
                "1-0".to_owned()
            }
        },
        Some(Outcome::Igo(Color::Black)) => {
            if include_type {
                "0-1 (igo)".to_owned()
            } else {
                "0-1".to_owned()
            }
        },
        Some(Outcome::Wego(WegoResult::Win(Color::White))) => {
            if include_type {
                "1-0 (wego)".to_owned()
            } else {
                "1-0".to_owned()
            }
        },
        Some(Outcome::Wego(WegoResult::Win(Color::Black))) => {
            if include_type {
                "0-1 (wego)".to_owned()
            } else {
                "0-1".to_owned()
            }
        },
        Some(Outcome::Wego(WegoResult::Draw)) => {
            if include_type {
                "1/2-1/2 (wego)".to_owned()
            } else {
                "1/2-1/2".to_owned()
            }
        },
    }
}

/// What a result string says: `None` for `*`, else the winner (`None` for a draw) and
/// whether it is marked as an Igo.
pub open spec fn spec_parse_result(cs: Seq<char>) -> Result<
    Option<(Option<Color>, bool)>,
    ParseGameErrorView,
> {
    let t = trim(cs);
    if t == "*"@ {
        Ok(None)
    } else {
        let (part, is_igo) = if ends_with(t, "(igo)"@) {
            (trim(t.take(t.len() - "(igo)"@.len())), true)
        } else if ends_with(t, "(wego)"@) {
            (trim(t.take(t.len() - "(wego)"@.len())), false)
        } else {
            (t, false)
        };
        if part == "1-0"@ {
            Ok(Some((Some(Color::White), is_igo)))
        } else if part == "0-1"@ {
            Ok(Some((Some(Color::Black), is_igo)))
        } else if part == "1/2-1/2"@ {
            Ok(Some((None, false)))
        } else {
            Err(ParseGameErrorView::BadResult(t))
        }
    }
}

/// Parse a result string.
pub fn parse_result(s: &str) -> (r: Result<Option<(Option<Color>, bool)>, ParseGameError>)
    ensures
        match r {
            Ok(v) => spec_parse_result(s@) == Ok::<_, ParseGameErrorView>(v),
            Err(e) => spec_parse_result(s@) == Err::<Option<(Option<Color>, bool)>, _>(e@),
        },
{
    let cs = chars_of(s);
    let t = trim_chars(&cs);
    if eq_str(&t, "*") {
        return Ok(None);
    }
    let (part, is_igo) = if ends_with_str(&t, "(igo)") {
        let l = chars_of("(igo)");
        let head = sub_chars(&t, 0, t.len() - l.len());
        assert(head@ =~= t@.take(t@.len() - "(igo)"@.len()));
        (trim_chars(&head), true)
    } else if ends_with_str(&t, "(wego)") {
        let l = chars_of("(wego)");
        let head = sub_chars(&t, 0, t.len() - l.len());
        assert(head@ =~= t@.take(t@.len() - "(wego)"@.len()));
        (trim_chars(&head), false)
    } else {
        (t.clone(), false)
    };
    assert(part@ == (if ends_with(t@, "(igo)"@) {
        trim(t@.take(t@.len() - "(igo)"@.len()))
    } else if ends_with(t@, "(wego)"@) {
        trim(t@.take(t@.len() - "(wego)"@.len()))
    } else {
        t@
    }));
    if eq_str(&part, "1-0") {
        Ok(Some((Some(Color::White), is_igo)))
    } else if eq_str(&part, "0-1") {
        Ok(Some((Some(Color::Black), is_igo)))
    } else if eq_str(&part, "1/2-1/2") {
        Ok(Some((None, false)))
    } else {
        Err(ParseGameError::BadResult(string_of(&t)))
    }
}

/// The separator between move pairs.
pub open spec fn pgn_sep(fmt: PgnFormat) -> Seq<char> {
    if fmt.newlines {
        seq!['\n']
    } else {
        seq![' ']
    }
}

/// The text of the first `n` moves.
pub open spec fn fmt_moves(moves: Seq<Mv>, fmt: PgnFormat, n: int) -> Seq<char>
    decreases n,
{
    if n <= 0 {
        seq![]
    } else {
        let r = fmt_moves(moves, fmt, n - 1);
        let i = n - 1;
        let r1 = if fmt.move_numbers && i % 2 == 0 {
            (if r.len() > 0 {
                r + pgn_sep(fmt)
            } else {
                r
            }) + decimal((i / 2 + 1) as nat) + seq!['.', ' ']
        } else if r.len() > 0 && r.last() != '\n' {
            r.push(' ')
        } else {
            r
        };
        r1 + spec_format_mv(moves[i], fmt.mv_format)
    }
}

/// The move-list text of a game, optionally followed by its result.
pub open spec fn spec_format_game(
    v: GameView,
    fmt: PgnFormat,
    include_result: bool,
    include_result_type: bool,
) -> Seq<char> {
    let r = fmt_moves(v.0, fmt, v.0.len() as int);
    if include_result {
        (if r.len() > 0 {
            r + pgn_sep(fmt)
        } else {
            r
        }) + spec_format_result(game_current(v).spec_outcome(), include_result_type)
    } else {
        r
    }
}

fn push_sep(s: &mut String, fmt: &PgnFormat)
    ensures
        final(s)@ == old(s)@ + pgn_sep(*fmt),
{
    if fmt.newlines {
        push_char(s, '\n');
    } else {
        push_char(s, ' ');
    }
    assert(final(s)@ =~= old(s)@ + pgn_sep(*fmt));
}

fn last_is_newline(s: &String) -> (r: bool)
    ensures
        r == (s@.len() > 0 && s@.last() == '\n'),
{
    let cs = chars_of(s.as_str());
    cs.len() > 0 && cs[cs.len() - 1] == '\n'
}

fn is_empty_string(s: &String) -> (r: bool)
    ensures
        r == (s@.len() == 0),
{
    let cs = chars_of(s.as_str());
    cs.len() == 0
}

/// Format a game as a move list.
pub fn format_game(game: &Game, fmt: &PgnFormat, include_result: bool, include_result_type: bool) -> (r: String)
    requires
        game_wf(game@),
    ensures
        r@ == spec_format_game(game@, *fmt, include_result, include_result_type),
{
    let mut result = String::new();
    let moves = game.moves();
    let mut i: usize = 0;
    while i < moves.len()
        invariant
            i <= moves.len(),
            moves@ == game@.0,
            result@ == fmt_moves(game@.0, *fmt, i as int),
        decreases moves.len() - i,
    {
        let mv = moves[i];
        let move_num = i / 2 + 1;
        let is_white = i % 2 == 0;
        if fmt.move_numbers && is_white {
            if !is_empty_string(&result) {
                push_sep(&mut result, fmt);
            }
            push_decimal(&mut result, move_num as u64);
            push_str(&mut result, ". ");
            assert(". "@ =~= seq!['.', ' ']) by {
                reveal_strlit(". ");
            }
        } else if !is_empty_string(&result) && !last_is_newline(&result) {
            push_char(&mut result, ' ');
        }
        let m = format_mv(mv, fmt.mv_format);
        push_str(&mut result, m.as_str());
        i += 1;
    }
    if include_result {
        if !is_empty_string(&result) {
            push_sep(&mut result, fmt);
        }
        let res = format_result(game.outcome(), include_result_type);
        push_str(&mut result, res.as_str());
    }
    result
}

/// Whether a token is a game result.
pub open spec fn is_result_token(t: Seq<char>) -> bool {
    t == "1-0"@ || t == "0-1"@ || t == "1/2-1/2"@
}

/// The first token index from `from` on whose token holds `)`, or the number of tokens.
pub open spec fn close_paren_from(ts: Seq<Seq<char>>, from: int) -> int
    decreases ts.len() - from,
{
    if from >= ts.len() {
        ts.len() as int
    } else if find_char(ts[from], ')') is Some {
        from
    } else {
        close_paren_from(ts, from + 1)
    }
}

pub proof fn lemma_close_paren_from(ts: Seq<Seq<char>>, from: int)
    requires
        from <= ts.len(),
    ensures
        from <= close_paren_from(ts, from) <= ts.len(),
    decreases ts.len() - from,
{
    if from < ts.len() && !(find_char(ts[from], ')') is Some) {
        lemma_close_paren_from(ts, from + 1);
    }
}

/// The text of the move that starts at token `i`, with the index of the token after it;
/// `None` when reading it would index past the last token.
pub open spec fn pgn_move_text(ts: Seq<Seq<char>>, i: int) -> Option<(Seq<char>, int)> {
    let n = ts.len() as int;
    if i + 2 < n && ts[i + 1] == seq!['('] {
        let end = close_paren_from(ts, i + 1);
        if end >= n {
            None
        } else {
            Some((join_spaced(ts.subrange(i, end + 1)), end + 1))
        }
    } else if i + 1 < n && starts_with(ts[i + 1], seq!['(']) {
        let combined = ts[i] + seq![' '] + ts[i + 1];
        let i2 = i + 2;
        if i2 < n && find_char(ts[i2 - 1], ')') is Some {
            Some((combined, i2))
        } else if i2 < n {
            Some((combined + seq![' '] + ts[i2], i2 + 1))
        } else {
            Some((combined, i2))
        }
    } else {
        Some((ts[i], i + 1))
    }
}

pub proof fn lemma_pgn_move_text(ts: Seq<Seq<char>>, i: int)
    requires
        0 <= i < ts.len(),
    ensures
        pgn_move_text(ts, i) matches Some((_, next)) ==> i < next <= ts.len(),
{
    if i + 2 < ts.len() && ts[i + 1] == seq!['('] {
        lemma_close_paren_from(ts, i + 1);
    }
}

/// What reading the tokens from index `i` on gives, having read `idx` moves into `g` and
/// detected format `det`: `None` where the reading would stop the program, otherwise the game
/// and detected format, or the error.
pub open spec fn pgn_run(
    ts: Seq<Seq<char>>,
    validate: bool,
    i: int,
    idx: usize,
    g: GameView,
    det: Option<MvFormat>,
) -> Option<Result<(GameView, Option<MvFormat>), ParseGameErrorView>>
    decreases ts.len() - i,
{
    if i < 0 || i >= ts.len() {
        Some(Ok((g, det)))
    } else {
        let t = ts[i];
        if ends_with_char(t, '.') || all_digits(t) {
            pgn_run(ts, validate, i + 1, idx, g, det)
        } else if is_result_token(t) {
            let j = if i + 1 < ts.len() && starts_with(ts[i + 1], seq!['(']) {
                i + 2
            } else {
                i + 1
            };
            pgn_run(ts, validate, j, idx, g, det)
        } else {
            match pgn_move_text(ts, i) {
                None => None,
                Some((text, next)) => {
                    let ms = trim_end_dots(text);
                    match spec_parse_mv_auto(ms) {
                        Err(e) => Some(Err(ParseGameErrorView::Move { index: idx, source: e })),
                        Ok(mv) => {
                            let det2 = if det is None && mv.yugos_formed > 0 {
                                Some(
                                    if find_char(ms, '(') is Some {
                                        MvFormat::YugosParens
                                    } else {
                                        MvFormat::YugosPlus
                                    },
                                )
                            } else {
                                det
                            };
                            match game_play(g, mv) {
                                Err(_) => Some(Err(ParseGameErrorView::Illegal(idx))),
                                Ok(g2) => if validate && mv.yugos_formed > 0
                                    && g2.0.last().yugos_formed != mv.yugos_formed {
                                    Some(
                                        Err(
                                            ParseGameErrorView::YugoMismatch {
                                                index: idx,
                                                expected: g2.0.last().yugos_formed,
                                                got: mv.yugos_formed,
                                            },
                                        ),
                                    )
                                } else {
                                    proof {
                                        lemma_pgn_move_text(ts, i);
                                    }
                                    pgn_run(ts, validate, next, (idx + 1) as usize, g2, det2)
                                },
                            }
                        },
                    }
                },
            }
        }
    }
}

proof fn lemma_pgn_run_mismatch(
    ts: Seq<Seq<char>>,
    validate: bool,
    i: int,
    idx: usize,
    g: GameView,
    det: Option<MvFormat>,
)
    ensures
        pgn_run(ts, validate, i, idx, g, det) matches Some(
            Err(ParseGameErrorView::YugoMismatch { index, expected, got }),
        ) ==> validate && got > 0 && got != expected,
    decreases ts.len() - i,
{
    if 0 <= i < ts.len() {
        let t = ts[i];
        if ends_with_char(t, '.') || all_digits(t) {
            lemma_pgn_run_mismatch(ts, validate, i + 1, idx, g, det);
        } else if is_result_token(t) {
            let j = if i + 1 < ts.len() && starts_with(ts[i + 1], seq!['(']) {
                i + 2
            } else {
                i + 1
            };
            lemma_pgn_run_mismatch(ts, validate, j, idx, g, det);
        } else {
            lemma_pgn_move_text(ts, i);
            match pgn_move_text(ts, i) {
                None => {},
                Some((text, next)) => {
                    let ms = trim_end_dots(text);
                    match spec_parse_mv_auto(ms) {
                        Err(_) => {},
                        Ok(mv) => {
                            let det2 = if det is None && mv.yugos_formed > 0 {
                                Some(
                                    if find_char(ms, '(') is Some {
                                        MvFormat::YugosParens
                                    } else {
                                        MvFormat::YugosPlus
                                    },
                                )
                            } else {
                                det
                            };
                            match game_play(g, mv) {
                                Err(_) => {},
                                Ok(g2) => {
                                    lemma_pgn_run_mismatch(ts, validate, next, (idx + 1) as usize, g2, det2);
                                },
                            }
                        },
                    }
                },
            }
        }
    }
}

proof fn lemma_pgn_run_validate(
    ts: Seq<Seq<char>>,
    i: int,
    idx: usize,
    g: GameView,
    det: Option<MvFormat>,
)
    ensures
        pgn_run(ts, true, i, idx, g, det) == pgn_run(ts, false, i, idx, g, det) || pgn_run(
            ts,
            true,
            i,
            idx,
            g,
            det,
        ) matches Some(Err(ParseGameErrorView::YugoMismatch { .. })),
    decreases ts.len() - i,
{
    if 0 <= i < ts.len() {
        let t = ts[i];
        if ends_with_char(t, '.') || all_digits(t) {
            lemma_pgn_run_validate(ts, i + 1, idx, g, det);
        } else if is_result_token(t) {
            let j = if i + 1 < ts.len() && starts_with(ts[i + 1], seq!['(']) {
                i + 2
            } else {
                i + 1
            };
            lemma_pgn_run_validate(ts, j, idx, g, det);
        } else {
            lemma_pgn_move_text(ts, i);
            match pgn_move_text(ts, i) {
                None => {},
                Some((text, next)) => {
                    let ms = trim_end_dots(text);
                    match spec_parse_mv_auto(ms) {
                        Err(_) => {},
                        Ok(mv) => {
                            let det2 = if det is None && mv.yugos_formed > 0 {
                                Some(
                                    if find_char(ms, '(') is Some {
                                        MvFormat::YugosParens
                                    } else {
                                        MvFormat::YugosPlus
                                    },
                                )
                            } else {
                                det
                            };
                            match game_play(g, mv) {
                                Err(_) => {},
                                Ok(g2) => {
                                    lemma_pgn_run_validate(ts, next, (idx + 1) as usize, g2, det2);
                                },
                            }
                        },
                    }
                },
            }
        }
    }
}

/// Validating yugo counts changes a reading only by refusing it for a mismatch: otherwise the
/// game read, or the error, is the same as without validation.
pub proof fn law_parse_game_validation(s: Seq<char>)
    ensures
        spec_parse_game(s, true) == spec_parse_game(s, false) || spec_parse_game(s, true) matches Some(
            Err(ParseGameErrorView::YugoMismatch { .. }),
        ),
{
    lemma_pgn_run_validate(split_ws(s), 0, 0, game_empty(), None);
}

/// With validation on, a yugo count is checked only where the move list writes one: a mismatch
/// is reported only for a written, nonzero count that differs from the yugos the move formed,
/// and never when validation is off. A move written without a count is never a mismatch.
pub proof fn law_parse_game_mismatch_written(s: Seq<char>, validate: bool)
    ensures
        spec_parse_game(s, validate) matches Some(
            Err(ParseGameErrorView::YugoMismatch { index, expected, got }),
        ) ==> validate && got > 0 && got != expected,
{
    lemma_pgn_run_mismatch(split_ws(s), validate, 0, 0, game_empty(), None);
}

/// Reading a move list of `s` from the start.
pub open spec fn spec_parse_game(s: Seq<char>, validate: bool) -> Option<
    Result<(GameView, Option<MvFormat>), ParseGameErrorView>,
> {
    pgn_run(split_ws(s), validate, 0, 0, game_empty(), None)
}

fn starts_with_paren(t: &Vec<char>) -> (r: bool)
    ensures
        r == starts_with(t@, seq!['(']),
{
    if t.len() > 0 && t[0] == '(' {
        assert(t@.take(1) =~= seq!['(']);
        true
    } else {
        proof {
            if t@.len() > 0 {
                assert(t@.take(1)[0] == t@[0]);
            }
        }
        false
    }
}

/// The text of the move starting at token `i` and the index after it.
fn move_text(tokens: &Vec<Vec<char>>, i: usize) -> (r: Option<(Vec<char>, usize)>)
    requires
        i < tokens.len(),
    ensures
        match r {
            Some((t, next)) => pgn_move_text(tokens.deep_view(), i as int) == Some((t@, next as int)),
            None => pgn_move_text(tokens.deep_view(), i as int) is None,
        },
{
    let ghost ts = tokens.deep_view();
    let n = tokens.len();
    proof {
        assert forall|k: int| 0 <= k < n implies (#[trigger] tokens@[k])@ == ts[k] by {
            assert(tokens@[k]@ =~= ts[k]);
        }
    }
    if n - i > 2 && tokens[i + 1].len() == 1 && tokens[i + 1][0] == '(' {
        assert(ts[i + 1] =~= seq!['(']);
        let mut end = i + 1;
        while end < n && !contains_char(&tokens[end], ')')
            invariant
                i + 1 <= end <= n,
                n == tokens.len(),
                ts == tokens.deep_view(),
                forall|k: int| 0 <= k < n ==> (#[trigger] tokens@[k])@ == ts[k],
                close_paren_from(ts, (i + 1) as int) == close_paren_from(ts, end as int),
            decreases n - end,
        {
            end += 1;
        }
        if end >= n {
            return None;
        }
        let mut combined: Vec<char> = Vec::new();
        let mut k = i;
        while k <= end
            invariant
                i <= k <= end + 1,
                end < n,
                n == tokens.len(),
                ts == tokens.deep_view(),
                forall|j: int| 0 <= j < n ==> (#[trigger] tokens@[j])@ == ts[j],
                combined@ == join_spaced(ts.subrange(i as int, k as int)),
            decreases end + 1 - k,
        {
            if k > i {
                combined.push(' ');
            }
            extend_chars(&mut combined, &tokens[k]);
            proof {
                let sub = ts.subrange(i as int, k + 1);
                assert(sub.drop_last() =~= ts.subrange(i as int, k as int));
                if k == i {
                    assert(ts.subrange(i as int, k as int) =~= Seq::<Seq<char>>::empty());
                    assert(combined@ =~= join_spaced(sub));
                } else {
                    assert(combined@ =~= join_spaced(sub));
                }
            }
            k += 1;
        }
        Some((combined, end + 1))
    } else if i + 1 < n && starts_with_paren(&tokens[i + 1]) {
        proof {
            if ts[i + 1] == seq!['('] {
                assert(tokens@[i + 1]@.len() == 1);
            }
        }
        let mut combined: Vec<char> = tokens[i].clone();
        combined.push(' ');
        extend_chars(&mut combined, &tokens[i + 1]);
        let i2 = i + 2;
        if i2 < n && contains_char(&tokens[i2 - 1], ')') {
            assert(combined@ =~= ts[i as int] + seq![' '] + ts[i + 1]);
            Some((combined, i2))
        } else if i2 < n {
            combined.push(' ');
            extend_chars(&mut combined, &tokens[i2]);
            assert(combined@ =~= ts[i as int] + seq![' '] + ts[i + 1] + seq![' '] + ts[i2 as int]);
            Some((combined, i2 + 1))
        } else {
            assert(combined@ =~= ts[i as int] + seq![' '] + ts[i + 1]);
            Some((combined, i2))
        }
    } else {
        proof {
            if i + 2 < n && ts[i + 1] == seq!['('] {
                assert(tokens@[i + 1]@.len() == 1);
                assert(tokens@[i + 1]@[0] == '(');
            }
        }
        Some((tokens[i].clone(), i + 1))
    }
}

/// Parse a move list.
///
/// Move numbers are skipped, the move format of each move is detected, and result tokens are
/// skipped. Returns the game and the format of the first move that carries a yugo count.
pub fn parse_game(s: &str, validate_yugos: bool) -> (r: Result<(Game, Option<MvFormat>), ParseGameError>)
    requires
        spec_parse_game(s@, validate_yugos) is Some,
    ensures
        match r {
            Ok((g, f)) => spec_parse_game(s@, validate_yugos) == Some(
                Ok::<_, ParseGameErrorView>((g@, f)),
            ) && game_wf(g@),
            Err(e) => spec_parse_game(s@, validate_yugos) == Some(
                Err::<(GameView, Option<MvFormat>), _>(e@),
            ),
        },
{
    match parse_game_checked(s, validate_yugos) {
        Some(r) => r,
        None => Err(ParseGameError::Illegal(0)),
    }
}

/// A move list, or `None` where reading it would index past the last token: the total form of
/// `parse_game`.
pub fn parse_game_checked(s: &str, validate_yugos: bool) -> (r: Option<
    Result<(Game, Option<MvFormat>), ParseGameError>,
>)
    ensures
        match r {
            None => spec_parse_game(s@, validate_yugos) is None,
            Some(Ok((g, f))) => spec_parse_game(s@, validate_yugos) == Some(
                Ok::<_, ParseGameErrorView>((g@, f)),
            ) && game_wf(g@),
            Some(Err(e)) => spec_parse_game(s@, validate_yugos) == Some(
                Err::<(GameView, Option<MvFormat>), _>(e@),
            ),
        },
{
    let mut game = Game::new();
    let mut detected: Option<MvFormat> = None;
    let cs = chars_of(s);
    let tokens = split_whitespace(&cs);
    let ghost ts = tokens.deep_view();
    proof {
        assert forall|k: int| 0 <= k < tokens.len() implies (#[trigger] tokens@[k])@ == ts[k] by {
            assert(tokens@[k]@ =~= ts[k]);
        }
    }
    let mut i: usize = 0;
    let mut move_idx: usize = 0;
    while i < tokens.len()
        invariant
            i <= tokens.len(),
            move_idx <= i,
            ts == tokens.deep_view(),
            ts == split_ws(s@),
            forall|k: int| 0 <= k < tokens.len() ==> (#[trigger] tokens@[k])@ == ts[k],
            game_wf(game@),
            spec_parse_game(s@, validate_yugos) == pgn_run(
                ts,
                validate_yugos,
                i as int,
                move_idx,
                game@,
                detected,
            ),
        decreases tokens.len() - i,
    {
        let token = &tokens[i];
        let ends_dot = token.len() > 0 && token[token.len() - 1] == '.';
        if ends_dot || is_all_digits(token) {
            i += 1;
            continue;
        }
        if eq_str(token, "1-0") || eq_str(token, "0-1") || eq_str(token, "1/2-1/2") {
            i += 1;
            if i < tokens.len() && starts_with_paren(&tokens[i]) {
                i += 1;
            }
            continue;
        }
        let (mv_text, next) = match move_text(&tokens, i) {
            Some(x) => x,
            None => return None,
        };
        proof {
            lemma_pgn_move_text(ts, i as int);
        }
        let mv_str = trim_end_dots_chars(&mv_text);
        let mv = match parse_mv_auto_chars(&mv_str) {
            Ok(m) => m,
            Err(e) => return Some(Err(ParseGameError::Move { index: move_idx, source: e })),
        };
        if detected.is_none() && mv.yugos_formed > 0 {
            detected = Some(
                if contains_char(&mv_str, '(') {
                    MvFormat::YugosParens
                } else {
                    MvFormat::YugosPlus
                },
            );
        }
        match game.play(mv) {
            Ok(()) => {},
            Err(_) => return Some(Err(ParseGameError::Illegal(move_idx))),
        }
        if validate_yugos && mv.yugos_formed > 0 {
            let moves = game.moves();
            let actual = moves[moves.len() - 1].yugos_formed;
            if actual != mv.yugos_formed {
                return Some(
                    Err(
                        ParseGameError::YugoMismatch {
                            index: move_idx,
                            expected: actual,
                            got: mv.yugos_formed,
                        },
                    ),
                );
            }
        }
        move_idx += 1;
        i = next;
    }
    Some(Ok((game, detected)))
}

} // verus!

verus! {

/// Bare squares separated by spaces, no numbers and no result.
pub open spec fn bare_format() -> PgnFormat {
    PgnFormat { move_numbers: false, newlines: false, mv_format: MvFormat::Plain }
}

/// The game of the first `k` moves of `v`.
pub open spec fn game_prefix(v: GameView, k: int) -> GameView {
    (v.0.take(k), v.1.take(k + 1))
}

/// The bare text of the first `n` moves is their square names, which split back apart.
proof fn lemma_bare_tokens(moves: Seq<Mv>, n: int)
    requires
        0 <= n <= moves.len(),
        forall|i: int| 0 <= i < moves.len() ==> 0 <= #[trigger] moves[i].sq@ < 64,
    ensures
        split_ws(fmt_moves(moves, bare_format(), n)) == Seq::new(
            n as nat,
            |j: int| spec_format_sq(moves[j].sq@),
        ),
        n > 0 ==> fmt_moves(moves, bare_format(), n).len() > 0 && '1' <= fmt_moves(
            moves,
            bare_format(),
            n,
        ).last() <= '8',
    decreases n,
{
    if n > 0 {
        lemma_bare_tokens(moves, n - 1);
        let r = fmt_moves(moves, bare_format(), n - 1);
        let t = spec_format_sq(moves[n - 1].sq@);
        lemma_sq_text(moves[n - 1].sq);
        assert(spec_format_mv(moves[n - 1], MvFormat::Plain) == t);
        assert forall|j: int| 0 <= j < t.len() implies !is_ws(#[trigger] t[j]) by {}
        if r.len() > 0 {
            lemma_split_ws_trailing(r, ' ');
            lemma_split_ws_append(r.push(' '), t);
        } else {
            lemma_split_ws_append(r, t);
            assert(r + t =~= t);
        }
        let full = fmt_moves(moves, bare_format(), n);
        assert(full.last() == t[1]);
        assert(split_ws(full) =~= Seq::new(n as nat, |j: int| spec_format_sq(moves[j].sq@)));
    }
}

/// Reading the square names of moves `k..` from the game of the first `k` moves gives the
/// whole game back.
proof fn lemma_bare_run(v: GameView, ts: Seq<Seq<char>>, k: int, idx: usize)
    requires
        game_wf(v),
        ts == Seq::new(v.0.len(), |j: int| spec_format_sq(v.0[j].sq@)),
        0 <= k <= v.0.len(),
    ensures
        pgn_run(ts, false, k, idx, game_prefix(v, k), None) == Some(
            Ok::<(GameView, Option<MvFormat>), ParseGameErrorView>((v, None)),
        ),
    decreases v.0.len() - k,
{
    let n = v.0.len() as int;
    if k == n {
        assert(v.0.take(k) =~= v.0);
        assert(v.1.take(k + 1) =~= v.1);
    } else {
        let mv = v.0[k];
        let t = ts[k];
        lemma_sq_text(mv.sq);
        reveal_strlit("1-0");
        reveal_strlit("0-1");
        reveal_strlit("1/2-1/2");
        assert(!is_result_token(t));
        assert(!ends_with_char(t, '.'));
        assert(!crate::text::is_digit(t[0]));
        assert(!all_digits(t));
        if k + 1 < n {
            lemma_sq_text(v.0[k + 1].sq);
            assert(ts[k + 1] != seq!['(']);
            assert(ts[k + 1].take(1)[0] == ts[k + 1][0]);
            assert(!starts_with(ts[k + 1], seq!['(']));
        }
        assert(pgn_move_text(ts, k) == Some((t, k + 1)));
        crate::text::lemma_trim_end_dots(t, 2);
        assert(t.take(2) =~= t);
        crate::mv::law_mv_roundtrip(mv, MvFormat::Plain);
        let pm = Mv { sq: mv.sq, yugos_formed: 0 };
        assert(spec_parse_mv_auto(t) == Ok::<Mv, crate::error::ParseMvError>(pm));
        let g = game_prefix(v, k);
        assert(game_current(g) == v.1[k]);
        v.1[k].lemma_legal_empty(mv.sq@);
        let g2 = game_prefix(v, k + 1);
        assert(g.0.push(Mv { sq: mv.sq, yugos_formed: mv.yugos_formed }) =~= g2.0);
        assert(g.1.push(v.1[k + 1]) =~= g2.1);
        assert(game_play(g, pm) == Ok::<GameView, PlayError>(g2));
        lemma_bare_run(v, ts, k + 1, (idx + 1) as usize);
    }
}

/// A game written as bare square names reads back as the same game, yugo counts included.
pub proof fn law_parse_format_game(v: GameView)
    requires
        game_wf(v),
    ensures
        spec_parse_game(spec_format_game(v, bare_format(), false, false), false) == Some(
            Ok::<(GameView, Option<MvFormat>), ParseGameErrorView>((v, None)),
        ),
{
    assert forall|i: int| 0 <= i < v.0.len() implies 0 <= #[trigger] v.0[i].sq@ < 64 by {
        assert(v.1[i].spec_outcome() is None);
    }
    lemma_bare_tokens(v.0, v.0.len() as int);
    let ts = split_ws(spec_format_game(v, bare_format(), false, false));
    lemma_bare_run(v, ts, 0, 0);
    assert(v.0.take(0) =~= Seq::<Mv>::empty());
    assert(v.1.take(1) =~= seq![State::spec_new()]);
}

/// What reading a formatted result gives back: the winner, and an Igo mark exactly where the
/// type was written and the game ended by Igo.
pub open spec fn result_read_back(outcome: Option<Outcome>, include_type: bool) -> Option<
    (Option<Color>, bool),
> {
    match outcome {
        None => None,
        Some(o) => Some((o.spec_winner(), include_type && o is Igo)),
    }
}

proof fn lemma_trim_plain(cs: Seq<char>)
    requires
        cs.len() > 0,
        !is_ws(cs[0]),
        !is_ws(cs.last()),
    ensures
        trim(cs) == cs,
{
    assert(crate::text::trim_start(cs) == cs);
}

proof fn lemma_read_tagged(body: Seq<char>, tag: Seq<char>)
    requires
        body.len() > 0,
        !is_ws(body[0]),
        !is_ws(body.last()),
        tag.len() > 0,
        !is_ws(tag.last()),
    ensures
        ({
            let t = body + " "@ + tag;
            &&& trim(t) == t
            &&& ends_with(t, tag)
            &&& trim(t.take(t.len() - tag.len())) == body
        }),
{
    reveal_strlit(" ");
    let t = body + " "@ + tag;
    lemma_trim_plain(t);
    assert(t.skip(t.len() - tag.len()) =~= tag);
    let h = t.take(t.len() - tag.len());
    assert(h =~= body.push(' '));
    assert(h.drop_last() =~= body);
    assert(is_ws(' '));
    assert(crate::text::trim_end(h) == crate::text::trim_end(body));
    assert(crate::text::trim_start(h) == h);
    lemma_trim_plain(body);
}

/// Reading back a formatted result gives the outcome's winner, marked as an Igo exactly when the
/// type was written and the game ended by Igo.
pub proof fn law_parse_format_result(outcome: Option<Outcome>, include_type: bool)
    ensures
        spec_parse_result(spec_format_result(outcome, include_type)) == Ok::<_, ParseGameErrorView>(
            result_read_back(outcome, include_type),
        ),
{
    reveal_strlit("*");
    reveal_strlit("1-0");
    reveal_strlit("0-1");
    reveal_strlit("1/2-1/2");
    reveal_strlit("(igo)");
    reveal_strlit("(wego)");
    reveal_strlit("1-0 (igo)");
    reveal_strlit("0-1 (igo)");
    reveal_strlit("1-0 (wego)");
    reveal_strlit("0-1 (wego)");
    reveal_strlit("1/2-1/2 (wego)");
    reveal_strlit(" ");
    let s = spec_format_result(outcome, include_type);
    if outcome is None {
        lemma_trim_plain(s);
    } else if !include_type {
        lemma_trim_plain(s);
        assert(!ends_with(s, "(igo)"@)) by {
            if s.len() >= 5 {
                assert(s.skip(s.len() - 5).last() != "(igo)"@.last() || s.skip(s.len() - 5)[0]
                    != "(igo)"@[0]);
            }
        }
        assert(!ends_with(s, "(wego)"@)) by {
            if s.len() >= 6 {
                assert(s.skip(s.len() - 6)[0] != "(wego)"@[0]);
            }
        }
    } else {
        let (body, tag) = match outcome {
            Some(Outcome::Igo(Color::White)) => ("1-0"@, "(igo)"@),
            Some(Outcome::Igo(Color::Black)) => ("0-1"@, "(igo)"@),
            Some(Outcome::Wego(WegoResult::Win(Color::White))) => ("1-0"@, "(wego)"@),
            Some(Outcome::Wego(WegoResult::Win(Color::Black))) => ("0-1"@, "(wego)"@),
            _ => ("1/2-1/2"@, "(wego)"@),
        };
        assert(s =~= body + " "@ + tag);
        lemma_read_tagged(body, tag);
        if tag == "(wego)"@ {
            assert(!ends_with(s, "(igo)"@)) by {
                assert(s.skip(s.len() - 5)[0] != "(igo)"@[0]);
            }
        }
    }
}

/// A result text as the parser accepts it: `*`, or `1-0`, `0-1` or `1/2-1/2`, alone or followed,
/// after any whitespace, by `(igo)` or `(wego)`.
pub open spec fn result_text_form(t: Seq<char>) -> bool {
    ||| t == "*"@
    ||| exists|body: Seq<char>, w: Seq<char>, tag: Seq<char>|
        {
            &&& (body == "1-0"@ || body == "0-1"@ || body == "1/2-1/2"@)
            &&& (forall|j: int| 0 <= j < w.len() ==> is_ws(#[trigger] w[j]))
            &&& ((tag.len() == 0 && w.len() == 0) || tag == "(igo)"@ || tag == "(wego)"@)
            &&& t == body + w + tag
        }
}

/// Reading a result looks only at the text without its surrounding whitespace.
pub proof fn law_parse_result_trimmed(cs: Seq<char>)
    ensures
        spec_parse_result(trim(cs)) == spec_parse_result(cs),
{
    crate::text::lemma_trim_idempotent(cs);
}

/// Every text that is not a result, once trimmed, is refused, with the trimmed text in the error.
pub proof fn law_parse_result_refuses(cs: Seq<char>)
    ensures
        !result_text_form(trim(cs)) ==> spec_parse_result(cs) == Err::<
            Option<(Option<Color>, bool)>,
            ParseGameErrorView,
        >(ParseGameErrorView::BadResult(trim(cs))),
        spec_parse_result(cs) is Err ==> spec_parse_result(cs) == Err::<
            Option<(Option<Color>, bool)>,
            ParseGameErrorView,
        >(ParseGameErrorView::BadResult(trim(cs))),
{
    let t = trim(cs);
    if spec_parse_result(cs) is Ok && t != "*"@ {
        crate::text::lemma_trim_ends(cs);
        if ends_with(t, "(igo)"@) || ends_with(t, "(wego)"@) {
            let tag = if ends_with(t, "(igo)"@) {
                "(igo)"@
            } else {
                "(wego)"@
            };
            let x = t.take(t.len() - tag.len());
            let body = trim(x);
            assert(t =~= x + tag);
            reveal_strlit("(igo)");
            reveal_strlit("(wego)");
            reveal_strlit("1-0");
            reveal_strlit("0-1");
            reveal_strlit("1/2-1/2");
            assert(x.len() > 0);
            assert(x[0] == t[0]);
            assert(crate::text::trim_start(x) == x);
            crate::text::lemma_trim_end_shape(x);
            let w = x.skip(body.len() as int);
            assert(x =~= body + w);
            assert forall|j: int| 0 <= j < w.len() implies is_ws(#[trigger] w[j]) by {
                assert(w[j] == x[body.len() + j]);
            }
            assert(t == body + w + tag);
        } else {
            let e = Seq::<char>::empty();
            assert(t =~= t + e + e);
        }
    }
}

} // verus!
