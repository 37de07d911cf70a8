use vstd::prelude::*;

use crate::bits::{bit, group_bits, is_set, lemma_bits_ext};
use crate::error::{ParseStateError, ParseStateErrorView, PlayError};
use crate::lines::{
    ahead, behind, cell_at, complete, dir_dc, dir_dr, five_from, has_five_line, has_line4, lemma_run_len_bound, lemma_run_len_cells,
    lemma_run_len_geometry, line_bits, line_len, line_sq, lines_count, lines_mask, on_board, over4,
    run, run_len,
};
use crate::mv::Mv;
use crate::outcome::{Outcome, WegoResult};
use crate::piece::{Color, Piece, PieceKind};
use crate::sq::Sq;
use crate::text::{
    chars_of, decimal, digit_char, is_digit, is_ws, lemma_decimal, lemma_parse_u8_decimal,
    lemma_split_on_extend, lemma_split_on_sep, lemma_split_ws_append, lemma_split_ws_trailing,
    parse_u8, push_char, push_decimal, push_str, spec_parse_u8, split_char, split_on,
    split_whitespace, split_ws, string_of,
};

verus! {

broadcast use group_bits;

/// Complete board state.
#[derive(Debug, Clone, Copy, PartialEq, Eq, Structural)]
pub struct State {
    white_migos: u64,
    black_migos: u64,
    white_yugos: u64,
    black_yugos: u64,
    white_score: u8,
    black_score: u8,
    side_to_move: Color,
}

/// Column and row steps of direction `d`, as `lines::dir_dc` and `lines::dir_dr` give them.
fn direction(d: usize) -> (r: (i8, i8))
    requires
        d < 4,
    ensures
        r.0 == dir_dc(d as int),
        r.1 == dir_dr(d as int),
{
    if d == 0 {
        (1, 0)
    } else if d == 1 {
        (0, 1)
    } else if d == 2 {
        (1, 1)
    } else {
        (1, -1)
    }
}

/// Whether `(c, r)` is on the board and set in `pieces`.
fn occupied_at(pieces: u64, c: i8, r: i8) -> (b: bool)
    ensures
        b == (on_board(c as int, r as int) && is_set(pieces, c + 8 * r)),
{
    if 0 <= c && c < 8 && 0 <= r && r < 8 {
        let idx = (c as u8) + 8 * (r as u8);
        proof {
            crate::bits::lemma_and_bit(pieces, idx as int);
        }
        pieces & (1u64 << (idx as u64)) != 0
    } else {
        false
    }
}

/// The `t`-th square of a complete line along `d` through `i`, whose first square lies `b` behind `i`.
fn line_square(sq: Sq, d: usize, b: u8, t: u8) -> (idx: u8)
    requires
        d < 4,
        t < 4,
        b <= 3,
        on_board(
            sq@ % 8 + (t - b) * dir_dc(d as int),
            sq@ / 8 + (t - b) * dir_dr(d as int),
        ),
    ensures
        idx == (sq@ % 8 + (t - b) * dir_dc(d as int)) + 8 * (sq@ / 8 + (t - b) * dir_dr(
            d as int,
        )),
{
    let col = sq.col() as i32;
    let row = sq.row() as i32;
    let o = t as i32 - b as i32;
    let (c, r) = if d == 0 {
        (col + o, row)
    } else if d == 1 {
        (col, row + o)
    } else if d == 2 {
        (col + o, row + o)
    } else {
        (col + o, row - o)
    };
    (c + 8 * r) as u8
}

/// The squares of a complete line lie on the board.
proof fn lemma_line_on_board(p: u64, i: int, d: int, t: int)
    requires
        0 <= i < 64,
        0 <= d < 4,
        complete(p, i, d),
        0 <= t < 4,
    ensures
        behind(p, i, d) <= 3,
        on_board(
            i % 8 + (t - behind(p, i, d)) * dir_dc(d),
            i / 8 + (t - behind(p, i, d)) * dir_dr(d),
        ),
{
    let b = behind(p, i, d) as int;
    let a = ahead(p, i, d) as int;
    let dc = dir_dc(d);
    let dr = dir_dr(d);
    let o = t - b;
    if o < 0 {
        let s = b - t;
        lemma_run_len_cells(p, i % 8, i / 8, -dc, -dr, 8, s);
        assert(s * (-dc) == o * dc) by (nonlinear_arith)
            requires
                s == b - t,
                o == t - b,
        ;
        assert(s * (-dr) == o * dr) by (nonlinear_arith)
            requires
                s == b - t,
                o == t - b,
        ;
    } else if o > 0 {
        lemma_run_len_cells(p, i % 8, i / 8, dc, dr, 8, o);
    }
}

impl State {
    pub closed spec fn spec_migos(self, color: Color) -> u64 {
        match color {
            Color::White => self.white_migos,
            Color::Black => self.black_migos,
        }
    }

    pub closed spec fn spec_yugos(self, color: Color) -> u64 {
        match color {
            Color::White => self.white_yugos,
            Color::Black => self.black_yugos,
        }
    }

    pub closed spec fn spec_score(self, color: Color) -> u8 {
        match color {
            Color::White => self.white_score,
            Color::Black => self.black_score,
        }
    }

    pub closed spec fn spec_side(self) -> Color {
        self.side_to_move
    }

    /// A state built from its parts.
    pub closed spec fn spec_make(
        wm: u64,
        bm: u64,
        wy: u64,
        by: u64,
        ws: u8,
        bs: u8,
        side: Color,
    ) -> State {
        State {
            white_migos: wm,
            black_migos: bm,
            white_yugos: wy,
            black_yugos: by,
            white_score: ws,
            black_score: bs,
            side_to_move: side,
        }
    }

    pub proof fn lemma_spec_make(wm: u64, bm: u64, wy: u64, by: u64, ws: u8, bs: u8, side: Color)
        ensures
            ({
                let s = State::spec_make(wm, bm, wy, by, ws, bs, side);
                &&& s.spec_migos(Color::White) == wm
                &&& s.spec_migos(Color::Black) == bm
                &&& s.spec_yugos(Color::White) == wy
                &&& s.spec_yugos(Color::Black) == by
                &&& s.spec_score(Color::White) == ws
                &&& s.spec_score(Color::Black) == bs
                &&& s.spec_side() == side
            }),
    {
    }

    /// States with the same parts are equal.
    pub proof fn lemma_ext(a: State, b: State)
        requires
            a.spec_migos(Color::White) == b.spec_migos(Color::White),
            a.spec_migos(Color::Black) == b.spec_migos(Color::Black),
            a.spec_yugos(Color::White) == b.spec_yugos(Color::White),
            a.spec_yugos(Color::Black) == b.spec_yugos(Color::Black),
            a.spec_score(Color::White) == b.spec_score(Color::White),
            a.spec_score(Color::Black) == b.spec_score(Color::Black),
            a.spec_side() == b.spec_side(),
        ensures
            a == b,
    {
    }

    pub open spec fn spec_pieces(self, color: Color) -> u64 {
        self.spec_migos(color) | self.spec_yugos(color)
    }

    pub open spec fn spec_occupied(self) -> u64 {
        self.spec_migos(Color::White) | self.spec_migos(Color::Black) | self.spec_yugos(
            Color::White,
        ) | self.spec_yugos(Color::Black)
    }

    pub open spec fn spec_is_empty(self, i: int) -> bool {
        !is_set(self.spec_occupied(), i)
    }

    /// Whether the side to move may place on square `i`.
    pub closed spec fn spec_legal(self, i: int) -> bool {
        &&& self.spec_is_empty(i)
        &&& !over4(self.spec_pieces(self.spec_side()) | bit(i), i)
    }

    pub closed spec fn spec_has_legal_moves(self) -> bool {
        exists|i: int| 0 <= i < 64 && self.spec_legal(i)
    }

    /// The legal moves among squares `0..n`, in square order.
    pub open spec fn spec_legal_upto(self, n: int) -> Seq<Mv>
        decreases n,
    {
        if n <= 0 {
            seq![]
        } else {
            let prev = self.spec_legal_upto(n - 1);
            if self.spec_legal(n - 1) {
                prev.push(Mv { sq: Sq::spec_new(n - 1), yugos_formed: 0 })
            } else {
                prev
            }
        }
    }

    /// All legal moves, in square order.
    pub open spec fn spec_legal_moves(self) -> Seq<Mv> {
        self.spec_legal_upto(64)
    }

    /// Every listed move is a legal placement of a migo.
    pub proof fn lemma_legal_upto_members(self, n: int)
        requires
            n <= 64,
        ensures
            forall|k: int|
                0 <= k < self.spec_legal_upto(n).len() ==> {
                    &&& self.spec_legal((#[trigger] self.spec_legal_upto(n)[k]).sq@)
                    &&& self.spec_legal_upto(n)[k].yugos_formed == 0
                },
        decreases n,
    {
        if n > 0 {
            self.lemma_legal_upto_members(n - 1);
            let prev = self.spec_legal_upto(n - 1);
            if self.spec_legal(n - 1) {
                Sq::lemma_spec_new(n - 1);
                assert forall|k: int| 0 <= k < self.spec_legal_upto(n).len() implies {
                    &&& self.spec_legal((#[trigger] self.spec_legal_upto(n)[k]).sq@)
                    &&& self.spec_legal_upto(n)[k].yugos_formed == 0
                } by {
                    if k < prev.len() {
                        assert(self.spec_legal_upto(n)[k] == prev[k]);
                    }
                }
            }
        }
    }

    /// No square before `n` is legal when none is listed.
    proof fn lemma_legal_upto_none(self, n: int)
        requires
            n <= 64,
            self.spec_legal_upto(n).len() == 0,
        ensures
            forall|i: int| 0 <= i < n ==> !self.spec_legal(i),
        decreases n,
    {
        if n > 0 {
            assert(self.spec_legal_upto(n - 1).len() <= self.spec_legal_upto(n).len());
            self.lemma_legal_upto_none(n - 1);
        }
    }

    /// With no move listed, the side to move has no legal move.
    pub proof fn lemma_no_legal_moves(self)
        requires
            self.spec_legal_moves().len() == 0,
        ensures
            !self.spec_has_legal_moves(),
    {
        self.lemma_legal_upto_none(64);
    }

    /// A legal square is empty.
    pub proof fn lemma_legal_empty(self, i: int)
        requires
            self.spec_legal(i),
        ensures
            self.spec_is_empty(i),
    {
    }

    /// A mover with at most 251 points can take any placement's yugos.
    pub proof fn lemma_play_fits(self, i: int)
        requires
            self.spec_score(self.spec_side()) <= 251,
        ensures
            self.spec_play_fits(i),
    {
        crate::lines::lemma_lines_count_bound(self.spec_placed_pieces(i), i, 4);
    }

    /// No square is held by two bitboards.
    pub open spec fn wf(self) -> bool {
        let wm = self.spec_migos(Color::White);
        let bm = self.spec_migos(Color::Black);
        let wy = self.spec_yugos(Color::White);
        let by = self.spec_yugos(Color::Black);
        forall|i: int|
            0 <= i < 64 ==> {
                &&& !(is_set(wm, i) && is_set(bm, i))
                &&& !(is_set(wm, i) && is_set(wy, i))
                &&& !(is_set(wm, i) && is_set(by, i))
                &&& !(is_set(bm, i) && is_set(wy, i))
                &&& !(is_set(bm, i) && is_set(by, i))
                &&& !(is_set(wy, i) && is_set(by, i))
            }
    }

    /// The piece that `at` reports on square `i`.
    pub open spec fn spec_at(self, i: int) -> Option<Piece> {
        if is_set(self.spec_migos(Color::White), i) {
            Some(Piece { kind: PieceKind::Migo, color: Color::White })
        } else if is_set(self.spec_migos(Color::Black), i) {
            Some(Piece { kind: PieceKind::Migo, color: Color::Black })
        } else if is_set(self.spec_yugos(Color::White), i) {
            Some(Piece { kind: PieceKind::Yugo, color: Color::White })
        } else if is_set(self.spec_yugos(Color::Black), i) {
            Some(Piece { kind: PieceKind::Yugo, color: Color::Black })
        } else {
            None
        }
    }

    /// The state with a migo of the side to move added on square `i`.
    pub closed spec fn spec_placed(self, i: int) -> State {
        match self.side_to_move {
            Color::White => State { white_migos: self.white_migos | bit(i), ..self },
            Color::Black => State { black_migos: self.black_migos | bit(i), ..self },
        }
    }

    /// The pieces of the side to move once a migo stands on `i`.
    pub open spec fn spec_placed_pieces(self, i: int) -> u64 {
        self.spec_placed(i).spec_pieces(self.spec_side())
    }

    /// How many yugos placing on `i` forms.
    pub open spec fn spec_yugos_formed(self, i: int) -> nat {
        lines_count(self.spec_placed_pieces(i), i, 4)
    }

    /// Whether the mover's score can take the yugos that placing on `i` forms.
    pub open spec fn spec_play_fits(self, i: int) -> bool {
        self.spec_score(self.spec_side()) + self.spec_yugos_formed(i) <= 255
    }

    /// The state after the side to move places on square `i`, and the yugos formed.
    pub closed spec fn spec_play(self, i: int) -> (State, u8) {
        let c = self.side_to_move;
        let b = bit(i);
        let placed = self.spec_placed(i);
        let p = placed.spec_pieces(c);
        let k = lines_count(p, i, 4);
        let lm = lines_mask(p, i, 4);
        let s2 = if k > 0 {
            let y = match c {
                Color::White => State {
                    white_migos: placed.white_migos & !b,
                    white_yugos: placed.white_yugos | b,
                    ..placed
                },
                Color::Black => State {
                    black_migos: placed.black_migos & !b,
                    black_yugos: placed.black_yugos | b,
                    ..placed
                },
            };
            let rm = (lm & !y.white_yugos) & !y.black_yugos;
            match c {
                Color::White => State {
                    white_migos: y.white_migos & !rm,
                    white_score: (y.white_score + k) as u8,
                    ..y
                },
                Color::Black => State {
                    black_migos: y.black_migos & !rm,
                    black_score: (y.black_score + k) as u8,
                    ..y
                },
            }
        } else {
            placed
        };
        (State { side_to_move: c.spec_flip(), ..s2 }, k as u8)
    }

    /// The game outcome of a state.
    pub closed spec fn spec_outcome(self) -> Option<Outcome> {
        if has_line4(self.spec_yugos(Color::White)) {
            Some(Outcome::Igo(Color::White))
        } else if has_line4(self.spec_yugos(Color::Black)) {
            Some(Outcome::Igo(Color::Black))
        } else if !self.spec_has_legal_moves() {
            let ws = self.spec_score(Color::White);
            let bs = self.spec_score(Color::Black);
            Some(
                Outcome::Wego(
                    if ws > bs {
                        WegoResult::Win(Color::White)
                    } else if bs > ws {
                        WegoResult::Win(Color::Black)
                    } else {
                        WegoResult::Draw
                    },
                ),
            )
        } else {
            None
        }
    }

    /// Each side has at least one point for each of its yugos and at most four.
    pub open spec fn score_fits_yugos(self) -> bool {
        &&& ones(self.spec_yugos(Color::White)) <= self.spec_score(Color::White)
        &&& self.spec_score(Color::White) <= 4 * ones(self.spec_yugos(Color::White))
        &&& ones(self.spec_yugos(Color::Black)) <= self.spec_score(Color::Black)
        &&& self.spec_score(Color::Black) <= 4 * ones(self.spec_yugos(Color::Black))
    }

    /// The empty board has no yugos and no points.
    pub proof fn lemma_new_scores()
        ensures
            State::spec_new().score_fits_yugos(),
    {
        lemma_ones_zero(64);
    }

    /// A legal placement keeps every side's points between one and four per yugo: forming
    /// yugos turns the placed piece into one new yugo and scores one to four points.
    pub proof fn law_score_yugos(self, i: int)
        requires
            0 <= i < 64,
            self.wf(),
            self.spec_legal(i),
            self.spec_play_fits(i),
            self.score_fits_yugos(),
        ensures
            self.spec_play(i).0.score_fits_yugos(),
    {
        self.law_play_keeps(i);
        self.lemma_legal_empty(i);
        let c = self.side_to_move;
        let (t, k) = self.spec_play(i);
        assert(!is_set(self.spec_yugos(c), i));
        if k > 0 {
            lemma_ones_add(self.spec_yugos(c), i, 64);
            assert(t.spec_yugos(c) == self.spec_yugos(c) | bit(i));
        } else {
            assert(t.spec_yugos(c) == self.spec_yugos(c));
        }
        assert(t.spec_yugos(c.spec_flip()) == self.spec_yugos(c.spec_flip()));
    }

    /// What holds of every state reached from the empty board by legal placements: no square
    /// held twice, one to four points per yugo, and at most 196 points for each side.
    pub open spec fn reachable_bounds(self) -> bool {
        &&& self.wf()
        &&& self.score_fits_yugos()
        &&& self.spec_score(Color::White) <= 196
        &&& self.spec_score(Color::Black) <= 196
    }

    /// The empty board is within the bounds of reachable states.
    pub proof fn lemma_new_bounds()
        ensures
            State::spec_new().reachable_bounds(),
    {
        State::lemma_new_scores();
    }

    /// From a state within those bounds and without an outcome, every legal placement fits the
    /// mover's byte score and leads to a state within them again: a side without four yugos in
    /// a line has at most 48 yugos, so at most 192 points before the move and 196 after.
    pub proof fn law_play_bounds(self, i: int)
        requires
            0 <= i < 64,
            self.reachable_bounds(),
            self.spec_outcome() is None,
            self.spec_legal(i),
        ensures
            self.spec_play_fits(i),
            self.spec_play(i).0.reachable_bounds(),
    {
        assert(!has_line4(self.spec_yugos(Color::White)));
        assert(!has_line4(self.spec_yugos(Color::Black)));
        lemma_rows_ones(self.spec_yugos(Color::White), 8);
        lemma_rows_ones(self.spec_yugos(Color::Black), 8);
        self.lemma_play_fits(i);
        self.law_play_keeps(i);
        self.law_score_yugos(i);
    }

    /// A legal placement keeps every side free of five pieces in a line: the placed piece makes
    /// no line longer than four, and the mover's other pieces can only be removed.
    pub proof fn law_play_no_five(self, i: int)
        requires
            0 <= i < 64,
            self.spec_legal(i),
            !has_five_line(self.spec_pieces(Color::White)),
            !has_five_line(self.spec_pieces(Color::Black)),
        ensures
            !has_five_line(self.spec_play(i).0.spec_pieces(Color::White)),
            !has_five_line(self.spec_play(i).0.spec_pieces(Color::Black)),
    {
        self.lemma_play_rule(i);
        let (t, k) = self.spec_play(i);
        let c = self.spec_side();
        let o = c.spec_flip();
        let q = self.spec_placed_pieces(i);
        assert forall|j: int| is_set(t.spec_pieces(c), j) implies #[trigger] is_set(q, j) by {}
        assert(q == self.spec_pieces(c) | bit(i)) by {
            lemma_bits_ext(q, self.spec_pieces(c) | bit(i));
        }
        assert(!over4(q, i));
        if has_five_line(t.spec_pieces(c)) {
            let (c0, r0, d) = choose|c0: int, r0: int, d: int|
                0 <= d < 4 && #[trigger] five_from(t.spec_pieces(c), c0, r0, d);
            let dc = dir_dc(d);
            let dr = dir_dr(d);
            assert forall|s0: int| 0 <= s0 < 5 implies #[trigger] cell_at(q, c0, r0, dc, dr, s0) by {
                assert(cell_at(t.spec_pieces(c), c0, r0, dc, dr, s0));
            }
            assert(five_from(q, c0, r0, d));
            if (c0 + 0 * dc) + 8 * (r0 + 0 * dr) == i {
                lemma_five_over4(q, c0, r0, d, 0);
            } else if (c0 + 1 * dc) + 8 * (r0 + 1 * dr) == i {
                lemma_five_over4(q, c0, r0, d, 1);
            } else if (c0 + 2 * dc) + 8 * (r0 + 2 * dr) == i {
                lemma_five_over4(q, c0, r0, d, 2);
            } else if (c0 + 3 * dc) + 8 * (r0 + 3 * dr) == i {
                lemma_five_over4(q, c0, r0, d, 3);
            } else if (c0 + 4 * dc) + 8 * (r0 + 4 * dr) == i {
                lemma_five_over4(q, c0, r0, d, 4);
            } else {
                assert forall|s0: int| 0 <= s0 < 5 implies #[trigger] cell_at(
                    self.spec_pieces(c),
                    c0,
                    r0,
                    dc,
                    dr,
                    s0,
                ) by {
                    assert(cell_at(q, c0, r0, dc, dr, s0));
                    assert(s0 == 0 || s0 == 1 || s0 == 2 || s0 == 3 || s0 == 4);
                    assert(is_set(bit(i), (c0 + s0 * dc) + 8 * (r0 + s0 * dr)) == false);
                }
                assert(five_from(self.spec_pieces(c), c0, r0, d));
                assert(has_five_line(self.spec_pieces(c)));
            }
        }
        assert(t.spec_pieces(o) == self.spec_pieces(o));
    }

    /// The empty board has no five in a line.
    pub proof fn lemma_new_no_five()
        ensures
            !has_five_line(State::spec_new().spec_pieces(Color::White)),
            !has_five_line(State::spec_new().spec_pieces(Color::Black)),
    {
        let s = State::spec_new();
        assert forall|c: int, r: int, d: int| !#[trigger] five_from(s.spec_pieces(Color::White), c, r, d) by {
            assert(!cell_at(s.spec_pieces(Color::White), c, r, dir_dc(d), dir_dr(d), 0));
        }
        assert forall|c: int, r: int, d: int| !#[trigger] five_from(s.spec_pieces(Color::Black), c, r, d) by {
            assert(!cell_at(s.spec_pieces(Color::Black), c, r, dir_dc(d), dir_dr(d), 0));
        }
    }

    /// What a legal placement keeps: no square in two bitboards, every yugo (the new piece
    /// stands on its square, as the mover's yugo or migo), scores that only grow by the yugos
    /// formed (at most four), and the turn passing to the other side.
    pub proof fn law_play_keeps(self, i: int)
        requires
            0 <= i < 64,
            self.wf(),
            self.spec_legal(i),
            self.spec_play_fits(i),
        ensures
            ({
                let (t, k) = self.spec_play(i);
                let c = self.spec_side();
                &&& t.wf()
                &&& forall|j: int| #[trigger] is_set(self.spec_yugos(Color::White), j) ==> is_set(t.spec_yugos(Color::White), j)
                &&& forall|j: int| #[trigger] is_set(self.spec_yugos(Color::Black), j) ==> is_set(t.spec_yugos(Color::Black), j)
                &&& is_set(t.spec_pieces(c), i)
                &&& k <= 4
                &&& k == self.spec_yugos_formed(i)
                &&& t.spec_score(c) == self.spec_score(c) + k
                &&& t.spec_score(c.spec_flip()) == self.spec_score(c.spec_flip())
                &&& t.spec_side() == c.spec_flip()
            }),
    {
        self.lemma_legal_empty(i);
        crate::lines::lemma_lines_count_bound(self.spec_placed_pieces(i), i, 4);
        let (t, k) = self.spec_play(i);
        assert forall|j: int| #![trigger is_set(t.spec_migos(Color::White), j)] 0 <= j < 64 implies {
            let wm = t.spec_migos(Color::White);
            let bm = t.spec_migos(Color::Black);
            let wy = t.spec_yugos(Color::White);
            let by = t.spec_yugos(Color::Black);
            &&& !(is_set(wm, j) && is_set(bm, j))
            &&& !(is_set(wm, j) && is_set(wy, j))
            &&& !(is_set(wm, j) && is_set(by, j))
            &&& !(is_set(bm, j) && is_set(wy, j))
            &&& !(is_set(bm, j) && is_set(by, j))
            &&& !(is_set(wy, j) && is_set(by, j))
        } by {
            assert(is_set(bit(i), j) == (j == i));
        }
        assert(is_set(bit(i), i));
    }

    /// In a state with no square in two bitboards, the piece on a square is read off the
    /// bitboards: a migo or yugo of a color exactly where that color's board has the square, and
    /// nothing exactly where the square is empty.
    pub proof fn law_at_boards(self, i: int)
        requires
            self.wf(),
            0 <= i < 64,
        ensures
            (self.spec_at(i) == Some(Piece { kind: PieceKind::Migo, color: Color::White })) == is_set(
                self.spec_migos(Color::White),
                i,
            ),
            (self.spec_at(i) == Some(Piece { kind: PieceKind::Migo, color: Color::Black })) == is_set(
                self.spec_migos(Color::Black),
                i,
            ),
            (self.spec_at(i) == Some(Piece { kind: PieceKind::Yugo, color: Color::White })) == is_set(
                self.spec_yugos(Color::White),
                i,
            ),
            (self.spec_at(i) == Some(Piece { kind: PieceKind::Yugo, color: Color::Black })) == is_set(
                self.spec_yugos(Color::Black),
                i,
            ),
            (self.spec_at(i) is None) == self.spec_is_empty(i),
    {
    }

    /// The listed moves below square `n`: legal squares below `n`, each once, in increasing
    /// order, every legal square below `n` among them.
    proof fn lemma_legal_upto_law(self, n: int)
        requires
            0 <= n <= 64,
        ensures
            ({
                let lm = self.spec_legal_upto(n);
                &&& forall|k: int| 0 <= k < lm.len() ==> 0 <= (#[trigger] lm[k]).sq@ < n && self.spec_legal(lm[k].sq@)
                    && lm[k].yugos_formed == 0
                &&& forall|k1: int, k2: int| 0 <= k1 < k2 < lm.len() ==> (#[trigger] lm[k1]).sq@ < (#[trigger] lm[k2]).sq@
                &&& forall|i: int| 0 <= i < n && #[trigger] self.spec_legal(i) ==> exists|k: int| 0 <= k < lm.len() && (#[trigger] lm[k]).sq@ == i
            }),
        decreases n,
    {
        if n > 0 {
            self.lemma_legal_upto_law(n - 1);
            Sq::lemma_spec_new(n - 1);
            let prev = self.spec_legal_upto(n - 1);
            let lm = self.spec_legal_upto(n);
            if self.spec_legal(n - 1) {
                assert forall|k: int| 0 <= k < prev.len() implies lm[k] == prev[k] by {}
                assert(lm[prev.len() as int].sq@ == n - 1);
                assert forall|i: int| 0 <= i < n && #[trigger] self.spec_legal(i) implies exists|k: int| 0 <= k < lm.len() && (#[trigger] lm[k]).sq@ == i by {
                    if i < n - 1 {
                        let k = choose|k: int| 0 <= k < prev.len() && (#[trigger] prev[k]).sq@ == i;
                        assert(lm[k] == prev[k]);
                    } else {
                        assert(lm[prev.len() as int].sq@ == i);
                    }
                }
            }
        }
    }

    /// The legal moves are the legal squares, each once, in increasing order, with no yugo count;
    /// on the empty board all 64 squares.
    pub proof fn law_legal_moves(self)
        ensures
            ({
                let lm = self.spec_legal_moves();
                &&& forall|k: int| 0 <= k < lm.len() ==> 0 <= (#[trigger] lm[k]).sq@ < 64 && self.spec_legal(lm[k].sq@)
                    && lm[k].yugos_formed == 0
                &&& forall|k1: int, k2: int| 0 <= k1 < k2 < lm.len() ==> (#[trigger] lm[k1]).sq@ < (#[trigger] lm[k2]).sq@
                &&& forall|i: int| 0 <= i < 64 && #[trigger] self.spec_legal(i) ==> exists|k: int| 0 <= k < lm.len() && (#[trigger] lm[k]).sq@ == i
            }),
            State::spec_new().spec_legal_moves().len() == 64,
    {
        self.lemma_legal_upto_law(64);
        let lm = self.spec_legal_moves();
        assert(lm == self.spec_legal_upto(64));
        assert forall|i: int| 0 <= i < 64 && #[trigger] self.spec_legal(i) implies exists|k: int| 0 <= k < lm.len() && (#[trigger] lm[k]).sq@ == i by {
            assert(0 <= i < 64 && self.spec_legal(i));
        }
        State::lemma_new_open();
        lemma_all_legal_upto(64);
    }

    /// The outcome rule: four yugos in a line win (White's checked first); with no legal move
    /// left the higher score wins, and equal scores draw; otherwise the game goes on.
    pub proof fn lemma_outcome_rule(self)
        ensures
            self.spec_outcome() == if has_line4(self.spec_yugos(Color::White)) {
                Some(Outcome::Igo(Color::White))
            } else if has_line4(self.spec_yugos(Color::Black)) {
                Some(Outcome::Igo(Color::Black))
            } else if !self.spec_has_legal_moves() {
                Some(
                    Outcome::Wego(
                        if self.spec_score(Color::White) > self.spec_score(Color::Black) {
                            WegoResult::Win(Color::White)
                        } else if self.spec_score(Color::Black) > self.spec_score(Color::White) {
                            WegoResult::Win(Color::Black)
                        } else {
                            WegoResult::Draw
                        },
                    ),
                )
            } else {
                None
            },
            self.spec_has_legal_moves() == exists|i: int| 0 <= i < 64 && #[trigger] self.spec_legal(i),
    {
    }

    /// The placement rule: the mover's migo goes on `i` (its pieces then being
    /// `spec_placed_pieces(i)`). Where it completes lines of four, it
    /// becomes a yugo, the mover's migos on those lines are removed and the mover scores one
    /// point per line; the other side's pieces and score stay, and the turn passes.
    pub proof fn lemma_play_rule(self, i: int)
        ensures
            ({
                let (t, k) = self.spec_play(i);
                let c = self.spec_side();
                let o = c.spec_flip();
                let p = self.spec_placed_pieces(i);
                let yc = if k > 0 {
                    self.spec_yugos(c) | bit(i)
                } else {
                    self.spec_yugos(c)
                };
                let rm = (lines_mask(p, i, 4) & !t.spec_yugos(Color::White)) & !t.spec_yugos(
                    Color::Black,
                );
                &&& p == (self.spec_migos(c) | bit(i)) | self.spec_yugos(c)
                &&& k == lines_count(p, i, 4)
                &&& t.spec_side() == o
                &&& t.spec_yugos(c) == yc
                &&& t.spec_migos(c) == if k > 0 {
                    ((self.spec_migos(c) | bit(i)) & !bit(i)) & !rm
                } else {
                    self.spec_migos(c) | bit(i)
                }
                &&& t.spec_score(c) == if k > 0 {
                    (self.spec_score(c) + k) as u8
                } else {
                    self.spec_score(c)
                }
                &&& t.spec_migos(o) == self.spec_migos(o)
                &&& t.spec_yugos(o) == self.spec_yugos(o)
                &&& t.spec_score(o) == self.spec_score(o)
            }),
    {
        crate::lines::lemma_lines_count_bound(self.spec_placed_pieces(i), i, 4);
    }

    /// What a legal placement is: an empty square where the mover's pieces, with it, make no
    /// unbroken line longer than four through it.
    pub proof fn lemma_legal_iff(self, i: int)
        ensures
            self.spec_legal(i) == (self.spec_is_empty(i) && !over4(
                self.spec_pieces(self.spec_side()) | bit(i),
                i,
            )),
    {
    }

    /// On the empty board every square is a legal placement, and the game is not over.
    pub proof fn lemma_new_open()
        ensures
            forall|i: int| 0 <= i < 64 ==> #[trigger] State::spec_new().spec_legal(i),
            State::spec_new().spec_has_legal_moves(),
            State::spec_new().spec_outcome() is None,
    {
        let s = State::spec_new();
        assert forall|i: int| 0 <= i < 64 implies #[trigger] s.spec_legal(i) by {
            let p = s.spec_pieces(s.spec_side()) | bit(i);
            assert forall|j: int| #![trigger is_set(p, j)] is_set(p, j) implies j == i by {
                assert(is_set(bit(i), j) == (j == i));
            }
            assert forall|d: int| 0 <= d < 4 implies #[trigger] line_len(p, i, d) == 1 by {
                let c = i % 8;
                let r = i / 8;
                assert(c + 8 * r == i);
                let dc = dir_dc(d);
                let dr = dir_dr(d);
                assert((c + dc) + 8 * (r + dr) != i);
                assert((c - dc) + 8 * (r - dr) != i);
                assert(crate::lines::run_len(p, c, r, dc, dr, 8) == 0);
                assert(crate::lines::run_len(p, c, r, -dc, -dr, 8) == 0);
            }
        }
        assert(s.spec_legal(0));
        assert(!has_line4(s.spec_yugos(Color::White)));
        assert(!has_line4(s.spec_yugos(Color::Black)));
    }

    pub open spec fn spec_new() -> State {
        State::spec_make(0, 0, 0, 0, 0, 0, Color::White)
    }

    /// Create an empty board with white to move.
    pub fn new() -> (r: State)
        ensures
            r == State::spec_new(),
    {
        State {
            white_migos: 0,
            black_migos: 0,
            white_yugos: 0,
            black_yugos: 0,
            white_score: 0,
            black_score: 0,
            side_to_move: Color::White,
        }
    }

    /// Side to move.
    pub fn side_to_move(&self) -> (r: Color)
        ensures
            r == self.spec_side(),
    {
        self.side_to_move
    }

    /// Score for a player.
    pub fn score(&self, color: Color) -> (r: u8)
        ensures
            r == self.spec_score(color),
    {
        match color {
            Color::White => self.white_score,
            Color::Black => self.black_score,
        }
    }

    /// All occupied squares.
    pub fn occupied(&self) -> (r: u64)
        ensures
            r == self.spec_occupied(),
    {
        self.white_migos | self.black_migos | self.white_yugos | self.black_yugos
    }

    /// Migos for a player.
    pub fn migos(&self, color: Color) -> (r: u64)
        ensures
            r == self.spec_migos(color),
    {
        match color {
            Color::White => self.white_migos,
            Color::Black => self.black_migos,
        }
    }

    /// Yugos for a player.
    pub fn yugos(&self, color: Color) -> (r: u64)
        ensures
            r == self.spec_yugos(color),
    {
        match color {
            Color::White => self.white_yugos,
            Color::Black => self.black_yugos,
        }
    }

    /// All pieces for a player.
    pub fn all_pieces(&self, color: Color) -> (r: u64)
        ensures
            r == self.spec_pieces(color),
    {
        self.migos(color) | self.yugos(color)
    }

    /// Check if a square is empty.
    pub fn is_empty(&self, sq: Sq) -> (r: bool)
        ensures
            r == self.spec_is_empty(sq@),
    {
        let b = sq.bit();
        self.occupied() & b == 0
    }

    /// Get the piece at a square.
    pub fn at(&self, sq: Sq) -> (r: Option<Piece>)
        ensures
            r == self.spec_at(sq@),
    {
        let bit = sq.bit();
        if self.white_migos & bit != 0 {
            Some(Piece { kind: PieceKind::Migo, color: Color::White })
        } else if self.black_migos & bit != 0 {
            Some(Piece { kind: PieceKind::Migo, color: Color::Black })
        } else if self.white_yugos & bit != 0 {
            Some(Piece { kind: PieceKind::Yugo, color: Color::White })
        } else if self.black_yugos & bit != 0 {
            Some(Piece { kind: PieceKind::Yugo, color: Color::Black })
        } else {
            None
        }
    }

    /// How many squares of `pieces` follow `sq` in direction `(dc, dr)`.
    fn count_in_direction(&self, sq: Sq, dc: i8, dr: i8, pieces: u64) -> (r: u8)
        requires
            -1 <= dc <= 1,
            -1 <= dr <= 1,
            dc != 0 || dr != 0,
        ensures
            r == run(pieces, sq@, dc as int, dr as int),
            r <= 7,
    {
        let col = sq.col();
        let row = sq.row();
        proof {
            lemma_run_len_geometry(pieces, col as int, row as int, dc as int, dr as int, 8);
        }
        let mut count: u8 = 0;
        let mut c: i8 = col as i8 + dc;
        let mut r: i8 = row as i8 + dr;
        let ghost mut gx: int = col as int;
        let ghost mut gy: int = row as int;
        while occupied_at(pieces, c, r)
            invariant
                -1 <= dc <= 1,
                -1 <= dr <= 1,
                col == sq@ % 8,
                row == sq@ / 8,
                0 <= sq@ < 64,
                c == gx + dc,
                r == gy + dr,
                count <= 7,
                run(pieces, sq@, dc as int, dr as int) <= 7,
                run(pieces, sq@, dc as int, dr as int) == count + run_len(
                    pieces,
                    gx,
                    gy,
                    dc as int,
                    dr as int,
                    (8 - count) as nat,
                ),
            decreases 7 - count,
        {
            proof {
                lemma_run_len_bound(pieces, c as int, r as int, dc as int, dr as int, (7 - count) as nat);
                gx = c as int;
                gy = r as int;
            }
            count += 1;
            c += dc;
            r += dr;
        }
        count
    }

    /// Whether placing a piece of `color` on `sq` makes a line longer than four.
    fn would_create_line_over_4(&self, sq: Sq, color: Color) -> (r: bool)
        ensures
            r == over4(self.spec_pieces(color) | bit(sq@), sq@),
    {
        let pieces = self.all_pieces(color) | sq.bit();
        let mut d: usize = 0;
        while d < 4
            invariant
                d <= 4,
                pieces == self.spec_pieces(color) | bit(sq@),
                forall|e: int| 0 <= e < d ==> line_len(pieces, sq@, e) <= 4,
            decreases 4 - d,
        {
            let (dc, dr) = direction(d);
            let count = 1 + self.count_in_direction(sq, dc, dr, pieces) + self.count_in_direction(
                sq,
                -dc,
                -dr,
                pieces,
            );
            if count > 4 {
                return true;
            }
            d += 1;
        }
        false
    }

    /// The number of complete lines of four through `sq` in the pieces of `color`,
    /// and the union of their squares.
    fn find_completed_lines(&self, sq: Sq, color: Color) -> (r: (u8, u64))
        ensures
            r.0 == lines_count(self.spec_pieces(color), sq@, 4),
            r.1 == lines_mask(self.spec_pieces(color), sq@, 4),
            r.0 <= 4,
    {
        let pieces = self.all_pieces(color);
        sq.index_range();
        let mut count: u8 = 0;
        let mut mask: u64 = 0;
        let mut d: usize = 0;
        while d < 4
            invariant
                d <= 4,
                0 <= sq@ < 64,
                pieces == self.spec_pieces(color),
                count == lines_count(pieces, sq@, d as int),
                mask == lines_mask(pieces, sq@, d as int),
                count <= d,
            decreases 4 - d,
        {
            let (dc, dr) = direction(d);
            let behind = self.count_in_direction(sq, -dc, -dr, pieces);
            let ahead = self.count_in_direction(sq, dc, dr, pieces);
            let total = 1 + behind + ahead;
            if total == 4 {
                proof {
                    lemma_line_on_board(pieces, sq@, d as int, 0);
                    lemma_line_on_board(pieces, sq@, d as int, 1);
                    lemma_line_on_board(pieces, sq@, d as int, 2);
                    lemma_line_on_board(pieces, sq@, d as int, 3);
                }
                let s0 = line_square(sq, d, behind, 0);
                let s1 = line_square(sq, d, behind, 1);
                let s2 = line_square(sq, d, behind, 2);
                let s3 = line_square(sq, d, behind, 3);
                mask = mask | ((1u64 << (s0 as u64)) | (1u64 << (s1 as u64)) | (1u64 << (
                s2 as u64)) | (1u64 << (s3 as u64)));
                count += 1;
            } else {
                assert(mask | 0u64 == mask) by (bit_vector);
            }
            d += 1;
        }
        (count, mask)
    }

    /// Check if placing at a square is legal (ignoring the Igo check).
    pub fn is_legal_placement(&self, sq: Sq) -> (r: bool)
        ensures
            r == self.spec_legal(sq@),
    {
        if !self.is_empty(sq) {
            return false;
        }
        !self.would_create_line_over_4(sq, self.side_to_move)
    }

    /// Get all legal moves, in square order.
    pub fn legal_moves(&self) -> (r: Vec<Mv>)
        ensures
            r@ == self.spec_legal_moves(),
    {
        let all = Sq::all();
        let mut r: Vec<Mv> = Vec::new();
        let mut i: usize = 0;
        while i < 64
            invariant
                i <= 64,
                all@.len() == 64,
                forall|k: int| 0 <= k < 64 ==> (#[trigger] all@[k])@ == k,
                r@ == self.spec_legal_upto(i as int),
            decreases 64 - i,
        {
            let sq = all[i];
            proof {
                Sq::lemma_spec_new(i as int);
                Sq::lemma_view_eq(sq, Sq::spec_new(i as int));
            }
            if self.is_legal_placement(sq) {
                r.push(Mv::new(sq));
            }
            i += 1;
        }
        r
    }

    /// Check if there are any legal moves.
    pub fn has_legal_moves(&self) -> (r: bool)
        ensures
            r == self.spec_has_legal_moves(),
    {
        let all = Sq::all();
        let mut i: usize = 0;
        while i < 64
            invariant
                i <= 64,
                all@.len() == 64,
                forall|k: int| 0 <= k < 64 ==> (#[trigger] all@[k])@ == k,
                forall|k: int| 0 <= k < i ==> !self.spec_legal(k),
            decreases 64 - i,
        {
            if self.is_legal_placement(all[i]) {
                assert(self.spec_legal(all@[i as int]@));
                return true;
            }
            i += 1;
        }
        false
    }

    /// Play a move without validation. Returns new state and yugos formed.
    pub fn play_unchecked(&self, mv: Mv) -> (r: (State, u8))
        requires
            self.spec_play_fits(mv.sq@),
        ensures
            r == self.spec_play(mv.sq@),
    {
        let mut new_state = *self;
        let color = self.side_to_move;
        let bit = mv.sq.bit();
        match color {
            Color::White => new_state.white_migos = new_state.white_migos | bit,
            Color::Black => new_state.black_migos = new_state.black_migos | bit,
        }
        assert(new_state == self.spec_placed(mv.sq@));
        let (yugos_formed, lines) = new_state.find_completed_lines(mv.sq, color);
        if yugos_formed > 0 {
            match color {
                Color::White => {
                    new_state.white_migos = new_state.white_migos & !bit;
                    new_state.white_yugos = new_state.white_yugos | bit;
                },
                Color::Black => {
                    new_state.black_migos = new_state.black_migos & !bit;
                    new_state.black_yugos = new_state.black_yugos | bit;
                },
            }
            let mut to_remove = lines;
            to_remove = to_remove & !new_state.white_yugos;
            to_remove = to_remove & !new_state.black_yugos;
            match color {
                Color::White => {
                    new_state.white_migos = new_state.white_migos & !to_remove;
                    new_state.white_score = new_state.white_score + yugos_formed;
                },
                Color::Black => {
                    new_state.black_migos = new_state.black_migos & !to_remove;
                    new_state.black_score = new_state.black_score + yugos_formed;
                },
            }
        }
        new_state.side_to_move = color.flip();
        (new_state, yugos_formed)
    }

    /// Whether the mover's score can take the yugos that placing on `sq` forms (a score is a
    /// byte).
    pub fn play_fits(&self, sq: Sq) -> (r: bool)
        ensures
            r == self.spec_play_fits(sq@),
    {
        let mut placed = *self;
        let color = self.side_to_move;
        let bit = sq.bit();
        match color {
            Color::White => placed.white_migos = placed.white_migos | bit,
            Color::Black => placed.black_migos = placed.black_migos | bit,
        }
        assert(placed == self.spec_placed(sq@));
        let (formed, _) = placed.find_completed_lines(sq, color);
        self.score(color) as u32 + formed as u32 <= 255
    }

    /// Play a move, returning the new state and number of yugos formed.
    pub fn play(&self, mv: Mv) -> (r: Result<(State, u8), PlayError>)
        requires
            self.spec_legal(mv.sq@) ==> self.spec_play_fits(mv.sq@),
        ensures
            !self.spec_is_empty(mv.sq@) ==> r == Err::<(State, u8), PlayError>(PlayError::Occupied),
            self.spec_is_empty(mv.sq@) && !self.spec_legal(mv.sq@) ==> r == Err::<
                (State, u8),
                PlayError,
            >(PlayError::LineTooLong),
            self.spec_legal(mv.sq@) ==> r == Ok::<(State, u8), PlayError>(self.spec_play(mv.sq@)),
    {
        if !self.is_empty(mv.sq) {
            return Err(PlayError::Occupied);
        }
        if self.would_create_line_over_4(mv.sq, self.side_to_move) {
            return Err(PlayError::LineTooLong);
        }
        Ok(self.play_unchecked(mv))
    }

    /// Whether `color` has four yugos in a line.
    fn has_yugo_line_of_4(&self, color: Color) -> (r: bool)
        ensures
            r == has_line4(self.spec_yugos(color)),
    {
        let yugos = self.yugos(color);
        let all = Sq::all();
        let mut i: usize = 0;
        while i < 64
            invariant
                i <= 64,
                yugos == self.spec_yugos(color),
                all@.len() == 64,
                forall|k: int| 0 <= k < 64 ==> (#[trigger] all@[k])@ == k,
                forall|k: int, e: int|
                    0 <= k < i && 0 <= e < 4 ==> !(is_set(yugos, k) && #[trigger] line_len(
                        yugos,
                        k,
                        e,
                    ) >= 4),
            decreases 64 - i,
        {
            let sq = all[i];
            let b = sq.bit();
            if yugos & b != 0 {
                let mut d: usize = 0;
                while d < 4
                    invariant
                        d <= 4,
                        i < 64,
                        sq@ == i,
                        yugos == self.spec_yugos(color),
                        is_set(yugos, i as int),
                        forall|e: int| 0 <= e < d ==> #[trigger] line_len(yugos, i as int, e) < 4,
                    decreases 4 - d,
                {
                    let (dc, dr) = direction(d);
                    let behind = self.count_in_direction(sq, -dc, -dr, yugos);
                    let ahead = self.count_in_direction(sq, dc, dr, yugos);
                    if 1 + behind + ahead >= 4 {
                        assert(is_set(yugos, i as int) && line_len(yugos, i as int, d as int) >= 4);
                        return true;
                    }
                    d += 1;
                }
            }
            i += 1;
        }
        false
    }

    /// Compute the game outcome.
    pub fn outcome(&self) -> (r: Option<Outcome>)
        ensures
            r == self.spec_outcome(),
    {
        if self.has_yugo_line_of_4(Color::White) {
            return Some(Outcome::Igo(Color::White));
        }
        if self.has_yugo_line_of_4(Color::Black) {
            return Some(Outcome::Igo(Color::Black));
        }
        if !self.has_legal_moves() {
            let ws = self.white_score;
            let bs = self.black_score;
            return Some(
                Outcome::Wego(
                    if ws > bs {
                        WegoResult::Win(Color::White)
                    } else if bs > ws {
                        WegoResult::Win(Color::Black)
                    } else {
                        WegoResult::Draw
                    },
                ),
            );
        }
        None
    }
}

/// On the empty board, every square below `n` is listed.
proof fn lemma_all_legal_upto(n: int)
    requires
        0 <= n <= 64,
    ensures
        State::spec_new().spec_legal_upto(n).len() == n,
    decreases n,
{
    if n > 0 {
        lemma_all_legal_upto(n - 1);
        State::lemma_new_open();
        assert(State::spec_new().spec_legal(n - 1));
    }
}

} // verus!

verus! {

/// Bitboards read so far: white migos, black migos, white yugos, black yugos.
pub type Boards = (u64, u64, u64, u64);

/// Reads one board row of a position string onto `acc`: the columns consumed and the boards,
/// or `Err(None)` when the row runs past eight columns, `Err(Some(c))` on a character `c`
/// that is neither a piece nor a digit from 1 to 8.
pub open spec fn fen_row(cs: Seq<char>, rank: int, acc: Boards) -> Result<(int, Boards), Option<char>>
    decreases cs.len(),
{
    if cs.len() == 0 {
        Ok((0, acc))
    } else {
        match fen_row(cs.drop_last(), rank, acc) {
            Err(e) => Err(e),
            Ok((col, a)) => {
                let ch = cs.last();
                let b = bit(col + 8 * rank);
                if col >= 8 {
                    Err(None)
                } else if '1' <= ch <= '8' {
                    Ok((col + (ch as int - 48), a))
                } else if ch == 'w' {
                    Ok((col + 1, (a.0 | b, a.1, a.2, a.3)))
                } else if ch == 'W' {
                    Ok((col + 1, (a.0, a.1, a.2 | b, a.3)))
                } else if ch == 'b' {
                    Ok((col + 1, (a.0, a.1 | b, a.2, a.3)))
                } else if ch == 'B' {
                    Ok((col + 1, (a.0, a.1, a.2, a.3 | b)))
                } else {
                    Err(Some(ch))
                }
            },
        }
    }
}

/// Reads the first `n` rows (top to bottom), or the message of the first malformed row.
pub open spec fn fen_rows(rows: Seq<Seq<char>>, n: int) -> Result<Boards, Seq<char>>
    decreases n,
{
    if n <= 0 {
        Ok((0u64, 0u64, 0u64, 0u64))
    } else {
        match fen_rows(rows, n - 1) {
            Err(m) => Err(m),
            Ok(acc) => match fen_row(rows[n - 1], 7 - (n - 1), acc) {
                Err(None) => Err("row "@ + decimal(n as nat) + " too long"@),
                Err(Some(ch)) => Err("invalid char: "@ + seq![ch]),
                Ok((col, a)) => if col != 8 {
                    Err(
                        "row "@ + decimal(n as nat) + " incomplete: only "@ + decimal(col as nat)
                            + " cols"@,
                    )
                } else {
                    Ok(a)
                },
            },
        }
    }
}

/// The state that a position string `<board> <side> <white_score> <black_score>` describes.
pub open spec fn spec_parse_state(cs: Seq<char>) -> Result<State, ParseStateErrorView> {
    let parts = split_ws(cs);
    if parts.len() != 4 {
        Err(ParseStateErrorView::BadFormat)
    } else {
        let rows = split_on(parts[0], '/');
        if rows.len() != 8 {
            Err(ParseStateErrorView::Board("expected 8 rows"@))
        } else {
            match fen_rows(rows, 8) {
                Err(m) => Err(ParseStateErrorView::Board(m)),
                Ok(b) => {
                    if parts[1] != seq!['w'] && parts[1] != seq!['b'] {
                        Err(ParseStateErrorView::BadSide)
                    } else {
                        let side = if parts[1] == seq!['w'] {
                            Color::White
                        } else {
                            Color::Black
                        };
                        match spec_parse_u8(parts[2]) {
                            None => Err(ParseStateErrorView::BadScore(parts[2])),
                            Some(ws) => match spec_parse_u8(parts[3]) {
                                None => Err(ParseStateErrorView::BadScore(parts[3])),
                                Some(bs) => Ok(State::spec_make(b.0, b.1, b.2, b.3, ws, bs, side)),
                            },
                        }
                    }
                },
            }
        }
    }
}

proof fn lemma_fen_row_err(cs: Seq<char>, k: int, rank: int, acc: Boards)
    requires
        0 <= k <= cs.len(),
        fen_row(cs.take(k), rank, acc) is Err,
    ensures
        fen_row(cs, rank, acc) == fen_row(cs.take(k), rank, acc),
    decreases cs.len(),
{
    if k == cs.len() {
        assert(cs.take(k) =~= cs);
    } else {
        assert(cs.drop_last().take(k) =~= cs.take(k));
        lemma_fen_row_err(cs.drop_last(), k, rank, acc);
    }
}

proof fn lemma_fen_rows_err(rows: Seq<Seq<char>>, n: int, m: int)
    requires
        0 <= n <= m,
        fen_rows(rows, n) is Err,
    ensures
        fen_rows(rows, m) == fen_rows(rows, n),
    decreases m,
{
    if m > n {
        lemma_fen_rows_err(rows, n, m - 1);
    }
}

/// The error message for a row that runs past eight columns.
fn row_too_long(n: usize) -> (r: String)
    ensures
        r@ == "row "@ + decimal(n as nat) + " too long"@,
{
    let mut m = "row ".to_owned();
    push_decimal(&mut m, n as u64);
    push_str(&mut m, " too long");
    m
}

/// Parse a position string.
///
/// Format: `<board> <side> <white_score> <black_score>`
/// - Board: rows separated by `/`, top to bottom (row 8 first)
/// - Pieces: `w` = white migo, `W` = white yugo, `b` = black migo, `B` = black yugo
/// - Empty squares: digit 1-8 for run length
/// - Side: `w` for white, `b` for black
pub fn parse_state(s: &str) -> (r: Result<State, ParseStateError>)
    ensures
        match r {
            Ok(st) => spec_parse_state(s@) == Ok::<State, ParseStateErrorView>(st),
            Err(e) => spec_parse_state(s@) == Err::<State, ParseStateErrorView>(e@),
        },
{
    let cs = chars_of(s);
    let parts = split_whitespace(&cs);
    if parts.len() != 4 {
        return Err(ParseStateError::BadFormat);
    }
    let ghost pv = parts.deep_view();
    assert(parts@[0]@ =~= pv[0]);
    assert(parts@[1]@ =~= pv[1]);
    assert(parts@[2]@ =~= pv[2]);
    assert(parts@[3]@ =~= pv[3]);
    let rows = split_char(&parts[0], '/');
    if rows.len() != 8 {
        return Err(ParseStateError::Board("expected 8 rows".to_owned()));
    }
    let ghost rv = rows.deep_view();
    let mut acc: Boards = (0, 0, 0, 0);
    let mut row_idx: usize = 0;
    while row_idx < 8
        invariant
            row_idx <= 8,
            rows.len() == 8,
            rv == rows.deep_view(),
            pv.len() == 4,
            pv == split_ws(s@),
            rv == split_on(pv[0], '/'),
            fen_rows(rv, row_idx as int) == Ok::<Boards, Seq<char>>(acc),
        decreases 8 - row_idx,
    {
        let row = &rows[row_idx];
        assert(row@ =~= rv[row_idx as int]);
        let rank: u8 = 7 - row_idx as u8;
        let mut col: u8 = 0;
        let mut a: Boards = acc;
        let mut k: usize = 0;
        while k < row.len()
            invariant
                k <= row.len(),
                row_idx < 8,
                rank == 7 - row_idx,
                rows.len() == 8,
                rv == rows.deep_view(),
                row@ == rv[row_idx as int],
                pv.len() == 4,
                pv == split_ws(s@),
                rv == split_on(pv[0], '/'),
                fen_rows(rv, row_idx as int) == Ok::<Boards, Seq<char>>(acc),
                rank < 8,
                col <= 15,
                fen_row(row@.take(k as int), rank as int, acc) == Ok::<(int, Boards), Option<char>>(
                    (col as int, a),
                ),
            decreases row.len() - k,
        {
            assert(row@.take(k + 1).drop_last() =~= row@.take(k as int));
            assert(row@.take(k + 1).last() == row@[k as int]);
            if col >= 8 {
                proof {
                    lemma_fen_row_err(row@, k + 1, rank as int, acc);
                    assert(row@.take(row@.len() as int) =~= row@);
                    lemma_fen_rows_err(rv, row_idx + 1, 8);
                }
                return Err(ParseStateError::Board(row_too_long(row_idx + 1)));
            }
            let ch = row[k];
            if '1' <= ch && ch <= '8' {
                col = col + ((ch as u32) - 48) as u8;
            } else if ch == 'w' || ch == 'W' || ch == 'b' || ch == 'B' {
                let sq = Sq::from_col_row(col, rank).unwrap();
                let b = sq.bit();
                if ch == 'w' {
                    a = (a.0 | b, a.1, a.2, a.3);
                } else if ch == 'W' {
                    a = (a.0, a.1, a.2 | b, a.3);
                } else if ch == 'b' {
                    a = (a.0, a.1 | b, a.2, a.3);
                } else {
                    a = (a.0, a.1, a.2, a.3 | b);
                }
                col += 1;
            } else {
                proof {
                    lemma_fen_row_err(row@, k + 1, rank as int, acc);
                    assert(row@.take(row@.len() as int) =~= row@);
                    lemma_fen_rows_err(rv, row_idx + 1, 8);
                }
                let mut m = "invalid char: ".to_owned();
                push_char(&mut m, ch);
                assert(m@ =~= "invalid char: "@ + seq![ch]);
                return Err(ParseStateError::Board(m));
            }
            k += 1;
        }
        assert(row@.take(row@.len() as int) =~= row@);
        if col != 8 {
            proof {
                lemma_fen_rows_err(rv, row_idx + 1, 8);
            }
            let mut m = "row ".to_owned();
            push_decimal(&mut m, (row_idx + 1) as u64);
            push_str(&mut m, " incomplete: only ");
            push_decimal(&mut m, col as u64);
            push_str(&mut m, " cols");
            return Err(ParseStateError::Board(m));
        }
        acc = a;
        row_idx += 1;
    }
    let side = if parts[1].len() == 1 && parts[1][0] == 'w' {
        assert(pv[1] =~= seq!['w']);
        Color::White
    } else if parts[1].len() == 1 && parts[1][0] == 'b' {
        assert(pv[1] =~= seq!['b']);
        Color::Black
    } else {
        assert(pv[1] != seq!['w'] && pv[1] != seq!['b']) by {
            if pv[1] == seq!['w'] || pv[1] == seq!['b'] {
                assert(pv[1].len() == 1);
            }
        }
        return Err(ParseStateError::BadSide);
    };
    let white_score = match parse_u8(&parts[2]) {
        Some(v) => v,
        None => return Err(ParseStateError::BadScore(string_of(&parts[2]))),
    };
    let black_score = match parse_u8(&parts[3]) {
        Some(v) => v,
        None => return Err(ParseStateError::BadScore(string_of(&parts[3]))),
    };
    Ok(
        State {
            white_migos: acc.0,
            black_migos: acc.1,
            white_yugos: acc.2,
            black_yugos: acc.3,
            white_score,
            black_score,
            side_to_move: side,
        },
    )
}

} // verus!

verus! {

/// The letter of a piece in a position string.
pub open spec fn piece_char(p: Piece) -> char {
    match (p.kind, p.color) {
        (PieceKind::Migo, Color::White) => 'w',
        (PieceKind::Migo, Color::Black) => 'b',
        (PieceKind::Yugo, Color::White) => 'W',
        (PieceKind::Yugo, Color::Black) => 'B',
    }
}

/// The text of columns `0..n` of a row, and the number of empty squares not yet written.
pub open spec fn fmt_row(s: State, rank: int, n: int) -> (Seq<char>, int)
    decreases n,
{
    if n <= 0 {
        (seq![], 0)
    } else {
        let (t, e) = fmt_row(s, rank, n - 1);
        match s.spec_at((n - 1) + 8 * rank) {
            Some(p) => (
                if e > 0 {
                    t.push(digit_char(e))
                } else {
                    t
                }.push(piece_char(p)),
                0,
            ),
            None => (t, e + 1),
        }
    }
}

/// The text of one row.
pub open spec fn row_text(s: State, rank: int) -> Seq<char> {
    let (t, e) = fmt_row(s, rank, 8);
    if e > 0 {
        t.push(digit_char(e))
    } else {
        t
    }
}

/// The first `k` rows from the top, joined by `/`.
pub open spec fn board_text(s: State, k: int) -> Seq<char>
    decreases k,
{
    if k <= 0 {
        seq![]
    } else if k == 1 {
        row_text(s, 7)
    } else {
        board_text(s, k - 1) + seq!['/'] + row_text(s, 7 - (k - 1))
    }
}

/// The position string of a state.
pub open spec fn spec_format_state(s: State) -> Seq<char> {
    let side = match s.spec_side() {
        Color::White => 'w',
        Color::Black => 'b',
    };
    board_text(s, 8) + seq![' ', side, ' '] + decimal(s.spec_score(Color::White) as nat) + seq![' ']
        + decimal(s.spec_score(Color::Black) as nat)
}

fn push_piece(s: &mut String, p: Piece)
    ensures
        final(s)@ == old(s)@.push(piece_char(p)),
{
    let c = match (p.kind, p.color) {
        (PieceKind::Migo, Color::White) => 'w',
        (PieceKind::Migo, Color::Black) => 'b',
        (PieceKind::Yugo, Color::White) => 'W',
        (PieceKind::Yugo, Color::Black) => 'B',
    };
    push_char(s, c);
}

/// Format a state to a position string.
pub fn format_state(state: &State) -> (r: String)
    ensures
        r@ == spec_format_state(*state),
{
    let mut board = String::new();
    let mut k: u8 = 0;
    while k < 8
        invariant
            k <= 8,
            board@ == board_text(*state, k as int),
        decreases 8 - k,
    {
        let rank: u8 = 7 - k;
        if k > 0 {
            push_char(&mut board, '/');
        }
        let ghost before = board@;
        let mut row = String::new();
        let mut empty_count: u8 = 0;
        let mut col: u8 = 0;
        while col < 8
            invariant
                col <= 8,
                rank < 8,
                empty_count <= col,
                (row@, empty_count as int) == fmt_row(*state, rank as int, col as int),
            decreases 8 - col,
        {
            let sq = Sq::from_col_row(col, rank).unwrap();
            if let Some(piece) = state.at(sq) {
                if empty_count > 0 {
                    push_char(&mut row, (48u8 + empty_count) as char);
                    empty_count = 0;
                }
                push_piece(&mut row, piece);
            } else {
                empty_count += 1;
            }
            col += 1;
        }
        if empty_count > 0 {
            push_char(&mut row, (48u8 + empty_count) as char);
        }
        assert(row@ == row_text(*state, rank as int));
        push_chars_of(&mut board, &row);
        proof {
            if k == 0 {
                assert(board@ =~= board_text(*state, 1));
            } else {
                assert(board@ =~= board_text(*state, k + 1));
            }
        }
        k += 1;
    }
    let mut out = board;
    push_char(&mut out, ' ');
    let side = match state.side_to_move {
        Color::White => 'w',
        Color::Black => 'b',
    };
    push_char(&mut out, side);
    push_char(&mut out, ' ');
    push_decimal(&mut out, state.white_score as u64);
    push_char(&mut out, ' ');
    push_decimal(&mut out, state.black_score as u64);
    assert(out@ =~= spec_format_state(*state));
    out
}

/// Appends the characters of a `String`.
fn push_chars_of(s: &mut String, t: &String)
    ensures
        final(s)@ == old(s)@ + t@,
{
    push_str(s, t.as_str());
}

} // verus!

verus! {

/// The characters a board row is written with: a run length from 1 to 8, or a piece letter.
pub open spec fn fen_char(c: char) -> bool {
    ||| '1' <= c <= '8'
    ||| c == 'w'
    ||| c == 'W'
    ||| c == 'b'
    ||| c == 'B'
}

/// The boards `acc` with piece `p` added on square `i`.
pub open spec fn put_piece(a: Boards, p: Piece, i: int) -> Boards {
    let b = bit(i);
    match (p.kind, p.color) {
        (PieceKind::Migo, Color::White) => (a.0 | b, a.1, a.2, a.3),
        (PieceKind::Migo, Color::Black) => (a.0, a.1 | b, a.2, a.3),
        (PieceKind::Yugo, Color::White) => (a.0, a.1, a.2 | b, a.3),
        (PieceKind::Yugo, Color::Black) => (a.0, a.1, a.2, a.3 | b),
    }
}

/// The boards `acc` with the pieces of `s` on columns `0..n` of row `rank` added.
pub open spec fn row_boards(s: State, rank: int, n: int, acc: Boards) -> Boards
    decreases n,
{
    if n <= 0 {
        acc
    } else {
        let a = row_boards(s, rank, n - 1, acc);
        match s.spec_at((n - 1) + 8 * rank) {
            Some(p) => put_piece(a, p, (n - 1) + 8 * rank),
            None => a,
        }
    }
}

/// The boards holding the pieces of the top `k` rows of `s`.
pub open spec fn boards_upto(s: State, k: int) -> Boards
    decreases k,
{
    if k <= 0 {
        (0u64, 0u64, 0u64, 0u64)
    } else {
        row_boards(s, 7 - (k - 1), 8, boards_upto(s, k - 1))
    }
}

proof fn lemma_fmt_row_chars(s: State, rank: int, n: int)
    requires
        0 <= n <= 8,
    ensures
        0 <= fmt_row(s, rank, n).1 <= n,
        forall|j: int|
            0 <= j < fmt_row(s, rank, n).0.len() ==> fen_char(#[trigger] fmt_row(s, rank, n).0[j]),
        n > 0 ==> fmt_row(s, rank, n).0.len() > 0 || fmt_row(s, rank, n).1 > 0,
    decreases n,
{
    if n > 0 {
        lemma_fmt_row_chars(s, rank, n - 1);
        let (t, e) = fmt_row(s, rank, n - 1);
        if let Some(p) = s.spec_at((n - 1) + 8 * rank) {
            let td = if e > 0 {
                t.push(digit_char(e))
            } else {
                t
            };
            assert(forall|j: int| 0 <= j < td.len() ==> fen_char(#[trigger] td[j]));
            let t2 = td.push(piece_char(p));
            assert(forall|j: int| 0 <= j < t2.len() ==> fen_char(#[trigger] t2[j]));
        }
    }
}

/// A row's text is a nonempty run of row characters.
proof fn lemma_row_text_chars(s: State, rank: int)
    ensures
        row_text(s, rank).len() > 0,
        forall|j: int| 0 <= j < row_text(s, rank).len() ==> fen_char(#[trigger] row_text(s, rank)[j]),
{
    lemma_fmt_row_chars(s, rank, 8);
    let (t, e) = fmt_row(s, rank, 8);
    if e > 0 {
        let r = t.push(digit_char(e));
        assert(forall|j: int| 0 <= j < r.len() ==> fen_char(#[trigger] r[j]));
    }
}

proof fn lemma_fen_row_fmt(s: State, rank: int, n: int, acc: Boards)
    requires
        0 <= n <= 8,
        0 <= rank < 8,
    ensures
        fen_row(fmt_row(s, rank, n).0, rank, acc) == Ok::<(int, Boards), Option<char>>(
            (n - fmt_row(s, rank, n).1, row_boards(s, rank, n, acc)),
        ),
    decreases n,
{
    if n > 0 {
        lemma_fen_row_fmt(s, rank, n - 1, acc);
        lemma_fmt_row_chars(s, rank, n - 1);
        let (t, e) = fmt_row(s, rank, n - 1);
        if let Some(p) = s.spec_at((n - 1) + 8 * rank) {
            if e > 0 {
                let td = t.push(digit_char(e));
                assert(td.drop_last() =~= t);
                assert((digit_char(e) as int) == e + 48);
                assert(fen_row(td, rank, acc) == Ok::<(int, Boards), Option<char>>(
                    (n - 1, row_boards(s, rank, n - 1, acc)),
                ));
                let t2 = td.push(piece_char(p));
                assert(t2.drop_last() =~= td);
            } else {
                let t2 = t.push(piece_char(p));
                assert(t2.drop_last() =~= t);
            }
        }
    }
}

/// Reading a row's text adds that row's pieces, across all eight columns.
proof fn lemma_fen_row_text(s: State, rank: int, acc: Boards)
    requires
        0 <= rank < 8,
    ensures
        fen_row(row_text(s, rank), rank, acc) == Ok::<(int, Boards), Option<char>>(
            (8, row_boards(s, rank, 8, acc)),
        ),
{
    lemma_fen_row_fmt(s, rank, 8, acc);
    lemma_fmt_row_chars(s, rank, 8);
    let (t, e) = fmt_row(s, rank, 8);
    if e > 0 {
        let r = t.push(digit_char(e));
        assert(r.drop_last() =~= t);
        assert((digit_char(e) as int) == e + 48);
    }
}

proof fn lemma_fen_rows_fmt(s: State, rows: Seq<Seq<char>>, k: int)
    requires
        0 <= k <= 8,
        rows.len() >= k,
        forall|j: int| 0 <= j < k ==> #[trigger] rows[j] == row_text(s, 7 - j),
    ensures
        fen_rows(rows, k) == Ok::<Boards, Seq<char>>(boards_upto(s, k)),
    decreases k,
{
    if k > 0 {
        lemma_fen_rows_fmt(s, rows, k - 1);
        lemma_fen_row_text(s, 7 - (k - 1), boards_upto(s, k - 1));
        assert(rows[k - 1] == row_text(s, 7 - (k - 1)));
    }
}

/// The board text splits at `/` into its rows, top first.
proof fn lemma_board_rows(s: State, k: int)
    requires
        1 <= k <= 8,
    ensures
        split_on(board_text(s, k), '/') == Seq::new(k as nat, |j: int| row_text(s, 7 - j)),
    decreases k,
{
    let row = row_text(s, 7 - (k - 1));
    lemma_row_text_chars(s, 7 - (k - 1));
    assert(forall|j: int| 0 <= j < row.len() ==> #[trigger] row[j] != '/') by {
        assert(forall|j: int| 0 <= j < row.len() ==> fen_char(#[trigger] row[j]));
    }
    if k == 1 {
        lemma_split_on_extend(seq![], row, '/');
        assert(Seq::<char>::empty() + row =~= row);
        assert(split_on(Seq::<char>::empty(), '/') == seq![Seq::<char>::empty()]);
        assert(split_on(board_text(s, 1), '/') =~= Seq::new(1, |j: int| row_text(s, 7 - j)));
    } else {
        lemma_board_rows(s, k - 1);
        let b = board_text(s, k - 1);
        lemma_split_on_sep(b, '/');
        lemma_split_on_extend(b.push('/'), row, '/');
        assert(b + seq!['/'] + row =~= b.push('/') + row);
        assert(Seq::<char>::empty() + row =~= row);
        assert(split_on(board_text(s, k), '/') =~= Seq::new(k as nat, |j: int| row_text(s, 7 - j)));
    }
}

/// The board text is a nonempty run of row characters and `/`.
proof fn lemma_board_chars(s: State, k: int)
    requires
        1 <= k <= 8,
    ensures
        board_text(s, k).len() > 0,
        forall|j: int|
            0 <= j < board_text(s, k).len() ==> fen_char(#[trigger] board_text(s, k)[j])
                || board_text(s, k)[j] == '/',
    decreases k,
{
    lemma_row_text_chars(s, 7 - (k - 1));
    if k > 1 {
        lemma_board_chars(s, k - 1);
        let b = board_text(s, k - 1);
        let row = row_text(s, 7 - (k - 1));
        let t = b + seq!['/'] + row;
        assert forall|j: int| 0 <= j < t.len() implies fen_char(#[trigger] t[j]) || t[j] == '/' by {
            if j < b.len() {
                assert(t[j] == b[j]);
            } else if j > b.len() {
                assert(t[j] == row[j - b.len() - 1]);
            }
        }
    }
}

proof fn lemma_row_boards_bits(s: State, rank: int, n: int, acc: Boards, i: int)
    requires
        0 <= rank < 8,
        0 <= n <= 8,
        0 <= i < 64,
    ensures
        ({
            let b = row_boards(s, rank, n, acc);
            let here = 8 * rank <= i < 8 * rank + n;
            &&& is_set(b.0, i) == (is_set(acc.0, i) || (here && s.spec_at(i) == Some(
                Piece { kind: PieceKind::Migo, color: Color::White },
            )))
            &&& is_set(b.1, i) == (is_set(acc.1, i) || (here && s.spec_at(i) == Some(
                Piece { kind: PieceKind::Migo, color: Color::Black },
            )))
            &&& is_set(b.2, i) == (is_set(acc.2, i) || (here && s.spec_at(i) == Some(
                Piece { kind: PieceKind::Yugo, color: Color::White },
            )))
            &&& is_set(b.3, i) == (is_set(acc.3, i) || (here && s.spec_at(i) == Some(
                Piece { kind: PieceKind::Yugo, color: Color::Black },
            )))
        }),
    decreases n,
{
    if n > 0 {
        lemma_row_boards_bits(s, rank, n - 1, acc, i);
        let j = (n - 1) + 8 * rank;
        assert(is_set(bit(j), i) == (i == j));
    }
}

proof fn lemma_boards_upto_bits(s: State, k: int, i: int)
    requires
        0 <= k <= 8,
        0 <= i < 64,
    ensures
        ({
            let b = boards_upto(s, k);
            let here = 64 - 8 * k <= i;
            &&& is_set(b.0, i) == (here && s.spec_at(i) == Some(
                Piece { kind: PieceKind::Migo, color: Color::White },
            ))
            &&& is_set(b.1, i) == (here && s.spec_at(i) == Some(
                Piece { kind: PieceKind::Migo, color: Color::Black },
            ))
            &&& is_set(b.2, i) == (here && s.spec_at(i) == Some(
                Piece { kind: PieceKind::Yugo, color: Color::White },
            ))
            &&& is_set(b.3, i) == (here && s.spec_at(i) == Some(
                Piece { kind: PieceKind::Yugo, color: Color::Black },
            ))
        }),
    decreases k,
{
    if k > 0 {
        lemma_boards_upto_bits(s, k - 1, i);
        lemma_row_boards_bits(s, 7 - (k - 1), 8, boards_upto(s, k - 1), i);
    }
}

/// The boards read from all eight rows are those of the state.
proof fn lemma_boards_all(s: State)
    requires
        s.wf(),
    ensures
        boards_upto(s, 8) == (
            s.spec_migos(Color::White),
            s.spec_migos(Color::Black),
            s.spec_yugos(Color::White),
            s.spec_yugos(Color::Black),
        ),
{
    let b = boards_upto(s, 8);
    assert forall|i: int| 0 <= i < 64 implies is_set(b.0, i) == is_set(s.spec_migos(Color::White), i)
        && is_set(b.1, i) == is_set(s.spec_migos(Color::Black), i) && is_set(b.2, i) == is_set(
        s.spec_yugos(Color::White),
        i,
    ) && is_set(b.3, i) == is_set(s.spec_yugos(Color::Black), i) by {
        lemma_boards_upto_bits(s, 8, i);
    }
    lemma_bits_ext(b.0, s.spec_migos(Color::White));
    lemma_bits_ext(b.1, s.spec_migos(Color::Black));
    lemma_bits_ext(b.2, s.spec_yugos(Color::White));
    lemma_bits_ext(b.3, s.spec_yugos(Color::Black));
}

/// A state's position string reads back as the same state.
pub proof fn law_parse_format_state(s: State)
    requires
        s.wf(),
    ensures
        spec_parse_state(spec_format_state(s)) == Ok::<State, ParseStateErrorView>(s),
{
    let board = board_text(s, 8);
    let side = match s.spec_side() {
        Color::White => 'w',
        Color::Black => 'b',
    };
    let dw = decimal(s.spec_score(Color::White) as nat);
    let db = decimal(s.spec_score(Color::Black) as nat);
    lemma_board_chars(s, 8);
    lemma_decimal(s.spec_score(Color::White) as nat);
    lemma_decimal(s.spec_score(Color::Black) as nat);
    lemma_parse_u8_decimal(s.spec_score(Color::White) as nat);
    lemma_parse_u8_decimal(s.spec_score(Color::Black) as nat);
    assert(forall|j: int| 0 <= j < board.len() ==> !is_ws(#[trigger] board[j])) by {
        assert(forall|j: int|
            0 <= j < board.len() ==> fen_char(#[trigger] board[j]) || board[j] == '/');
    }
    assert(forall|j: int| 0 <= j < dw.len() ==> !is_ws(#[trigger] dw[j])) by {
        assert(forall|j: int| 0 <= j < dw.len() ==> is_digit(#[trigger] dw[j]));
    }
    assert(forall|j: int| 0 <= j < db.len() ==> !is_ws(#[trigger] db[j])) by {
        assert(forall|j: int| 0 <= j < db.len() ==> is_digit(#[trigger] db[j]));
    }
    let x1 = board.push(' ');
    let x2 = x1 + seq![side];
    let x3 = x2.push(' ');
    let x4 = x3 + dw;
    let x5 = x4.push(' ');
    let x6 = x5 + db;
    assert(spec_format_state(s) =~= x6);
    lemma_split_ws_append(seq![], board);
    assert(Seq::<char>::empty() + board =~= board);
    lemma_split_ws_trailing(board, ' ');
    lemma_split_ws_append(x1, seq![side]);
    lemma_split_ws_trailing(x2, ' ');
    lemma_split_ws_append(x3, dw);
    lemma_split_ws_trailing(x4, ' ');
    lemma_split_ws_append(x5, db);
    let parts = split_ws(x6);
    assert(parts =~= seq![board, seq![side], dw, db]);
    lemma_board_rows(s, 8);
    let rows = split_on(board, '/');
    lemma_fen_rows_fmt(s, rows, 8);
    lemma_boards_all(s);
    let r = State::spec_make(
        s.spec_migos(Color::White),
        s.spec_migos(Color::Black),
        s.spec_yugos(Color::White),
        s.spec_yugos(Color::Black),
        s.spec_score(Color::White),
        s.spec_score(Color::Black),
        s.spec_side(),
    );
    State::lemma_spec_make(
        s.spec_migos(Color::White),
        s.spec_migos(Color::Black),
        s.spec_yugos(Color::White),
        s.spec_yugos(Color::Black),
        s.spec_score(Color::White),
        s.spec_score(Color::Black),
        s.spec_side(),
    );
    State::lemma_ext(r, s);
}

/// The number of squares below `n` set in `m`.
pub open spec fn ones_below(m: u64, n: int) -> nat
    decreases n,
{
    if n <= 0 {
        0
    } else {
        ones_below(m, n - 1) + if is_set(m, n - 1) {
            1nat
        } else {
            0nat
        }
    }
}

/// The number of squares set in `m`.
pub open spec fn ones(m: u64) -> nat {
    ones_below(m, 64)
}

proof fn lemma_ones_zero(n: int)
    ensures
        ones_below(0, n) == 0,
    decreases n,
{
    if n > 0 {
        lemma_ones_zero(n - 1);
    }
}

proof fn lemma_ones_add(m: u64, i: int, n: int)
    requires
        0 <= i < 64,
        !is_set(m, i),
    ensures
        ones_below(m | bit(i), n) == ones_below(m, n) + if i < n {
            1nat
        } else {
            0nat
        },
    decreases n,
{
    if n > 0 {
        lemma_ones_add(m, i, n - 1);
        assert(is_set(m | bit(i), n - 1) == (is_set(m, n - 1) || n - 1 == i));
    }
}

/// Four squares of row `r` from column `c` on, all in `m`, make a line of four.
proof fn lemma_four_in_row(m: u64, r: int, c: int)
    requires
        0 <= r < 8,
        0 <= c <= 4,
        is_set(m, 8 * r + c),
        is_set(m, 8 * r + c + 1),
        is_set(m, 8 * r + c + 2),
        is_set(m, 8 * r + c + 3),
    ensures
        has_line4(m),
{
    let i = 8 * r + c + 3;
    assert(i % 8 == c + 3 && i / 8 == r);
    assert(crate::lines::run_len(m, c + 1, r, -1, 0, 6) >= 1);
    assert(crate::lines::run_len(m, c + 2, r, -1, 0, 7) >= 2);
    assert(crate::lines::run_len(m, c + 3, r, -1, 0, 8) >= 3);
    assert(line_len(m, i, 0) >= 4);
}

/// Without a line of four, a row holds at most six squares of `m`.
proof fn lemma_row_ones(m: u64, r: int)
    requires
        0 <= r < 8,
        !has_line4(m),
    ensures
        ones_below(m, 8 * r + 8) <= ones_below(m, 8 * r) + 6,
{
    if is_set(m, 8 * r) && is_set(m, 8 * r + 1) && is_set(m, 8 * r + 2) && is_set(m, 8 * r + 3) {
        lemma_four_in_row(m, r, 0);
    }
    if is_set(m, 8 * r + 4) && is_set(m, 8 * r + 5) && is_set(m, 8 * r + 6) && is_set(m, 8 * r + 7) {
        lemma_four_in_row(m, r, 4);
    }
    assert(ones_below(m, 8 * r + 1) == ones_below(m, 8 * r) + if is_set(m, 8 * r) { 1nat } else { 0nat });
    assert(ones_below(m, 8 * r + 2) == ones_below(m, 8 * r + 1) + if is_set(m, 8 * r + 1) { 1nat } else { 0nat });
    assert(ones_below(m, 8 * r + 3) == ones_below(m, 8 * r + 2) + if is_set(m, 8 * r + 2) { 1nat } else { 0nat });
    assert(ones_below(m, 8 * r + 4) == ones_below(m, 8 * r + 3) + if is_set(m, 8 * r + 3) { 1nat } else { 0nat });
    assert(ones_below(m, 8 * r + 5) == ones_below(m, 8 * r + 4) + if is_set(m, 8 * r + 4) { 1nat } else { 0nat });
    assert(ones_below(m, 8 * r + 6) == ones_below(m, 8 * r + 5) + if is_set(m, 8 * r + 5) { 1nat } else { 0nat });
    assert(ones_below(m, 8 * r + 7) == ones_below(m, 8 * r + 6) + if is_set(m, 8 * r + 6) { 1nat } else { 0nat });
    assert(ones_below(m, 8 * r + 8) == ones_below(m, 8 * r + 7) + if is_set(m, 8 * r + 7) { 1nat } else { 0nat });
}

/// Without a line of four, the first `r` rows hold at most six squares of `m` each.
proof fn lemma_rows_ones(m: u64, r: int)
    requires
        0 <= r <= 8,
        !has_line4(m),
    ensures
        ones_below(m, 8 * r) <= 6 * r,
    decreases r,
{
    if r > 0 {
        lemma_rows_ones(m, r - 1);
        lemma_row_ones(m, r - 1);
    }
}

/// Five in a line through a square, the `s0`-th of the five, make a line through it longer than
/// four.
proof fn lemma_five_over4(q: u64, c0: int, r0: int, d: int, s0: int)
    requires
        0 <= d < 4,
        0 <= s0 < 5,
        five_from(q, c0, r0, d),
    ensures
        over4(q, (c0 + s0 * dir_dc(d)) + 8 * (r0 + s0 * dir_dr(d))),
{
    let dc = dir_dc(d);
    let dr = dir_dr(d);
    let ci = c0 + s0 * dc;
    let ri = r0 + s0 * dr;
    let i = ci + 8 * ri;
    assert(cell_at(q, c0, r0, dc, dr, s0));
    assert(i % 8 == ci && i / 8 == ri);
    assert forall|t: int| 1 <= t <= s0 implies #[trigger] cell_at(q, ci, ri, -dc, -dr, t) by {
        assert(ci + t * (-dc) == c0 + (s0 - t) * dc) by (nonlinear_arith)
            requires
                ci == c0 + s0 * dc,
        ;
        assert(ri + t * (-dr) == r0 + (s0 - t) * dr) by (nonlinear_arith)
            requires
                ri == r0 + s0 * dr,
        ;
        assert(cell_at(q, c0, r0, dc, dr, s0 - t));
    }
    assert forall|t: int| 1 <= t <= 4 - s0 implies #[trigger] cell_at(q, ci, ri, dc, dr, t) by {
        assert(ci + t * dc == c0 + (s0 + t) * dc) by (nonlinear_arith)
            requires
                ci == c0 + s0 * dc,
        ;
        assert(ri + t * dr == r0 + (s0 + t) * dr) by (nonlinear_arith)
            requires
                ri == r0 + s0 * dr,
        ;
        assert(cell_at(q, c0, r0, dc, dr, s0 + t));
    }
    crate::lines::lemma_run_len_from_cells(q, ci, ri, -dc, -dr, 8, s0);
    crate::lines::lemma_run_len_from_cells(q, ci, ri, dc, dr, 8, 4 - s0);
    assert(line_len(q, i, d) > 4);
}

} // verus!
