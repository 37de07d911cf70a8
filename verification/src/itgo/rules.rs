//! How Itgo's bitboard patterns agree with the rules of the game as `lines` states them.

use vstd::prelude::*;

use crate::bits::{bit, group_bits, is_set};
use crate::itgo::bitboard::{pat_four, spec_has_line};
use crate::itgo::state::{
    bits_where, has_bits, overline_at, spec_apply, spec_gen_mv, spec_occ, too_long_at, Frame, MakeData,
};
use crate::itgo::lanes::{cell, in_line, lane_dc, lane_dr, lane_step};
use crate::lines::{cell_at, dir_dc, dir_dr, line_len, on_board, over4, run_len};

verus! {

broadcast use group_bits;

/// The square `s` steps along lane `l` sees the squares `s + t` steps from `j`.
proof fn lemma_cell_shift(m: u64, j: int, l: int, s: int, t: int)
    requires
        0 <= j < 64,
        0 <= l < 4,
        in_line(j, l, s),
    ensures
        cell(m, j + s * lane_step(l), l, t) == cell(m, j, l, s + t),
{
    let c = j % 8;
    let r = j / 8;
    let dc = lane_dc(l);
    let dr = lane_dr(l);
    let c2 = c + s * dc;
    let r2 = r + s * dr;
    let j2 = j + s * lane_step(l);
    assert(j2 == c2 + 8 * r2) by (nonlinear_arith)
        requires
            c2 == c + s * dc,
            r2 == r + s * dr,
            lane_step(l) == dc + 8 * dr,
            j == c + 8 * r,
            j2 == j + s * lane_step(l),
    ;
    assert(on_board(c2, r2));
    assert(j2 % 8 == c2 && j2 / 8 == r2);
    assert(c2 + t * dc == c + (s + t) * dc) by (nonlinear_arith)
        requires
            c2 == c + s * dc,
    ;
    assert(r2 + t * dr == r + (s + t) * dr) by (nonlinear_arith)
        requires
            r2 == r + s * dr,
    ;
    assert(j2 + t * lane_step(l) == j + (s + t) * lane_step(l)) by (nonlinear_arith)
        requires
            j2 == j + s * lane_step(l),
    ;
}

/// A square `t != 0` steps from `j` along lane `l` is in `m` exactly when it is in `m` with `j`
/// added, seen from `j`'s column and row.
proof fn lemma_cell_link(m: u64, j: int, l: int, t: int)
    requires
        0 <= j < 64,
        0 <= l < 4,
        t != 0,
    ensures
        cell(m, j, l, t) == cell_at(m | bit(j), j % 8, j / 8, lane_dc(l), lane_dr(l), t),
        cell(m, j, l, -t) == cell_at(m | bit(j), j % 8, j / 8, -lane_dc(l), -lane_dr(l), t),
{
    let c = j % 8;
    let r = j / 8;
    let dc = lane_dc(l);
    let dr = lane_dr(l);
    assert(j == c + 8 * r);
    assert(lane_step(l) >= 1);
    assert(j + t * lane_step(l) == (c + t * dc) + 8 * (r + t * dr)) by (nonlinear_arith)
        requires
            lane_step(l) == dc + 8 * dr,
            j == c + 8 * r,
    ;
    assert(j + (-t) * lane_step(l) == (c + t * (-dc)) + 8 * (r + t * (-dr))) by (nonlinear_arith)
        requires
            lane_step(l) == dc + 8 * dr,
            j == c + 8 * r,
    ;
    assert(c + (-t) * dc == c + t * (-dc)) by (nonlinear_arith);
    assert(r + (-t) * dr == r + t * (-dr)) by (nonlinear_arith);
    assert(t * lane_step(l) != 0) by (nonlinear_arith)
        requires
            t != 0,
            lane_step(l) >= 1,
    ;
    assert((-t) * lane_step(l) != 0) by (nonlinear_arith)
        requires
            t != 0,
            lane_step(l) >= 1,
    ;
    assert(is_set(m | bit(j), j + t * lane_step(l)) == is_set(m, j + t * lane_step(l)));
    assert(is_set(m | bit(j), j + (-t) * lane_step(l)) == is_set(m, j + (-t) * lane_step(l)));
}

/// A run from `(c, r)` reaches `k` squares, for `k` up to four, exactly when the first `k`
/// squares along it are on the board and in `p`.
proof fn lemma_run_count(p: u64, c: int, r: int, dc: int, dr: int)
    ensures
        (run_len(p, c, r, dc, dr, 8) >= 1) == cell_at(p, c, r, dc, dr, 1),
        (run_len(p, c, r, dc, dr, 8) >= 2) == (cell_at(p, c, r, dc, dr, 1) && cell_at(p, c, r, dc, dr, 2)),
        (run_len(p, c, r, dc, dr, 8) >= 3) == (cell_at(p, c, r, dc, dr, 1) && cell_at(p, c, r, dc, dr, 2)
            && cell_at(p, c, r, dc, dr, 3)),
        (run_len(p, c, r, dc, dr, 8) >= 4) == (cell_at(p, c, r, dc, dr, 1) && cell_at(p, c, r, dc, dr, 2)
            && cell_at(p, c, r, dc, dr, 3) && cell_at(p, c, r, dc, dr, 4)),
{
    let a = run_len(p, c, r, dc, dr, 8);
    let k = if a > 4 {
        4
    } else {
        a as int
    };
    if k >= 1 {
        crate::lines::lemma_run_len_cells(p, c, r, dc, dr, 8, 1);
    }
    if k >= 2 {
        crate::lines::lemma_run_len_cells(p, c, r, dc, dr, 8, 2);
    }
    if k >= 3 {
        crate::lines::lemma_run_len_cells(p, c, r, dc, dr, 8, 3);
    }
    if k >= 4 {
        crate::lines::lemma_run_len_cells(p, c, r, dc, dr, 8, 4);
    }
    let mut n: int = 0;
    if cell_at(p, c, r, dc, dr, 1) {
        n = 1;
        if cell_at(p, c, r, dc, dr, 2) {
            n = 2;
            if cell_at(p, c, r, dc, dr, 3) {
                n = 3;
                if cell_at(p, c, r, dc, dr, 4) {
                    n = 4;
                }
            }
        }
    }
    assert forall|t: int| 1 <= t <= n implies #[trigger] cell_at(p, c, r, dc, dr, t) by {
        assert(t == 1 || t == 2 || t == 3 || t == 4);
    }
    crate::lines::lemma_run_len_from_cells(p, c, r, dc, dr, 8, n);
}

/// Along lane `l`, placing on the empty square `j` overlines exactly when the squares of `m`
/// next to `j` on both sides number four or more, `m` holding no four in a row.
proof fn lemma_overline_lane(m: u64, j: int, l: int)
    requires
        0 <= j < 64,
        0 <= l < 4,
        !is_set(m, j),
        !spec_has_line(m),
    ensures
        overline_at(m, j, l) == (run_len(m | bit(j), j % 8, j / 8, lane_dc(l), lane_dr(l), 8)
            + run_len(m | bit(j), j % 8, j / 8, -lane_dc(l), -lane_dr(l), 8) >= 4),
{
    let p = m | bit(j);
    let c = j % 8;
    let r = j / 8;
    let dc = lane_dc(l);
    let dr = lane_dr(l);
    let a = run_len(p, c, r, dc, dr, 8);
    let b = run_len(p, c, r, -dc, -dr, 8);
    lemma_run_count(p, c, r, dc, dr);
    lemma_run_count(p, c, r, -dc, -dr);
    lemma_cell_link(m, j, l, 1);
    lemma_cell_link(m, j, l, 2);
    lemma_cell_link(m, j, l, 3);
    lemma_cell_link(m, j, l, 4);
    if a >= 4 {
        let j2 = j + lane_step(l);
        lemma_cell_shift(m, j, l, 1, 0);
        lemma_cell_shift(m, j, l, 1, 1);
        lemma_cell_shift(m, j, l, 1, 2);
        lemma_cell_shift(m, j, l, 1, 3);
        assert(pat_four(m, j2, l));
        assert(spec_has_line(m));
    }
    if b >= 4 {
        let j2 = j + (-4) * lane_step(l);
        lemma_cell_shift(m, j, l, -4, 0);
        lemma_cell_shift(m, j, l, -4, 1);
        lemma_cell_shift(m, j, l, -4, 2);
        lemma_cell_shift(m, j, l, -4, 3);
        assert(pat_four(m, j2, l));
        assert(spec_has_line(m));
    }
}

/// Where `m` holds no four in a row, the Itgo patterns refuse a placement on the empty square
/// `j` as too long exactly when the rules find a line of `m` with `j` added, through `j`, longer
/// than four.
pub proof fn law_too_long_rule(m: u64, j: int)
    requires
        0 <= j < 64,
        !is_set(m, j),
        !spec_has_line(m),
    ensures
        too_long_at(m, j) == over4(m | bit(j), j),
{
    lemma_overline_lane(m, j, 0);
    lemma_overline_lane(m, j, 1);
    lemma_overline_lane(m, j, 2);
    lemma_overline_lane(m, j, 3);
    assert(dir_dc(3) == -lane_dc(3) && dir_dr(3) == -lane_dr(3));
    assert(-dir_dc(3) == lane_dc(3) && -dir_dr(3) == lane_dr(3));
    assert(dir_dc(1) == lane_dc(2) && dir_dr(1) == lane_dr(2));
    assert(-dir_dc(1) == -lane_dc(2) && -dir_dr(1) == -lane_dr(2));
    assert(dir_dc(2) == lane_dc(1) && dir_dr(2) == lane_dr(1));
}

/// The bitboard of the squares up to `n` where `p` holds.
spec fn bits_upto(p: spec_fn(int) -> bool, n: int) -> u64
    decreases n,
{
    if n <= 0 {
        0
    } else {
        bits_upto(p, n - 1) | if p(n - 1) {
            bit(n - 1)
        } else {
            0u64
        }
    }
}

proof fn lemma_bits_upto(p: spec_fn(int) -> bool, n: int)
    requires
        n <= 64,
    ensures
        forall|i: int| 0 <= i < 64 ==> #[trigger] is_set(bits_upto(p, n), i) == (i < n && p(i)),
    decreases n,
{
    if n > 0 {
        lemma_bits_upto(p, n - 1);
        let y = if p(n - 1) {
            bit(n - 1)
        } else {
            0u64
        };
        assert forall|i: int| 0 <= i < 64 implies #[trigger] is_set(bits_upto(p, n), i) == (i < n
            && p(i)) by {
            assert(is_set(bits_upto(p, n), i) == (is_set(bits_upto(p, n - 1), i) || is_set(y, i)));
        }
    } else {
        assert forall|i: int| 0 <= i < 64 implies #[trigger] is_set(bits_upto(p, n), i) == (i < n
            && p(i)) by {}
    }
}

/// `bits_where(p)` holds exactly the squares where `p` holds.
proof fn lemma_bits_where_has(p: spec_fn(int) -> bool)
    ensures
        has_bits(bits_where(p), p),
{
    lemma_bits_upto(p, 64);
    assert(has_bits(bits_upto(p, 64), p));
}

/// After a move whose mover holds no four in a row, the frame's too-long squares are exactly
/// the empty squares where a placement by that side would make a line longer than four.
pub proof fn law_apply_too_long(f: Frame, d: MakeData, j: int)
    requires
        0 <= j < 64,
        !is_set(d.migo | d.yugo, j),
        !spec_has_line(d.migo | d.yugo),
    ensures
        is_set(spec_apply(f, d, true).opp_too_long, j) == over4((d.migo | d.yugo) | bit(j), j),
{
    let m = d.migo | d.yugo;
    lemma_bits_where_has(|i: int| too_long_at(m, i));
    law_too_long_rule(m, j);
}

/// The squares Itgo generates for the side to move are the legal placements of the rules: a
/// square is playable exactly when it is empty and placing there would make no line of the
/// mover's pieces longer than four (as `State::spec_legal` states for a position), when the
/// mover's frame was written by a move and its pieces hold no four in a row.
pub proof fn law_gen_mv_legal(f: Frame, d: MakeData, cur: Frame, j: int)
    requires
        0 <= j < 64,
        !spec_has_line(d.migo | d.yugo),
    ensures
        is_set(spec_gen_mv(spec_apply(f, d, true), cur).playable, j) == (!is_set(
            spec_occ(spec_apply(f, d, true), cur),
            j,
        ) && !over4((d.migo | d.yugo) | bit(j), j)),
{
    let prev = spec_apply(f, d, true);
    let m = d.migo | d.yugo;
    if !is_set(spec_occ(prev, cur), j) {
        assert(!is_set(m, j));
        law_apply_too_long(f, d, j);
    }
}

} // verus!
