//! Line detection on bitboards, four directions at once.

use vstd::prelude::*;

use crate::bits::{group_bits, is_set, lemma_bits_zero, lemma_shl, lemma_shr};
use crate::itgo::lanes::{
    and4, cell, in_line, lane, lane_dc, lane_dr, lane_shift, lane_step, lemma_masks, or4,
    reduce_or, shl4, shl_mask, shr4, shr_mask, spec_shl_mask, spec_shr_mask, splat, U64x4,
};

verus! {

broadcast use group_bits;

pub open spec fn sh(k: int, l: int) -> u64 {
    lane_shift(k, l) as u64
}

/// Squares set together with the next square along lane `l` (raw index arithmetic).
pub open spec fn lane_line2(m: u64, l: int) -> u64 {
    m & (m >> sh(1, l))
}

/// Squares set together with both neighbours along lane `l` (raw index arithmetic).
pub open spec fn lane_line3(m: u64, l: int) -> u64 {
    lane_line2(m, l) & (m << sh(1, l))
}

pub open spec fn lane_ext_three_a(m: u64, l: int) -> u64 {
    (lane_line3(m, l) >> sh(2, l)) & lane(spec_shr_mask(3), l)
}

pub open spec fn lane_ext_three_b(m: u64, l: int) -> u64 {
    (lane_line3(m, l) << sh(2, l)) & lane(spec_shl_mask(3), l)
}

pub open spec fn lane_two_one_a(m: u64, l: int) -> u64 {
    (((m << sh(1, l)) & (lane_line2(m, l) >> sh(1, l))) & lane(spec_shr_mask(2), l)) & lane(
        spec_shl_mask(1),
        l,
    )
}

pub open spec fn lane_two_one_b(m: u64, l: int) -> u64 {
    (((m >> sh(1, l)) & (lane_line2(m, l) << sh(2, l))) & lane(spec_shr_mask(1), l)) & lane(
        spec_shl_mask(2),
        l,
    )
}

/// Three squares of `m` continue from `j` forward along lane `l`.
pub open spec fn pat_ext_three_a(m: u64, j: int, l: int) -> bool {
    cell(m, j, l, 1) && cell(m, j, l, 2) && cell(m, j, l, 3)
}

/// Three squares of `m` continue from `j` backward along lane `l`.
pub open spec fn pat_ext_three_b(m: u64, j: int, l: int) -> bool {
    cell(m, j, l, -1) && cell(m, j, l, -2) && cell(m, j, l, -3)
}

/// One square of `m` behind `j` and two ahead along lane `l`.
pub open spec fn pat_two_one_a(m: u64, j: int, l: int) -> bool {
    cell(m, j, l, -1) && cell(m, j, l, 1) && cell(m, j, l, 2)
}

/// Two squares of `m` behind `j` and one ahead along lane `l`.
pub open spec fn pat_two_one_b(m: u64, j: int, l: int) -> bool {
    cell(m, j, l, -2) && cell(m, j, l, -1) && cell(m, j, l, 1)
}

/// Placing on `j` would complete four in a row with `m` along lane `l`.
pub open spec fn pat_any_line(m: u64, j: int, l: int) -> bool {
    pat_ext_three_a(m, j, l) || pat_ext_three_b(m, j, l) || pat_two_one_a(m, j, l)
        || pat_two_one_b(m, j, l)
}

/// `j` starts four squares of `m` in a row along lane `l`.
pub open spec fn pat_four(m: u64, j: int, l: int) -> bool {
    cell(m, j, l, 0) && cell(m, j, l, 1) && cell(m, j, l, 2) && cell(m, j, l, 3)
}

/// Some four squares of `m` stand in a row.
pub open spec fn spec_has_line(m: u64) -> bool {
    exists|j: int, l: int| 0 <= j < 64 && 0 <= l < 4 && pat_four(m, j, l)
}

proof fn lemma_geometry(j: int, l: int)
    requires
        0 <= j < 64,
        0 <= l < 4,
    ensures
        forall|t: int|
            -3 <= t <= 3 ==> (#[trigger] in_line(j, l, t) ==> (0 <= j + t * lane_step(l) < 64)),
        in_line(j, l, 3) ==> in_line(j, l, 1) && in_line(j, l, 2),
        in_line(j, l, -3) ==> in_line(j, l, -1) && in_line(j, l, -2),
        in_line(j, l, 2) ==> in_line(j, l, 1),
        in_line(j, l, -2) ==> in_line(j, l, -1),
        in_line(j, l, 0),
        lane_shift(1, l) == lane_step(l),
        lane_shift(2, l) == 2 * lane_step(l),
        lane_shift(3, l) == 3 * lane_step(l),
        1 <= lane_step(l) <= 9,
{
    assert forall|t: int| -3 <= t <= 3 implies (#[trigger] in_line(j, l, t) ==> (0 <= j + t
        * lane_step(l) < 64)) by {
        if in_line(j, l, t) {
            let c = j % 8 + t * lane_dc(l);
            let r = j / 8 + t * lane_dr(l);
            assert(j + t * lane_step(l) == c + 8 * r) by (nonlinear_arith)
                requires
                    c == j % 8 + t * lane_dc(l),
                    r == j / 8 + t * lane_dr(l),
                    lane_step(l) == lane_dc(l) + 8 * lane_dr(l),
                    j == j % 8 + 8 * (j / 8),
            ;
        }
    }
}

/// Bit `j` of each computed lane is the geometric pattern it stands for.
proof fn lemma_patterns(m: u64, l: int, j: int)
    requires
        0 <= l < 4,
        0 <= j < 64,
    ensures
        is_set(lane_ext_three_a(m, l), j) == pat_ext_three_a(m, j, l),
        is_set(lane_ext_three_b(m, l), j) == pat_ext_three_b(m, j, l),
        is_set(lane_two_one_a(m, l), j) == pat_two_one_a(m, j, l),
        is_set(lane_two_one_b(m, l), j) == pat_two_one_b(m, j, l),
{
    lemma_geometry(j, l);
    let s = lane_step(l);
    let s1 = sh(1, l);
    let s2 = sh(2, l);
    assert(s1 == s && s2 == 2 * s);
    lemma_masks(1, l, j);
    lemma_masks(2, l, j);
    lemma_masks(3, l, j);
    // ext_three_a
    lemma_shr(lane_line3(m, l), s2, j);
    lemma_shr(m, s1, j + 2 * s);
    lemma_shl(m, s1, j + 2 * s);
    // ext_three_b
    lemma_shl(lane_line3(m, l), s2, j);
    lemma_shr(m, s1, j - 2 * s);
    lemma_shl(m, s1, j - 2 * s);
    // two_one_a
    lemma_shl(m, s1, j);
    lemma_shr(lane_line2(m, l), s1, j);
    lemma_shr(m, s1, j + s);
    // two_one_b
    lemma_shr(m, s1, j);
    lemma_shl(lane_line2(m, l), s2, j);
    lemma_shr(m, s1, j - 2 * s);
    assert(in_line(j, l, 1) ==> 0 <= j + s < 64);
    assert(in_line(j, l, 2) ==> 0 <= j + 2 * s < 64);
    assert(in_line(j, l, 3) ==> 0 <= j + 3 * s < 64);
    assert(in_line(j, l, -1) ==> 0 <= j - s < 64);
    assert(in_line(j, l, -2) ==> 0 <= j - 2 * s < 64);
    assert(in_line(j, l, -3) ==> 0 <= j - 3 * s < 64);
}

/// Squares where a line of four (or more) with `mask` would be completed, per direction.
pub struct AlmostLines {
    /// The three next squares are in `mask`.
    pub ext_three_a: U64x4,
    /// The three previous squares are in `mask`.
    pub ext_three_b: U64x4,
    /// One previous and two next squares are in `mask`.
    pub two_one_a: U64x4,
    /// Two previous and one next square are in `mask`.
    pub two_one_b: U64x4,
    /// Any of the above.
    pub any_line: U64x4,
}

/// Bit `j` of lane `l` of each field is the pattern the field stands for.
pub open spec fn almost_at(mask: u64, r: AlmostLines, l: int, j: int) -> bool {
    &&& is_set(lane(r.ext_three_a, l), j) == pat_ext_three_a(mask, j, l)
    &&& is_set(lane(r.ext_three_b, l), j) == pat_ext_three_b(mask, j, l)
    &&& is_set(lane(r.two_one_a, l), j) == pat_two_one_a(mask, j, l)
    &&& is_set(lane(r.two_one_b, l), j) == pat_two_one_b(mask, j, l)
    &&& is_set(lane(r.any_line, l), j) == pat_any_line(mask, j, l)
}

/// For each direction, the squares that complete a line of four with `mask`.
pub fn almost_lines(mask: u64) -> (r: AlmostLines)
    ensures
        forall|l: int, j: int| 0 <= l < 4 && 0 <= j < 64 ==> #[trigger] almost_at(mask, r, l, j),
        forall|l: int| 0 <= l < 4 ==> #[trigger] lane(r.ext_three_a, l) == lane_ext_three_a(mask, l),
        forall|l: int| 0 <= l < 4 ==> #[trigger] lane(r.ext_three_b, l) == lane_ext_three_b(mask, l),
        forall|l: int| 0 <= l < 4 ==> #[trigger] lane(r.two_one_a, l) == lane_two_one_a(mask, l),
        forall|l: int| 0 <= l < 4 ==> #[trigger] lane(r.two_one_b, l) == lane_two_one_b(mask, l),
{
    let masks = splat(mask);
    let line_2 = and4(masks, shr4(masks, 1));
    let line_3 = and4(line_2, shl4(masks, 1));
    let ext_three_a = and4(shr4(line_3, 2), shr_mask(3));
    let ext_three_b = and4(shl4(line_3, 2), shl_mask(3));
    let two_one_a = and4(and4(and4(shl4(masks, 1), shr4(line_2, 1)), shr_mask(2)), shl_mask(1));
    let two_one_b = and4(and4(and4(shr4(masks, 1), shl4(line_2, 2)), shr_mask(1)), shl_mask(2));
    let makes_line = or4(or4(or4(ext_three_a, ext_three_b), two_one_a), two_one_b);
    let r = AlmostLines { ext_three_a, ext_three_b, two_one_a, two_one_b, any_line: makes_line };
    proof {
        assert forall|l: int| 0 <= l < 4 implies #[trigger] lane(line_2, l) == lane_line2(mask, l) by {}
        assert forall|l: int| 0 <= l < 4 implies #[trigger] lane(line_3, l) == lane_line3(mask, l) by {}
        assert forall|l: int| 0 <= l < 4 implies {
            &&& #[trigger] lane(r.ext_three_a, l) == lane_ext_three_a(mask, l)
            &&& lane(r.ext_three_b, l) == lane_ext_three_b(mask, l)
            &&& lane(r.two_one_a, l) == lane_two_one_a(mask, l)
            &&& lane(r.two_one_b, l) == lane_two_one_b(mask, l)
            &&& lane(r.any_line, l) == lane_ext_three_a(mask, l) | lane_ext_three_b(mask, l)
                | lane_two_one_a(mask, l) | lane_two_one_b(mask, l)
        } by {
            assert(lane(line_2, l) == lane_line2(mask, l));
            assert(lane(line_3, l) == lane_line3(mask, l));
        }
        assert forall|l: int, j: int| 0 <= l < 4 && 0 <= j < 64 implies #[trigger] almost_at(
            mask,
            r,
            l,
            j,
        ) by {
            assert(lane(r.ext_three_a, l) == lane_ext_three_a(mask, l));
            lemma_patterns(mask, l, j);
        }
    }
    r
}


/// Squares of `m` that start four in a row along lane `l` (raw index arithmetic).
pub open spec fn lane_four(m: u64, l: int) -> u64 {
    (lane_line2(m, l) & (lane_line2(m, l) >> sh(2, l))) & lane(spec_shr_mask(3), l)
}

/// `j` is a square that starts four squares of `m` in a row along lane `l`.
pub open spec fn four_at(m: u64, j: int, l: int) -> bool {
    0 <= j < 64 && pat_four(m, j, l)
}

/// Square `i` belongs to some four squares of `m` in a row along lane `l`.
pub open spec fn on_four(m: u64, i: int, l: int) -> bool {
    let s = lane_step(l);
    four_at(m, i, l) || four_at(m, i - s, l) || four_at(m, i - 2 * s, l) || four_at(m, i - 3 * s, l)
}

/// Square `i` belongs to some four squares of `m` in a row, in any direction.
pub open spec fn on_line(m: u64, i: int) -> bool {
    on_four(m, i, 0) || on_four(m, i, 1) || on_four(m, i, 2) || on_four(m, i, 3)
}

/// Some four squares of `m` stand in a row along lane `l`.
pub open spec fn dir_has_four(m: u64, l: int) -> bool {
    exists|j: int| #[trigger] four_at(m, j, l)
}

/// The number of directions in which `m` holds four in a row.
pub open spec fn four_dirs(m: u64) -> int {
    (if dir_has_four(m, 0) {
        1int
    } else {
        0
    }) + (if dir_has_four(m, 1) {
        1int
    } else {
        0
    }) + (if dir_has_four(m, 2) {
        1int
    } else {
        0
    }) + (if dir_has_four(m, 3) {
        1int
    } else {
        0
    })
}

proof fn lemma_four(m: u64, l: int, j: int)
    requires
        0 <= l < 4,
        0 <= j < 64,
    ensures
        is_set(lane_four(m, l), j) == pat_four(m, j, l),
{
    lemma_geometry(j, l);
    let s = lane_step(l);
    let s1 = sh(1, l);
    let s2 = sh(2, l);
    lemma_masks(3, l, j);
    lemma_shr(m, s1, j);
    lemma_shr(lane_line2(m, l), s2, j);
    lemma_shr(m, s1, j + 2 * s);
    assert(in_line(j, l, 3) ==> 0 <= j + 3 * s < 64);
}

/// Lane `l` of `cover` marks the squares on a four of `m`, given that lane `l` of `starts`
/// marks where the fours start.
proof fn lemma_cover(m: u64, l: int, f: u64, c: u64, c2: u64, i: int)
    requires
        0 <= l < 4,
        0 <= i < 64,
        forall|j: int| 0 <= j < 64 ==> #[trigger] is_set(f, j) == pat_four(m, j, l),
        c == f | (f << sh(1, l)),
        c2 == c | (c << sh(2, l)),
    ensures
        is_set(c2, i) == on_four(m, i, l),
{
    lemma_geometry(0, l);
    let s = lane_step(l);
    lemma_shl(f, sh(1, l), i);
    lemma_shl(c, sh(2, l), i);
    lemma_shl(f, sh(1, l), i - 2 * s);
    if 0 <= i - s {
        assert(is_set(f, i - s) == pat_four(m, i - s, l));
    }
    if 0 <= i - 2 * s {
        assert(is_set(f, i - 2 * s) == pat_four(m, i - 2 * s, l));
    }
    if 0 <= i - 3 * s {
        assert(is_set(f, i - 3 * s) == pat_four(m, i - 3 * s, l));
    }
}

/// Where the fours of a bitboard start, and the squares they cover, per direction.
pub struct FourLines {
    pub starts: U64x4,
    pub cover: U64x4,
}

/// Bit `j` of lane `l` of `r` says what it stands for.
pub open spec fn fours_at(m: u64, r: FourLines, l: int, j: int) -> bool {
    &&& is_set(lane(r.starts, l), j) == pat_four(m, j, l)
    &&& is_set(lane(r.cover, l), j) == on_four(m, j, l)
}

/// For each direction, the squares that start four of `m` in a row and the squares those
/// fours cover.
pub fn four_lines(m: u64) -> (r: FourLines)
    ensures
        forall|l: int, j: int| 0 <= l < 4 && 0 <= j < 64 ==> #[trigger] fours_at(m, r, l, j),
        forall|l: int| 0 <= l < 4 ==> (#[trigger] lane(r.starts, l) != 0 <==> dir_has_four(m, l)),
{
    let masks = splat(m);
    let line_2 = and4(masks, shr4(masks, 1));
    let starts = and4(and4(line_2, shr4(line_2, 2)), shr_mask(3));
    let c = or4(starts, shl4(starts, 1));
    let cover = or4(c, shl4(c, 2));
    let r = FourLines { starts, cover };
    proof {
        assert forall|l: int| 0 <= l < 4 implies #[trigger] lane(starts, l) == lane_four(m, l) by {
            assert(lane(line_2, l) == lane_line2(m, l));
        }
        assert forall|l: int, j: int| 0 <= l < 4 && 0 <= j < 64 implies #[trigger] fours_at(
            m,
            r,
            l,
            j,
        ) by {
            assert forall|k: int| 0 <= k < 64 implies #[trigger] is_set(lane(starts, l), k)
                == pat_four(m, k, l) by {
                assert(lane(starts, l) == lane_four(m, l));
                lemma_four(m, l, k);
            }
            lemma_cover(m, l, lane(starts, l), lane(c, l), lane(cover, l), j);
        }
        assert forall|l: int| 0 <= l < 4 implies (#[trigger] lane(r.starts, l) != 0
            <==> dir_has_four(m, l)) by {
            let f = lane(starts, l);
            lemma_bits_zero(f);
            if f != 0 {
                let j = choose|j: int| 0 <= j < 64 && is_set(f, j);
                assert(fours_at(m, r, l, j));
                assert(four_at(m, j, l));
            }
            if dir_has_four(m, l) {
                let j = choose|j: int| #[trigger] four_at(m, j, l);
                assert(fours_at(m, r, l, j));
            }
        }
    }
    r
}

/// Whether `mask` holds four squares in a row.
pub fn has_line(mask: u64) -> (r: bool)
    ensures
        r == spec_has_line(mask),
{
    let f = four_lines(mask);
    let any = reduce_or(f.starts);
    proof {
        lemma_bits_zero(any);
        if any != 0 {
            let j = choose|j: int| 0 <= j < 64 && is_set(any, j);
            if is_set(lane(f.starts, 0), j) {
                assert(fours_at(mask, f, 0, j));
            } else if is_set(lane(f.starts, 1), j) {
                assert(fours_at(mask, f, 1, j));
            } else if is_set(lane(f.starts, 2), j) {
                assert(fours_at(mask, f, 2, j));
            } else {
                assert(fours_at(mask, f, 3, j));
            }
        }
        if spec_has_line(mask) {
            let (j, l) = choose|j: int, l: int| 0 <= j < 64 && 0 <= l < 4 && pat_four(mask, j, l);
            assert(fours_at(mask, f, l, j));
            assert(is_set(any, j));
        }
    }
    any != 0
}

} // verus!
