//! Four bitboards processed side by side, one per line direction.
//!
//! Lane 0 runs along rows (step 1), lane 1 along diagonals (step 9), lane 2 along
//! columns (step 8) and lane 3 along anti-diagonals (step 7).

use vstd::prelude::*;

use crate::bits::{is_set, lemma_shl, lemma_shr};
use crate::lines::on_board;

verus! {

/// Four bitboards, one per direction.
#[derive(Debug, Clone, Copy, PartialEq, Eq, Structural)]
pub struct U64x4(pub u64, pub u64, pub u64, pub u64);

pub open spec fn lane(v: U64x4, l: int) -> u64 {
    if l == 0 {
        v.0
    } else if l == 1 {
        v.1
    } else if l == 2 {
        v.2
    } else {
        v.3
    }
}

/// Column step of lane `l`.
pub open spec fn lane_dc(l: int) -> int {
    if l == 2 {
        0
    } else if l == 3 {
        -1
    } else {
        1
    }
}

/// Row step of lane `l`.
pub open spec fn lane_dr(l: int) -> int {
    if l == 0 {
        0
    } else {
        1
    }
}

/// Index step of lane `l`.
pub open spec fn lane_step(l: int) -> int {
    lane_dc(l) + 8 * lane_dr(l)
}

/// Whether the square `t` steps from `j` along lane `l` is on the board.
pub open spec fn in_line(j: int, l: int, t: int) -> bool {
    on_board(j % 8 + t * lane_dc(l), j / 8 + t * lane_dr(l))
}

/// Whether the square `t` steps from `j` along lane `l` is on the board and set in `m`.
pub open spec fn cell(m: u64, j: int, l: int, t: int) -> bool {
    in_line(j, l, t) && is_set(m, j + t * lane_step(l))
}

/// How far lane `l` shifts for `k` steps.
pub open spec fn lane_shift(k: int, l: int) -> int {
    if l == 0 {
        k
    } else if l == 1 {
        9 * k
    } else if l == 2 {
        8 * k
    } else {
        7 * k
    }
}

pub fn splat(x: u64) -> (r: U64x4)
    ensures
        forall|l: int| 0 <= l < 4 ==> #[trigger] lane(r, l) == x,
{
    U64x4(x, x, x, x)
}

pub fn and4(a: U64x4, b: U64x4) -> (r: U64x4)
    ensures
        forall|l: int| 0 <= l < 4 ==> #[trigger] lane(r, l) == lane(a, l) & lane(b, l),
{
    U64x4(a.0 & b.0, a.1 & b.1, a.2 & b.2, a.3 & b.3)
}

pub fn or4(a: U64x4, b: U64x4) -> (r: U64x4)
    ensures
        forall|l: int| 0 <= l < 4 ==> #[trigger] lane(r, l) == lane(a, l) | lane(b, l),
{
    U64x4(a.0 | b.0, a.1 | b.1, a.2 | b.2, a.3 | b.3)
}

/// Each lane shifted right by `k` steps of its direction.
pub fn shr4(a: U64x4, k: u64) -> (r: U64x4)
    requires
        1 <= k <= 3,
    ensures
        forall|l: int|
            0 <= l < 4 ==> #[trigger] lane(r, l) == lane(a, l) >> (lane_shift(k as int, l) as u64),
{
    U64x4(a.0 >> k, a.1 >> (9 * k), a.2 >> (8 * k), a.3 >> (7 * k))
}

/// Each lane shifted left by `k` steps of its direction.
pub fn shl4(a: U64x4, k: u64) -> (r: U64x4)
    requires
        1 <= k <= 3,
    ensures
        forall|l: int|
            0 <= l < 4 ==> #[trigger] lane(r, l) == lane(a, l) << (lane_shift(k as int, l) as u64),
{
    U64x4(a.0 << k, a.1 << (9 * k), a.2 << (8 * k), a.3 << (7 * k))
}

/// The union of the four lanes.
pub fn reduce_or(a: U64x4) -> (r: u64)
    ensures
        r == lane(a, 0) | lane(a, 1) | lane(a, 2) | lane(a, 3),
{
    a.0 | a.1 | a.2 | a.3
}

/// Squares with `k` steps of room forward along each lane.
pub open spec fn spec_shr_mask(k: int) -> U64x4 {
    if k == 1 {
        U64x4(0x7f7f7f7f7f7f7f7f, 0x7f7f7f7f7f7f7f, 0xffffffffffffff, 0xfefefefefefefe)
    } else if k == 2 {
        U64x4(0x3f3f3f3f3f3f3f3f, 0x3f3f3f3f3f3f, 0xffffffffffff, 0xfcfcfcfcfcfc)
    } else {
        U64x4(0x1f1f1f1f1f1f1f1f, 0x1f1f1f1f1f, 0xffffffffff, 0xf8f8f8f8f8)
    }
}

/// Squares with `k` steps of room backward along each lane.
pub open spec fn spec_shl_mask(k: int) -> U64x4 {
    if k == 1 {
        U64x4(0xfefefefefefefefe, 0xfefefefefefefe00, 0xffffffffffffff00, 0x7f7f7f7f7f7f7f00)
    } else if k == 2 {
        U64x4(0xfcfcfcfcfcfcfcfc, 0xfcfcfcfcfcfc0000, 0xffffffffffff0000, 0x3f3f3f3f3f3f0000)
    } else {
        U64x4(0xf8f8f8f8f8f8f8f8, 0xf8f8f8f8f8000000, 0xffffffffff000000, 0x1f1f1f1f1f000000)
    }
}

pub fn shr_mask(k: u64) -> (r: U64x4)
    requires
        1 <= k <= 3,
    ensures
        r == spec_shr_mask(k as int),
{
    if k == 1 {
        U64x4(0x7f7f7f7f7f7f7f7f, 0x7f7f7f7f7f7f7f, 0xffffffffffffff, 0xfefefefefefefe)
    } else if k == 2 {
        U64x4(0x3f3f3f3f3f3f3f3f, 0x3f3f3f3f3f3f, 0xffffffffffff, 0xfcfcfcfcfcfc)
    } else {
        U64x4(0x1f1f1f1f1f1f1f1f, 0x1f1f1f1f1f, 0xffffffffff, 0xf8f8f8f8f8)
    }
}

pub fn shl_mask(k: u64) -> (r: U64x4)
    requires
        1 <= k <= 3,
    ensures
        r == spec_shl_mask(k as int),
{
    if k == 1 {
        U64x4(0xfefefefefefefefe, 0xfefefefefefefe00, 0xffffffffffffff00, 0x7f7f7f7f7f7f7f00)
    } else if k == 2 {
        U64x4(0xfcfcfcfcfcfcfcfc, 0xfcfcfcfcfcfc0000, 0xffffffffffff0000, 0x3f3f3f3f3f3f0000)
    } else {
        U64x4(0xf8f8f8f8f8f8f8f8, 0xf8f8f8f8f8000000, 0xffffffffff000000, 0x1f1f1f1f1f000000)
    }
}

/// The masks mark exactly the squares with room along their lane.
pub proof fn lemma_masks(k: int, l: int, j: int)
    requires
        1 <= k <= 3,
        0 <= l < 4,
        0 <= j < 64,
    ensures
        is_set(lane(spec_shr_mask(k), l), j) == in_line(j, l, k),
        is_set(lane(spec_shl_mask(k), l), j) == in_line(j, l, -k),
{
    let x = j as u64;
    assert(x % 8 == j % 8 && x / 8 == j / 8);
    if k == 1 {
        assert({
            &&& ((0x7f7f7f7f7f7f7f7fu64 >> x) & 1u64 == 1u64) == (x % 8 + 1 < 8)
            &&& ((0x7f7f7f7f7f7f7fu64 >> x) & 1u64 == 1u64) == (x % 8 + 1 < 8 && x / 8 + 1 < 8)
            &&& ((0xffffffffffffffu64 >> x) & 1u64 == 1u64) == (x / 8 + 1 < 8)
            &&& ((0xfefefefefefefeu64 >> x) & 1u64 == 1u64) == (x % 8 >= 1 && x / 8 + 1 < 8)
            &&& ((0xfefefefefefefefeu64 >> x) & 1u64 == 1u64) == (x % 8 >= 1)
            &&& ((0xfefefefefefefe00u64 >> x) & 1u64 == 1u64) == (x % 8 >= 1 && x / 8 >= 1)
            &&& ((0xffffffffffffff00u64 >> x) & 1u64 == 1u64) == (x / 8 >= 1)
            &&& ((0x7f7f7f7f7f7f7f00u64 >> x) & 1u64 == 1u64) == (x % 8 + 1 < 8 && x / 8 >= 1)
        }) by (bit_vector)
            requires
                x < 64,
        ;
    } else if k == 2 {
        assert({
            &&& ((0x3f3f3f3f3f3f3f3fu64 >> x) & 1u64 == 1u64) == (x % 8 + 2 < 8)
            &&& ((0x3f3f3f3f3f3fu64 >> x) & 1u64 == 1u64) == (x % 8 + 2 < 8 && x / 8 + 2 < 8)
            &&& ((0xffffffffffffu64 >> x) & 1u64 == 1u64) == (x / 8 + 2 < 8)
            &&& ((0xfcfcfcfcfcfcu64 >> x) & 1u64 == 1u64) == (x % 8 >= 2 && x / 8 + 2 < 8)
            &&& ((0xfcfcfcfcfcfcfcfcu64 >> x) & 1u64 == 1u64) == (x % 8 >= 2)
            &&& ((0xfcfcfcfcfcfc0000u64 >> x) & 1u64 == 1u64) == (x % 8 >= 2 && x / 8 >= 2)
            &&& ((0xffffffffffff0000u64 >> x) & 1u64 == 1u64) == (x / 8 >= 2)
            &&& ((0x3f3f3f3f3f3f0000u64 >> x) & 1u64 == 1u64) == (x % 8 + 2 < 8 && x / 8 >= 2)
        }) by (bit_vector)
            requires
                x < 64,
        ;
    } else {
        assert({
            &&& ((0x1f1f1f1f1f1f1f1fu64 >> x) & 1u64 == 1u64) == (x % 8 + 3 < 8)
            &&& ((0x1f1f1f1f1fu64 >> x) & 1u64 == 1u64) == (x % 8 + 3 < 8 && x / 8 + 3 < 8)
            &&& ((0xffffffffffu64 >> x) & 1u64 == 1u64) == (x / 8 + 3 < 8)
            &&& ((0xf8f8f8f8f8u64 >> x) & 1u64 == 1u64) == (x % 8 >= 3 && x / 8 + 3 < 8)
            &&& ((0xf8f8f8f8f8f8f8f8u64 >> x) & 1u64 == 1u64) == (x % 8 >= 3)
            &&& ((0xf8f8f8f8f8000000u64 >> x) & 1u64 == 1u64) == (x % 8 >= 3 && x / 8 >= 3)
            &&& ((0xffffffffff000000u64 >> x) & 1u64 == 1u64) == (x / 8 >= 3)
            &&& ((0x1f1f1f1f1f000000u64 >> x) & 1u64 == 1u64) == (x % 8 + 3 < 8 && x / 8 >= 3)
        }) by (bit_vector)
            requires
                x < 64,
        ;
    }
}

} // verus!
