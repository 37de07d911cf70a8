//! Itgo's incremental position: frames of bitboards, move making and move generation.
//!
//! A frame describes the position after a ply from the side of the player who made it
//! (`opp_*`, the opponent of the side to move), together with what that player's pieces
//! threaten; the side to move's pieces are those of the frame before.

use vstd::prelude::*;

use crate::bits::{bit, group_bits, is_set, lemma_bits_ext};
use crate::itgo::bitboard::{
    almost_at, almost_lines, four_dirs, four_lines, fours_at, has_line, on_line, pat_any_line,
    pat_ext_three_a, pat_ext_three_b, pat_two_one_a, pat_two_one_b, spec_has_line,
};
use crate::itgo::lanes::{and4, lane, or4, reduce_or};
use crate::itgo::tt::{key_index, HashKeys, HASH_STM};

verus! {

broadcast use group_bits;

/// One ply of a game as the engine keeps it.
#[derive(Debug, Clone, Copy)]
pub struct Frame {
    /// Migos of the player who just moved.
    pub opp_migo: u64,
    /// Yugos of the player who just moved.
    pub opp_yugo: u64,
    /// Squares where that player would complete a line of four.
    pub opp_makes_yugo: u64,
    /// Squares where that player would complete a line of four yugos.
    pub opp_makes_igo: u64,
    /// Squares where that player would make a line longer than four.
    pub opp_too_long: u64,
    /// Lines formed, side to move's minus the opponent's.
    pub score: i32,
    /// Square-table value, side to move's minus the opponent's.
    pub psqt_value: i32,
    /// Zobrist hash of the position.
    pub hash: u64,
    pub ply: i32,
    pub killers: [u8; 2],
    pub pv: [u8; 64],
    pub pv_len: usize,
}

impl Frame {
    /// The empty frame for ply `ply`.
    pub open spec fn new_spec(ply: int) -> Frame {
        Frame {
            opp_migo: 0,
            opp_yugo: 0,
            opp_makes_yugo: 0,
            opp_makes_igo: 0,
            opp_too_long: 0,
            score: 0,
            psqt_value: 0,
            hash: 0,
            ply: ply as i32,
            killers: [0, 1],
            pv: vstd::array::spec_array_fill_for_copy_type::<u8, 64>(0),
            pv_len: 0,
        }
    }

    /// An empty frame for ply `ply`.
    pub fn new(ply: i32) -> (r: Frame)
        ensures
            r == Frame::new_spec(ply as int),
    {
        Frame {
            opp_migo: 0,
            opp_yugo: 0,
            opp_makes_yugo: 0,
            opp_makes_igo: 0,
            opp_too_long: 0,
            score: 0,
            psqt_value: 0,
            hash: 0,
            ply,
            killers: [0, 1],
            pv: [0; 64],
            pv_len: 0,
        }
    }
}

// ---------------------------------------------------------------------------------------------
// Square tables
/// Index into a ten-entry table of the square `i`, folded into the triangle `a1-d1-d4` by the
/// board's eight symmetries.
pub open spec fn tri_index(i: int) -> int {
    let r = i / 8;
    let c = i % 8;
    let s = if r < 4 {
        r
    } else {
        7 - r
    };
    let z = if c < 4 {
        c
    } else {
        7 - c
    };
    let a = if s < z {
        s
    } else {
        z
    };
    let b = if s < z {
        z
    } else {
        s
    };
    (if a == 0 {
        0int
    } else if a == 1 {
        4int
    } else if a == 2 {
        7int
    } else {
        9int
    }) + (b - a)
}

/// The square tables' ranges.
pub proof fn lemma_psqt_bounds(k: int)
    requires
        0 <= k < 64,
    ensures
        2 <= spec_psqt_migo(k) <= 12,
        50 <= spec_psqt_yugo(k) <= 70,
{
    lemma_tri_index(k);
}

proof fn lemma_tri_index(k: int)
    requires
        0 <= k < 64,
    ensures
        0 <= tri_index(k) < 10,
        2 <= migo_base()[tri_index(k)] <= 12,
        50 <= yugo_base()[tri_index(k)] <= 70,
{
}

/// A 64-square table built from ten values by symmetry.
pub open spec fn spec_symmetrical(v: Seq<i32>) -> Seq<i32> {
    Seq::new(64, |i: int| v[tri_index(i)])
}

/// The square tables have the board's symmetries: the square mirrored across the middle column,
/// across the middle row, or across the diagonal has the same entry.
pub proof fn law_symmetrical(v: Seq<i32>, r: int, c: int)
    requires
        0 <= r < 8,
        0 <= c < 8,
    ensures
        spec_symmetrical(v)[r * 8 + c] == spec_symmetrical(v)[r * 8 + (7 - c)],
        spec_symmetrical(v)[r * 8 + c] == spec_symmetrical(v)[(7 - r) * 8 + c],
        spec_symmetrical(v)[r * 8 + c] == spec_symmetrical(v)[c * 8 + r],
{
    assert((r * 8 + c) / 8 == r && (r * 8 + c) % 8 == c) by (nonlinear_arith)
        requires
            0 <= r < 8,
            0 <= c < 8,
    ;
    assert((r * 8 + (7 - c)) / 8 == r && (r * 8 + (7 - c)) % 8 == 7 - c) by (nonlinear_arith)
        requires
            0 <= r < 8,
            0 <= c < 8,
    ;
    assert(((7 - r) * 8 + c) / 8 == 7 - r && ((7 - r) * 8 + c) % 8 == c) by (nonlinear_arith)
        requires
            0 <= r < 8,
            0 <= c < 8,
    ;
    assert((c * 8 + r) / 8 == c && (c * 8 + r) % 8 == r) by (nonlinear_arith)
        requires
            0 <= r < 8,
            0 <= c < 8,
    ;
}

fn tri_index_exec(sq: u8) -> (r: usize)
    requires
        sq < 64,
    ensures
        r == tri_index(sq as int),
        r < 10,
{
    let row = sq / 8;
    let col = sq % 8;
    let s = if row < 4 {
        row
    } else {
        7 - row
    };
    let z = if col < 4 {
        col
    } else {
        7 - col
    };
    let a = if s < z {
        s
    } else {
        z
    };
    let b = if s < z {
        z
    } else {
        s
    };
    let base: u8 = if a == 0 {
        0
    } else if a == 1 {
        4
    } else if a == 2 {
        7
    } else {
        9
    };
    (base + (b - a)) as usize
}

/// The 64-square table of the ten values `v`, symmetric under the board's symmetries.
pub fn to_symmetrical(v: [i32; 10]) -> (r: [i32; 64])
    ensures
        r@ == spec_symmetrical(v@),
{
    let mut out = [v[0]; 64];
    let mut i: u8 = 0;
    while i < 64
        invariant
            i <= 64,
            out@.len() == 64,
            forall|k: int| 0 <= k < i ==> out@[k] == #[trigger] v@[tri_index(k)],
        decreases 64 - i,
    {
        let t = tri_index_exec(i);
        out[i as usize] = v[t];
        i += 1;
    }
    assert(out@ =~= spec_symmetrical(v@));
    out
}

/// Square-table values of a migo.
pub open spec fn migo_base() -> Seq<i32> {
    seq![2i32, 3, 4, 6, 6, 7, 9, 12, 11, 5]
}

/// Square-table values of a yugo.
pub open spec fn yugo_base() -> Seq<i32> {
    seq![50i32, 52, 54, 56, 59, 61, 61, 65, 65, 70]
}

pub open spec fn spec_psqt_migo(i: int) -> int {
    migo_base()[tri_index(i)] as int
}

pub open spec fn spec_psqt_yugo(i: int) -> int {
    yugo_base()[tri_index(i)] as int
}

/// Square-table value of a migo on `sq`.
pub fn psqt_migo(sq: u8) -> (r: i32)
    requires
        sq < 64,
    ensures
        r == spec_psqt_migo(sq as int),
        2 <= r <= 12,
{
    let t: [i32; 10] = [2, 3, 4, 6, 6, 7, 9, 12, 11, 5];
    assert(t@ =~= migo_base());
    t[tri_index_exec(sq)]
}

/// Square-table value of a yugo on `sq`.
pub fn psqt_yugo(sq: u8) -> (r: i32)
    requires
        sq < 64,
    ensures
        r == spec_psqt_yugo(sq as int),
        50 <= r <= 70,
{
    let t: [i32; 10] = [50, 52, 54, 56, 59, 61, 61, 65, 65, 70];
    assert(t@ =~= yugo_base());
    t[tri_index_exec(sq)]
}

// ---------------------------------------------------------------------------------------------
// Bitboards defined square by square
/// The bitboard whose squares are those where `p` holds.
pub open spec fn bits_where(p: spec_fn(int) -> bool) -> u64 {
    choose|x: u64| #[trigger] has_bits(x, p)
}

/// The squares of `x` are those where `p` holds.
pub open spec fn has_bits(x: u64, p: spec_fn(int) -> bool) -> bool {
    forall|i: int| 0 <= i < 64 ==> #[trigger] is_set(x, i) == p(i)
}

/// A bitboard with the squares of `p` is `bits_where(p)`.
pub proof fn lemma_bits_where(p: spec_fn(int) -> bool, y: u64)
    requires
        forall|i: int| 0 <= i < 64 ==> #[trigger] is_set(y, i) == p(i),
    ensures
        bits_where(p) == y,
{
    assert(has_bits(y, p));
    let x = bits_where(p);
    assert(has_bits(x, p));
    lemma_bits_ext(x, y);
}

// ---------------------------------------------------------------------------------------------
// Move making
/// A move's effect: the mover's pieces afterwards and the values from the mover's side.
#[derive(Debug, Clone, Copy, PartialEq, Eq, Structural)]
pub struct MakeData {
    pub migo: u64,
    pub yugo: u64,
    pub score: i32,
    pub psqt_value: i32,
    pub hash: u64,
}

/// Which half of the keys belongs to the side moving at ply `ply`.
pub open spec fn side_of(ply: i32) -> int {
    (ply & 1) as int
}

fn side_exec(ply: i32) -> (r: u8)
    ensures
        r == side_of(ply),
        r < 2,
{
    assert((ply & 1) == 0 || (ply & 1) == 1) by (bit_vector);
    if ply & 1 == 0 {
        0
    } else {
        1
    }
}

/// Pieces of a frame's player.
pub open spec fn spec_opp(f: Frame) -> u64 {
    f.opp_migo | f.opp_yugo
}

/// The migos of `migo` that a yugo placed with `own` removes, summed up to square `n`.
pub open spec fn removed_psqt(migo: u64, own: u64, n: int) -> int
    decreases n,
{
    if n <= 0 {
        0
    } else {
        removed_psqt(migo, own, n - 1) + (if is_set(migo, n - 1) && on_line(own, n - 1) {
            spec_psqt_migo(n - 1)
        } else {
            0
        })
    }
}

/// The keys of the migos that a yugo placed with `own` removes, up to square `n`.
pub open spec fn removed_keys(keys: Seq<u64>, side: int, migo: u64, own: u64, n: int) -> u64
    decreases n,
{
    if n <= 0 {
        0
    } else {
        removed_keys(keys, side, migo, own, n - 1) ^ (if is_set(migo, n - 1) && on_line(
            own,
            n - 1,
        ) {
            keys[key_index(side, false, n - 1)]
        } else {
            0
        })
    }
}

proof fn lemma_removed_psqt_mono(migo: u64, own: u64, i: int, n: int)
    requires
        0 <= i <= n,
    ensures
        0 <= removed_psqt(migo, own, i) <= removed_psqt(migo, own, n),
        removed_psqt(migo, own, n) <= 12 * n,
    decreases n,
{
    if n > 0 {
        if i < n {
            lemma_removed_psqt_mono(migo, own, i, n - 1);
        } else {
            lemma_removed_psqt_mono(migo, own, n - 1, n - 1);
        }
        if is_set(migo, n - 1) {
            lemma_tri_index(n - 1);
        }
    }
}

/// At most twelve points per square leave with the removed migos.
pub proof fn lemma_removed_psqt_bound(migo: u64, own: u64)
    ensures
        0 <= removed_psqt(migo, own, 64) <= 768,
{
    lemma_removed_psqt_mono(migo, own, 0, 64);
}

/// The move of a migo to `mv`, from the frames before (`prev`) and at (`cur`) the move.
pub open spec fn spec_make_migo(prev: Frame, cur: Frame, keys: Seq<u64>, mv: int) -> MakeData {
    MakeData {
        migo: prev.opp_migo | bit(mv),
        yugo: prev.opp_yugo,
        score: cur.score,
        psqt_value: (cur.psqt_value + spec_psqt_migo(mv)) as i32,
        hash: cur.hash ^ keys[key_index(side_of(cur.ply), false, mv)],
    }
}

/// The mover's pieces once a yugo is on `mv`, before lines are cleared.
pub open spec fn yugo_own(prev: Frame, mv: int) -> u64 {
    prev.opp_migo | (prev.opp_yugo | bit(mv))
}

/// The move of a yugo to `mv`: every migo on a line of four is removed.
pub open spec fn spec_make_yugo(prev: Frame, cur: Frame, keys: Seq<u64>, mv: int) -> MakeData {
    let own = yugo_own(prev, mv);
    let side = side_of(cur.ply);
    MakeData {
        migo: bits_where(|i: int| is_set(prev.opp_migo, i) && !on_line(own, i)),
        yugo: prev.opp_yugo | bit(mv),
        score: (cur.score + four_dirs(own)) as i32,
        psqt_value: (cur.psqt_value + spec_psqt_yugo(mv) - removed_psqt(prev.opp_migo, own, 64)) as i32,
        hash: cur.hash ^ keys[key_index(side, true, mv)] ^ removed_keys(keys, side, prev.opp_migo, own, 64),
    }
}

/// `make_yugo` stays within `i32`.
pub open spec fn yugo_fits(prev: Frame, cur: Frame, mv: int) -> bool {
    let own = yugo_own(prev, mv);
    &&& cur.score + four_dirs(own) <= i32::MAX
    &&& cur.psqt_value + spec_psqt_yugo(mv) <= i32::MAX
    &&& cur.psqt_value + spec_psqt_yugo(mv) - removed_psqt(prev.opp_migo, own, 64) >= i32::MIN
}

/// Place a migo on `mv`.
pub fn make_migo(prev: &Frame, cur: &Frame, keys: &HashKeys, mv: u8) -> (r: MakeData)
    requires
        mv < 64,
        cur.psqt_value + spec_psqt_migo(mv as int) <= i32::MAX,
    ensures
        r == spec_make_migo(*prev, *cur, keys@, mv as int),
{
    keys.len_is();
    let side = side_exec(cur.ply);
    MakeData {
        migo: prev.opp_migo | (1u64 << mv),
        yugo: prev.opp_yugo,
        score: cur.score,
        psqt_value: cur.psqt_value + psqt_migo(mv),
        hash: cur.hash ^ keys.key(side, false, mv),
    }
}

/// Place a yugo on `mv`: each line of four it completes scores once per direction, and the
/// migos on those lines leave the board.
pub fn make_yugo(prev: &Frame, cur: &Frame, keys: &HashKeys, mv: u8) -> (r: MakeData)
    requires
        mv < 64,
        yugo_fits(*prev, *cur, mv as int),
    ensures
        r == spec_make_yugo(*prev, *cur, keys@, mv as int),
{
    keys.len_is();
    let side = side_exec(cur.ply);
    let migo = prev.opp_migo;
    let yugo = prev.opp_yugo | (1u64 << mv);
    let own = migo | yugo;
    let ghost g_own = yugo_own(*prev, mv as int);
    assert(own == g_own);
    let f = four_lines(own);
    let lines = reduce_or(f.cover);
    let remove = migo & lines;
    proof {
        assert forall|i: int| 0 <= i < 64 implies #[trigger] is_set(remove, i) == (is_set(migo, i)
            && on_line(own, i)) by {
            assert(fours_at(own, f, 0, i));
            assert(fours_at(own, f, 1, i));
            assert(fours_at(own, f, 2, i));
            assert(fours_at(own, f, 3, i));
        }
        lemma_removed_psqt_mono(migo, own, 0, 64);
    }
    let mut psqt_value: i32 = cur.psqt_value + psqt_yugo(mv);
    let mut hash: u64 = cur.hash ^ keys.key(side, true, mv);
    let ghost psqt0 = psqt_value;
    let ghost hash0 = hash;
    assert(hash ^ 0u64 == hash) by (bit_vector);
    let mut i: u8 = 0;
    while i < 64
        invariant
            i <= 64,
            keys@.len() == 256,
            side == side_of(cur.ply),
            side < 2,
            forall|k: int| 0 <= k < 64 ==> #[trigger] is_set(remove, k) == (is_set(migo, k)
                && on_line(own, k)),
            psqt0 - removed_psqt(migo, own, 64) >= i32::MIN,
            psqt_value == psqt0 - removed_psqt(migo, own, i as int),
            hash == hash0 ^ removed_keys(keys@, side as int, migo, own, i as int),
        decreases 64 - i,
    {
        proof {
            lemma_removed_psqt_mono(migo, own, i as int + 1, 64);
        }
        if (remove >> i) & 1 == 1 {
            assert(is_set(remove, i as int));
            psqt_value = psqt_value - psqt_migo(i);
            let k = keys.key(side, false, i);
            proof {
                let a = hash0;
                let b = removed_keys(keys@, side as int, migo, own, i as int);
                assert((a ^ b) ^ k == a ^ (b ^ k)) by (bit_vector);
            }
            hash = hash ^ k;
        } else {
            assert(!is_set(remove, i as int));
            proof {
                let a = hash0;
                let b = removed_keys(keys@, side as int, migo, own, i as int);
                assert(b ^ 0u64 == b) by (bit_vector);
            }
        }
        i += 1;
    }
    let new_migo = migo & !lines;
    let dirs = four_dir_count(f.starts);
    proof {
        assert forall|k: int| 0 <= k < 64 implies #[trigger] is_set(new_migo, k) == (is_set(
            prev.opp_migo,
            k,
        ) && !on_line(own, k)) by {
            assert(fours_at(own, f, 0, k));
            assert(fours_at(own, f, 1, k));
            assert(fours_at(own, f, 2, k));
            assert(fours_at(own, f, 3, k));
        }
        lemma_bits_where(|k: int| is_set(prev.opp_migo, k) && !on_line(own, k), new_migo);
        let a = cur.hash;
        let b = keys@[key_index(side as int, true, mv as int)];
        let c = removed_keys(keys@, side as int, migo, own, 64);
        assert((a ^ b) ^ c == a ^ b ^ c) by (bit_vector);
    }
    MakeData { migo: new_migo, yugo, score: cur.score + dirs, psqt_value, hash }
}

/// How many of the four lanes are non-empty.
fn four_dir_count(starts: crate::itgo::lanes::U64x4) -> (r: i32)
    ensures
        r == (if lane(starts, 0) != 0 {
            1int
        } else {
            0
        }) + (if lane(starts, 1) != 0 {
            1int
        } else {
            0
        }) + (if lane(starts, 2) != 0 {
            1int
        } else {
            0
        }) + (if lane(starts, 3) != 0 {
            1int
        } else {
            0
        }),
{
    let mut n: i32 = 0;
    if starts.0 != 0 {
        n += 1;
    }
    if starts.1 != 0 {
        n += 1;
    }
    if starts.2 != 0 {
        n += 1;
    }
    if starts.3 != 0 {
        n += 1;
    }
    n
}


// ---------------------------------------------------------------------------------------------
// Applying a move and generating moves
/// Placing on `j` would complete four of `m` in a row in some direction.
pub open spec fn makes_four(m: u64, j: int) -> bool {
    pat_any_line(m, j, 0) || pat_any_line(m, j, 1) || pat_any_line(m, j, 2) || pat_any_line(m, j, 3)
}

/// Placing on `j` would join two runs of `m` along lane `l` into more than four in a row.
pub open spec fn overline_at(m: u64, j: int, l: int) -> bool {
    ||| pat_ext_three_a(m, j, l) && pat_two_one_a(m, j, l)
    ||| pat_ext_three_b(m, j, l) && pat_two_one_b(m, j, l)
    ||| pat_two_one_a(m, j, l) && pat_two_one_b(m, j, l)
}

/// Placing on `j` would make more than four of `m` in a row in some direction.
pub open spec fn too_long_at(m: u64, j: int) -> bool {
    overline_at(m, j, 0) || overline_at(m, j, 1) || overline_at(m, j, 2) || overline_at(m, j, 3)
}

/// The frame after the move `d`: the mover's pieces, what they threaten (when `aux`), and the
/// values turned to the new side to move.
pub open spec fn spec_apply(f: Frame, d: MakeData, aux: bool) -> Frame {
    let m = d.migo | d.yugo;
    Frame {
        opp_migo: d.migo,
        opp_yugo: d.yugo,
        opp_makes_yugo: if aux {
            bits_where(|j: int| makes_four(m, j))
        } else {
            f.opp_makes_yugo
        },
        opp_makes_igo: if aux {
            bits_where(|j: int| makes_four(d.yugo, j))
        } else {
            f.opp_makes_igo
        },
        opp_too_long: if aux {
            bits_where(|j: int| too_long_at(m, j))
        } else {
            f.opp_too_long
        },
        score: (-d.score) as i32,
        psqt_value: (-d.psqt_value) as i32,
        hash: d.hash ^ HASH_STM,
        ply: f.ply,
        killers: f.killers,
        pv: f.pv,
        pv_len: f.pv_len,
    }
}

proof fn lemma_makes_four(m: u64, a: crate::itgo::bitboard::AlmostLines, x: u64)
    requires
        forall|l: int, j: int| 0 <= l < 4 && 0 <= j < 64 ==> #[trigger] almost_at(m, a, l, j),
        x == reduce_or_spec(a.any_line),
    ensures
        x == bits_where(|j: int| makes_four(m, j)),
{
    assert forall|j: int| 0 <= j < 64 implies #[trigger] is_set(x, j) == makes_four(m, j) by {
        assert(almost_at(m, a, 0, j));
        assert(almost_at(m, a, 1, j));
        assert(almost_at(m, a, 2, j));
        assert(almost_at(m, a, 3, j));
    }
    lemma_bits_where(|j: int| makes_four(m, j), x);
}

pub open spec fn reduce_or_spec(v: crate::itgo::lanes::U64x4) -> u64 {
    lane(v, 0) | lane(v, 1) | lane(v, 2) | lane(v, 3)
}

/// Write the move `make` into the frame `f` that follows it; with `compute_aux`, also what the
/// mover's pieces now threaten.
pub fn apply(f: &mut Frame, make: MakeData, compute_aux: bool)
    requires
        make.score > i32::MIN,
        make.psqt_value > i32::MIN,
    ensures
        *final(f) == spec_apply(*old(f), make, compute_aux),
{
    if compute_aux {
        let m = make.migo | make.yugo;
        let al = almost_lines(m);
        let makes_yugo = reduce_or(al.any_line);
        let pi_a = and4(al.ext_three_a, al.two_one_a);
        let pi_b = and4(al.ext_three_b, al.two_one_b);
        let two_two = and4(al.two_one_a, al.two_one_b);
        let too_long = reduce_or(or4(or4(pi_a, pi_b), two_two));
        let al_y = almost_lines(make.yugo);
        let makes_igo = reduce_or(al_y.any_line);
        proof {
            lemma_makes_four(m, al, makes_yugo);
            lemma_makes_four(make.yugo, al_y, makes_igo);
            assert forall|j: int| 0 <= j < 64 implies #[trigger] is_set(too_long, j) == too_long_at(
                m,
                j,
            ) by {
                assert(almost_at(m, al, 0, j));
                assert(almost_at(m, al, 1, j));
                assert(almost_at(m, al, 2, j));
                assert(almost_at(m, al, 3, j));
            }
            lemma_bits_where(|j: int| too_long_at(m, j), too_long);
        }
        f.opp_makes_yugo = makes_yugo;
        f.opp_makes_igo = makes_igo;
        f.opp_too_long = too_long;
    }
    f.opp_migo = make.migo;
    f.opp_yugo = make.yugo;
    f.score = -make.score;
    f.psqt_value = -make.psqt_value;
    f.hash = make.hash ^ HASH_STM;
}

/// Pieces of the player who made the frame's ply.
pub fn opp(f: &Frame) -> (r: u64)
    ensures
        r == spec_opp(*f),
{
    f.opp_migo | f.opp_yugo
}

/// Pieces of the side to move at `cur`, whose previous frame is `prev`.
pub fn own(prev: &Frame) -> (r: u64)
    ensures
        r == spec_opp(*prev),
{
    opp(prev)
}

/// Occupied squares.
pub open spec fn spec_occ(prev: Frame, cur: Frame) -> u64 {
    spec_opp(prev) | spec_opp(cur)
}

/// Occupied squares at `cur`.
pub fn occ(prev: &Frame, cur: &Frame) -> (r: u64)
    ensures
        r == spec_occ(*prev, *cur),
{
    own(prev) | opp(cur)
}

/// The side to move's legal squares, and those of them that complete a line.
#[derive(Debug, Clone, Copy, PartialEq, Eq, Structural)]
pub struct GenMvData {
    pub playable: u64,
    pub makes_yugo: u64,
}

/// Empty squares that would not make the side to move's line too long.
pub open spec fn spec_gen_mv(prev: Frame, cur: Frame) -> GenMvData {
    let playable = !spec_occ(prev, cur) & !prev.opp_too_long;
    GenMvData { playable, makes_yugo: prev.opp_makes_yugo & playable }
}

/// The side to move's legal squares at `cur`.
pub fn gen_mv(prev: &Frame, cur: &Frame) -> (r: GenMvData)
    ensures
        r == spec_gen_mv(*prev, *cur),
{
    let playable = !occ(prev, cur) & !prev.opp_too_long;
    let makes_yugo = prev.opp_makes_yugo & playable;
    GenMvData { playable, makes_yugo }
}

/// How a checked move ended.
#[derive(Debug, Clone, Copy, PartialEq, Eq, Structural)]
pub enum DirectMakeResult {
    /// The move was made.
    Made,
    /// The game already ended with a line of four yugos.
    Igo,
    /// The game already ended with no legal move.
    Wego,
    /// The square is not a legal move.
    Illegal,
}

/// The move `mv` at `cur` (after `prev`), read by the migo or yugo it places.
pub open spec fn spec_make(prev: Frame, cur: Frame, keys: Seq<u64>, mv: int) -> MakeData {
    if is_set(spec_gen_mv(prev, cur).makes_yugo, mv) {
        spec_make_yugo(prev, cur, keys, mv)
    } else {
        spec_make_migo(prev, cur, keys, mv)
    }
}

/// The outcome of a checked move of `mv` at `cur`, and the frame that follows.
pub open spec fn spec_direct_make(prev: Frame, cur: Frame, next: Frame, keys: Seq<u64>, mv: int) -> (
    DirectMakeResult,
    Frame,
) {
    let g = spec_gen_mv(prev, cur);
    if spec_has_line(cur.opp_yugo) {
        (DirectMakeResult::Igo, next)
    } else if g.playable == 0 {
        (DirectMakeResult::Wego, next)
    } else if !is_set(g.playable, mv) {
        (DirectMakeResult::Illegal, next)
    } else {
        (DirectMakeResult::Made, spec_apply(next, spec_make(prev, cur, keys, mv), true))
    }
}

/// A legal move of `mv` at `cur` stays within `i32` when made and turned.
pub open spec fn direct_make_fits(prev: Frame, cur: Frame, mv: int) -> bool {
    let g = spec_gen_mv(prev, cur);
    let own = yugo_own(prev, mv);
    is_set(g.playable, mv) ==> if is_set(g.makes_yugo, mv) {
        &&& yugo_fits(prev, cur, mv)
        &&& cur.score > i32::MIN
        &&& cur.psqt_value + spec_psqt_yugo(mv) - removed_psqt(prev.opp_migo, own, 64) > i32::MIN
    } else {
        &&& cur.psqt_value + spec_psqt_migo(mv) <= i32::MAX
        &&& cur.psqt_value + spec_psqt_migo(mv) > i32::MIN
        &&& cur.score > i32::MIN
    }
}

/// Make `mv` at `cur` (after `prev`) into `next`, unless the game is over or `mv` is illegal.
pub fn checked_direct_make(prev: &Frame, cur: &Frame, next: &mut Frame, keys: &HashKeys, mv: u8) -> (r:
    DirectMakeResult)
    requires
        mv < 64,
        direct_make_fits(*prev, *cur, mv as int),
    ensures
        (r, *final(next)) == spec_direct_make(*prev, *cur, *old(next), keys@, mv as int),
{
    proof {
        lemma_removed_psqt_mono(prev.opp_migo, yugo_own(*prev, mv as int), 0, 64);
    }
    if has_line(cur.opp_yugo) {
        return DirectMakeResult::Igo;
    }
    let g = gen_mv(prev, cur);
    if g.playable == 0 {
        return DirectMakeResult::Wego;
    }
    let b = 1u64 << (mv as u64);
    assert(b == bit(mv as int));
    if g.playable & b == 0 {
        return DirectMakeResult::Illegal;
    }
    assert(is_set(g.playable, mv as int));
    let make = if g.makes_yugo & b == 0 {
        assert(!is_set(g.makes_yugo, mv as int));
        make_migo(prev, cur, keys, mv)
    } else {
        assert(is_set(g.makes_yugo, mv as int));
        make_yugo(prev, cur, keys, mv)
    };
    apply(next, make, true);
    DirectMakeResult::Made
}

} // verus!
