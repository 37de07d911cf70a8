use vstd::prelude::*;

use crate::bits::{bit, is_set};

verus! {

/// Column step of direction `d` (0: east, 1: north, 2: north-east, 3: south-east).
pub open spec fn dir_dc(d: int) -> int {
    if d == 1 {
        0
    } else {
        1
    }
}

/// Row step of direction `d`.
pub open spec fn dir_dr(d: int) -> int {
    if d == 0 {
        0
    } else if d == 3 {
        -1
    } else {
        1
    }
}

pub open spec fn on_board(c: int, r: int) -> bool {
    0 <= c < 8 && 0 <= r < 8
}

/// Number of consecutive squares of `p` met when stepping by `(dc, dr)` from `(c, r)`,
/// not counting `(c, r)` itself, looking at most `fuel` steps ahead.
pub open spec fn run_len(p: u64, c: int, r: int, dc: int, dr: int, fuel: nat) -> nat
    decreases fuel,
{
    if fuel == 0 {
        0
    } else {
        let nc = c + dc;
        let nr = r + dr;
        if on_board(nc, nr) && is_set(p, nc + 8 * nr) {
            1 + run_len(p, nc, nr, dc, dr, (fuel - 1) as nat)
        } else {
            0
        }
    }
}

/// Consecutive squares of `p` next to square `i` in direction `(dc, dr)`.
pub open spec fn run(p: u64, i: int, dc: int, dr: int) -> nat {
    run_len(p, i % 8, i / 8, dc, dr, 8)
}

/// Squares of `p` behind square `i` along direction `d`.
pub open spec fn behind(p: u64, i: int, d: int) -> nat {
    run(p, i, -dir_dc(d), -dir_dr(d))
}

/// Squares of `p` ahead of square `i` along direction `d`.
pub open spec fn ahead(p: u64, i: int, d: int) -> nat {
    run(p, i, dir_dc(d), dir_dr(d))
}

/// Length of the unbroken line of `p` through square `i` along direction `d`, counting `i`.
pub open spec fn line_len(p: u64, i: int, d: int) -> nat {
    1 + behind(p, i, d) + ahead(p, i, d)
}

/// The `t`-th square (from the back) of the line of `p` through `i` along direction `d`.
pub open spec fn line_sq(p: u64, i: int, d: int, t: int) -> int {
    let b = behind(p, i, d) as int;
    (i % 8 + (t - b) * dir_dc(d)) + 8 * (i / 8 + (t - b) * dir_dr(d))
}

/// Whether the line through `i` along `d` is exactly four long.
pub open spec fn complete(p: u64, i: int, d: int) -> bool {
    line_len(p, i, d) == 4
}

/// The squares of the line through `i` along `d`, when it is four long.
pub open spec fn line_bits(p: u64, i: int, d: int) -> u64 {
    bit(line_sq(p, i, d, 0)) | bit(line_sq(p, i, d, 1)) | bit(line_sq(p, i, d, 2)) | bit(
        line_sq(p, i, d, 3),
    )
}

/// How many of the directions `0..n` hold a complete line through `i`.
pub open spec fn lines_count(p: u64, i: int, n: int) -> nat
    decreases n,
{
    if n <= 0 {
        0
    } else {
        lines_count(p, i, n - 1) + if complete(p, i, n - 1) {
            1nat
        } else {
            0nat
        }
    }
}

/// The union of the complete lines through `i` among directions `0..n`.
pub open spec fn lines_mask(p: u64, i: int, n: int) -> u64
    decreases n,
{
    if n <= 0 {
        0
    } else {
        lines_mask(p, i, n - 1) | if complete(p, i, n - 1) {
            line_bits(p, i, n - 1)
        } else {
            0u64
        }
    }
}

/// Whether some line of `p` through `i` is longer than four.
pub open spec fn over4(p: u64, i: int) -> bool {
    ||| line_len(p, i, 0) > 4
    ||| line_len(p, i, 1) > 4
    ||| line_len(p, i, 2) > 4
    ||| line_len(p, i, 3) > 4
}

/// Whether `p` holds four or more squares in an unbroken line.
pub open spec fn has_line4(p: u64) -> bool {
    exists|i: int, d: int| 0 <= i < 64 && 0 <= d < 4 && is_set(p, i) && line_len(p, i, d) >= 4
}

/// At most one line per direction.
pub proof fn lemma_lines_count_bound(p: u64, i: int, n: int)
    requires
        n >= 0,
    ensures
        lines_count(p, i, n) <= n,
    decreases n,
{
    if n > 0 {
        lemma_lines_count_bound(p, i, n - 1);
    }
}

pub proof fn lemma_run_len_bound(p: u64, c: int, r: int, dc: int, dr: int, fuel: nat)
    ensures
        run_len(p, c, r, dc, dr, fuel) <= fuel,
    decreases fuel,
{
    if fuel > 0 {
        lemma_run_len_bound(p, c + dc, r + dr, dc, dr, (fuel - 1) as nat);
    }
}

/// Every square counted by a run lies on the board and belongs to `p`.
pub proof fn lemma_run_len_cells(p: u64, c: int, r: int, dc: int, dr: int, fuel: nat, t: int)
    requires
        1 <= t <= run_len(p, c, r, dc, dr, fuel),
    ensures
        on_board(c + t * dc, r + t * dr),
        is_set(p, (c + t * dc) + 8 * (r + t * dr)),
    decreases fuel,
{
    if t > 1 {
        lemma_run_len_cells(p, c + dc, r + dr, dc, dr, (fuel - 1) as nat, t - 1);
        assert((c + dc) + (t - 1) * dc == c + t * dc) by (nonlinear_arith);
        assert((r + dr) + (t - 1) * dr == r + t * dr) by (nonlinear_arith);
    }
}

/// A run along a direction that moves never exceeds seven squares.
pub proof fn lemma_run_len_geometry(p: u64, c: int, r: int, dc: int, dr: int, fuel: nat)
    requires
        on_board(c, r),
        -1 <= dc <= 1,
        -1 <= dr <= 1,
        dc != 0 || dr != 0,
    ensures
        run_len(p, c, r, dc, dr, fuel) <= 7,
{
    let k = run_len(p, c, r, dc, dr, fuel);
    if k > 7 {
        lemma_run_len_cells(p, c, r, dc, dr, fuel, 8);
    }
}

/// The square `t` steps from `(c, r)` along `(dc, dr)` is on the board and in `p`.
pub open spec fn cell_at(p: u64, c: int, r: int, dc: int, dr: int, t: int) -> bool {
    on_board(c + t * dc, r + t * dr) && is_set(p, (c + t * dc) + 8 * (r + t * dr))
}

/// Squares of `p` on the first `n` steps from `(c, r)` make a run of at least `n`.
pub proof fn lemma_run_len_from_cells(p: u64, c: int, r: int, dc: int, dr: int, fuel: nat, n: int)
    requires
        0 <= n <= fuel,
        forall|t: int| 1 <= t <= n ==> #[trigger] cell_at(p, c, r, dc, dr, t),
    ensures
        run_len(p, c, r, dc, dr, fuel) >= n,
    decreases n,
{
    if n > 0 {
        assert(cell_at(p, c, r, dc, dr, 1));
        let c1 = c + dc;
        let r1 = r + dr;
        assert forall|t: int| 1 <= t <= n - 1 implies #[trigger] cell_at(p, c1, r1, dc, dr, t) by {
            assert(c1 + t * dc == c + (t + 1) * dc) by (nonlinear_arith)
                requires
                    c1 == c + dc,
            ;
            assert(r1 + t * dr == r + (t + 1) * dr) by (nonlinear_arith)
                requires
                    r1 == r + dr,
            ;
            assert(cell_at(p, c, r, dc, dr, t + 1));
        }
        lemma_run_len_from_cells(p, c1, r1, dc, dr, (fuel - 1) as nat, n - 1);
    }
}

/// Five squares of `p` in a line from `(c, r)` along direction `d`.
pub open spec fn five_from(p: u64, c: int, r: int, d: int) -> bool {
    forall|s: int| 0 <= s < 5 ==> #[trigger] cell_at(p, c, r, dir_dc(d), dir_dr(d), s)
}

/// Whether `p` holds five squares in an unbroken line.
pub open spec fn has_five_line(p: u64) -> bool {
    exists|c: int, r: int, d: int| 0 <= d < 4 && #[trigger] five_from(p, c, r, d)
}

} // verus!
