use vstd::prelude::*;

verus! {

/// Whether square `i` (0..64) is set in the bitboard `b`.
pub open spec fn is_set(b: u64, i: int) -> bool {
    0 <= i < 64 && (b >> (i as u64)) & 1u64 == 1u64
}

/// The bitboard holding square `i` alone.
pub open spec fn bit(i: int) -> u64 {
    1u64 << (i as u64)
}

pub broadcast proof fn lemma_set_or(a: u64, b: u64, i: int)
    ensures
        #[trigger] is_set(a | b, i) == (is_set(a, i) || is_set(b, i)),
{
    if 0 <= i < 64 {
        let k = i as u64;
        assert(((a | b) >> k) & 1u64 == 1u64 <==> ((a >> k) & 1u64 == 1u64 || (b >> k) & 1u64
            == 1u64)) by (bit_vector)
            requires
                k < 64,
        ;
    }
}

pub broadcast proof fn lemma_set_and(a: u64, b: u64, i: int)
    ensures
        #[trigger] is_set(a & b, i) == (is_set(a, i) && is_set(b, i)),
{
    if 0 <= i < 64 {
        let k = i as u64;
        assert(((a & b) >> k) & 1u64 == 1u64 <==> ((a >> k) & 1u64 == 1u64 && (b >> k) & 1u64
            == 1u64)) by (bit_vector)
            requires
                k < 64,
        ;
    }
}

pub broadcast proof fn lemma_set_not(a: u64, i: int)
    ensures
        #[trigger] is_set(!a, i) == (0 <= i < 64 && !is_set(a, i)),
{
    if 0 <= i < 64 {
        let k = i as u64;
        assert(((!a) >> k) & 1u64 == 1u64 <==> !((a >> k) & 1u64 == 1u64)) by (bit_vector)
            requires
                k < 64,
        ;
    }
}

pub broadcast proof fn lemma_set_bit(j: int, i: int)
    requires
        0 <= j < 64,
    ensures
        #[trigger] is_set(bit(j), i) == (i == j),
{
    let kj = j as u64;
    if 0 <= i < 64 {
        let k = i as u64;
        assert(((1u64 << kj) >> k) & 1u64 == 1u64 <==> k == kj) by (bit_vector)
            requires
                k < 64,
                kj < 64,
        ;
    }
}

pub broadcast proof fn lemma_set_zero(i: int)
    ensures
        !#[trigger] is_set(0u64, i),
{
    if 0 <= i < 64 {
        let k = i as u64;
        assert((0u64 >> k) & 1u64 != 1u64) by (bit_vector);
    }
}

proof fn lemma_low_agree(a: u64, b: u64, n: u64)
    requires
        n <= 63,
        forall|i: int| 0 <= i < 64 ==> is_set(a, i) == is_set(b, i),
    ensures
        a & !(0xffff_ffff_ffff_ffffu64 << n) == b & !(0xffff_ffff_ffff_ffffu64 << n),
    decreases n,
{
    if n == 0 {
        assert(a & !(0xffff_ffff_ffff_ffffu64 << 0u64) == 0u64) by (bit_vector);
        assert(b & !(0xffff_ffff_ffff_ffffu64 << 0u64) == 0u64) by (bit_vector);
    } else {
        let m = (n - 1) as u64;
        lemma_low_agree(a, b, m);
        assert(is_set(a, m as int) == is_set(b, m as int));
        assert((a >> m) & 1u64 == (b >> m) & 1u64) by (bit_vector)
            requires
                ((a >> m) & 1u64 == 1u64) == ((b >> m) & 1u64 == 1u64),
        ;
        assert(a & !(0xffff_ffff_ffff_ffffu64 << n) == b & !(0xffff_ffff_ffff_ffffu64 << n)) by (bit_vector)
            requires
                m < 63,
                n == m + 1,
                a & !(0xffff_ffff_ffff_ffffu64 << m) == b & !(0xffff_ffff_ffff_ffffu64 << m),
                (a >> m) & 1u64 == (b >> m) & 1u64,
        ;
    }
}

/// Two bitboards with the same squares are equal.
pub proof fn lemma_bits_ext(a: u64, b: u64)
    requires
        forall|i: int| 0 <= i < 64 ==> is_set(a, i) == is_set(b, i),
    ensures
        a == b,
{
    lemma_low_agree(a, b, 63);
    assert(is_set(a, 63) == is_set(b, 63));
    assert(a == b) by (bit_vector)
        requires
            a & !(0xffff_ffff_ffff_ffffu64 << 63u64) == b & !(0xffff_ffff_ffff_ffffu64 << 63u64),
            ((a >> 63u64) & 1u64 == 1u64) == ((b >> 63u64) & 1u64 == 1u64),
    ;
}

/// A bitboard with no square set is zero.
pub proof fn lemma_bits_zero(a: u64)
    ensures
        a == 0 <==> forall|i: int| 0 <= i < 64 ==> !is_set(a, i),
{
    broadcast use lemma_set_zero;

    if forall|i: int| 0 <= i < 64 ==> !is_set(a, i) {
        lemma_bits_ext(a, 0);
    }
}

/// Masking with a single square tests that square.
pub broadcast proof fn lemma_and_bit(x: u64, i: int)
    requires
        0 <= i < 64,
    ensures
        #[trigger] (x & bit(i)) == 0u64 <==> !is_set(x, i),
{
    let k = i as u64;
    assert((x & (1u64 << k)) == 0u64 <==> !((x >> k) & 1u64 == 1u64)) by (bit_vector)
        requires
            k < 64,
    ;
}

/// Shifting right by `s` moves square `j + s` to square `j`.
pub proof fn lemma_shr(x: u64, s: u64, j: int)
    requires
        s < 64,
    ensures
        is_set(x >> s, j) == (0 <= j && j + s < 64 && is_set(x, j + s)),
{
    if 0 <= j < 64 {
        let k = j as u64;
        assert(((x >> s) >> k) & 1u64 == 1u64 <==> (k + s < 64 && (x >> (k + s)) & 1u64 == 1u64))
            by (bit_vector)
            requires
                k < 64,
                s < 64,
        ;
    }
}

/// Shifting left by `s` moves square `j - s` to square `j`.
pub proof fn lemma_shl(x: u64, s: u64, j: int)
    requires
        s < 64,
    ensures
        is_set(x << s, j) == (0 <= j < 64 && j >= s && is_set(x, j - s)),
{
    if 0 <= j < 64 {
        let k = j as u64;
        assert(((x << s) >> k) & 1u64 == 1u64 <==> (k >= s && (x >> (k - s) as u64) & 1u64 == 1u64))
            by (bit_vector)
            requires
                k < 64,
                s < 64,
        ;
    }
}

pub broadcast group group_bits {
    lemma_and_bit,
    lemma_set_or,
    lemma_set_and,
    lemma_set_not,
    lemma_set_bit,
    lemma_set_zero,
}

} // verus!
