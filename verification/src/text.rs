use vstd::prelude::*;
use vstd::string::StringSliceAdditionalSpecFns;
use vstd::utf8::*;

verus! {

/// Unicode `White_Space`, the set that `char::is_whitespace` accepts.
pub open spec fn is_ws(c: char) -> bool {
    let u = c as u32;
    ||| 0x09 <= u <= 0x0D
    ||| u == 0x20
    ||| u == 0x85
    ||| u == 0xA0
    ||| u == 0x1680
    ||| 0x2000 <= u <= 0x200A
    ||| u == 0x2028
    ||| u == 0x2029
    ||| u == 0x202F
    ||| u == 0x205F
    ||| u == 0x3000
}

pub fn char_is_ws(c: char) -> (r: bool)
    ensures
        r == is_ws(c),
{
    let u = c as u32;
    (0x09 <= u && u <= 0x0D) || u == 0x20 || u == 0x85 || u == 0xA0 || u == 0x1680 || (0x2000 <= u
        && u <= 0x200A) || u == 0x2028 || u == 0x2029 || u == 0x202F || u == 0x205F || u == 0x3000
}

/// Calls `String::push`.
///
/// Claimed: the string afterwards is the one before with `c` appended.
#[verifier::external_body]
pub(crate) fn push_char(s: &mut String, c: char)
    ensures
        final(s)@ == old(s)@.push(c),
{
    s.push(c);
}

/// The characters of a string slice.
pub fn chars_of(s: &str) -> (v: Vec<char>)
    ensures
        v@ == s@,
{
    let mut v: Vec<char> = Vec::new();
    for c in it: s.chars()
        invariant
            v@ == it.seq().take(it.index() as int),
            it.seq() == s@,
    {
        v.push(c);
    }
    v
}

} // verus!

verus! {

/// The whitespace-separated tokens of `cs`, as `str::split_whitespace` yields them.
pub open spec fn split_ws(cs: Seq<char>) -> Seq<Seq<char>>
    decreases cs.len(),
{
    if cs.len() == 0 {
        seq![]
    } else {
        let init = split_ws(cs.drop_last());
        let c = cs.last();
        if is_ws(c) {
            init
        } else if cs.len() > 1 && !is_ws(cs[cs.len() - 2]) {
            init.update(init.len() - 1, init.last().push(c))
        } else {
            init.push(seq![c])
        }
    }
}

/// Whitespace at the end adds no token.
pub proof fn lemma_split_ws_trailing(cs: Seq<char>, c: char)
    requires
        is_ws(c),
    ensures
        split_ws(cs.push(c)) == split_ws(cs),
{
    assert(cs.push(c).drop_last() =~= cs);
}

/// A run of non-whitespace after whitespace (or at the start) is one more token.
pub proof fn lemma_split_ws_append(pre: Seq<char>, w: Seq<char>)
    requires
        pre.len() == 0 || is_ws(pre.last()),
        w.len() > 0,
        forall|j: int| 0 <= j < w.len() ==> !is_ws(#[trigger] w[j]),
    ensures
        split_ws(pre + w) == split_ws(pre).push(w),
    decreases w.len(),
{
    let cs = pre + w;
    let c = w.last();
    assert(!is_ws(w[w.len() - 1]));
    assert(cs.drop_last() =~= pre + w.drop_last());
    assert(cs.last() == c);
    if w.len() == 1 {
        assert(pre + w.drop_last() =~= pre);
        assert(w =~= seq![c]);
        if cs.len() > 1 {
            assert(cs[cs.len() - 2] == pre.last());
        }
    } else {
        let v = w.drop_last();
        assert forall|j: int| 0 <= j < v.len() implies !is_ws(#[trigger] v[j]) by {
            assert(v[j] == w[j]);
        }
        lemma_split_ws_append(pre, v);
        assert(cs[cs.len() - 2] == w[w.len() - 2]);
        assert(v.push(c) =~= w);
    }
}

pub open spec fn ranges_view(cs: Seq<char>, r: Seq<(usize, usize)>) -> Seq<Seq<char>> {
    r.map_values(|p: (usize, usize)| cs.subrange(p.0 as int, p.1 as int))
}

/// A copy of `cs[a..b]`.
pub fn sub_chars(cs: &Vec<char>, a: usize, b: usize) -> (r: Vec<char>)
    requires
        a <= b <= cs.len(),
    ensures
        r@ == cs@.subrange(a as int, b as int),
{
    let mut r: Vec<char> = Vec::new();
    let mut i = a;
    while i < b
        invariant
            a <= i <= b <= cs.len(),
            r@ == cs@.subrange(a as int, i as int),
        decreases b - i,
    {
        r.push(cs[i]);
        i += 1;
    }
    r
}

/// `str::split_whitespace`, on characters.
pub fn split_whitespace(cs: &Vec<char>) -> (r: Vec<Vec<char>>)
    ensures
        r.deep_view() == split_ws(cs@),
{
    let mut ranges: Vec<(usize, usize)> = Vec::new();
    let mut i: usize = 0;
    while i < cs.len()
        invariant
            i <= cs.len(),
            ranges_view(cs@, ranges@) == split_ws(cs@.take(i as int)),
            forall|k: int| 0 <= k < ranges.len() ==> #[trigger] ranges@[k].0 < ranges@[k].1 <= i,
            i > 0 && !is_ws(cs@[i - 1]) ==> ranges.len() > 0 && ranges@.last().1 == i,
        decreases cs.len() - i,
    {
        let c = cs[i];
        let ghost old_ranges = ranges@;
        assert(cs@.take(i + 1).drop_last() =~= cs@.take(i as int));
        if char_is_ws(c) {
        } else if i > 0 && !char_is_ws(cs[i - 1]) {
            let last = ranges.len() - 1;
            let start = ranges[last].0;
            ranges.set(last, (start, i + 1));
            proof {
                assert forall|k: int| 0 <= k < ranges.len() implies #[trigger] ranges@[k].0
                    < ranges@[k].1 <= i + 1 by {
                    assert(old_ranges[k].0 < old_ranges[k].1);
                    if k != last {
                        assert(ranges@[k] == old_ranges[k]);
                    } else {
                        assert(ranges@[k] == (start, (i + 1) as usize));
                        assert(start == old_ranges[k].0);
                        assert(old_ranges[k].1 == i);
                    }
                }
                assert(cs@.take(i + 1)[i - 1] == cs@[i - 1]);
                let prev = split_ws(cs@.take(i as int));
                assert(prev.last() == cs@.subrange(start as int, i as int));
                assert(cs@.subrange(start as int, i + 1) =~= prev.last().push(c));
                assert(ranges_view(cs@, ranges@) =~= prev.update(
                    prev.len() - 1,
                    prev.last().push(c),
                ));
            }
        } else {
            ranges.push((i, i + 1));
            proof {
                assert forall|k: int| 0 <= k < ranges.len() implies #[trigger] ranges@[k].0
                    < ranges@[k].1 <= i + 1 by {
                    if k < old_ranges.len() {
                        assert(old_ranges[k].0 < old_ranges[k].1);
                        assert(ranges@[k] == old_ranges[k]);
                    } else {
                        assert(ranges@[k] == (i, (i + 1) as usize));
                    }
                }
                let prev = split_ws(cs@.take(i as int));
                assert(cs@.subrange(i as int, i + 1) =~= seq![c]);
                assert(ranges_view(cs@, ranges@) =~= prev.push(seq![c]));
            }
        }
        i += 1;
    }
    assert(cs@.take(cs.len() as int) =~= cs@);
    let mut r: Vec<Vec<char>> = Vec::new();
    let mut k: usize = 0;
    while k < ranges.len()
        invariant
            k <= ranges.len(),
            i == cs.len(),
            forall|j: int| 0 <= j < ranges.len() ==> #[trigger] ranges@[j].0 < ranges@[j].1 <= i,
            r.deep_view() =~= ranges_view(cs@, ranges@).take(k as int),
        decreases ranges.len() - k,
    {
        let (a, b) = ranges[k];
        let t = sub_chars(cs, a, b);
        let ghost old_r = r.deep_view();
        r.push(t);
        proof {
            assert(t.deep_view() =~= t@);
            assert(r.deep_view() =~= old_r.push(t@));
            assert(ranges_view(cs@, ranges@).take(k + 1) =~= ranges_view(cs@, ranges@).take(
                k as int,
            ).push(t@));
        }
        k += 1;
    }
    r
}

} // verus!

verus! {

pub open spec fn digit_char(d: int) -> char {
    ((d + 48) as u8) as char
}

/// The decimal notation of `n`, without sign or leading zeros.
pub open spec fn decimal(n: nat) -> Seq<char>
    decreases n,
{
    if n < 10 {
        seq![digit_char(n as int)]
    } else {
        decimal(n / 10).push(digit_char((n % 10) as int))
    }
}

/// Appends the decimal notation of `n`.
pub fn push_decimal(s: &mut String, n: u64)
    ensures
        final(s)@ == old(s)@ + decimal(n as nat),
    decreases n,
{
    if n >= 10 {
        push_decimal(s, n / 10);
    }
    let d = (n % 10) as u8;
    push_char(s, (48u8 + d) as char);
    proof {
        assert(final(s)@ =~= old(s)@ + decimal(n as nat));
    }
}

/// The decimal notation is a nonempty run of digits whose value is the number.
pub proof fn lemma_decimal(n: nat)
    ensures
        decimal(n).len() > 0,
        all_digits(decimal(n)),
        digits_value(decimal(n)) == n,
    decreases n,
{
    if n >= 10 {
        lemma_decimal(n / 10);
        let d = decimal(n);
        assert(d.drop_last() =~= decimal(n / 10));
        let m = (n % 10) as int;
        assert(0 <= m < 10);
        assert(d.last() == digit_char(m));
        assert((digit_char(m) as nat) == m + 48);
        assert((n / 10) * 10 + m == n) by (nonlinear_arith)
            requires
                m == n % 10,
        ;
        assert forall|i: int| 0 <= i < d.len() implies is_digit(#[trigger] d[i]) by {
            if i < d.len() - 1 {
                assert(d[i] == decimal(n / 10)[i]);
            }
        }
        assert(digits_value(d) == digits_value(decimal(n / 10)) * 10 + m);
    } else {
        let d = decimal(n);
        assert(d.drop_last() =~= Seq::<char>::empty());
        assert((digit_char(n as int) as nat) == n + 48);
        assert(digits_value(d) == digits_value(d.drop_last()) * 10 + n);
    }
}

/// `str::parse::<u8>` reads the decimal notation of a byte back.
pub proof fn lemma_parse_u8_decimal(n: nat)
    requires
        n <= 255,
    ensures
        spec_parse_u8(decimal(n)) == Some(n as u8),
{
    lemma_decimal(n);
    assert(is_digit(decimal(n)[0]));
}

pub open spec fn is_digit(c: char) -> bool {
    '0' <= c <= '9'
}

pub open spec fn all_digits(cs: Seq<char>) -> bool {
    forall|i: int| 0 <= i < cs.len() ==> is_digit(#[trigger] cs[i])
}

/// The value of a string of decimal digits.
pub open spec fn digits_value(cs: Seq<char>) -> nat
    decreases cs.len(),
{
    if cs.len() == 0 {
        0
    } else {
        digits_value(cs.drop_last()) * 10 + ((cs.last() as nat) - 48) as nat
    }
}

/// What `str::parse::<u8>` accepts: an optional `+`, then one or more digits of value at most 255.
pub open spec fn spec_parse_u8(cs: Seq<char>) -> Option<u8> {
    let ds = if cs.len() > 1 && cs[0] == '+' {
        cs.drop_first()
    } else {
        cs
    };
    if ds.len() > 0 && all_digits(ds) && digits_value(ds) <= 255 {
        Some(digits_value(ds) as u8)
    } else {
        None
    }
}

proof fn lemma_digits_value_mono(cs: Seq<char>, k: int)
    requires
        0 <= k <= cs.len(),
        all_digits(cs),
    ensures
        digits_value(cs.take(k)) <= digits_value(cs),
    decreases cs.len() - k,
{
    if k == cs.len() {
        assert(cs.take(k) =~= cs);
    } else {
        lemma_digits_value_mono(cs, k + 1);
        assert(cs.take(k + 1).drop_last() =~= cs.take(k));
        assert(cs.take(k + 1).last() == cs[k]);
        assert(is_digit(cs[k]));
    }
}

/// `str::parse::<u8>` on characters.
pub fn parse_u8(cs: &Vec<char>) -> (r: Option<u8>)
    ensures
        r == spec_parse_u8(cs@),
{
    let start: usize = if cs.len() > 1 && cs[0] == '+' {
        1
    } else {
        0
    };
    let ghost ds = cs@.subrange(start as int, cs.len() as int);
    assert(ds =~= if cs@.len() > 1 && cs@[0] == '+' {
        cs@.drop_first()
    } else {
        cs@
    });
    if start == cs.len() {
        return None;
    }
    let mut v: u32 = 0;
    let mut i = start;
    while i < cs.len()
        invariant
            start <= i <= cs.len(),
            ds == cs@.subrange(start as int, cs.len() as int),
            ds == (if cs@.len() > 1 && cs@[0] == '+' {
                cs@.drop_first()
            } else {
                cs@
            }),
            all_digits(cs@.subrange(start as int, i as int)),
            v == digits_value(cs@.subrange(start as int, i as int)),
            v <= 255,
        decreases cs.len() - i,
    {
        let c = cs[i];
        if !('0' <= c && c <= '9') {
            assert(ds[i - start] == cs@[i as int]);
            assert(!is_digit(ds[i - start]));
            assert(!all_digits(ds));
            return None;
        }
        assert(cs@.subrange(start as int, i + 1).drop_last() =~= cs@.subrange(
            start as int,
            i as int,
        ));
        let nv = v * 10 + ((c as u32) - 48);
        assert(cs@.subrange(start as int, i + 1).last() == c);
        assert(nv == digits_value(cs@.subrange(start as int, i + 1)));
        if nv > 255 {
            proof {
                if all_digits(ds) {
                    assert(ds.take(i + 1 - start) =~= cs@.subrange(start as int, i + 1));
                    lemma_digits_value_mono(ds, i + 1 - start);
                }
                assert(!(all_digits(ds) && digits_value(ds) <= 255));
            }
            return None;
        }
        v = nv;
        i += 1;
    }
    Some(v as u8)
}

} // verus!

verus! {

/// The pieces of `cs` between occurrences of `sep`, as `str::split` yields them.
pub open spec fn split_on(cs: Seq<char>, sep: char) -> Seq<Seq<char>>
    decreases cs.len(),
{
    if cs.len() == 0 {
        seq![seq![]]
    } else {
        let init = split_on(cs.drop_last(), sep);
        if cs.last() == sep {
            init.push(seq![])
        } else {
            init.update(init.len() - 1, init.last().push(cs.last()))
        }
    }
}

proof fn lemma_split_on_nonempty(cs: Seq<char>, sep: char)
    ensures
        split_on(cs, sep).len() >= 1,
    decreases cs.len(),
{
    if cs.len() > 0 {
        lemma_split_on_nonempty(cs.drop_last(), sep);
    }
}

/// Characters other than the separator extend the last piece.
pub proof fn lemma_split_on_extend(x: Seq<char>, w: Seq<char>, sep: char)
    requires
        forall|j: int| 0 <= j < w.len() ==> #[trigger] w[j] != sep,
    ensures
        split_on(x + w, sep) == split_on(x, sep).update(
            split_on(x, sep).len() - 1,
            split_on(x, sep).last() + w,
        ),
    decreases w.len(),
{
    lemma_split_on_nonempty(x, sep);
    let sx = split_on(x, sep);
    if w.len() == 0 {
        assert(x + w =~= x);
        assert(sx.update(sx.len() - 1, sx.last() + w) =~= sx);
    } else {
        let v = w.drop_last();
        assert forall|j: int| 0 <= j < v.len() implies #[trigger] v[j] != sep by {
            assert(v[j] == w[j]);
        }
        lemma_split_on_extend(x, v, sep);
        assert((x + w).drop_last() =~= x + v);
        assert((x + w).last() == w[w.len() - 1]);
        assert((sx.last() + v).push(w[w.len() - 1]) =~= sx.last() + w);
        assert(split_on(x + w, sep) =~= sx.update(sx.len() - 1, sx.last() + w));
    }
}

/// A separator starts a new, empty piece.
pub proof fn lemma_split_on_sep(x: Seq<char>, sep: char)
    ensures
        split_on(x.push(sep), sep) == split_on(x, sep).push(seq![]),
{
    assert(x.push(sep).drop_last() =~= x);
}

/// `str::split` on one character.
pub fn split_char(cs: &Vec<char>, sep: char) -> (r: Vec<Vec<char>>)
    ensures
        r.deep_view() == split_on(cs@, sep),
{
    let mut starts: Vec<usize> = Vec::new();
    starts.push(0);
    let mut i: usize = 0;
    while i < cs.len()
        invariant
            i <= cs.len(),
            starts.len() >= 1,
            starts@[0] == 0,
            forall|k: int| 0 <= k < starts.len() ==> #[trigger] starts@[k] <= i,
            forall|k: int| 0 <= k && k + 1 < starts.len() ==> #[trigger] starts@[k] < starts@[k + 1],
            split_on(cs@.take(i as int), sep).len() == starts.len(),
            forall|k: int|
                0 <= k < starts.len() ==> #[trigger] split_on(cs@.take(i as int), sep)[k]
                    == cs@.subrange(
                    starts@[k] as int,
                    if k + 1 < starts.len() {
                        starts@[k + 1] - 1
                    } else {
                        i as int
                    },
                ),
            forall|k: int| 0 < k < starts.len() ==> #[trigger] starts@[k] >= 1,
        decreases cs.len() - i,
    {
        let ghost old_starts = starts@;
        let ghost prev = split_on(cs@.take(i as int), sep);
        assert(cs@.take(i + 1).drop_last() =~= cs@.take(i as int));
        assert(cs@.take(i + 1).last() == cs@[i as int]);
        if cs[i] == sep {
            starts.push(i + 1);
            proof {
                let cur = split_on(cs@.take(i + 1), sep);
                assert(cur == prev.push(seq![]));
                assert forall|k: int| 0 <= k < starts.len() implies #[trigger] cur[k] == cs@.subrange(
                    starts@[k] as int,
                    if k + 1 < starts.len() {
                        starts@[k + 1] - 1
                    } else {
                        (i + 1) as int
                    },
                ) by {
                    if k + 1 < old_starts.len() {
                        assert(cur[k] == prev[k]);
                    } else if k + 1 == old_starts.len() {
                        assert(cur[k] == prev[k]);
                        assert(starts@[k + 1] - 1 == i);
                    } else {
                        assert(cs@.subrange((i + 1) as int, (i + 1) as int) =~= Seq::<char>::empty());
                    }
                }
                assert forall|k: int| 0 <= k < starts.len() implies #[trigger] starts@[k] <= i + 1 by {
                    if k < old_starts.len() {
                        assert(old_starts[k] <= i);
                    }
                }
                assert forall|k: int| 0 <= k && k + 1 < starts.len() implies #[trigger] starts@[k]
                    < starts@[k + 1] by {
                    if k + 1 < old_starts.len() {
                        assert(old_starts[k] < old_starts[k + 1]);
                    } else {
                        assert(old_starts[k] <= i);
                    }
                }
            }
        } else {
            proof {
                let cur = split_on(cs@.take(i + 1), sep);
                lemma_split_on_nonempty(cs@.take(i as int), sep);
                let last = prev.len() - 1;
                assert(cur == prev.update(last, prev.last().push(cs@[i as int])));
                assert forall|k: int| 0 <= k < starts.len() implies #[trigger] cur[k] == cs@.subrange(
                    starts@[k] as int,
                    if k + 1 < starts.len() {
                        starts@[k + 1] - 1
                    } else {
                        (i + 1) as int
                    },
                ) by {
                    if k < last {
                        assert(cur[k] == prev[k]);
                    } else {
                        assert(starts@[k] <= i);
                        assert(prev[k] == cs@.subrange(starts@[k] as int, i as int));
                        assert(cs@.subrange(starts@[k] as int, i + 1) =~= prev[k].push(
                            cs@[i as int],
                        ));
                    }
                }
            }
        }
        i += 1;
    }
    assert(cs@.take(cs.len() as int) =~= cs@);
    let mut r: Vec<Vec<char>> = Vec::new();
    let mut k: usize = 0;
    while k < starts.len()
        invariant
            k <= starts.len(),
            i == cs.len(),
            starts.len() >= 1,
            forall|j: int| 0 <= j < starts.len() ==> #[trigger] starts@[j] <= i,
            forall|j: int| 0 <= j && j + 1 < starts.len() ==> #[trigger] starts@[j] < starts@[j + 1],
            forall|j: int| 0 < j < starts.len() ==> #[trigger] starts@[j] >= 1,
            split_on(cs@, sep).len() == starts.len(),
            forall|j: int|
                0 <= j < starts.len() ==> #[trigger] split_on(cs@, sep)[j] == cs@.subrange(
                    starts@[j] as int,
                    if j + 1 < starts.len() {
                        starts@[j + 1] - 1
                    } else {
                        i as int
                    },
                ),
            r.deep_view() =~= split_on(cs@, sep).take(k as int),
        decreases starts.len() - k,
    {
        let a = starts[k];
        let b = if k + 1 < starts.len() {
            starts[k + 1] - 1
        } else {
            cs.len()
        };
        proof {
            if k + 1 < starts.len() {
                assert(starts@[k as int] < starts@[k + 1]);
                assert(starts@[k + 1] <= i);
            }
        }
        let t = sub_chars(cs, a, b);
        let ghost old_r = r.deep_view();
        r.push(t);
        proof {
            assert(t.deep_view() =~= t@);
            assert(r.deep_view() =~= old_r.push(t@));
            assert(split_on(cs@, sep).take(k + 1) =~= split_on(cs@, sep).take(k as int).push(
                split_on(cs@, sep)[k as int],
            ));
        }
        k += 1;
    }
    assert(split_on(cs@, sep).take(starts.len() as int) =~= split_on(cs@, sep));
    r
}

/// Appends the characters of a string slice.
pub fn push_str(s: &mut String, t: &str)
    ensures
        final(s)@ == old(s)@ + t@,
{
    let cs = chars_of(t);
    let mut i: usize = 0;
    while i < cs.len()
        invariant
            i <= cs.len(),
            cs@ == t@,
            s@ == old(s)@ + t@.take(i as int),
        decreases cs.len() - i,
    {
        push_char(s, cs[i]);
        proof {
            assert(t@.take(i + 1) =~= t@.take(i as int).push(cs@[i as int]));
        }
        i += 1;
    }
    assert(t@.take(cs.len() as int) =~= t@);
}

/// Appends characters.
pub fn push_chars(s: &mut String, cs: &Vec<char>)
    ensures
        final(s)@ == old(s)@ + cs@,
{
    let mut i: usize = 0;
    while i < cs.len()
        invariant
            i <= cs.len(),
            s@ == old(s)@ + cs@.take(i as int),
        decreases cs.len() - i,
    {
        push_char(s, cs[i]);
        proof {
            assert(cs@.take(i + 1) =~= cs@.take(i as int).push(cs@[i as int]));
        }
        i += 1;
    }
    assert(cs@.take(cs.len() as int) =~= cs@);
}

/// A `String` holding the given characters.
pub fn string_of(cs: &Vec<char>) -> (r: String)
    ensures
        r@ == cs@,
{
    let mut s = String::new();
    push_chars(&mut s, cs);
    s
}

} // verus!

verus! {

/// The index of the first `c` in `cs`.
pub open spec fn find_char(cs: Seq<char>, c: char) -> Option<int>
    decreases cs.len(),
{
    if cs.len() == 0 {
        None
    } else if cs[0] == c {
        Some(0)
    } else {
        match find_char(cs.drop_first(), c) {
            None => None,
            Some(k) => Some(k + 1),
        }
    }
}

pub proof fn lemma_find_char(cs: Seq<char>, c: char, i: int)
    requires
        0 <= i <= cs.len(),
        forall|j: int| 0 <= j < i ==> cs[j] != c,
        i == cs.len() || cs[i] == c,
    ensures
        find_char(cs, c) == if i == cs.len() {
            None
        } else {
            Some(i)
        },
    decreases i,
{
    if i > 0 {
        lemma_find_char(cs.drop_first(), c, i - 1);
    }
}

/// `str::find` of one character, as a character index.
pub fn find(cs: &Vec<char>, c: char) -> (r: Option<usize>)
    ensures
        match r {
            Some(i) => find_char(cs@, c) == Some(i as int),
            None => find_char(cs@, c) == None::<int>,
        },
{
    let mut i: usize = 0;
    while i < cs.len()
        invariant
            i <= cs.len(),
            forall|j: int| 0 <= j < i ==> cs@[j] != c,
        decreases cs.len() - i,
    {
        if cs[i] == c {
            proof {
                lemma_find_char(cs@, c, i as int);
            }
            return Some(i);
        }
        i += 1;
    }
    proof {
        lemma_find_char(cs@, c, i as int);
    }
    None
}

pub proof fn lemma_find_bound(cs: Seq<char>, c: char)
    ensures
        find_char(cs, c) matches Some(i) ==> 0 <= i < cs.len() && cs[i] == c,
    decreases cs.len(),
{
    if cs.len() > 0 && cs[0] != c {
        lemma_find_bound(cs.drop_first(), c);
    }
}

pub open spec fn trim_start(cs: Seq<char>) -> Seq<char>
    decreases cs.len(),
{
    if cs.len() > 0 && is_ws(cs[0]) {
        trim_start(cs.drop_first())
    } else {
        cs
    }
}

pub open spec fn trim_end(cs: Seq<char>) -> Seq<char>
    decreases cs.len(),
{
    if cs.len() > 0 && is_ws(cs.last()) {
        trim_end(cs.drop_last())
    } else {
        cs
    }
}

/// `str::trim`: whitespace removed from both ends.
pub open spec fn trim(cs: Seq<char>) -> Seq<char> {
    trim_end(trim_start(cs))
}

proof fn lemma_trim_start_first(cs: Seq<char>)
    ensures
        trim_start(cs).len() == 0 || !is_ws(trim_start(cs)[0]),
    decreases cs.len(),
{
    if cs.len() > 0 && is_ws(cs[0]) {
        lemma_trim_start_first(cs.drop_first());
    }
}

/// `trim_end` keeps a prefix that does not end in whitespace, and drops only whitespace.
pub proof fn lemma_trim_end_shape(cs: Seq<char>)
    ensures
        trim_end(cs).len() <= cs.len(),
        trim_end(cs) == cs.take(trim_end(cs).len() as int),
        trim_end(cs).len() == 0 || !is_ws(trim_end(cs).last()),
        forall|j: int| trim_end(cs).len() <= j < cs.len() ==> is_ws(#[trigger] cs[j]),
    decreases cs.len(),
{
    if cs.len() > 0 && is_ws(cs.last()) {
        lemma_trim_end_shape(cs.drop_last());
        let t = trim_end(cs.drop_last());
        assert(cs.drop_last().take(t.len() as int) =~= cs.take(t.len() as int));
        assert forall|j: int| t.len() <= j < cs.len() implies is_ws(#[trigger] cs[j]) by {
            if j < cs.len() - 1 {
                assert(cs[j] == cs.drop_last()[j]);
            }
        }
    } else {
        assert(cs.take(cs.len() as int) =~= cs);
    }
}

/// A trimmed text, if not empty, starts and ends with a character that is not whitespace.
pub proof fn lemma_trim_ends(cs: Seq<char>)
    ensures
        trim(cs).len() == 0 || (!is_ws(trim(cs)[0]) && !is_ws(trim(cs).last())),
{
    lemma_trim_start_first(cs);
    lemma_trim_end_shape(trim_start(cs));
    if trim(cs).len() > 0 {
        assert(trim(cs)[0] == trim_start(cs)[0]);
    }
}

/// Trimming twice is trimming once.
pub proof fn lemma_trim_idempotent(cs: Seq<char>)
    ensures
        trim(trim(cs)) == trim(cs),
{
    let a = trim_start(cs);
    let t = trim(cs);
    lemma_trim_start_first(cs);
    lemma_trim_end_shape(a);
    if t.len() > 0 {
        assert(t[0] == a[0]);
        assert(trim_start(t) == t);
        assert(trim_end(t) == t);
    } else {
        assert(trim_start(t) == t);
    }
}

pub proof fn lemma_trim_start(cs: Seq<char>, a: int)
    requires
        0 <= a <= cs.len(),
        forall|j: int| 0 <= j < a ==> is_ws(cs[j]),
        a == cs.len() || !is_ws(cs[a]),
    ensures
        trim_start(cs) == cs.skip(a),
    decreases a,
{
    if a == 0 {
        assert(cs.skip(0) =~= cs);
    } else {
        lemma_trim_start(cs.drop_first(), a - 1);
        assert(cs.drop_first().skip(a - 1) =~= cs.skip(a));
    }
}

pub proof fn lemma_trim_end(cs: Seq<char>, b: int)
    requires
        0 <= b <= cs.len(),
        forall|j: int| b <= j < cs.len() ==> is_ws(cs[j]),
        b == 0 || !is_ws(cs[b - 1]),
    ensures
        trim_end(cs) == cs.take(b),
    decreases cs.len() - b,
{
    if b == cs.len() {
        assert(cs.take(b) =~= cs);
    } else {
        lemma_trim_end(cs.drop_last(), b);
        assert(cs.drop_last().take(b) =~= cs.take(b));
    }
}

/// `str::trim` on characters.
pub fn trim_chars(cs: &Vec<char>) -> (r: Vec<char>)
    ensures
        r@ == trim(cs@),
{
    let mut a: usize = 0;
    while a < cs.len() && char_is_ws(cs[a])
        invariant
            a <= cs.len(),
            forall|j: int| 0 <= j < a ==> is_ws(cs@[j]),
        decreases cs.len() - a,
    {
        a += 1;
    }
    proof {
        lemma_trim_start(cs@, a as int);
    }
    let ghost t = cs@.skip(a as int);
    let mut b: usize = cs.len();
    while b > a && char_is_ws(cs[b - 1])
        invariant
            a <= b <= cs.len(),
            forall|j: int| b <= j < cs.len() ==> is_ws(cs@[j]),
        decreases b,
    {
        b -= 1;
    }
    proof {
        lemma_trim_end(t, b - a);
        assert(t.take(b - a) =~= cs@.subrange(a as int, b as int));
    }
    sub_chars(cs, a, b)
}

pub open spec fn starts_with(cs: Seq<char>, pat: Seq<char>) -> bool {
    cs.len() >= pat.len() && cs.take(pat.len() as int) == pat
}

pub open spec fn ends_with_char(cs: Seq<char>, c: char) -> bool {
    cs.len() > 0 && cs.last() == c
}

/// Number of trailing `c` characters.
pub open spec fn trailing_count(cs: Seq<char>, c: char) -> nat
    decreases cs.len(),
{
    if cs.len() > 0 && cs.last() == c {
        trailing_count(cs.drop_last(), c) + 1
    } else {
        0
    }
}

pub proof fn lemma_trailing_count(cs: Seq<char>, c: char, b: int)
    requires
        0 <= b <= cs.len(),
        forall|j: int| b <= j < cs.len() ==> cs[j] == c,
        b == 0 || cs[b - 1] != c,
    ensures
        trailing_count(cs, c) == cs.len() - b,
    decreases cs.len() - b,
{
    if b < cs.len() {
        lemma_trailing_count(cs.drop_last(), c, b);
    }
}

/// `cs` without its trailing `.` and `,` characters (`str::trim_end_matches(['.', ','])`).
pub open spec fn trim_end_dots(cs: Seq<char>) -> Seq<char>
    decreases cs.len(),
{
    if cs.len() > 0 && (cs.last() == '.' || cs.last() == ',') {
        trim_end_dots(cs.drop_last())
    } else {
        cs
    }
}

pub proof fn lemma_trim_end_dots(cs: Seq<char>, b: int)
    requires
        0 <= b <= cs.len(),
        forall|j: int| b <= j < cs.len() ==> cs[j] == '.' || cs[j] == ',',
        b == 0 || !(cs[b - 1] == '.' || cs[b - 1] == ','),
    ensures
        trim_end_dots(cs) == cs.take(b),
    decreases cs.len() - b,
{
    if b == cs.len() {
        assert(cs.take(b) =~= cs);
    } else {
        lemma_trim_end_dots(cs.drop_last(), b);
        assert(cs.drop_last().take(b) =~= cs.take(b));
    }
}

/// Whether `cs` holds `c`.
pub fn contains_char(cs: &Vec<char>, c: char) -> (r: bool)
    ensures
        r == (find_char(cs@, c) is Some),
{
    match find(cs, c) {
        Some(_) => true,
        None => false,
    }
}

} // verus!

verus! {

/// The pieces joined by single spaces (`[&str]::join(" ")`).
pub open spec fn join_spaced(ts: Seq<Seq<char>>) -> Seq<char>
    decreases ts.len(),
{
    if ts.len() == 0 {
        seq![]
    } else if ts.len() == 1 {
        ts[0]
    } else {
        join_spaced(ts.drop_last()) + seq![' '] + ts.last()
    }
}

/// Whether the characters equal those of a string slice.
pub fn eq_str(v: &Vec<char>, lit: &str) -> (r: bool)
    ensures
        r == (v@ == lit@),
{
    let l = chars_of(lit);
    if v.len() != l.len() {
        return false;
    }
    let mut i: usize = 0;
    while i < v.len()
        invariant
            i <= v.len(),
            v.len() == l.len(),
            l@ == lit@,
            forall|j: int| 0 <= j < i ==> v@[j] == l@[j],
        decreases v.len() - i,
    {
        if v[i] != l[i] {
            return false;
        }
        i += 1;
    }
    assert(v@ =~= l@);
    true
}

/// Whether every character is an ASCII digit.
pub fn is_all_digits(v: &Vec<char>) -> (r: bool)
    ensures
        r == all_digits(v@),
{
    let mut i: usize = 0;
    while i < v.len()
        invariant
            i <= v.len(),
            forall|j: int| 0 <= j < i ==> is_digit(v@[j]),
        decreases v.len() - i,
    {
        if !('0' <= v[i] && v[i] <= '9') {
            return false;
        }
        i += 1;
    }
    true
}

/// Appends characters to a character vector.
pub fn extend_chars(v: &mut Vec<char>, w: &Vec<char>)
    ensures
        final(v)@ == old(v)@ + w@,
{
    let mut i: usize = 0;
    while i < w.len()
        invariant
            i <= w.len(),
            v@ == old(v)@ + w@.take(i as int),
        decreases w.len() - i,
    {
        v.push(w[i]);
        assert(w@.take(i + 1) =~= w@.take(i as int).push(w@[i as int]));
        i += 1;
    }
    assert(w@.take(w.len() as int) =~= w@);
}

} // verus!

verus! {

pub open spec fn ends_with(cs: Seq<char>, pat: Seq<char>) -> bool {
    cs.len() >= pat.len() && cs.skip(cs.len() - pat.len()) == pat
}

/// Whether the characters end with those of a string slice.
pub fn ends_with_str(v: &Vec<char>, lit: &str) -> (r: bool)
    ensures
        r == ends_with(v@, lit@),
{
    let l = chars_of(lit);
    if v.len() < l.len() {
        return false;
    }
    let off = v.len() - l.len();
    let mut i: usize = 0;
    while i < l.len()
        invariant
            i <= l.len(),
            off + l.len() == v.len(),
            l@ == lit@,
            forall|j: int| 0 <= j < i ==> v@[off + j] == l@[j],
        decreases l.len() - i,
    {
        if v[off + i] != l[i] {
            assert(v@.skip(off as int)[i as int] != l@[i as int]);
            return false;
        }
        i += 1;
    }
    assert(v@.skip(off as int) =~= l@);
    true
}

/// `str::trim_end_matches(['.', ','])` on characters.
pub fn trim_end_dots_chars(v: &Vec<char>) -> (r: Vec<char>)
    ensures
        r@ == trim_end_dots(v@),
{
    let mut b: usize = v.len();
    while b > 0 && (v[b - 1] == '.' || v[b - 1] == ',')
        invariant
            b <= v.len(),
            forall|j: int| b <= j < v.len() ==> v@[j] == '.' || v@[j] == ',',
        decreases b,
    {
        b -= 1;
    }
    proof {
        lemma_trim_end_dots(v@, b as int);
    }
    sub_chars(v, 0, b)
}

} // verus!
