//! Search limits gathered from a list of limit messages.

use vstd::prelude::*;

use crate::itgo::protocol::Limit;

verus! {

/// The limits of a search: the tightest of each kind seen so far.
#[derive(Debug, Clone, Copy, PartialEq, Eq, Structural)]
pub struct Limits {
    pub depth: u32,
    pub nodes: u64,
    pub ms: u64,
}

/// No limit but the deepest search.
pub open spec fn spec_default_limits() -> Limits {
    Limits { depth: 64, nodes: u64::MAX, ms: u64::MAX }
}

/// `l` tightened by one more limit.
pub open spec fn limit_applied(l: Limits, x: Limit) -> Limits {
    match x {
        Limit::Depth(v) => Limits {
            depth: if v < l.depth {
                v
            } else {
                l.depth
            },
            ..l
        },
        Limit::Nodes(v) => Limits {
            nodes: if v < l.nodes {
                v
            } else {
                l.nodes
            },
            ..l
        },
        Limit::Ms(v) => Limits {
            ms: if v < l.ms {
                v
            } else {
                l.ms
            },
            ..l
        },
    }
}

/// `l` tightened by each limit of `s` in turn.
pub open spec fn limits_after(l: Limits, s: Seq<Limit>) -> Limits
    decreases s.len(),
{
    if s.len() == 0 {
        l
    } else {
        limit_applied(limits_after(l, s.drop_last()), s.last())
    }
}

/// Each limit of `s` is respected by `r`, and `r` is no looser than `l`.
pub open spec fn tightens(l: Limits, s: Seq<Limit>, r: Limits) -> bool {
    &&& r.depth <= l.depth && r.nodes <= l.nodes && r.ms <= l.ms
    &&& forall|i: int|
        0 <= i < s.len() ==> match #[trigger] s[i] {
            Limit::Depth(v) => r.depth <= v,
            Limit::Nodes(v) => r.nodes <= v,
            Limit::Ms(v) => r.ms <= v,
        }
}

/// Folding in limits only tightens, and respects every limit folded in.
pub proof fn lemma_limits_tighten(l: Limits, s: Seq<Limit>)
    ensures
        tightens(l, s, limits_after(l, s)),
    decreases s.len(),
{
    if s.len() > 0 {
        lemma_limits_tighten(l, s.drop_last());
        let r = limits_after(l, s);
        assert forall|i: int| 0 <= i < s.len() implies match #[trigger] s[i] {
            Limit::Depth(v) => r.depth <= v,
            Limit::Nodes(v) => r.nodes <= v,
            Limit::Ms(v) => r.ms <= v,
        } by {
            if i < s.len() - 1 {
                assert(s[i] == s.drop_last()[i]);
            }
        }
    }
}

/// Each field of `r` is that of `l` or the value of a limit of that kind in `s`.
pub open spec fn attained(l: Limits, s: Seq<Limit>, r: Limits) -> bool {
    &&& (r.depth == l.depth || exists|i: int| 0 <= i < s.len() && s[i] == Limit::Depth(r.depth))
    &&& (r.nodes == l.nodes || exists|i: int| 0 <= i < s.len() && s[i] == Limit::Nodes(r.nodes))
    &&& (r.ms == l.ms || exists|i: int| 0 <= i < s.len() && s[i] == Limit::Ms(r.ms))
}

proof fn lemma_limits_attained(l: Limits, s: Seq<Limit>)
    ensures
        attained(l, s, limits_after(l, s)),
    decreases s.len(),
{
    if s.len() > 0 {
        let t = s.drop_last();
        lemma_limits_attained(l, t);
        let r0 = limits_after(l, t);
        let r = limits_after(l, s);
        if r.depth != l.depth && r.depth != r0.depth {
            assert(s[s.len() - 1] == Limit::Depth(r.depth));
        } else if r.depth != l.depth {
            let i = choose|i: int| 0 <= i < t.len() && t[i] == Limit::Depth(r0.depth);
            assert(s[i] == t[i]);
        }
        if r.nodes != l.nodes && r.nodes != r0.nodes {
            assert(s[s.len() - 1] == Limit::Nodes(r.nodes));
        } else if r.nodes != l.nodes {
            let i = choose|i: int| 0 <= i < t.len() && t[i] == Limit::Nodes(r0.nodes);
            assert(s[i] == t[i]);
        }
        if r.ms != l.ms && r.ms != r0.ms {
            assert(s[s.len() - 1] == Limit::Ms(r.ms));
        } else if r.ms != l.ms {
            let i = choose|i: int| 0 <= i < t.len() && t[i] == Limit::Ms(r0.ms);
            assert(s[i] == t[i]);
        }
    }
}

proof fn lemma_limits_concat(l: Limits, a: Seq<Limit>, b: Seq<Limit>)
    ensures
        limits_after(l, a + b) == limits_after(limits_after(l, a), b),
    decreases b.len(),
{
    if b.len() == 0 {
        assert(a + b =~= a);
    } else {
        lemma_limits_concat(l, a, b.drop_last());
        assert((a + b).drop_last() =~= a + b.drop_last());
        assert((a + b).last() == b.last());
    }
}

/// Every limit of `s1` occurs in `s2` and every limit of `s2` occurs in `s1`.
pub open spec fn same_limits(s1: Seq<Limit>, s2: Seq<Limit>) -> bool {
    &&& forall|i: int| 0 <= i < s1.len() ==> #[trigger] s2.contains(s1[i])
    &&& forall|i: int| 0 <= i < s2.len() ==> #[trigger] s1.contains(s2[i])
}

proof fn lemma_same_limits_le(l: Limits, s1: Seq<Limit>, s2: Seq<Limit>)
    requires
        forall|i: int| 0 <= i < s1.len() ==> #[trigger] s2.contains(s1[i]),
    ensures
        limits_after(l, s2).depth <= limits_after(l, s1).depth,
        limits_after(l, s2).nodes <= limits_after(l, s1).nodes,
        limits_after(l, s2).ms <= limits_after(l, s1).ms,
{
    let r1 = limits_after(l, s1);
    let r2 = limits_after(l, s2);
    lemma_limits_tighten(l, s2);
    lemma_limits_attained(l, s1);
    if r1.depth != l.depth {
        let i = choose|i: int| 0 <= i < s1.len() && s1[i] == Limit::Depth(r1.depth);
        assert(s2.contains(s1[i]));
    }
    if r1.nodes != l.nodes {
        let i = choose|i: int| 0 <= i < s1.len() && s1[i] == Limit::Nodes(r1.nodes);
        assert(s2.contains(s1[i]));
    }
    if r1.ms != l.ms {
        let i = choose|i: int| 0 <= i < s1.len() && s1[i] == Limit::Ms(r1.ms);
        assert(s2.contains(s1[i]));
    }
}

/// Limits tightened by two lists holding the same limits agree: only which limits were given
/// matters, not their order nor how often each was given.
pub proof fn law_limits_same(l: Limits, s1: Seq<Limit>, s2: Seq<Limit>)
    requires
        same_limits(s1, s2),
    ensures
        limits_after(l, s1) == limits_after(l, s2),
{
    lemma_same_limits_le(l, s1, s2);
    lemma_same_limits_le(l, s2, s1);
}

/// Tightening by `a` then `b` equals tightening by `b` then `a`, and tightening by `a` twice
/// equals tightening by `a` once.
pub proof fn law_limits_order(l: Limits, a: Seq<Limit>, b: Seq<Limit>)
    ensures
        limits_after(limits_after(l, a), b) == limits_after(limits_after(l, b), a),
        limits_after(limits_after(l, a), a) == limits_after(l, a),
{
    lemma_limits_concat(l, a, b);
    lemma_limits_concat(l, b, a);
    lemma_limits_concat(l, a, a);
    let ab = a + b;
    let ba = b + a;
    let aa = a + a;
    assert forall|i: int| 0 <= i < ab.len() implies #[trigger] ba.contains(ab[i]) by {
        if i < a.len() {
            assert(ba[b.len() + i] == ab[i]);
        } else {
            assert(ba[i - a.len()] == ab[i]);
        }
    }
    assert forall|i: int| 0 <= i < ba.len() implies #[trigger] ab.contains(ba[i]) by {
        if i < b.len() {
            assert(ab[a.len() + i] == ba[i]);
        } else {
            assert(ab[i - b.len()] == ba[i]);
        }
    }
    law_limits_same(l, ab, ba);
    assert forall|i: int| 0 <= i < aa.len() implies #[trigger] a.contains(aa[i]) by {
        if i < a.len() {
            assert(a[i] == aa[i]);
        } else {
            assert(a[i - a.len()] == aa[i]);
        }
    }
    assert forall|i: int| 0 <= i < a.len() implies #[trigger] aa.contains(a[i]) by {
        assert(aa[i] == a[i]);
    }
    law_limits_same(l, aa, a);
}

impl Default for Limits {
    fn default() -> (r: Limits)
        ensures
            r == spec_default_limits(),
    {
        Limits { depth: 64, nodes: 0xffff_ffff_ffff_ffffu64, ms: 0xffff_ffff_ffff_ffffu64 }
    }
}

impl Limits {
    /// The default limits tightened by `limits`.
    pub fn new(limits: &[Limit]) -> (r: Limits)
        ensures
            r == limits_after(spec_default_limits(), limits@),
    {
        Limits::default().and(limits)
    }

    /// These limits tightened by each of `limits` in turn.
    pub fn and(self, limits: &[Limit]) -> (r: Limits)
        ensures
            r == limits_after(self, limits@),
            tightens(self, limits@, r),
    {
        let mut r = self;
        let mut i: usize = 0;
        while i < limits.len()
            invariant
                i <= limits@.len(),
                r == limits_after(self, limits@.take(i as int)),
            decreases limits@.len() - i,
        {
            proof {
                assert(limits@.take(i as int + 1).drop_last() =~= limits@.take(i as int));
            }
            match limits[i] {
                Limit::Depth(value) => {
                    if value < r.depth {
                        r.depth = value;
                    }
                },
                Limit::Nodes(value) => {
                    if value < r.nodes {
                        r.nodes = value;
                    }
                },
                Limit::Ms(value) => {
                    if value < r.ms {
                        r.ms = value;
                    }
                },
            }
            i += 1;
        }
        proof {
            assert(limits@.take(i as int) =~= limits@);
            lemma_limits_tighten(self, limits@);
        }
        r
    }
}

} // verus!
