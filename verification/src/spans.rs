//! Byte spans of a file: putting them in order and finding overlaps.

use vstd::multiset::Multiset;
use vstd::prelude::*;

verus! {

/// Spans are ordered by their start, then by their end.
pub open spec fn span_le(a: (u64, u64), b: (u64, u64)) -> bool {
    a.0 < b.0 || (a.0 == b.0 && a.1 <= b.1)
}

pub open spec fn ascending(s: Seq<(u64, u64)>) -> bool {
    forall|i: int, j: int| 0 <= i <= j < s.len() ==> span_le(#[trigger] s[i], #[trigger] s[j])
}

/// The spans of `m` in ascending order.
pub open spec fn in_order(m: Multiset<(u64, u64)>) -> Seq<(u64, u64)> {
    choose|r: Seq<(u64, u64)>| #[trigger] ascending(r) && r.to_multiset() == m
}

/// The spans of `s` in ascending order.
pub open spec fn arranged(s: Seq<(u64, u64)>) -> Seq<(u64, u64)> {
    in_order(s.to_multiset())
}

/// The first position at or after `from` whose span reaches into the next one.
pub open spec fn overlap_from(s: Seq<(u64, u64)>, from: int) -> Option<int>
    decreases s.len() - from,
{
    if from < 0 || from + 1 >= s.len() {
        None
    } else if s[from + 1].0 < s[from].1 {
        Some(from)
    } else {
        overlap_from(s, from + 1)
    }
}

/// No byte belongs to two of the spans.
pub open spec fn disjoint(s: Seq<(u64, u64)>) -> bool {
    forall|i: int, j: int|
        0 <= i < j < s.len() ==> (#[trigger] s[i]).1 <= (#[trigger] s[j]).0 || s[j].1 <= s[i].0
}

proof fn lemma_overlap_none(s: Seq<(u64, u64)>, from: int, i: int)
    requires
        0 <= from <= i,
        i + 1 < s.len(),
        overlap_from(s, from) is None,
    ensures
        s[i].1 <= s[i + 1].0,
    decreases i - from,
{
    if from < i {
        lemma_overlap_none(s, from + 1, i);
    }
}

proof fn lemma_chain(s: Seq<(u64, u64)>, i: int, j: int)
    requires
        0 <= i < j < s.len(),
        overlap_from(s, 0) is None,
        forall|k: int| 0 <= k < s.len() ==> (#[trigger] s[k]).0 <= s[k].1,
    ensures
        s[i].1 <= s[j].0,
    decreases j - i,
{
    lemma_overlap_none(s, 0, j - 1);
    if i < j - 1 {
        lemma_chain(s, i, j - 1);
        assert(s[j - 1].0 <= s[j - 1].1);
    }
}

/// Spans in ascending order without a neighbouring overlap share no byte at all.
pub proof fn law_no_neighbour_overlap_is_disjoint(s: Seq<(u64, u64)>)
    requires
        ascending(s),
        overlap_from(s, 0) is None,
        forall|k: int| 0 <= k < s.len() ==> (#[trigger] s[k]).0 <= s[k].1,
    ensures
        disjoint(s),
{
    assert forall|i: int, j: int| 0 <= i < j < s.len() implies (#[trigger] s[i]).1 <= (
    #[trigger] s[j]).0 || s[j].1 <= s[i].0 by {
        lemma_chain(s, i, j);
    }
}

proof fn lemma_same_head(a: Seq<(u64, u64)>, b: Seq<(u64, u64)>)
    requires
        a.len() > 0,
        ascending(a),
        ascending(b),
        a.to_multiset() == b.to_multiset(),
    ensures
        b.len() > 0,
        a[0] == b[0],
{
    a.to_multiset_ensures();
    b.to_multiset_ensures();
    assert(a.contains(a[0]));
    assert(b.to_multiset().count(a[0]) > 0);
    assert(b.contains(a[0]));
    let j = choose|j: int| 0 <= j < b.len() && b[j] == a[0];
    assert(b.contains(b[0]));
    assert(a.to_multiset().count(b[0]) > 0);
    assert(a.contains(b[0]));
    let i = choose|i: int| 0 <= i < a.len() && a[i] == b[0];
    assert(span_le(a[0], a[i]));
    assert(span_le(b[0], b[j]));
}

proof fn lemma_arrangement_unique(a: Seq<(u64, u64)>, b: Seq<(u64, u64)>)
    requires
        ascending(a),
        ascending(b),
        a.to_multiset() == b.to_multiset(),
    ensures
        a == b,
    decreases a.len(),
{
    a.to_multiset_ensures();
    b.to_multiset_ensures();
    if a.len() == 0 {
        assert(a =~= b);
    } else {
        lemma_same_head(a, b);
        let x = a[0];
        assert(a.remove(0) =~= a.drop_first());
        assert(b.remove(0) =~= b.drop_first());
        assert(a.drop_first().to_multiset() =~= a.to_multiset().remove(x));
        assert(b.drop_first().to_multiset() =~= b.to_multiset().remove(x));
        lemma_arrangement_unique(a.drop_first(), b.drop_first());
        assert(a =~= seq![x] + a.drop_first());
        assert(b =~= seq![x] + b.drop_first());
    }
}

/// Any ascending sequence with the same spans is the arrangement.
pub proof fn lemma_arranged(s: Seq<(u64, u64)>, r: Seq<(u64, u64)>)
    requires
        ascending(r),
        r.to_multiset() == s.to_multiset(),
    ensures
        r == arranged(s),
{
    lemma_arrangement_unique(r, arranged(s));
}

fn span_at_most(a: (u64, u64), b: (u64, u64)) -> (r: bool)
    ensures
        r == span_le(a, b),
{
    a.0 < b.0 || (a.0 == b.0 && a.1 <= b.1)
}

fn merge(a: &Vec<(u64, u64)>, b: &Vec<(u64, u64)>) -> (r: Vec<(u64, u64)>)
    requires
        ascending(a@),
        ascending(b@),
    ensures
        ascending(r@),
        r@.to_multiset() == a@.to_multiset().add(b@.to_multiset()),
{
    let mut r: Vec<(u64, u64)> = Vec::new();
    let mut i: usize = 0;
    let mut j: usize = 0;
    proof {
        a@.take(0).to_multiset_ensures();
        b@.take(0).to_multiset_ensures();
        r@.to_multiset_ensures();
        assert(r@.to_multiset() =~= a@.take(0).to_multiset().add(b@.take(0).to_multiset()));
    }
    while i < a.len() || j < b.len()
        invariant
            i <= a@.len(),
            j <= b@.len(),
            ascending(a@),
            ascending(b@),
            ascending(r@),
            r@.to_multiset() == a@.take(i as int).to_multiset().add(
                b@.take(j as int).to_multiset(),
            ),
            r@.len() > 0 && i < a@.len() ==> span_le(r@.last(), a@[i as int]),
            r@.len() > 0 && j < b@.len() ==> span_le(r@.last(), b@[j as int]),
        decreases a@.len() - i + b@.len() - j,
    {
        let ghost before = r@;
        if j == b.len() || (i < a.len() && span_at_most(a[i], b[j])) {
            r.push(a[i]);
            proof {
                before.to_multiset_ensures();
                a@.take(i as int).to_multiset_ensures();
                assert(a@.take(i + 1) =~= a@.take(i as int).push(a@[i as int]));
                assert(r@.to_multiset() =~= a@.take(i + 1).to_multiset().add(
                    b@.take(j as int).to_multiset(),
                ));
                assert(ascending(r@)) by {
                    assert forall|p: int, q: int| 0 <= p <= q < r@.len() implies span_le(
                        #[trigger] r@[p],
                        #[trigger] r@[q],
                    ) by {
                        if q == before.len() && p < q {
                            assert(span_le(before[p], before.last()));
                        }
                    }
                }
            }
            i = i + 1;
        } else {
            r.push(b[j]);
            proof {
                before.to_multiset_ensures();
                b@.take(j as int).to_multiset_ensures();
                assert(b@.take(j + 1) =~= b@.take(j as int).push(b@[j as int]));
                assert(r@.to_multiset() =~= a@.take(i as int).to_multiset().add(
                    b@.take(j + 1).to_multiset(),
                ));
                assert(ascending(r@)) by {
                    assert forall|p: int, q: int| 0 <= p <= q < r@.len() implies span_le(
                        #[trigger] r@[p],
                        #[trigger] r@[q],
                    ) by {
                        if q == before.len() && p < q {
                            assert(span_le(before[p], before.last()));
                        }
                    }
                }
            }
            j = j + 1;
        }
    }
    proof {
        assert(a@.take(a@.len() as int) =~= a@);
        assert(b@.take(b@.len() as int) =~= b@);
    }
    r
}

fn sorted_between(v: &Vec<(u64, u64)>, from: usize, to: usize) -> (r: Vec<(u64, u64)>)
    requires
        from <= to <= v@.len(),
    ensures
        ascending(r@),
        r@.to_multiset() == v@.subrange(from as int, to as int).to_multiset(),
    decreases to - from,
{
    if to - from <= 1 {
        let mut r: Vec<(u64, u64)> = Vec::new();
        if from < to {
            r.push(v[from]);
        }
        proof {
            assert(r@ =~= v@.subrange(from as int, to as int));
        }
        r
    } else {
        let middle: usize = from + (to - from) / 2;
        let a = sorted_between(v, from, middle);
        let b = sorted_between(v, middle, to);
        let r = merge(&a, &b);
        proof {
            let left = v@.subrange(from as int, middle as int);
            let right = v@.subrange(middle as int, to as int);
            vstd::seq_lib::lemma_multiset_commutative(left, right);
            assert(left + right =~= v@.subrange(from as int, to as int));
        }
        r
    }
}

/// Puts the spans in ascending order.
pub fn sort_spans(v: &Vec<(u64, u64)>) -> (r: Vec<(u64, u64)>)
    ensures
        r@ == arranged(v@),
        ascending(r@),
        r@.to_multiset() == v@.to_multiset(),
{
    let r = sorted_between(v, 0, v.len());
    proof {
        assert(v@.subrange(0, v@.len() as int) =~= v@);
        lemma_arranged(v@, r@);
    }
    r
}

pub fn find_overlap(s: &Vec<(u64, u64)>) -> (r: Option<usize>)
    ensures
        match r {
            Some(i) => overlap_from(s@, 0) == Some(i as int) && i + 1 < s@.len(),
            None => overlap_from(s@, 0) is None,
        },
{
    let mut i: usize = 0;
    let n: usize = s.len();
    while n >= 1 && i < n - 1
        invariant
            n == s@.len(),
            i <= n,
            overlap_from(s@, 0) == overlap_from(s@, i as int),
        decreases n - i,
    {
        if s[i + 1].0 < s[i].1 {
            return Some(i);
        }
        i = i + 1;
    }
    None
}

/// Every sequence of spans has an arrangement.
proof fn lemma_arrangement_exists(s: Seq<(u64, u64)>)
    ensures
        ascending(arranged(s)),
        arranged(s).to_multiset() == s.to_multiset(),
{
    let le = |a: (u64, u64), b: (u64, u64)| span_le(a, b);
    assert(vstd::relations::total_ordering(le));
    s.lemma_sort_by_ensures(le);
    let r = s.sort_by(le);
    assert forall|i: int, j: int| 0 <= i <= j < r.len() implies span_le(
        #[trigger] r[i],
        #[trigger] r[j],
    ) by {
        if i < j {
            assert(le(r[i], r[j]));
        }
    }
    assert(ascending(r) && r.to_multiset() == s.to_multiset());
}

proof fn lemma_disjoint_without_order(s: Seq<(u64, u64)>, r: Seq<(u64, u64)>)
    requires
        forall|k: int| 0 <= k < s.len() ==> (#[trigger] s[k]).0 < s[k].1,
        r.to_multiset() == s.to_multiset(),
        disjoint(s),
    ensures
        disjoint(r),
{
    s.to_multiset_ensures();
    r.to_multiset_ensures();
    assert(s.no_duplicates()) by {
        assert forall|i: int, j: int| 0 <= i < s.len() && 0 <= j < s.len() && i != j implies s[i]
            != s[j] by {
            assert(s[i].0 < s[i].1 && s[j].0 < s[j].1);
            if i < j {
                assert(s[i].1 <= s[j].0 || s[j].1 <= s[i].0);
            } else {
                assert(s[j].1 <= s[i].0 || s[i].1 <= s[j].0);
            }
        }
    }
    s.lemma_multiset_has_no_duplicates();
    r.lemma_multiset_has_no_duplicates_conv();
    assert forall|i: int, j: int| 0 <= i < j < r.len() implies (#[trigger] r[i]).1 <= (
    #[trigger] r[j]).0 || r[j].1 <= r[i].0 by {
        assert(r.contains(r[i]) && r.contains(r[j]));
        assert(s.to_multiset().count(r[i]) > 0 && s.to_multiset().count(r[j]) > 0);
        assert(s.contains(r[i]) && s.contains(r[j]));
        let a = choose|a: int| 0 <= a < s.len() && s[a] == r[i];
        let b = choose|b: int| 0 <= b < s.len() && s[b] == r[j];
        assert(r[i] != r[j]);
        if a < b {
            assert(s[a].1 <= s[b].0 || s[b].1 <= s[a].0);
        } else {
            assert(s[b].1 <= s[a].0 || s[a].1 <= s[b].0);
        }
    }
}

proof fn lemma_no_overlap(s: Seq<(u64, u64)>, from: int)
    requires
        ascending(s),
        disjoint(s),
        forall|k: int| 0 <= k < s.len() ==> (#[trigger] s[k]).0 < s[k].1,
        0 <= from,
    ensures
        overlap_from(s, from) is None,
    decreases s.len() - from,
{
    if from + 1 < s.len() {
        assert(span_le(s[from], s[from + 1]));
        assert(s[from].1 <= s[from + 1].0 || s[from + 1].1 <= s[from].0);
        assert(s[from + 1].0 < s[from + 1].1);
        lemma_no_overlap(s, from + 1);
    }
}

/// Spans that hold at least a byte each share none just where, in order, none reaches into the
/// next.
pub proof fn lemma_disjoint_either_way(s: Seq<(u64, u64)>)
    requires
        forall|k: int| 0 <= k < s.len() ==> (#[trigger] s[k]).0 < s[k].1,
    ensures
        disjoint(s) <==> overlap_from(arranged(s), 0) is None,
{
    lemma_arrangement_exists(s);
    let r = arranged(s);
    s.to_multiset_ensures();
    r.to_multiset_ensures();
    assert forall|k: int| 0 <= k < r.len() implies (#[trigger] r[k]).0 < r[k].1 by {
        assert(r.contains(r[k]));
        assert(s.to_multiset().count(r[k]) > 0);
        assert(s.contains(r[k]));
    }
    if disjoint(s) {
        lemma_disjoint_without_order(s, r);
        lemma_no_overlap(r, 0);
    }
    if overlap_from(r, 0) is None {
        law_no_neighbour_overlap_is_disjoint(r);
        lemma_disjoint_without_order(r, s);
    }
}

} // verus!
