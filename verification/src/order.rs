//! Stable sorting.

use crate::table;
use crate::table::Copied;
use vstd::prelude::*;

verus! {

/// The first place from `i` on whose element must follow `x`.
pub open spec fn place_of<W>(s: Seq<W>, before: spec_fn(W, W) -> bool, x: W, i: int) -> int
    decreases s.len() - i,
{
    if i < 0 || i >= s.len() {
        s.len() as int
    } else if before(x, s[i]) {
        i
    } else {
        place_of(s, before, x, i + 1)
    }
}

/// The elements in order; those that the order does not tell apart stay as they stood.
pub open spec fn sorted<W>(s: Seq<W>, before: spec_fn(W, W) -> bool) -> Seq<W>
    decreases s.len(),
{
    if s.len() == 0 {
        s
    } else {
        let front = sorted(s.drop_last(), before);
        front.insert(place_of(front, before, s.last(), 0), s.last())
    }
}

/// Sorts by an order, which `test` decides.
pub(crate) fn sort<T: Copied, F: Fn(&T, &T) -> bool>(
    v: &Vec<T>,
    test: F,
    Ghost(before): Ghost<spec_fn(T::V, T::V) -> bool>,
) -> (r: Vec<T>)
    requires
        forall|a: &T, b: &T| call_requires(test, (a, b)),
        forall|a: &T, b: &T, x: bool| call_ensures(test, (a, b), x) ==> x == before(a@, b@),
    ensures
        table::views(r@) == sorted(table::views(v@), before),
{
    let ghost all = table::views(v@);
    let mut r: Vec<T> = Vec::new();
    let mut i: usize = 0;
    proof {
        assert(table::views(r@) =~= all.take(0));
    }
    while i < v.len()
        invariant
            i <= v@.len(),
            all == table::views(v@),
            r@.len() == i,
            forall|a: &T, b: &T| call_requires(test, (a, b)),
            forall|a: &T, b: &T, x: bool| call_ensures(test, (a, b), x) ==> x == before(a@, b@),
            table::views(r@) == sorted(all.take(i as int), before),
        decreases v@.len() - i,
    {
        let t = v[i].copied();
        assert(all[i as int] == t@);
        let ghost front = table::views(r@);
        let mut at: usize = 0;
        while at < i && !test(&t, &r[at])
            invariant
                at <= i,
                r@.len() == i,
                front == table::views(r@),
                forall|a: &T, b: &T| call_requires(test, (a, b)),
                forall|a: &T, b: &T, x: bool|
                    call_ensures(test, (a, b), x) ==> x == before(a@, b@),
                place_of(front, before, t@, 0) == place_of(front, before, t@, at as int),
            decreases i - at,
        {
            assert(front[at as int] == r@[at as int]@);
            at = at + 1;
        }
        proof {
            if at < i {
                assert(front[at as int] == r@[at as int]@);
            }
            assert(all.take(i + 1).drop_last() =~= all.take(i as int));
        }
        let ghost added = t@;
        r.insert(at, t);
        assert(table::views(r@) =~= front.insert(at as int, added));
        i = i + 1;
    }
    assert(all.take(all.len() as int) =~= all);
    r
}

pub proof fn lemma_place<W>(s: Seq<W>, before: spec_fn(W, W) -> bool, x: W, i: int)
    requires
        0 <= i <= s.len(),
    ensures
        i <= place_of(s, before, x, i) <= s.len(),
        place_of(s, before, x, i) < s.len() ==> before(x, s[place_of(s, before, x, i)]),
        forall|j: int| i <= j < place_of(s, before, x, i) ==> !before(x, #[trigger] s[j]),
    decreases s.len() - i,
{
    if i < s.len() && !before(x, s[i]) {
        lemma_place(s, before, x, i + 1);
    }
}

/// Sorting keeps the elements, each as often as it occurs.
pub proof fn law_sorting_keeps_the_elements<W>(s: Seq<W>, before: spec_fn(W, W) -> bool)
    ensures
        sorted(s, before).to_multiset() == s.to_multiset(),
    decreases s.len(),
{
    broadcast use vstd::seq_lib::group_to_multiset_ensures;

    if s.len() > 0 {
        let front = sorted(s.drop_last(), before);
        law_sorting_keeps_the_elements(s.drop_last(), before);
        lemma_place(front, before, s.last(), 0);
        assert(s =~= s.drop_last().push(s.last()));
        assert(sorted(s, before).to_multiset() =~= s.to_multiset());
    }
}

/// Sorting by an order that is transitive and never holds both ways leaves no element after one
/// that must follow it.
pub proof fn law_sorting_orders<W>(s: Seq<W>, before: spec_fn(W, W) -> bool)
    requires
        forall|a: W, b: W, c: W| #[trigger] before(a, b) && #[trigger] before(b, c) ==> before(a, c),
        forall|a: W| !#[trigger] before(a, a),
    ensures
        forall|i: int, j: int|
            0 <= i < j < sorted(s, before).len() ==> !before(
                #[trigger] sorted(s, before)[j],
                #[trigger] sorted(s, before)[i],
            ),
    decreases s.len(),
{
    if s.len() > 0 {
        let front = sorted(s.drop_last(), before);
        let t = s.last();
        law_sorting_orders(s.drop_last(), before);
        lemma_place(front, before, t, 0);
        let at = place_of(front, before, t, 0);
        let whole = front.insert(at, t);
        assert forall|i: int, j: int| 0 <= i < j < whole.len() implies !before(
            #[trigger] whole[j],
            #[trigger] whole[i],
        ) by {
            let a = if i < at { i } else { i - 1 };
            let b = if j < at { j } else { j - 1 };
            if i != at {
                assert(whole[i] == front[a]);
            }
            if j != at {
                assert(whole[j] == front[b]);
            }
            if i == at && before(whole[j], t) {
                assert(before(t, front[at]));
                assert(before(whole[j], front[at]));
            }
        }
    }
}

} // verus!
