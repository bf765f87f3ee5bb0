//! Maps keyed by text and kept in the order of their keys.

use vstd::prelude::*;
use crate::text;

verus! {

/// A value that can be duplicated without changing what it stands for.
pub trait Copied: View + Sized {
    fn copied(&self) -> (r: Self)
        ensures
            r@ == self@,
    ;
}

impl Copied for String {
    fn copied(&self) -> (r: Self) {
        self.clone()
    }
}

/// What the elements of a sequence stand for.
pub open spec fn views<T: View>(s: Seq<T>) -> Seq<T::V> {
    s.map_values(|x: T| x@)
}

/// What an optional value stands for.
pub open spec fn view_option<T: View>(o: Option<T>) -> Option<T::V> {
    match o {
        Some(x) => Some(x@),
        None => None,
    }
}

pub proof fn lemma_views_push<T: View>(s: Seq<T>, x: T)
    ensures
        views(s.push(x)) == views(s).push(x@),
{
    assert(views(s.push(x)) =~= views(s).push(x@));
}

pub fn copy_all<T: Copied>(v: &Vec<T>) -> (r: Vec<T>)
    ensures
        views(r@) == views(v@),
{
    let mut r: Vec<T> = Vec::new();
    let mut i: usize = 0;
    while i < v.len()
        invariant
            i <= v@.len(),
            views(r@) == views(v@).take(i as int),
        decreases v@.len() - i,
    {
        let x = v[i].copied();
        proof {
            lemma_views_push(r@, x);
            assert(views(v@).take(i + 1) =~= views(v@).take(i as int).push(views(v@)[i as int]));
        }
        r.push(x);
        i = i + 1;
    }
    proof {
        assert(views(v@).take(v@.len() as int) =~= views(v@));
    }
    r
}

pub fn copy_option<T: Copied>(o: &Option<T>) -> (r: Option<T>)
    ensures
        view_option(r) == view_option(*o),
{
    match o {
        Some(x) => Some(x.copied()),
        None => None,
    }
}

/// Whether an optional text is present and equal to `s`.
pub fn is_text(o: &Option<String>, s: &str) -> (r: bool)
    ensures
        r == (view_option(*o) == Some(s@)),
{
    match o {
        Some(x) => text::same(x.as_str(), s),
        None => false,
    }
}

pub open spec fn keys_ascend<W>(items: Seq<(Seq<char>, W)>) -> bool {
    forall|i: int, j: int|
        0 <= i < j < items.len() ==> text::less((#[trigger] items[i]).0, (#[trigger] items[j]).0)
}

pub open spec fn has_key<W>(items: Seq<(Seq<char>, W)>, key: Seq<char>) -> bool {
    exists|i: int| 0 <= i < items.len() && (#[trigger] items[i]).0 == key
}

pub open spec fn key_index<W>(items: Seq<(Seq<char>, W)>, key: Seq<char>) -> int {
    choose|i: int| 0 <= i < items.len() && (#[trigger] items[i]).0 == key
}

/// The map that a sequence of entries stands for.
pub open spec fn items_map<W>(items: Seq<(Seq<char>, W)>) -> Map<Seq<char>, W> {
    Map::new(|k: Seq<char>| has_key(items, k), |k: Seq<char>| items[key_index(items, k)].1)
}

pub proof fn lemma_items_lookup<W>(items: Seq<(Seq<char>, W)>, i: int)
    requires
        keys_ascend(items),
        0 <= i < items.len(),
    ensures
        key_index(items, items[i].0) == i,
        items_map(items).contains_key(items[i].0),
        items_map(items)[items[i].0] == items[i].1,
{
    let k = items[i].0;
    assert(has_key(items, k));
    let j = key_index(items, k);
    text::lemma_less_irreflexive(k);
}

/// The entries of a table are exactly the pairs of its map.
pub proof fn lemma_items_all<W>(items: Seq<(Seq<char>, W)>)
    requires
        keys_ascend(items),
    ensures
        forall|i: int|
            0 <= i < items.len() ==> items_map(items).contains_key((#[trigger] items[i]).0)
                && items_map(items)[items[i].0] == items[i].1,
        forall|k: Seq<char>| #[trigger]
            items_map(items).contains_key(k) ==> 0 <= key_index(items, k) < items.len()
                && items[key_index(items, k)].0 == k,
        items_map(items).dom().finite(),
        items_map(items).len() == items.len(),
{
    assert forall|i: int| 0 <= i < items.len() implies items_map(items).contains_key(
        (#[trigger] items[i]).0,
    ) && items_map(items)[items[i].0] == items[i].1 by {
        lemma_items_lookup(items, i);
    }
    let keys = items.map_values(|e: (Seq<char>, W)| e.0);
    assert(keys.no_duplicates()) by {
        assert forall|i: int, j: int| 0 <= i < keys.len() && 0 <= j < keys.len() && i != j implies keys[i]
            != keys[j] by {
            text::lemma_less_irreflexive(keys[i]);
            if i < j {
                assert(text::less(items[i].0, items[j].0));
            } else {
                assert(text::less(items[j].0, items[i].0));
            }
        }
    }
    keys.unique_seq_to_set();
    assert(items_map(items).dom() =~= keys.to_set()) by {
        assert forall|k: Seq<char>| items_map(items).dom().contains(k) implies keys.contains(k) by {
            assert(keys[key_index(items, k)] == k);
        }
        assert forall|k: Seq<char>| keys.contains(k) implies has_key(items, k) by {
            let i = choose|i: int| 0 <= i < keys.len() && keys[i] == k;
            assert(items[i].0 == k);
        }
    }
}

/// Whether `key` is the smallest key whose value satisfies `p`.
pub open spec fn is_first_key<W>(
    m: Map<Seq<char>, W>,
    p: spec_fn(W) -> bool,
    key: Seq<char>,
) -> bool {
    m.contains_key(key) && p(m[key]) && forall|k: Seq<char>| #[trigger]
        m.contains_key(k) && p(m[k]) ==> !text::less(k, key)
}

/// Whether some value satisfies `p`.
pub open spec fn any_value<W>(m: Map<Seq<char>, W>, p: spec_fn(W) -> bool) -> bool {
    exists|k: Seq<char>| #[trigger] m.contains_key(k) && p(m[k])
}

/// The smallest key whose value satisfies `p`.
pub open spec fn first_key<W>(m: Map<Seq<char>, W>, p: spec_fn(W) -> bool) -> Option<Seq<char>> {
    if any_value(m, p) {
        Some(choose|key: Seq<char>| #[trigger] is_first_key(m, p, key))
    } else {
        None
    }
}

/// The first entry that satisfies `p` has the smallest such key.
pub proof fn lemma_first_at<W>(items: Seq<(Seq<char>, W)>, p: spec_fn(W) -> bool, i: int)
    requires
        keys_ascend(items),
        0 <= i < items.len(),
        p(items[i].1),
        forall|j: int| 0 <= j < i ==> !p((#[trigger] items[j]).1),
    ensures
        any_value(items_map(items), p),
        first_key(items_map(items), p) == Some(items[i].0),
        items_map(items).contains_key(items[i].0),
        items_map(items)[items[i].0] == items[i].1,
{
    let m = items_map(items);
    let key = items[i].0;
    lemma_items_all(items);
    assert(is_first_key(m, p, key)) by {
        assert forall|k: Seq<char>| #[trigger] m.contains_key(k) && p(m[k]) implies !text::less(
            k,
            key,
        ) by {
            let j = key_index(items, k);
            assert(items[j].1 == m[k]);
            text::lemma_less_irreflexive(k);
            if j > i && text::less(k, key) {
                assert(text::less(items[i].0, items[j].0));
                text::lemma_less_transitive(k, key, k);
            }
        }
    }
    let chosen = choose|key: Seq<char>| #[trigger] is_first_key(m, p, key);
    assert(is_first_key(m, p, chosen));
    text::lemma_less_total(chosen, key);
}

/// Where no entry satisfies `p`, there is no first key.
pub proof fn lemma_first_none<W>(items: Seq<(Seq<char>, W)>, p: spec_fn(W) -> bool)
    requires
        keys_ascend(items),
        forall|j: int| 0 <= j < items.len() ==> !p((#[trigger] items[j]).1),
    ensures
        !any_value(items_map(items), p),
        first_key(items_map(items), p) is None,
{
    lemma_items_all(items);
    assert forall|k: Seq<char>| #[trigger] items_map(items).contains_key(k) implies !p(
        items_map(items)[k],
    ) by {
        let j = key_index(items, k);
        assert(items[j].1 == items_map(items)[k]);
    }
}

/// The entries of a map in the order of their keys.
pub open spec fn items_of<W>(m: Map<Seq<char>, W>) -> Seq<(Seq<char>, W)> {
    choose|items: Seq<(Seq<char>, W)>| #[trigger] keys_ascend(items) && items_map(items) == m
}

proof fn lemma_least_key<W>(a: Seq<(Seq<char>, W)>, b: Seq<(Seq<char>, W)>)
    requires
        a.len() > 0,
        b.len() > 0,
        keys_ascend(a),
        keys_ascend(b),
        items_map(a) == items_map(b),
    ensures
        a[0] == b[0],
{
    lemma_items_all(a);
    lemma_items_all(b);
    assert(items_map(b).contains_key(a[0].0));
    assert(items_map(a).contains_key(b[0].0));
    let j = key_index(b, a[0].0);
    let i = key_index(a, b[0].0);
    if i > 0 && j > 0 {
        assert(text::less(a[0].0, a[i].0));
        assert(text::less(b[0].0, b[j].0));
        text::lemma_less_transitive(a[0].0, b[0].0, a[0].0);
        text::lemma_less_irreflexive(a[0].0);
    }
    assert(a[0].1 == items_map(a)[a[0].0]);
    assert(b[0].1 == items_map(b)[b[0].0]);
}

proof fn lemma_items_unique<W>(a: Seq<(Seq<char>, W)>, b: Seq<(Seq<char>, W)>)
    requires
        keys_ascend(a),
        keys_ascend(b),
        items_map(a) == items_map(b),
    ensures
        a == b,
    decreases a.len(),
{
    lemma_items_all(a);
    lemma_items_all(b);
    if a.len() == 0 {
        assert(a =~= b);
    } else {
        lemma_least_key(a, b);
        lemma_removed(a, 0);
        lemma_removed(b, 0);
        lemma_items_unique(a.remove(0), b.remove(0));
        assert(a =~= seq![a[0]] + a.remove(0));
        assert(b =~= seq![b[0]] + b.remove(0));
    }
}

/// The entries in key order follow from the map.
pub proof fn lemma_items_of<W>(items: Seq<(Seq<char>, W)>)
    requires
        keys_ascend(items),
    ensures
        items_of(items_map(items)) == items,
{
    lemma_items_unique(items, items_of(items_map(items)));
}

/// A map from text to values, walked in the order of its keys.
#[derive(Debug)]
pub struct Table<V: View> {
    entries: Vec<(String, V)>,
}

impl<V: View> Table<V> {
    #[verifier::type_invariant]
    spec fn inv(self) -> bool {
        keys_ascend(self.items())
    }

    /// The entries in the order of their keys.
    pub closed spec fn items(self) -> Seq<(Seq<char>, V::V)> {
        self.entries@.map_values(|e: (String, V)| (e.0@, e.1@))
    }
}

impl<V: View> View for Table<V> {
    type V = Map<Seq<char>, V::V>;

    open spec fn view(&self) -> Map<Seq<char>, V::V> {
        items_map(self.items())
    }
}

/// The state of a position search: all keys before `at` are smaller than `key`.
spec fn below<W>(items: Seq<(Seq<char>, W)>, key: Seq<char>, at: int) -> bool {
    forall|i: int| 0 <= i < at ==> text::less((#[trigger] items[i]).0, key)
}

proof fn lemma_absent<W>(items: Seq<(Seq<char>, W)>, key: Seq<char>, at: int)
    requires
        keys_ascend(items),
        0 <= at <= items.len(),
        below(items, key, at),
        at < items.len() ==> text::less(key, items[at].0),
    ensures
        !has_key(items, key),
        forall|i: int| at <= i < items.len() ==> text::less(key, (#[trigger] items[i]).0),
{
    assert forall|i: int| at <= i < items.len() implies text::less(key, (#[trigger] items[i]).0) by {
        if at < i {
            assert(text::less(items[at].0, items[i].0));
            text::lemma_less_transitive(key, items[at].0, items[i].0);
        }
    }
    if has_key(items, key) {
        let i = key_index(items, key);
        text::lemma_less_irreflexive(key);
        assert(items[i].0 == key);
        assert(i < at || at <= i);
    }
}

proof fn lemma_inserted<W>(items: Seq<(Seq<char>, W)>, key: Seq<char>, value: W, at: int)
    requires
        keys_ascend(items),
        0 <= at <= items.len(),
        below(items, key, at),
        at < items.len() ==> text::less(key, items[at].0),
    ensures
        keys_ascend(items.insert(at, (key, value))),
        items_map(items.insert(at, (key, value))) == items_map(items).insert(key, value),
{
    lemma_absent(items, key, at);
    let after = items.insert(at, (key, value));
    assert forall|i: int, j: int| 0 <= i < j < after.len() implies text::less(
        (#[trigger] after[i]).0,
        (#[trigger] after[j]).0,
    ) by {
        let a = if i < at { i } else { i - 1 };
        let b = if j < at { j } else { j - 1 };
        if i != at {
            assert(after[i] == items[a]);
        }
        if j != at {
            assert(after[j] == items[b]);
        }
    }
    let m = items_map(after);
    let n = items_map(items).insert(key, value);
    assert(m =~= n) by {
        assert(after[at] == (key, value));
        lemma_items_lookup(after, at);
        assert forall|k: Seq<char>| m.contains_key(k) <==> n.contains_key(k) by {
            if m.contains_key(k) && k != key {
                let i = key_index(after, k);
                let a = if i < at { i } else { i - 1 };
                assert(after[i] == items[a]);
                lemma_items_lookup(items, a);
            }
            if n.contains_key(k) && k != key {
                let a = key_index(items, k);
                let i = if a < at { a } else { a + 1 };
                assert(after[i] == items[a]);
                lemma_items_lookup(after, i);
            }
        }
        assert forall|k: Seq<char>| m.contains_key(k) implies m[k] == n[k] by {
            if k != key {
                let i = key_index(after, k);
                let a = if i < at { i } else { i - 1 };
                assert(after[i] == items[a]);
                lemma_items_lookup(items, a);
            }
        }
    }
}

proof fn lemma_updated<W>(items: Seq<(Seq<char>, W)>, value: W, at: int)
    requires
        keys_ascend(items),
        0 <= at < items.len(),
    ensures
        keys_ascend(items.update(at, (items[at].0, value))),
        items_map(items.update(at, (items[at].0, value))) == items_map(items).insert(
            items[at].0,
            value,
        ),
{
    let key = items[at].0;
    let after = items.update(at, (key, value));
    assert forall|i: int, j: int| 0 <= i < j < after.len() implies text::less(
        (#[trigger] after[i]).0,
        (#[trigger] after[j]).0,
    ) by {
        assert(after[i].0 == items[i].0 && after[j].0 == items[j].0);
    }
    let m = items_map(after);
    let n = items_map(items).insert(key, value);
    assert(m =~= n) by {
        lemma_items_lookup(after, at);
        lemma_items_lookup(items, at);
        assert forall|k: Seq<char>| m.contains_key(k) <==> n.contains_key(k) by {
            if m.contains_key(k) {
                lemma_items_lookup(items, key_index(after, k));
            }
            if n.contains_key(k) && k != key {
                lemma_items_lookup(after, key_index(items, k));
            }
        }
        assert forall|k: Seq<char>| m.contains_key(k) implies m[k] == n[k] by {
            if k != key {
                lemma_items_lookup(items, key_index(after, k));
            }
        }
    }
}

proof fn lemma_removed<W>(items: Seq<(Seq<char>, W)>, at: int)
    requires
        keys_ascend(items),
        0 <= at < items.len(),
    ensures
        keys_ascend(items.remove(at)),
        items_map(items.remove(at)) == items_map(items).remove(items[at].0),
{
    let key = items[at].0;
    let after = items.remove(at);
    assert forall|i: int, j: int| 0 <= i < j < after.len() implies text::less(
        (#[trigger] after[i]).0,
        (#[trigger] after[j]).0,
    ) by {
        let a = if i < at { i } else { i + 1 };
        let b = if j < at { j } else { j + 1 };
        assert(after[i] == items[a] && after[j] == items[b]);
    }
    let m = items_map(after);
    let n = items_map(items).remove(key);
    assert(m =~= n) by {
        lemma_items_lookup(items, at);
        assert forall|k: Seq<char>| m.contains_key(k) <==> n.contains_key(k) by {
            if m.contains_key(k) {
                let i = key_index(after, k);
                let a = if i < at { i } else { i + 1 };
                assert(after[i] == items[a]);
                lemma_items_lookup(items, a);
            }
            if n.contains_key(k) {
                let a = key_index(items, k);
                let i = if a < at { a } else { a - 1 };
                lemma_items_lookup(items, a);
                assert(after[i] == items[a]);
                lemma_items_lookup(after, i);
            }
        }
        assert forall|k: Seq<char>| m.contains_key(k) implies m[k] == n[k] by {
            let i = key_index(after, k);
            let a = if i < at { i } else { i + 1 };
            assert(after[i] == items[a]);
            lemma_items_lookup(items, a);
        }
    }
}

impl<V: View> Table<V> {
    pub fn new() -> (r: Self)
        ensures
            r@ == Map::<Seq<char>, V::V>::empty(),
            r.items().len() == 0,
    {
        let entries: Vec<(String, V)> = Vec::new();
        let r = Table { entries };
        proof {
            assert(r@ =~= Map::<Seq<char>, V::V>::empty());
        }
        r
    }

    pub fn len(&self) -> (n: usize)
        ensures
            n == self.items().len(),
            n == self@.len(),
            keys_ascend(self.items()),
            self@.dom().finite(),
            self.items() == items_of(self@),
    {
        proof {
            use_type_invariant(self);
            lemma_items_all(self.items());
            lemma_items_of(self.items());
        }
        self.entries.len()
    }

    /// Takes the entry with the largest key out of the table.
    pub fn pop(&mut self) -> (r: Option<(String, V)>)
        ensures
            match r {
                Some((key, value)) => old(self)@.contains_key(key@) && value@ == old(self)@[key@]
                    && final(self)@ == old(self)@.remove(key@) && final(self).items().len() + 1
                    == old(self).items().len(),
                None => old(self)@ == Map::<Seq<char>, V::V>::empty() && final(self)@
                    == old(self)@,
            },
    {
        proof {
            use_type_invariant(&*self);
        }
        let ghost before = self.items();
        let n: usize = self.entries.len();
        if n == 0 {
            proof {
                assert(items_map(before) =~= Map::<Seq<char>, V::V>::empty());
            }
            return None;
        }
        let mut entries: Vec<(String, V)> = Vec::new();
        std::mem::swap(&mut entries, &mut self.entries);
        proof {
            lemma_items_lookup(before, n - 1);
            lemma_removed(before, n - 1);
        }
        let removed = entries.remove(n - 1);
        proof {
            assert(entries@.map_values(|e: (String, V)| (e.0@, e.1@)) =~= before.remove(n - 1));
        }
        self.entries = entries;
        Some(removed)
    }

    pub fn key_at(&self, i: usize) -> (r: &String)
        requires
            i < self.items().len(),
        ensures
            r@ == self.items()[i as int].0,
            self@.contains_key(r@),
            self@[r@] == self.items()[i as int].1,
    {
        proof {
            use_type_invariant(self);
            lemma_items_lookup(self.items(), i as int);
        }
        &self.entries[i].0
    }

    pub fn value_at(&self, i: usize) -> (r: &V)
        requires
            i < self.items().len(),
        ensures
            r@ == self.items()[i as int].1,
            self@.contains_key(self.items()[i as int].0),
            self@[self.items()[i as int].0] == r@,
    {
        proof {
            use_type_invariant(self);
            lemma_items_lookup(self.items(), i as int);
        }
        &self.entries[i].1
    }

    /// The first position whose key is not below `key`.
    fn position(&self, key: &str) -> (r: usize)
        ensures
            r <= self.items().len(),
            below(self.items(), key@, r as int),
            r < self.items().len() ==> !text::less(self.items()[r as int].0, key@),
            keys_ascend(self.items()),
    {
        proof {
            use_type_invariant(self);
        }
        let mut i: usize = 0;
        while i < self.entries.len() && text::is_less(self.entries[i].0.as_str(), key)
            invariant
                i <= self.entries@.len(),
                below(self.items(), key@, i as int),
            decreases self.entries@.len() - i,
        {
            proof {
                assert(self.items()[i as int].0 == self.entries@[i as int].0@);
            }
            i = i + 1;
        }
        i
    }

    pub fn get(&self, key: &str) -> (r: Option<&V>)
        ensures
            match r {
                Some(v) => self@.contains_key(key@) && v@ == self@[key@],
                None => !self@.contains_key(key@),
            },
    {
        let at = self.position(key);
        if at < self.entries.len() && text::same(self.entries[at].0.as_str(), key) {
            proof {
                lemma_items_lookup(self.items(), at as int);
            }
            Some(&self.entries[at].1)
        } else {
            proof {
                if at < self.items().len() {
                    text::lemma_less_total(self.items()[at as int].0, key@);
                }
                lemma_absent(self.items(), key@, at as int);
            }
            None
        }
    }

    pub fn contains(&self, key: &str) -> (r: bool)
        ensures
            r == self@.contains_key(key@),
    {
        self.get(key).is_some()
    }

    pub fn insert(&mut self, key: String, value: V) -> (r: Option<V>)
        ensures
            final(self)@ == old(self)@.insert(key@, value@),
            match r {
                Some(v) => old(self)@.contains_key(key@) && v@ == old(self)@[key@],
                None => !old(self)@.contains_key(key@),
            },
    {
        let at = self.position(key.as_str());
        let ghost before = self.items();
        let mut entries: Vec<(String, V)> = Vec::new();
        std::mem::swap(&mut entries, &mut self.entries);
        if at < entries.len() && text::same(entries[at].0.as_str(), key.as_str()) {
            proof {
                lemma_items_lookup(before, at as int);
                lemma_updated(before, value@, at as int);
            }
            let previous = entries.remove(at);
            entries.insert(at, (key, value));
            proof {
                assert(entries@.map_values(|e: (String, V)| (e.0@, e.1@)) =~= before.update(
                    at as int,
                    (before[at as int].0, value@),
                ));
            }
            self.entries = entries;
            Some(previous.1)
        } else {
            proof {
                if at < before.len() {
                    text::lemma_less_total(before[at as int].0, key@);
                }
                lemma_absent(before, key@, at as int);
                lemma_inserted(before, key@, value@, at as int);
            }
            let ghost added = (key@, value@);
            entries.insert(at, (key, value));
            proof {
                assert(entries@.map_values(|e: (String, V)| (e.0@, e.1@)) =~= before.insert(
                    at as int,
                    added,
                ));
            }
            self.entries = entries;
            None
        }
    }

    pub fn remove(&mut self, key: &str) -> (r: Option<V>)
        ensures
            final(self)@ == old(self)@.remove(key@),
            match r {
                Some(v) => old(self)@.contains_key(key@) && v@ == old(self)@[key@],
                None => !old(self)@.contains_key(key@),
            },
    {
        let at = self.position(key);
        let ghost before = self.items();
        if at < self.entries.len() && text::same(self.entries[at].0.as_str(), key) {
            let mut entries: Vec<(String, V)> = Vec::new();
            std::mem::swap(&mut entries, &mut self.entries);
            proof {
                lemma_items_lookup(before, at as int);
                lemma_removed(before, at as int);
            }
            let removed = entries.remove(at);
            proof {
                assert(entries@.map_values(|e: (String, V)| (e.0@, e.1@)) =~= before.remove(
                    at as int,
                ));
            }
            self.entries = entries;
            Some(removed.1)
        } else {
            proof {
                if at < before.len() {
                    text::lemma_less_total(before[at as int].0, key@);
                }
                lemma_absent(before, key@, at as int);
                assert(items_map(before).remove(key@) =~= items_map(before));
            }
            None
        }
    }
}

impl<V: Copied> Clone for Table<V> {
    fn clone(&self) -> (r: Self)
        ensures
            r@ == self@,
    {
        self.copied()
    }
}

impl<V: Copied> Copied for Table<V> {
    fn copied(&self) -> (r: Self) {
        let n = self.len();
        let mut entries: Vec<(String, V)> = Vec::new();
        let ghost items = self.items();
        let mut i: usize = 0;
        while i < n
            invariant
                i <= n,
                n == items.len(),
                items == self.items(),
                n == self.entries@.len(),
                entries@.len() == i,
                forall|j: int|
                    0 <= j < i ==> (#[trigger] entries@[j]).0@ == items[j].0 && entries@[j].1@
                        == items[j].1,
            decreases n - i,
        {
            let key = self.entries[i].0.copied();
            let value = self.entries[i].1.copied();
            entries.push((key, value));
            i = i + 1;
        }
        proof {
            assert(entries@.map_values(|e: (String, V)| (e.0@, e.1@)) =~= items);
        }
        Table { entries }
    }
}

/// The entries whose values do not satisfy `p`.
pub open spec fn without<W>(m: Map<Seq<char>, W>, p: spec_fn(W) -> bool) -> Map<Seq<char>, W> {
    Map::new(|k: Seq<char>| m.contains_key(k) && !p(m[k]), |k: Seq<char>| m[k])
}

/// The values that satisfy `p`, in the order of their keys.
pub open spec fn values_where<W>(m: Map<Seq<char>, W>, p: spec_fn(W) -> bool) -> Seq<W> {
    items_of(m).filter(|e: (Seq<char>, W)| p(e.1)).map_values(|e: (Seq<char>, W)| e.1)
}

impl<V: View> Table<V> {
    /// The position of the first entry whose value satisfies `p`, which `test` decides.
    pub(crate) fn find<F: Fn(&V) -> bool>(
        &self,
        test: F,
        Ghost(p): Ghost<spec_fn(V::V) -> bool>,
    ) -> (r: Option<usize>)
        requires
            forall|v: &V| call_requires(test, (v,)),
            forall|v: &V, b: bool| call_ensures(test, (v,), b) ==> b == p(v@),
        ensures
            match r {
                Some(i) => i < self.items().len() && any_value(self@, p) && first_key(self@, p)
                    == Some(self.items()[i as int].0) && self@.contains_key(
                    self.items()[i as int].0,
                ) && self@[self.items()[i as int].0] == self.items()[i as int].1 && p(
                    self.items()[i as int].1,
                ),
                None => !any_value(self@, p) && first_key(self@, p) is None,
            },
    {
        let n: usize = self.len();
        let mut i: usize = 0;
        while i < n
            invariant
                i <= n,
                n == self.items().len(),
                keys_ascend(self.items()),
                forall|v: &V| call_requires(test, (v,)),
                forall|v: &V, b: bool| call_ensures(test, (v,), b) ==> b == p(v@),
                forall|j: int| 0 <= j < i ==> !p((#[trigger] self.items()[j]).1),
            decreases n - i,
        {
            if test(self.value_at(i)) {
                proof {
                    lemma_first_at(self.items(), p, i as int);
                }
                return Some(i);
            }
            i = i + 1;
        }
        proof {
            lemma_first_none(self.items(), p);
        }
        None
    }

    /// Takes out the entries whose values satisfy `p`, which `test` decides.
    pub(crate) fn remove_where<F: Fn(&V) -> bool>(
        &mut self,
        test: F,
        Ghost(p): Ghost<spec_fn(V::V) -> bool>,
    )
        requires
            forall|v: &V| call_requires(test, (v,)),
            forall|v: &V, b: bool| call_ensures(test, (v,), b) ==> b == p(v@),
        ensures
            final(self)@ == without(old(self)@, p),
    {
        let mut kept: Table<V> = Table::new();
        let ghost start = self@;
        proof {
            assert(kept@ =~= Map::<Seq<char>, V::V>::empty());
        }
        loop
            invariant_except_break
                forall|v: &V| call_requires(test, (v,)),
                forall|v: &V, b: bool| call_ensures(test, (v,), b) ==> b == p(v@),
                forall|k: Seq<char>| #[trigger]
                    self@.contains_key(k) ==> start.contains_key(k) && self@[k] == start[k],
                forall|k: Seq<char>| #[trigger]
                    kept@.contains_key(k) <==> start.contains_key(k) && !p(start[k])
                        && !self@.contains_key(k),
                forall|k: Seq<char>| #[trigger] kept@.contains_key(k) ==> kept@[k] == start[k],
            ensures
                kept@ == without(start, p),
            decreases self.items().len(),
        {
            let next = self.pop();
            match next {
                None => {
                    proof {
                        assert(kept@ =~= without(start, p));
                    }
                    break;
                },
                Some((key, value)) => {
                    if !test(&value) {
                        let _ = kept.insert(key, value);
                    }
                },
            }
        }
        *self = kept;
    }
}

impl<V: Copied> Table<V> {
    /// Copies of the values that satisfy `p`, which `test` decides.
    pub(crate) fn select<F: Fn(&V) -> bool>(
        &self,
        test: F,
        Ghost(p): Ghost<spec_fn(V::V) -> bool>,
    ) -> (r: Vec<V>)
        requires
            forall|v: &V| call_requires(test, (v,)),
            forall|v: &V, b: bool| call_ensures(test, (v,), b) ==> b == p(v@),
        ensures
            views(r@) == values_where(self@, p),
    {
        let n: usize = self.len();
        let ghost items = self.items();
        let ghost q = |e: (Seq<char>, V::V)| p(e.1);
        let ghost value = |e: (Seq<char>, V::V)| e.1;
        let mut r: Vec<V> = Vec::new();
        let mut i: usize = 0;
        proof {
            reveal(Seq::filter);
            assert(views(r@) =~= items.take(0).filter(q).map_values(value));
        }
        while i < n
            invariant
                i <= n,
                n == items.len(),
                items == self.items(),
                q == (|e: (Seq<char>, V::V)| p(e.1)),
                value == (|e: (Seq<char>, V::V)| e.1),
                forall|v: &V| call_requires(test, (v,)),
                forall|v: &V, b: bool| call_ensures(test, (v,), b) ==> b == p(v@),
                views(r@) == items.take(i as int).filter(q).map_values(value),
            decreases n - i,
        {
            let v = self.value_at(i);
            let ghost before = items.take(i as int);
            proof {
                reveal(Seq::filter);
                assert(items.take(i + 1).drop_last() =~= before);
                assert(items.take(i + 1).last() == items[i as int]);
            }
            if test(v) {
                let x = v.copied();
                proof {
                    lemma_views_push(r@, x);
                    assert(before.filter(q).push(items[i as int]).map_values(value)
                        =~= before.filter(q).map_values(value).push(items[i as int].1));
                }
                r.push(x);
            }
            i = i + 1;
        }
        proof {
            assert(items.take(n as int) =~= items);
        }
        r
    }
}

/// The map of one more entry.
pub proof fn lemma_items_step<W>(items: Seq<(Seq<char>, W)>, i: int)
    requires
        keys_ascend(items),
        0 <= i < items.len(),
    ensures
        items_map(items.take(i + 1)) == items_map(items.take(i)).insert(items[i].0, items[i].1),
{
    let a = items.take(i);
    let b = items.take(i + 1);
    assert(keys_ascend(a));
    assert(keys_ascend(b));
    lemma_items_all(a);
    lemma_items_all(b);
    assert(b[i] == items[i]);
    lemma_items_lookup(b, i);
    let m = items_map(b);
    let n = items_map(a).insert(items[i].0, items[i].1);
    assert forall|k: Seq<char>| m.contains_key(k) <==> n.contains_key(k) by {
        if m.contains_key(k) && k != items[i].0 {
            let j = key_index(b, k);
            assert(a[j] == b[j]);
            assert(has_key(a, k));
        }
        if n.contains_key(k) && k != items[i].0 {
            let j = key_index(a, k);
            assert(b[j] == a[j]);
            assert(has_key(b, k));
        }
    }
    assert forall|k: Seq<char>| m.contains_key(k) implies m[k] == n[k] by {
        if k != items[i].0 {
            let j = key_index(b, k);
            assert(a[j] == b[j]);
            lemma_items_lookup(a, j);
        }
    }
    assert(m =~= n);
}


/// Every change of a value whose key is one of `keys`, made by `f` of the key and the value.
pub open spec fn changed_at<W>(
    m: Map<Seq<char>, W>,
    keys: Set<Seq<char>>,
    f: spec_fn(Seq<char>, W) -> W,
) -> Map<Seq<char>, W> {
    Map::new(
        |k: Seq<char>| m.contains_key(k),
        |k: Seq<char>|
            if keys.contains(k) {
                f(k, m[k])
            } else {
                m[k]
            },
    )
}

/// The texts that a list names.
pub open spec fn named(keys: Seq<Seq<char>>) -> Set<Seq<char>> {
    Set::new(|k: Seq<char>| keys.contains(k))
}

impl<V: View> Table<V> {
    /// Replaces the values of the listed keys by `f` of the key and the value, which `change`
    /// computes.
    pub(crate) fn change_at<G: Fn(&String, V) -> V>(
        &mut self,
        keys: &Vec<String>,
        change: G,
        Ghost(f): Ghost<spec_fn(Seq<char>, V::V) -> V::V>,
    )
        requires
            views(keys@).no_duplicates(),
            forall|k: &String, v: V| call_requires(change, (k, v)),
            forall|k: &String, v: V, w: V| call_ensures(change, (k, v), w) ==> w@ == f(k@, v@),
        ensures
            final(self)@ == changed_at(old(self)@, named(views(keys@)), f),
    {
        let ghost start = self@;
        let ghost all = views(keys@);
        let mut i: usize = 0;
        proof {
            assert(changed_at(start, named(all.take(0)), f) =~= start);
        }
        while i < keys.len()
            invariant
                i <= keys@.len(),
                all == views(keys@),
                all.no_duplicates(),
                forall|k: &String, v: V| call_requires(change, (k, v)),
                forall|k: &String, v: V, w: V| call_ensures(change, (k, v), w) ==> w@ == f(k@, v@),
                self@ == changed_at(start, named(all.take(i as int)), f),
            decreases keys@.len() - i,
        {
            let key = &keys[i];
            proof {
                assert(all[i as int] == key@);
                lemma_named_step(all, i as int);
            }
            match self.remove(key.as_str()) {
                Some(v) => {
                    let w = change(key, v);
                    let _ = self.insert(key.clone(), w);
                },
                None => {},
            }
            proof {
                assert(self@ =~= changed_at(start, named(all.take(i + 1)), f));
            }
            i = i + 1;
        }
        proof {
            assert(all.take(all.len() as int) =~= all);
        }
    }
}

/// Whether a text is in a list.
pub fn is_listed(list: &Vec<String>, s: &str) -> (r: bool)
    ensures
        r == views(list@).contains(s@),
{
    let ghost all = views(list@);
    let mut i: usize = 0;
    while i < list.len()
        invariant
            i <= list@.len(),
            all == views(list@),
            forall|j: int| 0 <= j < i ==> #[trigger] all[j] != s@,
        decreases list@.len() - i,
    {
        assert(all[i as int] == list@[i as int]@);
        if text::same(list[i].as_str(), s) {
            return true;
        }
        i = i + 1;
    }
    false
}

/// The texts that the entries satisfying `p` give by `f`.
pub open spec fn texts_where<W>(
    m: Map<Seq<char>, W>,
    p: spec_fn(W) -> bool,
    f: spec_fn(W) -> Seq<char>,
) -> Set<Seq<char>> {
    Set::new(|s: Seq<char>| exists|k: Seq<char>| #[trigger] m.contains_key(k) && p(m[k]) && f(m[k]) == s)
}

impl<V: View> Table<V> {
    /// The texts that the values satisfying `p` give by `f`, once each; `pick` computes both.
    pub(crate) fn distinct<F: Fn(&V) -> Option<String>>(
        &self,
        pick: F,
        Ghost(p): Ghost<spec_fn(V::V) -> bool>,
        Ghost(f): Ghost<spec_fn(V::V) -> Seq<char>>,
    ) -> (r: Vec<String>)
        requires
            forall|v: &V| call_requires(pick, (v,)),
            forall|v: &V, o: Option<String>|
                call_ensures(pick, (v,), o) ==> match o {
                    Some(s) => p(v@) && s@ == f(v@),
                    None => !p(v@),
                },
        ensures
            views(r@).no_duplicates(),
            named(views(r@)) == texts_where(self@, p, f),
    {
        let n: usize = self.len();
        let ghost items = self.items();
        let mut r: Vec<String> = Vec::new();
        let mut i: usize = 0;
        proof {
            assert(views(r@) =~= Seq::<Seq<char>>::empty());
        }
        while i < n
            invariant
                i <= n,
                n == items.len(),
                items == self.items(),
                keys_ascend(items),
                forall|v: &V| call_requires(pick, (v,)),
                forall|v: &V, o: Option<String>|
                    call_ensures(pick, (v,), o) ==> match o {
                        Some(s) => p(v@) && s@ == f(v@),
                        None => !p(v@),
                    },
                views(r@).no_duplicates(),
                forall|s: Seq<char>|
                    #![trigger views(r@).contains(s)]
                    views(r@).contains(s) ==> exists|j: int|
                        0 <= j < i && p((#[trigger] items[j]).1) && f(items[j].1) == s,
                forall|j: int|
                    0 <= j < i && p((#[trigger] items[j]).1) ==> views(r@).contains(f(items[j].1)),
            decreases n - i,
        {
            let v = self.value_at(i);
            let ghost before = views(r@);
            match pick(v) {
                Some(s) => {
                    if !is_listed(&r, s.as_str()) {
                        let one = s;
                        proof {
                            lemma_views_push(r@, one);
                            assert forall|x: Seq<char>| before.push(one@).contains(x) <==> before.contains(x)
                                || x == one@ by {
                                if before.contains(x) {
                                    let j = choose|j: int| 0 <= j < before.len() && before[j] == x;
                                    assert(before.push(one@)[j] == x);
                                }
                                assert(before.push(one@)[before.len() as int] == one@);
                            }
                            assert(items[i as int].1 == v@);
                        }
                        r.push(one);
                    }
                },
                None => {},
            }
            proof {
                assert forall|s: Seq<char>| #[trigger] views(r@).contains(s) implies exists|j: int|
                    0 <= j < i + 1 && p((#[trigger] items[j]).1) && f(items[j].1) == s by {
                    if before.contains(s) {
                        let j = choose|j: int|
                            0 <= j < i && p((#[trigger] items[j]).1) && f(items[j].1) == s;
                        assert(p(items[j].1));
                    } else {
                        assert(p(items[i as int].1) && f(items[i as int].1) == s);
                    }
                }
            }
            i = i + 1;
        }
        proof {
            lemma_items_all(items);
            let m = self@;
            assert(named(views(r@)) =~= texts_where(m, p, f)) by {
                assert forall|s: Seq<char>| views(r@).contains(s) implies texts_where(m, p, f).contains(s) by {
                    let j = choose|j: int| 0 <= j < n && p((#[trigger] items[j]).1) && f(items[j].1) == s;
                    assert(m.contains_key(items[j].0));
                }
                assert forall|s: Seq<char>| texts_where(m, p, f).contains(s) implies views(r@).contains(s) by {
                    let k = choose|k: Seq<char>| #[trigger] m.contains_key(k) && p(m[k]) && f(m[k]) == s;
                    let j = key_index(items, k);
                    assert(items[j].1 == m[k]);
                }
            }
        }
        r
    }
}


/// The `limit` entries with the largest keys.
pub open spec fn last_entries<W>(m: Map<Seq<char>, W>, limit: usize) -> Map<Seq<char>, W> {
    let items = items_of(m);
    if items.len() > limit {
        items_map(items.skip(items.len() - limit))
    } else {
        m
    }
}

impl<V: View> Table<V> {
    /// Drops the entries with the smallest keys until `limit` are left.
    pub fn keep_last(&mut self, limit: usize)
        ensures
            final(self)@ == last_entries(old(self)@, limit),
            final(self)@.len() == if old(self)@.len() > limit {
                limit as nat
            } else {
                old(self)@.len()
            },
    {
        let n: usize = self.len();
        if n <= limit {
            return;
        }
        let ghost items = self.items();
        let mut entries: Vec<(String, V)> = Vec::new();
        std::mem::swap(&mut entries, &mut self.entries);
        let tail = entries.split_off(n - limit);
        proof {
            let kept = items.skip(n - limit);
            assert(tail@.map_values(|e: (String, V)| (e.0@, e.1@)) =~= kept);
            assert forall|i: int, j: int| 0 <= i < j < kept.len() implies text::less(
                (#[trigger] kept[i]).0,
                (#[trigger] kept[j]).0,
            ) by {
                assert(kept[i] == items[i + n - limit] && kept[j] == items[j + n - limit]);
            }
            lemma_items_all(kept);
        }
        self.entries = tail;
    }
}


/// Where a key belongs among ascending ones.
proof fn lemma_place<W>(items: Seq<(Seq<char>, W)>, key: Seq<char>) -> (at: int)
    requires
        keys_ascend(items),
        !has_key(items, key),
    ensures
        0 <= at <= items.len(),
        below(items, key, at),
        at < items.len() ==> text::less(key, items[at].0),
    decreases items.len(),
{
    if items.len() == 0 {
        0
    } else {
        let last = items.len() - 1;
        text::lemma_less_total(items[last].0, key);
        assert(items[last].0 != key);
        if text::less(items[last].0, key) {
            assert forall|i: int| 0 <= i < items.len() implies text::less(
                (#[trigger] items[i]).0,
                key,
            ) by {
                if i < last {
                    text::lemma_less_transitive(items[i].0, items[last].0, key);
                }
            }
            items.len() as int
        } else {
            let front = items.take(last);
            assert(keys_ascend(front));
            assert(!has_key(front, key)) by {
                if has_key(front, key) {
                    let i = key_index(front, key);
                    assert(items[i].0 == key);
                }
            }
            let at = lemma_place(front, key);
            assert forall|i: int| 0 <= i < at implies text::less((#[trigger] items[i]).0, key) by {
                assert(front[i] == items[i]);
            }
            if at < last {
                assert(front[at] == items[at]);
            }
            at
        }
    }
}

/// Every finite map has its entries in key order.
pub proof fn lemma_items_exist<W>(m: Map<Seq<char>, W>)
    requires
        m.dom().finite(),
    ensures
        keys_ascend(items_of(m)),
        items_map(items_of(m)) == m,
        items_of(m).len() == m.len(),
    decreases m.len(),
{
    if m.len() == 0 {
        let none = Seq::<(Seq<char>, W)>::empty();
        assert(m.dom() =~= Set::empty());
        assert(items_map(none) =~= m);
        assert(keys_ascend(none));
    } else {
        let key = m.dom().choose();
        let rest = m.remove(key);
        assert(rest.dom() =~= m.dom().remove(key));
        lemma_items_exist(rest);
        let items = items_of(rest);
        assert(!has_key(items, key)) by {
            assert(!items_map(items).contains_key(key));
        }
        let at = lemma_place(items, key);
        lemma_inserted(items, key, m[key], at);
        assert(rest.insert(key, m[key]) =~= m);
        assert(keys_ascend(items.insert(at, (key, m[key]))));
    }
    lemma_items_all(items_of(m));
}


/// One more key of a list without repetitions.
pub proof fn lemma_named_step(keys: Seq<Seq<char>>, i: int)
    requires
        keys.no_duplicates(),
        0 <= i < keys.len(),
    ensures
        !named(keys.take(i)).contains(keys[i]),
        named(keys.take(i + 1)) == named(keys.take(i)).insert(keys[i]),
{
    let before = keys.take(i);
    let after = keys.take(i + 1);
    if before.contains(keys[i]) {
        let j = choose|j: int| 0 <= j < before.len() && before[j] == keys[i];
        assert(keys[j] == keys[i]);
    }
    assert forall|k: Seq<char>| after.contains(k) <==> before.contains(k) || k == keys[i] by {
        if after.contains(k) {
            let j = choose|j: int| 0 <= j < after.len() && after[j] == k;
            if j < i {
                assert(before[j] == k);
            }
        }
        if before.contains(k) {
            let j = choose|j: int| 0 <= j < before.len() && before[j] == k;
            assert(after[j] == k);
        }
        assert(after[i] == keys[i]);
    }
    assert(named(after) =~= named(before).insert(keys[i]));
}


/// The entries whose keys are not in a set.
pub open spec fn without_keys<W>(m: Map<Seq<char>, W>, keys: Set<Seq<char>>) -> Map<Seq<char>, W> {
    Map::new(|k: Seq<char>| m.contains_key(k) && !keys.contains(k), |k: Seq<char>| m[k])
}

impl<V: View> Table<V> {
    /// Takes out the entries of the listed keys.
    pub fn remove_all(&mut self, keys: &Vec<String>)
        ensures
            final(self)@ == without_keys(old(self)@, named(views(keys@))),
    {
        let ghost start = self@;
        let ghost all = views(keys@);
        let mut i: usize = 0;
        proof {
            assert(without_keys(start, named(all.take(0))) =~= start);
        }
        while i < keys.len()
            invariant
                i <= keys@.len(),
                all == views(keys@),
                self@ == without_keys(start, named(all.take(i as int))),
            decreases keys@.len() - i,
        {
            let ghost before = all.take(i as int);
            let ghost after = all.take(i + 1);
            let _ = self.remove(keys[i].as_str());
            proof {
                assert(all[i as int] == keys@[i as int]@);
                assert(after =~= before.push(all[i as int]));
                lemma_listed_push(before, all[i as int]);
                assert(self@ =~= without_keys(start, named(after)));
            }
            i = i + 1;
        }
        proof {
            assert(all.take(all.len() as int) =~= all);
        }
    }
}

/// The values of the listed keys that there are, in the order of the list.
pub open spec fn found<W>(m: Map<Seq<char>, W>, keys: Seq<Seq<char>>) -> Seq<W> {
    keys.filter(|k: Seq<char>| m.contains_key(k)).map_values(|k: Seq<char>| m[k])
}

/// The entries whose keys are in a set.
pub open spec fn only<W>(m: Map<Seq<char>, W>, keys: Set<Seq<char>>) -> Map<Seq<char>, W> {
    Map::new(|k: Seq<char>| m.contains_key(k) && keys.contains(k), |k: Seq<char>| m[k])
}

/// The texts that `f` gives of the elements of a list, which `pick` computes.
pub(crate) fn texts_of<T: View, F: Fn(&T) -> String>(
    v: &Vec<T>,
    pick: F,
    Ghost(f): Ghost<spec_fn(T::V) -> Seq<char>>,
) -> (r: Vec<String>)
    requires
        forall|x: &T| call_requires(pick, (x,)),
        forall|x: &T, s: String| call_ensures(pick, (x,), s) ==> s@ == f(x@),
    ensures
        views(r@) == views(v@).map_values(f),
{
    let mut r: Vec<String> = Vec::new();
    let mut i: usize = 0;
    while i < v.len()
        invariant
            i <= v@.len(),
            forall|x: &T| call_requires(pick, (x,)),
            forall|x: &T, s: String| call_ensures(pick, (x,), s) ==> s@ == f(x@),
            views(r@) == views(v@).map_values(f).take(i as int),
        decreases v@.len() - i,
    {
        let s = pick(&v[i]);
        let ghost all = views(v@).map_values(f);
        proof {
            lemma_views_push(r@, s);
            assert(all[i as int] == f(v@[i as int]@));
            assert(all.take(i + 1) =~= all.take(i as int).push(all[i as int]));
        }
        r.push(s);
        i = i + 1;
    }
    proof {
        let all = views(v@).map_values(f);
        assert(all.take(all.len() as int) =~= all);
    }
    r
}

impl<V: Copied> Table<V> {
    /// Copies of the values of the listed keys that there are.
    pub fn find_all(&self, keys: &Vec<String>) -> (r: Vec<V>)
        ensures
            views(r@) == found(self@, views(keys@)),
    {
        let ghost all = views(keys@);
        let ghost p = |k: Seq<char>| self@.contains_key(k);
        let ghost g = |k: Seq<char>| self@[k];
        let mut r: Vec<V> = Vec::new();
        let mut i: usize = 0;
        proof {
            reveal(Seq::filter);
            assert(views(r@) =~= all.take(0).filter(p).map_values(g));
        }
        while i < keys.len()
            invariant
                i <= keys@.len(),
                all == views(keys@),
                p == (|k: Seq<char>| self@.contains_key(k)),
                g == (|k: Seq<char>| self@[k]),
                views(r@) == all.take(i as int).filter(p).map_values(g),
            decreases keys@.len() - i,
        {
            proof {
                reveal(Seq::filter);
                assert(all[i as int] == keys@[i as int]@);
                assert(all.take(i + 1).drop_last() =~= all.take(i as int));
            }
            let ghost before = all.take(i as int).filter(p);
            match self.get(keys[i].as_str()) {
                Some(v) => {
                    let one = v.copied();
                    proof {
                        lemma_views_push(r@, one);
                        assert(before.push(all[i as int]).map_values(g) =~= before.map_values(
                            g,
                        ).push(g(all[i as int])));
                    }
                    r.push(one);
                },
                None => {},
            }
            i = i + 1;
        }
        proof {
            assert(all.take(all.len() as int) =~= all);
        }
        r
    }

    /// A copy of the entries of the listed keys.
    pub fn part(&self, keys: &Vec<String>) -> (r: Table<V>)
        ensures
            r@ == only(self@, named(views(keys@))),
    {
        let ghost all = views(keys@);
        let mut r: Table<V> = Table::new();
        let mut i: usize = 0;
        proof {
            assert(r@ =~= only(self@, named(all.take(0))));
        }
        while i < keys.len()
            invariant
                i <= keys@.len(),
                all == views(keys@),
                r@ == only(self@, named(all.take(i as int))),
            decreases keys@.len() - i,
        {
            let ghost before = all.take(i as int);
            let ghost after = all.take(i + 1);
            let ghost start = r@;
            match self.get(keys[i].as_str()) {
                Some(v) => {
                    let _ = r.insert(keys[i].clone(), v.copied());
                },
                None => {},
            }
            proof {
                assert(all[i as int] == keys@[i as int]@);
                assert(after =~= before.push(all[i as int]));
                lemma_listed_push(before, all[i as int]);
                assert(r@ =~= only(self@, named(after)));
            }
            i = i + 1;
        }
        proof {
            assert(all.take(all.len() as int) =~= all);
        }
        r
    }
}

proof fn lemma_listed_push(keys: Seq<Seq<char>>, key: Seq<char>)
    ensures
        forall|k: Seq<char>| #[trigger] keys.push(key).contains(k) <==> keys.contains(k) || k == key,
{
    let after = keys.push(key);
    assert forall|k: Seq<char>| #[trigger] after.contains(k) <==> keys.contains(k) || k == key by {
        if keys.contains(k) {
            let j = choose|j: int| 0 <= j < keys.len() && keys[j] == k;
            assert(after[j] == k);
        }
        assert(after[keys.len() as int] == key);
        if after.contains(k) {
            let j = choose|j: int| 0 <= j < after.len() && after[j] == k;
            if j < keys.len() {
                assert(keys[j] == k);
            }
        }
    }
}

proof fn lemma_first_index<W>(items: Seq<(Seq<char>, W)>, p: spec_fn(W) -> bool, i: int) -> (j: int)
    requires
        0 <= i <= items.len(),
        forall|k: int| 0 <= k < i ==> !p((#[trigger] items[k]).1),
        exists|k: int| 0 <= k < items.len() && p((#[trigger] items[k]).1),
    ensures
        i <= j < items.len(),
        p(items[j].1),
        forall|k: int| 0 <= k < j ==> !p((#[trigger] items[k]).1),
    decreases items.len() - i,
{
    if i < items.len() && !p(items[i].1) {
        lemma_first_index(items, p, i + 1)
    } else {
        i
    }
}

/// The first key is the least of those whose value satisfies `p`.
pub proof fn lemma_first_key<W>(m: Map<Seq<char>, W>, p: spec_fn(W) -> bool)
    requires
        m.dom().finite(),
        any_value(m, p),
    ensures
        first_key(m, p) matches Some(k) && m.contains_key(k) && p(m[k]) && forall|j: Seq<char>|
            #[trigger] m.contains_key(j) && p(m[j]) ==> !text::less(j, k),
{
    lemma_items_exist(m);
    let items = items_of(m);
    lemma_items_all(items);
    let key = choose|k: Seq<char>| #[trigger] m.contains_key(k) && p(m[k]);
    assert(p(items[key_index(items, key)].1));
    let i = lemma_first_index(items, p, 0);
    lemma_first_at(items, p, i);
    assert forall|j: Seq<char>| #[trigger] m.contains_key(j) && p(m[j]) implies !text::less(
        j,
        items[i].0,
    ) by {
        let at = key_index(items, j);
        assert(p(items[at].1));
        if at > i {
            if text::less(j, items[i].0) {
                text::lemma_less_transitive(items[i].0, j, items[i].0);
                text::lemma_less_irreflexive(items[i].0);
            }
        } else {
            text::lemma_less_irreflexive(items[i].0);
        }
    }
}

/// What a filter keeps stood in the sequence.
pub proof fn lemma_filter_within<W>(s: Seq<W>, p: spec_fn(W) -> bool)
    ensures
        forall|w: W| #[trigger] s.filter(p).contains(w) ==> s.contains(w),
    decreases s.len(),
{
    reveal(Seq::filter);
    if s.len() > 0 {
        lemma_filter_within(s.drop_last(), p);
        assert forall|w: W| #[trigger] s.filter(p).contains(w) implies s.contains(w) by {
            let front = s.drop_last().filter(p);
            let i = choose|i: int| 0 <= i < s.filter(p).len() && s.filter(p)[i] == w;
            if i < front.len() {
                assert(front[i] == w);
                assert(front.contains(w));
                let j = choose|j: int| 0 <= j < s.drop_last().len() && s.drop_last()[j] == w;
                assert(s[j] == w);
            } else {
                assert(s[s.len() - 1] == w);
            }
        }
    }
}

} // verus!
