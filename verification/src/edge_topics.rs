//! The topics of an edge agent's source: how they are made, merged, ordered and kept.

use crate::domain::{Topic, TopicView};
use crate::hashing;
use crate::heartbeat;
use crate::heartbeat::{EdgeTopic, EdgeTopicView};
use crate::table;
use crate::table::{Copied, Table};
use crate::text;
use crate::time;
use vstd::prelude::*;
use vstd::string::*;
use vstd::utf8::*;

verus! {

pub const MAX_RETAINED_TOPICS_PER_SOURCE: usize = 512;

/// The identifier of a topic of a source.
pub open spec fn topic_id(source_id: Seq<char>, path: Seq<char>) -> Seq<char> {
    "topic-"@ + text::hex_text(
        hashing::sha256_of(encode_utf8(source_id) + seq![0u8] + encode_utf8(path)).take(12),
    )
}

/// The topic that an agent's report of it becomes.
pub open spec fn materialized(
    source_id: Seq<char>,
    device_id: Seq<char>,
    t: EdgeTopicView,
    updated_at: Seq<char>,
) -> TopicView {
    TopicView {
        id: topic_id(source_id, t.path),
        data_source_id: source_id,
        device_id,
        path: t.path,
        label: t.label,
        renderer: heartbeat::renderer_of(t.renderer_hint),
        quality: "fresh"@,
        value: None,
        unit: None,
        message: None,
        samples: None,
        updated_at,
    }
}

pub(crate) fn make_topic_id(source_id: &str, path: &str) -> (r: String)
    ensures
        r@ == topic_id(source_id@, path@),
{
    let mut bytes: Vec<u8> = Vec::new();
    hashing::extend(&mut bytes, source_id.as_bytes());
    bytes.push(0u8);
    hashing::extend(&mut bytes, path.as_bytes());
    assert(bytes@ =~= encode_utf8(source_id@) + seq![0u8] + encode_utf8(path@));
    let digest = hashing::sha256(bytes.as_slice());
    let short = hashing::hex_prefix(digest.as_slice(), 12);
    text::line("topic-").add(short.as_str()).done()
}

pub fn materialize_topic(source_id: &str, device_id: &str, t: &EdgeTopic, updated_at: &str) -> (r:
    Topic)
    ensures
        r@ == materialized(source_id@, device_id@, t@, updated_at@),
{
    let view = match &t.renderer_hint {
        Some(hint) => heartbeat::renderer(Some(hint.as_str()), t.path.as_str()),
        None => heartbeat::renderer(None, t.path.as_str()),
    };
    Topic {
        id: make_topic_id(source_id, t.path.as_str()),
        data_source_id: source_id.to_owned(),
        device_id: device_id.to_owned(),
        path: t.path.clone(),
        label: t.label.clone(),
        renderer: view.to_owned(),
        quality: "fresh".to_owned(),
        value: None,
        unit: None,
        message: None,
        samples: None,
        updated_at: updated_at.to_owned(),
    }
}

/// The first topic from `i` on with a path, or the number of topics.
pub open spec fn path_index(topics: Seq<TopicView>, path: Seq<char>, i: int) -> int
    decreases topics.len() - i,
{
    if i < 0 || i >= topics.len() {
        topics.len() as int
    } else if topics[i].path == path {
        i
    } else {
        path_index(topics, path, i + 1)
    }
}

/// The topics with one more, which takes the place of the first with its path.
pub open spec fn with_topic(topics: Seq<TopicView>, path: Seq<char>, t: TopicView) -> Seq<TopicView> {
    let at = path_index(topics, path, 0);
    if at < topics.len() {
        topics.update(at, t)
    } else {
        topics.push(t)
    }
}

fn put_topic(topics: &mut Vec<Topic>, path: &str, t: Topic)
    ensures
        table::views(final(topics)@) == with_topic(table::views(old(topics)@), path@, t@),
{
    let ghost all = table::views(topics@);
    let n: usize = topics.len();
    let mut i: usize = 0;
    while i < n
        invariant
            i <= n,
            n == topics@.len(),
            all == table::views(topics@),
            all == table::views(old(topics)@),
            path_index(all, path@, 0) == path_index(all, path@, i as int),
        decreases n - i,
    {
        assert(all[i as int] == topics@[i as int]@);
        if text::same(topics[i].path.as_str(), path) {
            let ghost added = t@;
            topics.set(i, t);
            assert(table::views(topics@) =~= all.update(i as int, added));
            return;
        }
        i = i + 1;
    }
    proof {
        table::lemma_views_push(topics@, t);
    }
    topics.push(t);
}

/// The topics with those of a report from `i` on.
pub open spec fn merged(
    topics: Seq<TopicView>,
    fresh: Seq<(Seq<char>, TopicView)>,
    i: int,
) -> Seq<TopicView>
    decreases fresh.len() - i,
{
    if i < 0 || i >= fresh.len() {
        topics
    } else {
        merged(with_topic(topics, fresh[i].0, fresh[i].1), fresh, i + 1)
    }
}

/// Merges the topics of a report, in the order of their paths, into those of a source.
pub fn merge_topics(topics: &mut Vec<Topic>, fresh: &Table<Topic>)
    ensures
        table::views(final(topics)@) == merged(
            table::views(old(topics)@),
            table::items_of(fresh@),
            0,
        ),
{
    let n: usize = fresh.len();
    let ghost items = fresh.items();
    let mut i: usize = 0;
    while i < n
        invariant
            i <= n,
            n == items.len(),
            items == fresh.items(),
            merged(table::views(old(topics)@), items, 0) == merged(
                table::views(topics@),
                items,
                i as int,
            ),
        decreases n - i,
    {
        let key = fresh.key_at(i);
        let one = fresh.value_at(i).copied();
        put_topic(topics, key.as_str(), one);
        i = i + 1;
    }
}

/// The topics, all of them out of date.
pub open spec fn staled(topics: Seq<TopicView>) -> Seq<TopicView> {
    topics.map_values(|t: TopicView| TopicView { quality: "stale"@, ..t })
}

pub fn stale_topics(mut topics: Vec<Topic>) -> (r: Vec<Topic>)
    ensures
        table::views(r@) == staled(table::views(topics@)),
{
    let ghost all = table::views(topics@);
    let n: usize = topics.len();
    let mut i: usize = 0;
    while i < n
        invariant
            i <= n,
            n == topics@.len(),
            n == all.len(),
            forall|j: int| 0 <= j < i ==> (#[trigger] topics@[j])@ == staled(all)[j],
            forall|j: int| i <= j < n ==> (#[trigger] topics@[j])@ == all[j],
        decreases n - i,
    {
        let mut t = topics[i].copied();
        t.quality = "stale".to_owned();
        assert(t@ =~= staled(all)[i as int]);
        topics.set(i, t);
        i = i + 1;
    }
    assert(table::views(topics@) =~= staled(all));
    topics
}

pub open spec fn is_fresh(t: TopicView) -> bool {
    t.quality == "fresh"@
}

/// When a topic was brought up to date, if its text says so.
pub open spec fn updated_time(t: TopicView) -> Option<i128> {
    match time::timestamp_read(t.updated_at) {
        Ok(ns) => Some(ns),
        Err(_) => None,
    }
}

/// Whether a time comes after another; a missing one comes before all.
pub open spec fn later(a: Option<i128>, b: Option<i128>) -> bool {
    match a {
        None => false,
        Some(x) => match b {
            None => true,
            Some(y) => x > y,
        },
    }
}

/// Whether a topic is listed before another: the fresh ones first, then the later ones, then by
/// path and by identifier.
pub open spec fn precedes(a: TopicView, b: TopicView) -> bool {
    if is_fresh(a) != is_fresh(b) {
        is_fresh(a)
    } else if updated_time(a) != updated_time(b) {
        later(updated_time(a), updated_time(b))
    } else if a.path != b.path {
        text::less(a.path, b.path)
    } else {
        text::less(a.id, b.id)
    }
}

/// The first place from `i` on whose topic must follow `t`.
pub open spec fn place_of(ordered: Seq<TopicView>, t: TopicView, i: int) -> int
    decreases ordered.len() - i,
{
    if i < 0 || i >= ordered.len() {
        ordered.len() as int
    } else if precedes(t, ordered[i]) {
        i
    } else {
        place_of(ordered, t, i + 1)
    }
}

/// The topics in their order; those that the order does not tell apart stay as they stood.
pub open spec fn ordered(topics: Seq<TopicView>) -> Seq<TopicView>
    decreases topics.len(),
{
    if topics.len() == 0 {
        topics
    } else {
        let front = ordered(topics.drop_last());
        front.insert(place_of(front, topics.last(), 0), topics.last())
    }
}

proof fn lemma_place_range(s: Seq<TopicView>, t: TopicView, i: int)
    requires
        0 <= i <= s.len(),
    ensures
        i <= place_of(s, t, i) <= s.len(),
        place_of(s, t, i) < s.len() ==> precedes(t, s[place_of(s, t, i)]),
        forall|j: int| i <= j < place_of(s, t, i) ==> !precedes(t, #[trigger] s[j]),
    decreases s.len() - i,
{
    if i < s.len() && !precedes(t, s[i]) {
        lemma_place_range(s, t, i + 1);
    }
}

/// The part of a topic's rank that its text must be read for.
struct Rank {
    fresh: bool,
    updated: Option<i128>,
}

spec fn ranked(r: Rank, t: TopicView) -> bool {
    r.fresh == is_fresh(t) && r.updated == updated_time(t)
}

fn rank_of(t: &Topic) -> (r: Rank)
    ensures
        ranked(r, t@),
{
    Rank {
        fresh: text::same(t.quality.as_str(), "fresh"),
        updated: match time::read_timestamp(t.updated_at.as_str()) {
            Ok(ns) => Some(ns),
            Err(_) => None,
        },
    }
}

fn comes_before(a: &Topic, ra: &Rank, b: &Topic, rb: &Rank) -> (r: bool)
    requires
        ranked(*ra, a@),
        ranked(*rb, b@),
    ensures
        r == precedes(a@, b@),
{
    if ra.fresh != rb.fresh {
        return ra.fresh;
    }
    match (ra.updated, rb.updated) {
        (Some(x), Some(y)) => {
            if x != y {
                return x > y;
            }
        },
        (Some(_), None) => {
            return true;
        },
        (None, Some(_)) => {
            return false;
        },
        (None, None) => {},
    }
    if text::same(a.path.as_str(), b.path.as_str()) {
        text::is_less(a.id.as_str(), b.id.as_str())
    } else {
        text::is_less(a.path.as_str(), b.path.as_str())
    }
}

fn order_topics(topics: &Vec<Topic>) -> (r: Vec<Topic>)
    ensures
        table::views(r@) == ordered(table::views(topics@)),
{
    let ghost all = table::views(topics@);
    let mut r: Vec<Topic> = Vec::new();
    let mut ranks: Vec<Rank> = Vec::new();
    let mut i: usize = 0;
    proof {
        assert(table::views(r@) =~= all.take(0));
    }
    while i < topics.len()
        invariant
            i <= topics@.len(),
            all == table::views(topics@),
            r@.len() == i,
            ranks@.len() == i,
            forall|j: int| 0 <= j < i ==> ranked(#[trigger] ranks@[j], r@[j]@),
            table::views(r@) == ordered(all.take(i as int)),
        decreases topics@.len() - i,
    {
        let t = topics[i].copied();
        assert(all[i as int] == t@);
        let rank = rank_of(&t);
        let ghost front = table::views(r@);
        let mut at: usize = 0;
        while at < i && !comes_before(&t, &rank, &r[at], &ranks[at])
            invariant
                at <= i,
                r@.len() == i,
                ranks@.len() == i,
                front == table::views(r@),
                ranked(rank, t@),
                forall|j: int| 0 <= j < i ==> ranked(#[trigger] ranks@[j], r@[j]@),
                place_of(front, t@, 0) == place_of(front, t@, at as int),
            decreases i - at,
        {
            assert(front[at as int] == r@[at as int]@);
            at = at + 1;
        }
        proof {
            if at < i {
                assert(front[at as int] == r@[at as int]@);
            }
            assert(place_of(front, t@, 0) == at);
            assert(all.take(i + 1).drop_last() =~= all.take(i as int));
        }
        let ghost added = t@;
        r.insert(at, t);
        ranks.insert(at, rank);
        assert(table::views(r@) =~= front.insert(at as int, added));
        i = i + 1;
    }
    assert(all.take(all.len() as int) =~= all);
    r
}

pub open spec fn has_path(topics: Seq<TopicView>, path: Seq<char>) -> bool {
    exists|i: int| 0 <= i < topics.len() && (#[trigger] topics[i]).path == path
}

/// The first topic of each path.
pub open spec fn first_of_paths(topics: Seq<TopicView>) -> Seq<TopicView>
    decreases topics.len(),
{
    if topics.len() == 0 {
        topics
    } else {
        let front = first_of_paths(topics.drop_last());
        if has_path(front, topics.last().path) {
            front
        } else {
            front.push(topics.last())
        }
    }
}

/// The topics that a source keeps.
pub open spec fn retained(topics: Seq<TopicView>) -> Seq<TopicView> {
    let kept = first_of_paths(ordered(topics));
    if kept.len() > MAX_RETAINED_TOPICS_PER_SOURCE {
        kept.take(MAX_RETAINED_TOPICS_PER_SOURCE as int)
    } else {
        kept
    }
}

fn path_is_listed(topics: &Vec<Topic>, path: &str) -> (r: bool)
    ensures
        r == has_path(table::views(topics@), path@),
{
    let ghost all = table::views(topics@);
    let mut i: usize = 0;
    while i < topics.len()
        invariant
            i <= topics@.len(),
            all == table::views(topics@),
            forall|j: int| 0 <= j < i ==> (#[trigger] all[j]).path != path@,
        decreases topics@.len() - i,
    {
        assert(all[i as int] == topics@[i as int]@);
        if text::same(topics[i].path.as_str(), path) {
            return true;
        }
        i = i + 1;
    }
    false
}

/// Orders the topics of a source and keeps the first of each path, up to a limit.
pub fn prune_retained_topics(topics: &mut Vec<Topic>)
    ensures
        table::views(final(topics)@) == retained(table::views(old(topics)@)),
{
    let sorted = order_topics(topics);
    let ghost all = table::views(sorted@);
    let mut r: Vec<Topic> = Vec::new();
    let mut i: usize = 0;
    proof {
        assert(table::views(r@) =~= all.take(0));
    }
    while i < sorted.len()
        invariant
            i <= sorted@.len(),
            all == table::views(sorted@),
            table::views(r@) == first_of_paths(all.take(i as int)),
        decreases sorted@.len() - i,
    {
        assert(all[i as int] == sorted@[i as int]@);
        assert(all.take(i + 1).drop_last() =~= all.take(i as int));
        if !path_is_listed(&r, sorted[i].path.as_str()) {
            let one = sorted[i].copied();
            proof {
                table::lemma_views_push(r@, one);
            }
            r.push(one);
        }
        i = i + 1;
    }
    assert(all.take(all.len() as int) =~= all);
    let ghost kept = table::views(r@);
    if r.len() > MAX_RETAINED_TOPICS_PER_SOURCE {
        r.truncate(MAX_RETAINED_TOPICS_PER_SOURCE);
        assert(table::views(r@) =~= kept.take(MAX_RETAINED_TOPICS_PER_SOURCE as int));
    }
    *topics = r;
}

/// What a replay client can see of topics: their identifiers, paths and views.
pub open spec fn schema_of(topics: Seq<TopicView>) -> Set<(Seq<char>, Seq<char>, Seq<char>)> {
    Set::new(
        |x: (Seq<char>, Seq<char>, Seq<char>)|
            exists|i: int| 0 <= i < topics.len() && #[trigger] schema_entry(topics[i]) == x,
    )
}

pub open spec fn schema_entry(t: TopicView) -> (Seq<char>, Seq<char>, Seq<char>) {
    (t.id, t.path, t.renderer)
}

fn entry_is_listed(topics: &Vec<Topic>, t: &Topic) -> (r: bool)
    ensures
        r == schema_of(table::views(topics@)).contains(schema_entry(t@)),
{
    let ghost all = table::views(topics@);
    let mut i: usize = 0;
    while i < topics.len()
        invariant
            i <= topics@.len(),
            all == table::views(topics@),
            forall|j: int| 0 <= j < i ==> #[trigger] schema_entry(all[j]) != schema_entry(t@),
        decreases topics@.len() - i,
    {
        assert(all[i as int] == topics@[i as int]@);
        if text::same(topics[i].id.as_str(), t.id.as_str()) && text::same(
            topics[i].path.as_str(),
            t.path.as_str(),
        ) && text::same(topics[i].renderer.as_str(), t.renderer.as_str()) {
            assert(schema_entry(all[i as int]) == schema_entry(t@));
            return true;
        }
        i = i + 1;
    }
    false
}

fn schema_is_within(a: &Vec<Topic>, b: &Vec<Topic>) -> (r: bool)
    ensures
        r == schema_of(table::views(a@)).subset_of(schema_of(table::views(b@))),
{
    let ghost all = table::views(a@);
    let ghost other = schema_of(table::views(b@));
    let mut i: usize = 0;
    while i < a.len()
        invariant
            i <= a@.len(),
            all == table::views(a@),
            other == schema_of(table::views(b@)),
            forall|j: int| 0 <= j < i ==> other.contains(#[trigger] schema_entry(all[j])),
        decreases a@.len() - i,
    {
        assert(all[i as int] == a@[i as int]@);
        if !entry_is_listed(b, &a[i]) {
            assert(schema_of(all).contains(schema_entry(all[i as int])));
            return false;
        }
        i = i + 1;
    }
    true
}

/// Whether two lists of topics have the same schema.
pub fn same_schema(a: &Vec<Topic>, b: &Vec<Topic>) -> (r: bool)
    ensures
        r == (schema_of(table::views(a@)) == schema_of(table::views(b@))),
{
    let r = schema_is_within(a, b) && schema_is_within(b, a);
    proof {
        if r {
            assert(schema_of(table::views(a@)) =~= schema_of(table::views(b@)));
        }
    }
    r
}

pub open spec fn distinct_paths(topics: Seq<TopicView>) -> bool {
    forall|i: int, j: int|
        0 <= i < j < topics.len() ==> (#[trigger] topics[i]).path != (#[trigger] topics[j]).path
}

/// Whether no topic that is out of date stands before a fresh one.
pub open spec fn fresh_first(topics: Seq<TopicView>) -> bool {
    forall|i: int, j: int|
        0 <= i < j < topics.len() && is_fresh(#[trigger] topics[j]) ==> is_fresh(
            #[trigger] topics[i],
        )
}

proof fn lemma_ordered_fresh_first(s: Seq<TopicView>)
    ensures
        fresh_first(ordered(s)),
        forall|t: TopicView| #[trigger] s.contains(t) ==> ordered(s).contains(t),
    decreases s.len(),
{
    if s.len() > 0 {
        let front = ordered(s.drop_last());
        let t = s.last();
        lemma_ordered_fresh_first(s.drop_last());
        lemma_place_range(front, t, 0);
        let at = place_of(front, t, 0);
        let whole = front.insert(at, t);
        assert forall|i: int, j: int|
            0 <= i < j < whole.len() && is_fresh(#[trigger] whole[j]) implies is_fresh(
            #[trigger] whole[i],
        ) by {
            let a = if i < at { i } else { i - 1 };
            let b = if j < at { j } else { j - 1 };
            if i != at {
                assert(whole[i] == front[a]);
            }
            if j != at {
                assert(whole[j] == front[b]);
            }
            if i == at {
                if j > at + 1 {
                    assert(is_fresh(front[at]));
                }
                assert(precedes(t, front[at]));
            } else if j == at {
                assert(!precedes(t, front[i]));
            }
        }
        assert forall|x: TopicView| #[trigger] s.contains(x) implies whole.contains(x) by {
            let k = choose|k: int| 0 <= k < s.len() && s[k] == x;
            if k == s.len() - 1 {
                assert(whole[at] == x);
            } else {
                assert(s.drop_last()[k] == x);
                assert(s.drop_last().contains(x));
                let m = choose|m: int| 0 <= m < front.len() && front[m] == x;
                assert(whole[if m < at { m } else { m + 1 }] == x);
            }
        }
    }
}

proof fn lemma_first_of_paths(s: Seq<TopicView>)
    requires
        fresh_first(s),
    ensures
        distinct_paths(first_of_paths(s)),
        fresh_first(first_of_paths(s)),
        forall|t: TopicView| #[trigger] first_of_paths(s).contains(t) ==> s.contains(t),
        forall|t: TopicView| #[trigger]
            s.contains(t) && is_fresh(t) ==> kept_fresh(first_of_paths(s), t.path),
        forall|t: TopicView| #[trigger] s.contains(t) ==> has_path(first_of_paths(s), t.path),
    decreases s.len(),
{
    if s.len() > 0 {
        let front = s.drop_last();
        let kept = first_of_paths(front);
        let t = s.last();
        let whole = first_of_paths(s);
        assert(fresh_first(front));
        lemma_first_of_paths(front);
        assert forall|x: TopicView| #[trigger] whole.contains(x) implies s.contains(x) by {
            let k = choose|k: int| 0 <= k < whole.len() && whole[k] == x;
            if k < kept.len() {
                assert(kept.contains(kept[k]));
                let m = choose|m: int| 0 <= m < front.len() && front[m] == x;
                assert(s[m] == x);
            } else {
                assert(s[s.len() - 1] == x);
            }
        }
        assert forall|i: int, j: int| 0 <= i < j < whole.len() && is_fresh(#[trigger] whole[j]) implies is_fresh(
            #[trigger] whole[i],
        ) by {
            if j == kept.len() {
                assert(kept.contains(kept[i]));
                let m = choose|m: int| 0 <= m < front.len() && front[m] == kept[i];
                assert(is_fresh(s[s.len() - 1]));
                assert(is_fresh(s[m]));
            }
        }
        assert forall|x: TopicView| #[trigger] s.contains(x) implies has_path(whole, x.path) && (
        is_fresh(x) ==> kept_fresh(whole, x.path)) by {
            let k = choose|k: int| 0 <= k < s.len() && s[k] == x;
            if k < s.len() - 1 {
                assert(front[k] == x);
                assert(front.contains(x));
                lemma_grown(kept, whole, x.path);
            } else if has_path(kept, t.path) {
                let m = choose|m: int| 0 <= m < kept.len() && (#[trigger] kept[m]).path == t.path;
                if is_fresh(x) {
                    assert(kept.contains(kept[m]));
                    let q = choose|q: int| 0 <= q < front.len() && front[q] == kept[m];
                    assert(is_fresh(s[k]));
                    assert(is_fresh(s[q]));
                    assert(is_fresh(whole[m]) && whole[m].path == x.path);
                }
            } else {
                assert(whole[kept.len() as int] == x);
            }
        }
        assert forall|i: int, j: int| 0 <= i < j < whole.len() implies (#[trigger] whole[i]).path != (
        #[trigger] whole[j]).path by {
            if j == kept.len() {
                assert(kept[i].path != t.path);
            }
        }
    }
}

/// Whether a fresh topic with a path is among the kept ones.
pub open spec fn kept_fresh(topics: Seq<TopicView>, path: Seq<char>) -> bool {
    exists|i: int|
        0 <= i < topics.len() && is_fresh(#[trigger] topics[i]) && topics[i].path == path
}

proof fn lemma_grown(kept: Seq<TopicView>, whole: Seq<TopicView>, path: Seq<char>)
    requires
        kept.len() <= whole.len(),
        forall|i: int| 0 <= i < kept.len() ==> #[trigger] whole[i] == kept[i],
    ensures
        has_path(kept, path) ==> has_path(whole, path),
        kept_fresh(kept, path) ==> kept_fresh(whole, path),
{
    if has_path(kept, path) {
        let i = choose|i: int| 0 <= i < kept.len() && (#[trigger] kept[i]).path == path;
        assert(whole[i].path == path);
    }
    if kept_fresh(kept, path) {
        let i = choose|i: int|
            0 <= i < kept.len() && is_fresh(#[trigger] kept[i]) && kept[i].path == path;
        assert(is_fresh(whole[i]) && whole[i].path == path);
    }
}

/// A source keeps a bounded number of topics, one for each path, all of which it had, and the
/// fresh ones before the others.
pub proof fn law_retained_topics_are_bounded_and_distinct(topics: Seq<TopicView>)
    ensures
        retained(topics).len() <= MAX_RETAINED_TOPICS_PER_SOURCE,
        distinct_paths(retained(topics)),
        fresh_first(retained(topics)),
        forall|t: TopicView| #[trigger] retained(topics).contains(t) ==> topics.contains(t),
{
    lemma_ordered_fresh_first(topics);
    lemma_first_of_paths(ordered(topics));
    lemma_ordered_within(topics);
    let kept = first_of_paths(ordered(topics));
    assert forall|t: TopicView| #[trigger] retained(topics).contains(t) implies topics.contains(t) by {
        let i = choose|i: int| 0 <= i < retained(topics).len() && retained(topics)[i] == t;
        assert(kept[i] == t);
        assert(kept.contains(t));
    }
}

proof fn lemma_ordered_within(s: Seq<TopicView>)
    ensures
        forall|t: TopicView| #[trigger] ordered(s).contains(t) ==> s.contains(t),
    decreases s.len(),
{
    if s.len() > 0 {
        let front = ordered(s.drop_last());
        lemma_ordered_within(s.drop_last());
        lemma_place_range(front, s.last(), 0);
        let at = place_of(front, s.last(), 0);
        assert forall|t: TopicView| #[trigger] ordered(s).contains(t) implies s.contains(t) by {
            let i = choose|i: int| 0 <= i < ordered(s).len() && ordered(s)[i] == t;
            if i == at {
                assert(s[s.len() - 1] == t);
            } else {
                assert(front[if i < at { i } else { i - 1 }] == t);
                assert(front.contains(t));
                let k = choose|k: int| 0 <= k < s.drop_last().len() && s.drop_last()[k] == t;
                assert(s[k] == t);
            }
        }
    }
}

/// A fresh topic is dropped only where the limit is full of other fresh ones.
pub proof fn law_fresh_topics_are_preserved(topics: Seq<TopicView>, t: TopicView)
    requires
        topics.contains(t),
        is_fresh(t),
    ensures
        kept_fresh(retained(topics), t.path) || (retained(topics).len()
            == MAX_RETAINED_TOPICS_PER_SOURCE && forall|i: int|
            0 <= i < retained(topics).len() ==> is_fresh(#[trigger] retained(topics)[i])),
{
    lemma_ordered_fresh_first(topics);
    lemma_first_of_paths(ordered(topics));
    let kept = first_of_paths(ordered(topics));
    assert(ordered(topics).contains(t));
    assert(kept_fresh(kept, t.path));
    let k = choose|k: int| 0 <= k < kept.len() && is_fresh(#[trigger] kept[k]) && kept[k].path == t.path;
    if k < retained(topics).len() {
        assert(retained(topics)[k] == kept[k]);
    } else {
        assert forall|i: int| 0 <= i < retained(topics).len() implies is_fresh(
            #[trigger] retained(topics)[i],
        ) by {
            assert(retained(topics)[i] == kept[i]);
        }
    }
}


proof fn lemma_precedes_transitive(a: TopicView, b: TopicView, c: TopicView)
    requires
        precedes(a, b),
        precedes(b, c),
    ensures
        precedes(a, c),
{
    text::lemma_less_irreflexive(a.path);
    text::lemma_less_irreflexive(b.path);
    if text::less(a.path, b.path) && text::less(b.path, c.path) {
        text::lemma_less_transitive(a.path, b.path, c.path);
        text::lemma_less_irreflexive(c.path);
    }
    if text::less(a.id, b.id) && text::less(b.id, c.id) {
        text::lemma_less_transitive(a.id, b.id, c.id);
    }
}

/// No topic is listed after one that it precedes.
pub proof fn law_topics_are_listed_in_order(topics: Seq<TopicView>)
    ensures
        forall|i: int, j: int|
            0 <= i < j < ordered(topics).len() ==> !precedes(
                #[trigger] ordered(topics)[j],
                #[trigger] ordered(topics)[i],
            ),
    decreases topics.len(),
{
    if topics.len() > 0 {
        let front = ordered(topics.drop_last());
        let t = topics.last();
        law_topics_are_listed_in_order(topics.drop_last());
        lemma_place_range(front, t, 0);
        let at = place_of(front, t, 0);
        let whole = front.insert(at, t);
        assert forall|i: int, j: int| 0 <= i < j < whole.len() implies !precedes(
            #[trigger] whole[j],
            #[trigger] whole[i],
        ) by {
            let a = if i < at { i } else { i - 1 };
            let b = if j < at { j } else { j - 1 };
            if i != at {
                assert(whole[i] == front[a]);
            }
            if j != at {
                assert(whole[j] == front[b]);
            }
            if i == at && precedes(whole[j], t) {
                lemma_precedes_transitive(whole[j], t, front[at]);
                if b == at {
                    text::lemma_less_irreflexive(front[at].path);
                    text::lemma_less_irreflexive(front[at].id);
                }
            }
        }
    }
}

/// Whether no topic stands after one that it precedes.
pub open spec fn in_order(topics: Seq<TopicView>) -> bool {
    forall|i: int, j: int|
        0 <= i < j < topics.len() ==> !precedes(#[trigger] topics[j], #[trigger] topics[i])
}

proof fn lemma_precedes_irreflexive(t: TopicView)
    ensures
        !precedes(t, t),
{
    text::lemma_less_irreflexive(t.path);
    text::lemma_less_irreflexive(t.id);
}

/// What does not precede a topic does not precede what that topic does not precede either.
proof fn lemma_follows_transitive(a: TopicView, b: TopicView, c: TopicView)
    requires
        !precedes(a, b),
        !precedes(b, c),
    ensures
        !precedes(a, c),
{
    if precedes(a, c) {
        text::lemma_less_total(a.path, b.path);
        text::lemma_less_total(a.id, b.id);
        if precedes(b, a) {
            lemma_precedes_transitive(b, a, c);
        }
    }
}

proof fn lemma_firsts_in_order(s: Seq<TopicView>)
    requires
        in_order(s),
        fresh_first(s),
    ensures
        in_order(first_of_paths(s)),
        forall|t: TopicView, u: TopicView|
            #[trigger] first_of_paths(s).contains(t) && #[trigger] s.contains(u) && t.path == u.path
                ==> !precedes(u, t),
    decreases s.len(),
{
    if s.len() > 0 {
        let front = s.drop_last();
        let kept = first_of_paths(front);
        let last = s.last();
        let whole = first_of_paths(s);
        assert(in_order(front)) by {
            assert forall|i: int, j: int| 0 <= i < j < front.len() implies !precedes(
                #[trigger] front[j],
                #[trigger] front[i],
            ) by {
                assert(!precedes(s[j], s[i]));
            }
        }
        assert(fresh_first(front)) by {
            assert forall|i: int, j: int| 0 <= i < j < front.len() && is_fresh(#[trigger] front[j]) implies is_fresh(
                #[trigger] front[i],
            ) by {
                assert(is_fresh(s[j]));
                assert(is_fresh(s[i]));
            }
        }
        lemma_firsts_in_order(front);
        lemma_first_of_paths(front);
        assert forall|t: TopicView| #[trigger] kept.contains(t) implies !precedes(last, t) by {
            let m = choose|m: int| 0 <= m < front.len() && front[m] == t;
            assert(!precedes(s[s.len() - 1], s[m]));
        }
        assert forall|i: int, j: int| 0 <= i < j < whole.len() implies !precedes(
            #[trigger] whole[j],
            #[trigger] whole[i],
        ) by {
            assert(whole[i] == kept[i]);
            assert(kept.contains(kept[i]));
        }
        assert forall|t: TopicView, u: TopicView|
            #[trigger] whole.contains(t) && #[trigger] s.contains(u) && t.path == u.path implies !precedes(
            u,
            t,
        ) by {
            let k = choose|k: int| 0 <= k < whole.len() && whole[k] == t;
            let q = choose|q: int| 0 <= q < s.len() && s[q] == u;
            lemma_precedes_irreflexive(u);
            if q < s.len() - 1 {
                assert(front[q] == u);
                assert(front.contains(u));
            }
            if k < kept.len() {
                assert(kept[k] == t);
                assert(kept.contains(t));
            }
        }
    }
}

proof fn lemma_kept_in_order(topics: Seq<TopicView>)
    ensures
        in_order(first_of_paths(ordered(topics))),
        distinct_paths(first_of_paths(ordered(topics))),
        forall|t: TopicView, u: TopicView|
            #[trigger] first_of_paths(ordered(topics)).contains(t) && #[trigger] topics.contains(u)
                && t.path == u.path ==> !precedes(u, t),
        forall|t: TopicView| #[trigger]
            topics.contains(t) ==> has_path(first_of_paths(ordered(topics)), t.path),
        forall|t: TopicView| #[trigger]
            first_of_paths(ordered(topics)).contains(t) ==> topics.contains(t),
{
    law_topics_are_listed_in_order(topics);
    lemma_ordered_fresh_first(topics);
    lemma_ordered_within(topics);
    lemma_firsts_in_order(ordered(topics));
    lemma_first_of_paths(ordered(topics));
    let kept = first_of_paths(ordered(topics));
    assert forall|t: TopicView, u: TopicView|
        #[trigger] kept.contains(t) && #[trigger] topics.contains(u) && t.path == u.path implies !precedes(
        u,
        t,
    ) by {
        assert(ordered(topics).contains(u));
    }
    assert forall|t: TopicView| #[trigger] topics.contains(t) implies has_path(kept, t.path) by {
        assert(ordered(topics).contains(t));
    }
}

/// The paths of some topics.
pub open spec fn path_set(topics: Seq<TopicView>) -> Set<Seq<char>> {
    topics.map_values(|t: TopicView| t.path).to_set()
}

/// A source keeps as many topics as it has paths, up to the limit.
pub proof fn law_every_path_is_kept_up_to_the_limit(topics: Seq<TopicView>)
    ensures
        retained(topics).len() == if path_set(topics).len() > MAX_RETAINED_TOPICS_PER_SOURCE {
            MAX_RETAINED_TOPICS_PER_SOURCE as nat
        } else {
            path_set(topics).len()
        },
{
    lemma_kept_in_order(topics);
    let kept = first_of_paths(ordered(topics));
    let all = topics.map_values(|t: TopicView| t.path);
    let paths = kept.map_values(|t: TopicView| t.path);
    assert(paths.no_duplicates()) by {
        assert forall|i: int, j: int| 0 <= i < paths.len() && 0 <= j < paths.len() && i != j implies paths[i]
            != paths[j] by {
            if i < j {
                assert(kept[i].path != kept[j].path);
            } else {
                assert(kept[j].path != kept[i].path);
            }
        }
    }
    paths.unique_seq_to_set();
    assert forall|p: Seq<char>| paths.to_set().contains(p) <==> all.to_set().contains(p) by {
        if paths.contains(p) {
            let i = choose|i: int| 0 <= i < paths.len() && paths[i] == p;
            assert(kept.contains(kept[i]));
            let k = choose|k: int| 0 <= k < topics.len() && topics[k] == kept[i];
            assert(all[k] == p);
        }
        if all.contains(p) {
            let k = choose|k: int| 0 <= k < all.len() && all[k] == p;
            assert(topics.contains(topics[k]));
            let i = choose|i: int| 0 <= i < kept.len() && (#[trigger] kept[i]).path == topics[k].path;
            assert(paths[i] == p);
        }
    }
    assert(paths.to_set() =~= path_set(topics));
}

/// Of the topics of one path the first in the order is the one that is kept.
pub proof fn law_the_first_topic_of_a_path_is_kept(topics: Seq<TopicView>, t: TopicView, u: TopicView)
    requires
        retained(topics).contains(t),
        topics.contains(u),
        t.path == u.path,
    ensures
        !precedes(u, t),
{
    lemma_kept_in_order(topics);
    let kept = first_of_paths(ordered(topics));
    let i = choose|i: int| 0 <= i < retained(topics).len() && retained(topics)[i] == t;
    assert(kept[i] == t);
    assert(kept.contains(t));
}

/// No topic whose path was dropped precedes one that was kept.
pub proof fn law_kept_topics_come_first(topics: Seq<TopicView>, t: TopicView, u: TopicView)
    requires
        retained(topics).contains(t),
        topics.contains(u),
        !has_path(retained(topics), u.path),
    ensures
        !precedes(u, t),
{
    lemma_kept_in_order(topics);
    let kept = first_of_paths(ordered(topics));
    let i = choose|i: int| 0 <= i < retained(topics).len() && retained(topics)[i] == t;
    assert(kept[i] == t);
    let k = choose|k: int| 0 <= k < kept.len() && (#[trigger] kept[k]).path == u.path;
    if k < retained(topics).len() {
        assert(retained(topics)[k].path == u.path);
    }
    assert(kept.contains(kept[k]));
    assert(!precedes(kept[k], kept[i]));
    lemma_follows_transitive(u, kept[k], t);
}

/// The kept topics stand in order.
pub proof fn law_kept_topics_stand_in_order(topics: Seq<TopicView>)
    ensures
        in_order(retained(topics)),
        distinct_paths(retained(topics)),
{
    lemma_kept_in_order(topics);
    let kept = first_of_paths(ordered(topics));
    let r = retained(topics);
    assert forall|i: int, j: int| 0 <= i < j < r.len() implies !precedes(
        #[trigger] r[j],
        #[trigger] r[i],
    ) && r[i].path != r[j].path by {
        assert(r[i] == kept[i] && r[j] == kept[j]);
    }
}

proof fn lemma_order_stands(s: Seq<TopicView>)
    requires
        in_order(s),
    ensures
        ordered(s) == s,
    decreases s.len(),
{
    if s.len() > 0 {
        let front = s.drop_last();
        assert forall|i: int, j: int| 0 <= i < j < front.len() implies !precedes(
            #[trigger] front[j],
            #[trigger] front[i],
        ) by {
            assert(!precedes(s[j], s[i]));
        }
        lemma_order_stands(front);
        lemma_place_range(front, s.last(), 0);
        let at = place_of(front, s.last(), 0);
        if at < front.len() {
            assert(!precedes(s[s.len() - 1], s[at]));
        }
        assert(front.insert(at, s.last()) =~= s);
    }
}

proof fn lemma_paths_stand(s: Seq<TopicView>)
    requires
        distinct_paths(s),
    ensures
        first_of_paths(s) == s,
    decreases s.len(),
{
    if s.len() > 0 {
        let front = s.drop_last();
        assert(distinct_paths(front)) by {
            assert forall|i: int, j: int| 0 <= i < j < front.len() implies (#[trigger] front[i]).path != (
            #[trigger] front[j]).path by {
                assert(s[i].path != s[j].path);
            }
        }
        lemma_paths_stand(front);
        if has_path(front, s.last().path) {
            let i = choose|i: int| 0 <= i < front.len() && (#[trigger] front[i]).path == s.last().path;
            assert(s[i].path != s[s.len() - 1].path);
        }
        assert(front.push(s.last()) =~= s);
    }
}

/// Pruning the topics of a source a second time changes nothing.
pub proof fn law_pruning_twice_changes_nothing(topics: Seq<TopicView>)
    ensures
        retained(retained(topics)) == retained(topics),
{
    law_kept_topics_stand_in_order(topics);
    lemma_order_stands(retained(topics));
    lemma_paths_stand(retained(topics));
}

proof fn lemma_path_index(topics: Seq<TopicView>, path: Seq<char>, i: int)
    requires
        0 <= i <= topics.len(),
    ensures
        i <= path_index(topics, path, i) <= topics.len(),
        path_index(topics, path, i) < topics.len() ==> topics[path_index(topics, path, i)].path
            == path,
    decreases topics.len() - i,
{
    if i < topics.len() && topics[i].path != path {
        lemma_path_index(topics, path, i + 1);
    }
}

proof fn lemma_with_topic(topics: Seq<TopicView>, path: Seq<char>, t: TopicView)
    ensures
        with_topic(topics, path, t).contains(t),
        forall|u: TopicView|
            topics.contains(u) && u.path != path ==> #[trigger] with_topic(topics, path, t).contains(
                u,
            ),
        forall|u: TopicView| #[trigger]
            with_topic(topics, path, t).contains(u) ==> u == t || topics.contains(u),
{
    lemma_path_index(topics, path, 0);
    let at = path_index(topics, path, 0);
    let after = with_topic(topics, path, t);
    assert(after[at] == t);
    assert forall|u: TopicView| topics.contains(u) && u.path != path implies #[trigger] after.contains(
        u,
    ) by {
        let k = choose|k: int| 0 <= k < topics.len() && topics[k] == u;
        assert(after[k] == u);
    }
    assert forall|u: TopicView| #[trigger] after.contains(u) implies u == t || topics.contains(u) by {
        let k = choose|k: int| 0 <= k < after.len() && after[k] == u;
        if k != at {
            assert(topics[k] == u);
        }
    }
}

/// Merging a report into the topics of a source brings every reported topic in, and nothing that
/// neither had.
pub proof fn law_merged_topics_hold_the_report(
    topics: Seq<TopicView>,
    fresh: Seq<(Seq<char>, TopicView)>,
    i: int,
)
    requires
        0 <= i <= fresh.len(),
        table::keys_ascend(fresh),
        forall|j: int| 0 <= j < fresh.len() ==> (#[trigger] fresh[j]).1.path == fresh[j].0,
    ensures
        forall|j: int|
            i <= j < fresh.len() ==> merged(topics, fresh, i).contains((#[trigger] fresh[j]).1),
        forall|u: TopicView| #[trigger]
            merged(topics, fresh, i).contains(u) ==> topics.contains(u) || exists|j: int|
                i <= j < fresh.len() && (#[trigger] fresh[j]).1 == u,
        forall|u: TopicView|
            topics.contains(u) && (forall|j: int|
                i <= j < fresh.len() ==> (#[trigger] fresh[j]).0 != u.path)
                ==> #[trigger] merged(topics, fresh, i).contains(u),
    decreases fresh.len() - i,
{
    if i < fresh.len() {
        let next = with_topic(topics, fresh[i].0, fresh[i].1);
        lemma_with_topic(topics, fresh[i].0, fresh[i].1);
        law_merged_topics_hold_the_report(next, fresh, i + 1);
        let out = merged(next, fresh, i + 1);
        assert(merged(topics, fresh, i) == out);
        assert forall|j: int| i <= j < fresh.len() implies merged(topics, fresh, i).contains(
            (#[trigger] fresh[j]).1,
        ) by {
            if j == i {
                assert forall|k: int| i + 1 <= k < fresh.len() implies (#[trigger] fresh[k]).0
                    != fresh[i].1.path by {
                    text::lemma_less_irreflexive(fresh[i].0);
                }
                assert(next.contains(fresh[i].1));
                assert(out.contains(fresh[i].1));
            } else {
                assert(out.contains(fresh[j].1));
            }
        }
        assert forall|u: TopicView| #[trigger] merged(topics, fresh, i).contains(u) implies topics.contains(
            u,
        ) || exists|j: int| i <= j < fresh.len() && (#[trigger] fresh[j]).1 == u by {
            assert(out.contains(u));
            if next.contains(u) {
                if !topics.contains(u) {
                    assert(fresh[i].1 == u);
                }
            } else {
                let j = choose|j: int| i + 1 <= j < fresh.len() && (#[trigger] fresh[j]).1 == u;
                assert(fresh[j].1 == u);
            }
        }
        assert forall|u: TopicView|
            topics.contains(u) && (forall|j: int|
                i <= j < fresh.len() ==> (#[trigger] fresh[j]).0 != u.path) implies #[trigger] merged(
            topics,
            fresh,
            i,
        ).contains(u) by {
            assert(fresh[i].0 != u.path);
            assert(next.contains(u));
        }
    }
}

/// A reported topic is fresh as of now, and keeps its path, its label, its device and its source.
pub proof fn law_reported_topics_are_fresh(
    source_id: Seq<char>,
    device_id: Seq<char>,
    t: EdgeTopicView,
    now: Seq<char>,
)
    ensures
        ({
            let topic = materialized(source_id, device_id, t, now);
            &&& topic.path == t.path
            &&& topic.label == t.label
            &&& topic.device_id == device_id
            &&& topic.data_source_id == source_id
            &&& topic.quality == "fresh"@
            &&& topic.updated_at == now
            &&& t.renderer_hint == Some("image"@) ==> topic.renderer == "camera"@
            &&& t.renderer_hint == Some("plot"@) ==> topic.renderer == "timeseries"@
            &&& t.renderer_hint is None ==> topic.renderer == "raw"@
            &&& topic.value is None && topic.samples is None
        }),
{
    heartbeat::law_hints_choose_their_view(t.renderer_hint);
}

} // verus!
