//! What discovery providers make of the packets that they receive.

use crate::advertisement::MAX_ADVERTISEMENT_TTL_SECS;
use crate::discovery;
use crate::discovery::{
    DiscoveredSource, DiscoveredSourceView, DiscoveryObservation, DiscoveryObservationView,
    DiscoveryProviderError, EdgeObservationIdentityView, PinnedDiscoveryEndpoint,
    PinnedDiscoveryEndpointView, ProviderVerification, ProviderVerificationStatus,
    ProviderVerificationView, SourceAddress,
};
use crate::domain::{DiscoveryCandidateCategory, DiscoverySourceCategory, DiscoverySourceStatus};
use crate::edge_advertisement;
use crate::edge_agents::Instant;
use crate::heartbeat;
use crate::order;
use crate::table;
use crate::table::{copy_all, Copied, Table};
use crate::text;
use vstd::prelude::*;

verus! {

pub const MAX_CANDIDATES_PER_SCAN: usize = 64;
pub const MAX_EDGE_NONCES: usize = 2_048;
pub const DEFAULT_SCAN_TIMEOUT_MS: u64 = 1_500;
pub const CANCELLATION_POLL_INTERVAL_MS: u64 = 20;

/// Whether an address is ordered before another: the shorter ones first, then by their bits.
pub open spec fn address_before(a: SourceAddress, b: SourceAddress) -> bool {
    match a {
        SourceAddress::V4 { a: a0, b: a1, c: a2, d: a3 } => match b {
            SourceAddress::V4 { a: b0, b: b1, c: b2, d: b3 } => a0 < b0 || (a0 == b0 && (a1 < b1
                || (a1 == b1 && (a2 < b2 || (a2 == b2 && a3 < b3))))),
            SourceAddress::V6 { .. } => true,
        },
        SourceAddress::V6 { high: h0, low: l0 } => match b {
            SourceAddress::V4 { .. } => false,
            SourceAddress::V6 { high: h1, low: l1 } => h0 < h1 || (h0 == h1 && l0 < l1),
        },
    }
}

fn is_address_before(a: SourceAddress, b: SourceAddress) -> (r: bool)
    ensures
        r == address_before(a, b),
{
    match a {
        SourceAddress::V4 { a: a0, b: a1, c: a2, d: a3 } => match b {
            SourceAddress::V4 { a: b0, b: b1, c: b2, d: b3 } => a0 < b0 || (a0 == b0 && (a1 < b1
                || (a1 == b1 && (a2 < b2 || (a2 == b2 && a3 < b3))))),
            SourceAddress::V6 { .. } => true,
        },
        SourceAddress::V6 { high: h0, low: l0 } => match b {
            SourceAddress::V4 { .. } => false,
            SourceAddress::V6 { high: h1, low: l1 } => h0 < h1 || (h0 == h1 && l0 < l1),
        },
    }
}

/// Where the first source of an observation is pinned.
pub open spec fn first_pin(o: DiscoveryObservationView) -> Option<(SourceAddress, u16)> {
    if o.sources.len() == 0 {
        None
    } else {
        Some((o.sources[0].endpoint.source_address, o.sources[0].endpoint.port))
    }
}

pub fn first_source_pin(o: &DiscoveryObservation) -> (r: Option<(SourceAddress, u16)>)
    ensures
        r == first_pin(o@),
{
    if o.sources.len() == 0 {
        None
    } else {
        assert(o@.sources[0] == o.sources@[0]@);
        Some((o.sources[0].endpoint.source_address, o.sources[0].endpoint.port))
    }
}

pub open spec fn pin_before(a: Option<(SourceAddress, u16)>, b: Option<(SourceAddress, u16)>) -> bool {
    match b {
        None => false,
        Some((address_b, port_b)) => match a {
            None => true,
            Some((address_a, port_a)) => if address_a == address_b {
                port_a < port_b
            } else {
                address_before(address_a, address_b)
            },
        },
    }
}

/// The order of observations: by fingerprint, then by where they are pinned.
pub open spec fn observation_before(a: DiscoveryObservationView, b: DiscoveryObservationView) -> bool {
    if a.fingerprint == b.fingerprint {
        pin_before(first_pin(a), first_pin(b))
    } else {
        text::less(a.fingerprint, b.fingerprint)
    }
}

fn is_observation_before(a: &DiscoveryObservation, b: &DiscoveryObservation) -> (r: bool)
    ensures
        r == observation_before(a@, b@),
{
    if !text::same(a.fingerprint.as_str(), b.fingerprint.as_str()) {
        return text::is_less(a.fingerprint.as_str(), b.fingerprint.as_str());
    }
    match (first_source_pin(a), first_source_pin(b)) {
        (_, None) => false,
        (None, Some(_)) => true,
        (Some((address_a, port_a)), Some((address_b, port_b))) => {
            if address_a == address_b {
                port_a < port_b
            } else {
                is_address_before(address_a, address_b)
            }
        },
    }
}

/// Whether two observations are of the same machine at the same endpoints.
pub open spec fn same_machine(a: DiscoveryObservationView, b: DiscoveryObservationView) -> bool {
    a.fingerprint == b.fingerprint && discovery::same_pin(a.sources, b.sources)
}

fn is_same_machine(a: &DiscoveryObservation, b: &DiscoveryObservation) -> (r: bool)
    ensures
        r == same_machine(a@, b@),
{
    text::same(a.fingerprint.as_str(), b.fingerprint.as_str()) && discovery::same_source_pin(a, b)
}

/// The first of `kept` from `i` on that is of the same machine as `o`, or their number.
pub open spec fn machine_index(
    kept: Seq<DiscoveryObservationView>,
    o: DiscoveryObservationView,
    i: int,
) -> int
    decreases kept.len() - i,
{
    if i < 0 || i >= kept.len() {
        kept.len() as int
    } else if same_machine(kept[i], o) {
        i
    } else {
        machine_index(kept, o, i + 1)
    }
}

pub open spec fn greatest(a: i64, b: i64) -> i64 {
    if a >= b {
        a
    } else {
        b
    }
}

/// An observation that was made again.
pub open spec fn seen_again(a: DiscoveryObservationView, b: DiscoveryObservationView) -> DiscoveryObservationView {
    DiscoveryObservationView {
        last_seen_at_ms: greatest(a.last_seen_at_ms, b.last_seen_at_ms),
        expires_at_ms: greatest(a.expires_at_ms, b.expires_at_ms),
        ..a
    }
}

/// The kept observations with one more: it extends the one of its machine, or is kept while there
/// is room.
pub open spec fn with_observation(
    kept: Seq<DiscoveryObservationView>,
    o: DiscoveryObservationView,
    limit: usize,
) -> Seq<DiscoveryObservationView> {
    let at = machine_index(kept, o, 0);
    if at < kept.len() {
        kept.update(at, seen_again(kept[at], o))
    } else if kept.len() < limit {
        kept.push(o)
    } else {
        kept
    }
}

pub open spec fn folded(
    observations: Seq<DiscoveryObservationView>,
    limit: usize,
    i: int,
    kept: Seq<DiscoveryObservationView>,
) -> Seq<DiscoveryObservationView>
    decreases observations.len() - i,
{
    if i < 0 || i >= observations.len() {
        kept
    } else {
        folded(observations, limit, i + 1, with_observation(kept, observations[i], limit))
    }
}

/// The observations in order, one for each machine at its endpoints and at most `limit`.
pub open spec fn deduplicated(observations: Seq<DiscoveryObservationView>, limit: usize) -> Seq<
    DiscoveryObservationView,
> {
    folded(
        order::sorted(
            observations,
            |a: DiscoveryObservationView, b: DiscoveryObservationView| observation_before(a, b),
        ),
        limit,
        0,
        Seq::empty(),
    )
}

fn keep_observation(kept: &mut Vec<DiscoveryObservation>, o: &DiscoveryObservation, limit: usize)
    ensures
        table::views(final(kept)@) == with_observation(table::views(old(kept)@), o@, limit),
{
    let ghost all = table::views(kept@);
    let n: usize = kept.len();
    let mut i: usize = 0;
    while i < n
        invariant
            i <= n,
            n == kept@.len(),
            all == table::views(kept@),
            all == table::views(old(kept)@),
            machine_index(all, o@, 0) == machine_index(all, o@, i as int),
        decreases n - i,
    {
        assert(all[i as int] == kept@[i as int]@);
        if is_same_machine(&kept[i], o) {
            let mut e = kept[i].copied();
            if o.last_seen_at_ms > e.last_seen_at_ms {
                e.last_seen_at_ms = o.last_seen_at_ms;
            }
            if o.expires_at_ms > e.expires_at_ms {
                e.expires_at_ms = o.expires_at_ms;
            }
            let ghost added = e@;
            assert(added =~= seen_again(all[i as int], o@));
            kept.set(i, e);
            assert(table::views(kept@) =~= all.update(i as int, added));
            return;
        }
        i = i + 1;
    }
    if n < limit {
        let one = o.copied();
        proof {
            table::lemma_views_push(kept@, one);
        }
        kept.push(one);
    }
}

/// Orders observations and keeps one for each machine at its endpoints, at most `max_candidates`.
pub fn deduplicate_and_bound(observations: &Vec<DiscoveryObservation>, max_candidates: usize) -> (r:
    Vec<DiscoveryObservation>)
    ensures
        table::views(r@) == deduplicated(table::views(observations@), max_candidates),
{
    let test = |a: &DiscoveryObservation, b: &DiscoveryObservation| -> (x: bool)
        ensures
            x == observation_before(a@, b@),
        { is_observation_before(a, b) };
    let sorted = order::sort(
        observations,
        test,
        Ghost(|a: DiscoveryObservationView, b: DiscoveryObservationView| observation_before(a, b)),
    );
    let ghost all = table::views(sorted@);
    let mut kept: Vec<DiscoveryObservation> = Vec::new();
    let mut i: usize = 0;
    proof {
        assert(table::views(kept@) =~= Seq::<DiscoveryObservationView>::empty());
    }
    while i < sorted.len()
        invariant
            i <= sorted@.len(),
            all == table::views(sorted@),
            folded(all, max_candidates, 0, Seq::empty()) == folded(
                all,
                max_candidates,
                i as int,
                table::views(kept@),
            ),
        decreases sorted@.len() - i,
    {
        assert(all[i as int] == sorted@[i as int]@);
        keep_observation(&mut kept, &sorted[i], max_candidates);
        i = i + 1;
    }
    kept
}

proof fn lemma_machine_index(
    kept: Seq<DiscoveryObservationView>,
    o: DiscoveryObservationView,
    i: int,
)
    requires
        0 <= i <= kept.len(),
    ensures
        i <= machine_index(kept, o, i) <= kept.len(),
    decreases kept.len() - i,
{
    if i < kept.len() {
        lemma_machine_index(kept, o, i + 1);
    }
}

proof fn lemma_folded_bounded(
    observations: Seq<DiscoveryObservationView>,
    limit: usize,
    i: int,
    kept: Seq<DiscoveryObservationView>,
)
    requires
        kept.len() <= limit,
    ensures
        folded(observations, limit, i, kept).len() <= limit,
    decreases observations.len() - i,
{
    if 0 <= i < observations.len() {
        lemma_machine_index(kept, observations[i], 0);
        lemma_folded_bounded(
            observations,
            limit,
            i + 1,
            with_observation(kept, observations[i], limit),
        );
    }
}

/// A scan never gives more observations than its limit.
pub proof fn law_scans_are_bounded(observations: Seq<DiscoveryObservationView>, limit: usize)
    ensures
        deduplicated(observations, limit).len() <= limit,
{
    let sorted = order::sorted(
        observations,
        |a: DiscoveryObservationView, b: DiscoveryObservationView| observation_before(a, b),
    );
    lemma_folded_bounded(sorted, limit, 0, Seq::empty());
}

/// Under which a nonce of a device is remembered. No two nonces of a device share it.
pub open spec fn nonce_key(identity: EdgeObservationIdentityView) -> Seq<char> {
    identity.device_id + "\0"@ + text::hex_text(identity.nonce)
}

/// Until when a nonce is remembered.
pub open spec fn nonce_expiry(identity: EdgeObservationIdentityView) -> i64 {
    discovery::saturated(identity.timestamp_seconds + MAX_ADVERTISEMENT_TTL_SECS)
}

pub open spec fn live_nonces(m: Map<Seq<char>, i64>, now_seconds: i64) -> Map<Seq<char>, i64> {
    table::without(m, |t: i64| t < now_seconds)
}

/// Whether an expiry is the earliest of all.
pub open spec fn is_earliest(m: Map<Seq<char>, i64>, t: i64) -> bool {
    forall|k: Seq<char>| #[trigger] m.contains_key(k) ==> t <= m[k]
}

/// The nonces without the one that expires first, if there is any.
pub open spec fn without_earliest(m: Map<Seq<char>, i64>) -> Map<Seq<char>, i64> {
    match table::first_key(m, |t: i64| is_earliest(m, t)) {
        Some(k) => m.remove(k),
        None => m,
    }
}

fn drop_earliest(nonces: &mut Table<Instant>)
    ensures
        final(nonces)@ == without_earliest(old(nonces)@),
{
    let ghost m = nonces@;
    let n: usize = nonces.len();
    let ghost items = nonces.items();
    if n == 0 {
        proof {
            assert(m.dom() =~= Set::empty());
        }
        return;
    }
    let mut best: usize = 0;
    let mut i: usize = 1;
    while i < n
        invariant
            1 <= i <= n,
            best < i,
            n == items.len(),
            items == nonces.items(),
            forall|j: int| 0 <= j < i ==> items[best as int].1 <= (#[trigger] items[j]).1,
            forall|j: int| 0 <= j < best ==> items[best as int].1 < (#[trigger] items[j]).1,
        decreases n - i,
    {
        if nonces.value_at(i).at_ms < nonces.value_at(best).at_ms {
            best = i;
        }
        i = i + 1;
    }
    let key = nonces.key_at(best).clone();
    proof {
        table::lemma_items_all(items);
        let p = |t: i64| is_earliest(m, t);
        assert(p(items[best as int].1)) by {
            assert forall|k: Seq<char>| #[trigger] m.contains_key(k) implies items[best as int].1
                <= m[k] by {
                let j = table::key_index(items, k);
                assert(items[j].1 == m[k]);
            }
        }
        assert forall|j: int| 0 <= j < best implies !p((#[trigger] items[j]).1) by {
            assert(m.contains_key(items[best as int].0));
        }
        table::lemma_first_at(items, p, best as int);
    }
    let _ = nonces.remove(key.as_str());
}

/// The nonces after an observation, and whether it is accepted.
pub open spec fn nonce_step(m: Map<Seq<char>, i64>, o: DiscoveryObservationView) -> (
    Map<Seq<char>, i64>,
    bool,
) {
    match o.edge_identity {
        None => (m, true),
        Some(identity) => if m.contains_key(nonce_key(identity)) {
            (m, false)
        } else {
            let room = if m.len() >= MAX_EDGE_NONCES {
                without_earliest(m)
            } else {
                m
            };
            (room.insert(nonce_key(identity), nonce_expiry(identity)), true)
        },
    }
}

/// The nonces after the observations from `i` on, and the accepted ones after `accepted`.
pub open spec fn nonce_steps(
    m: Map<Seq<char>, i64>,
    observations: Seq<DiscoveryObservationView>,
    i: int,
    accepted: Seq<DiscoveryObservationView>,
) -> (Map<Seq<char>, i64>, Seq<DiscoveryObservationView>)
    decreases observations.len() - i,
{
    if i < 0 || i >= observations.len() {
        (m, accepted)
    } else {
        let (next, fits) = nonce_step(m, observations[i]);
        nonce_steps(
            next,
            observations,
            i + 1,
            if fits {
                accepted.push(observations[i])
            } else {
                accepted
            },
        )
    }
}

fn remember_nonce(nonces: &mut Table<Instant>, o: &DiscoveryObservation) -> (r: bool)
    ensures
        (final(nonces)@, r) == nonce_step(old(nonces)@, o@),
{
    match &o.edge_identity {
        None => true,
        Some(identity) => {
            let nonce = text::hex_of(identity.nonce.as_slice());
            let key = text::line(identity.device_id.as_str()).add("\0").add(nonce.as_str()).done();
            if nonces.contains(key.as_str()) {
                return false;
            }
            if nonces.len() >= MAX_EDGE_NONCES {
                drop_earliest(nonces);
            }
            let expiry: i64 = discovery::saturating_add(
                identity.timestamp_seconds,
                MAX_ADVERTISEMENT_TTL_SECS as i64,
            );
            let _ = nonces.insert(key, Instant { at_ms: expiry });
            true
        },
    }
}

/// Leaves out the announcements of edge agents whose nonces were seen before, and remembers the
/// nonces of the others.
pub fn reject_replayed_edge_nonces(
    nonces: &mut Table<Instant>,
    observations: &Vec<DiscoveryObservation>,
    now_seconds: i64,
) -> (r: Vec<DiscoveryObservation>)
    ensures
        (final(nonces)@, table::views(r@)) == nonce_steps(
            live_nonces(old(nonces)@, now_seconds),
            table::views(observations@),
            0,
            Seq::empty(),
        ),
{
    let expired = |t: &Instant| -> (b: bool)
        ensures
            b == (t@ < now_seconds),
        { t.at_ms < now_seconds };
    nonces.remove_where(expired, Ghost(|t: i64| t < now_seconds));
    let ghost start = nonces@;
    let ghost all = table::views(observations@);
    let mut accepted: Vec<DiscoveryObservation> = Vec::new();
    let mut i: usize = 0;
    proof {
        assert(table::views(accepted@) =~= Seq::<DiscoveryObservationView>::empty());
    }
    while i < observations.len()
        invariant
            i <= observations@.len(),
            all == table::views(observations@),
            nonce_steps(start, all, 0, Seq::empty()) == nonce_steps(
                nonces@,
                all,
                i as int,
                table::views(accepted@),
            ),
        decreases observations@.len() - i,
    {
        assert(all[i as int] == observations@[i as int]@);
        if remember_nonce(nonces, &observations[i]) {
            let one = observations[i].copied();
            proof {
                table::lemma_views_push(accepted@, one);
            }
            accepted.push(one);
        }
        i = i + 1;
    }
    accepted
}

/// Once the announcement of an edge agent is accepted, the same announcement is not, as long as
/// its nonce is remembered.
pub proof fn law_announcements_never_repeat(
    m: Map<Seq<char>, i64>,
    o: DiscoveryObservationView,
    later: i64,
)
    requires
        o.edge_identity is Some,
        nonce_step(m, o).1,
        later <= nonce_expiry(o.edge_identity->Some_0),
    ensures
        !nonce_step(live_nonces(nonce_step(m, o).0, later), o).1,
{
}

/// Whether an agent that is seen again is the one seen before: the same device and key, a new
/// nonce, and no less trust.
pub open spec fn continues(
    current: Option<EdgeObservationIdentityView>,
    previous: Option<EdgeObservationIdentityView>,
) -> bool {
    match (current, previous) {
        (None, None) => true,
        (Some(c), Some(p)) => c.device_id == p.device_id && c.public_key == p.public_key && c.nonce
            != p.nonce && c.organization_id == p.organization_id && (p.organization_trusted
            ==> c.organization_trusted),
        _ => false,
    }
}

fn same_optional(a: &Option<String>, b: &Option<String>) -> (r: bool)
    ensures
        r == (table::view_option(*a) == table::view_option(*b)),
{
    match (a, b) {
        (None, None) => true,
        (Some(x), Some(y)) => text::same(x.as_str(), y.as_str()),
        _ => false,
    }
}

pub fn edge_identity_continuity(current: &DiscoveryObservation, previous: &DiscoveryObservation) -> (r:
    bool)
    ensures
        r == continues(current@.edge_identity, previous@.edge_identity),
{
    match (&current.edge_identity, &previous.edge_identity) {
        (None, None) => true,
        (Some(c), Some(p)) => text::same(c.device_id.as_str(), p.device_id.as_str())
            && text::same_bytes(c.public_key.as_slice(), p.public_key.as_slice())
            && !text::same_bytes(c.nonce.as_slice(), p.nonce.as_slice()) && same_optional(
            &c.organization_id,
            &p.organization_id,
        ) && (!p.organization_trusted || c.organization_trusted),
        _ => false,
    }
}

pub open spec fn confirms(o: DiscoveryObservationView, candidate: DiscoveryObservationView) -> bool {
    same_machine(o, candidate) && continues(o.edge_identity, candidate.edge_identity)
}

/// The first observation from `i` on that confirms a candidate, or their number.
pub open spec fn confirming_index(
    observations: Seq<DiscoveryObservationView>,
    candidate: DiscoveryObservationView,
    i: int,
) -> int
    decreases observations.len() - i,
{
    if i < 0 || i >= observations.len() {
        observations.len() as int
    } else if confirms(observations[i], candidate) {
        i
    } else {
        confirming_index(observations, candidate, i + 1)
    }
}

pub open spec fn fingerprint_seen(observations: Seq<DiscoveryObservationView>, fingerprint: Seq<char>) -> bool {
    exists|i: int| 0 <= i < observations.len() && (#[trigger] observations[i]).fingerprint == fingerprint
}

pub open spec fn unavailable() -> ProviderVerificationView {
    ProviderVerificationView { status: ProviderVerificationStatus::Unavailable, observation: None }
}

/// What a second scan says of a candidate.
pub open spec fn second_look(
    observations: Seq<DiscoveryObservationView>,
    candidate: DiscoveryObservationView,
) -> ProviderVerificationView {
    let at = confirming_index(observations, candidate, 0);
    if at < observations.len() {
        ProviderVerificationView {
            status: ProviderVerificationStatus::Verified,
            observation: Some(observations[at]),
        }
    } else if fingerprint_seen(observations, candidate.fingerprint) {
        ProviderVerificationView {
            status: ProviderVerificationStatus::Incompatible,
            observation: None,
        }
    } else {
        unavailable()
    }
}

pub fn unavailable_verification() -> (r: ProviderVerification)
    ensures
        r@ == unavailable(),
{
    ProviderVerification { status: ProviderVerificationStatus::Unavailable, observation: None }
}

/// Confirms a candidate by a second scan, unless the search was cancelled.
pub fn confirm_candidate(
    observations: &Vec<DiscoveryObservation>,
    candidate: &DiscoveryObservation,
    cancelled: bool,
) -> (r: ProviderVerification)
    ensures
        r@ == if cancelled {
            unavailable()
        } else {
            second_look(table::views(observations@), candidate@)
        },
{
    if cancelled {
        return unavailable_verification();
    }
    let ghost all = table::views(observations@);
    let mut seen = false;
    let mut i: usize = 0;
    while i < observations.len()
        invariant
            !cancelled,
            i <= observations@.len(),
            all == table::views(observations@),
            confirming_index(all, candidate@, 0) == confirming_index(all, candidate@, i as int),
            seen == exists|j: int|
                0 <= j < i && (#[trigger] all[j]).fingerprint == candidate@.fingerprint,
        decreases observations@.len() - i,
    {
        let o = &observations[i];
        assert(all[i as int] == o@);
        if is_same_machine(o, candidate) && edge_identity_continuity(o, candidate) {
            return ProviderVerification {
                status: ProviderVerificationStatus::Verified,
                observation: Some(o.copied()),
            };
        }
        if text::same(o.fingerprint.as_str(), candidate.fingerprint.as_str()) {
            seen = true;
            assert(all[i as int].fingerprint == candidate@.fingerprint);
        }
        i = i + 1;
    }
    if seen {
        ProviderVerification { status: ProviderVerificationStatus::Incompatible, observation: None }
    } else {
        unavailable_verification()
    }
}

/// A candidate is confirmed only by an observation of the same machine at the same endpoints, and
/// the agent of an edge candidate only by the same key under a new nonce.
pub proof fn law_confirmations_pin_the_machine(
    observations: Seq<DiscoveryObservationView>,
    candidate: DiscoveryObservationView,
)
    requires
        second_look(observations, candidate).status == ProviderVerificationStatus::Verified,
    ensures
        second_look(observations, candidate).observation matches Some(o) && observations.contains(o)
            && same_machine(o, candidate) && continues(o.edge_identity, candidate.edge_identity),
{
    lemma_confirming_index(observations, candidate, 0);
}

proof fn lemma_confirming_index(
    observations: Seq<DiscoveryObservationView>,
    candidate: DiscoveryObservationView,
    i: int,
)
    requires
        0 <= i <= observations.len(),
    ensures
        i <= confirming_index(observations, candidate, i) <= observations.len(),
        confirming_index(observations, candidate, i) < observations.len() ==> confirms(
            observations[confirming_index(observations, candidate, i)],
            candidate,
        ),
    decreases observations.len() - i,
{
    if i < observations.len() && !confirms(observations[i], candidate) {
        lemma_confirming_index(observations, candidate, i + 1);
    }
}


/// What a scan over one protocol came to: its observations, or the message of its failure.
pub open spec fn scan_view(r: Result<Vec<DiscoveryObservation>, String>) -> Result<
    Seq<DiscoveryObservationView>,
    Seq<char>,
> {
    match r {
        Ok(v) => Ok(table::views(v@)),
        Err(e) => Err(e@),
    }
}

pub open spec fn scan_observations(r: Result<Seq<DiscoveryObservationView>, Seq<char>>) -> Seq<
    DiscoveryObservationView,
> {
    match r {
        Ok(v) => v,
        Err(_) => Seq::empty(),
    }
}

/// The observations of three scans, or a message where all of them failed.
pub open spec fn combined(
    mdns: Result<Seq<DiscoveryObservationView>, Seq<char>>,
    ssdp: Result<Seq<DiscoveryObservationView>, Seq<char>>,
    ws: Result<Seq<DiscoveryObservationView>, Seq<char>>,
    limit: usize,
) -> Result<Seq<DiscoveryObservationView>, Seq<char>> {
    if mdns is Err && ssdp is Err && ws is Err {
        Err(
            "Multicast discovery failed: mDNS: "@ + mdns->Err_0 + "; SSDP: "@ + ssdp->Err_0
                + "; ONVIF WS-Discovery: "@ + ws->Err_0,
        )
    } else {
        Ok(
            deduplicated(
                scan_observations(mdns) + scan_observations(ssdp) + scan_observations(ws),
                limit,
            ),
        )
    }
}

fn take_observations(
    whole: &mut Vec<DiscoveryObservation>,
    part: &Result<Vec<DiscoveryObservation>, String>,
)
    ensures
        table::views(final(whole)@) == table::views(old(whole)@) + scan_observations(
            scan_view(*part),
        ),
{
    let ghost start = table::views(whole@);
    match part {
        Err(_) => {
            assert(start + Seq::<DiscoveryObservationView>::empty() =~= start);
        },
        Ok(v) => {
            let ghost all = table::views(v@);
            let mut i: usize = 0;
            proof {
                assert(start + all.take(0) =~= start);
            }
            while i < v.len()
                invariant
                    i <= v@.len(),
                    all == table::views(v@),
                    table::views(whole@) == start + all.take(i as int),
                decreases v@.len() - i,
            {
                let one = v[i].copied();
                proof {
                    assert(all[i as int] == one@);
                    table::lemma_views_push(whole@, one);
                    assert(start + all.take(i + 1) =~= (start + all.take(i as int)).push(one@));
                }
                whole.push(one);
                i = i + 1;
            }
            assert(all.take(all.len() as int) =~= all);
        },
    }
}

/// Puts the scans over the three protocols together. One that works is enough.
pub fn combine_scans(
    mdns: Result<Vec<DiscoveryObservation>, String>,
    ssdp: Result<Vec<DiscoveryObservation>, String>,
    ws: Result<Vec<DiscoveryObservation>, String>,
    max_candidates: usize,
) -> (r: Result<Vec<DiscoveryObservation>, DiscoveryProviderError>)
    ensures
        (match r {
            Ok(v) => Ok(table::views(v@)),
            Err(e) => Err(e@),
        }) == combined(scan_view(mdns), scan_view(ssdp), scan_view(ws), max_candidates),
{
    match (&mdns, &ssdp, &ws) {
        (Err(a), Err(b), Err(c)) => Err(
            DiscoveryProviderError::new(
                text::line("Multicast discovery failed: mDNS: ").add(a.as_str()).add(
                    "; SSDP: ",
                ).add(b.as_str()).add("; ONVIF WS-Discovery: ").add(c.as_str()).done(),
            ),
        ),
        _ => {
            let mut whole: Vec<DiscoveryObservation> = Vec::new();
            take_observations(&mut whole, &mdns);
            take_observations(&mut whole, &ssdp);
            take_observations(&mut whole, &ws);
            proof {
                let none = Seq::<DiscoveryObservationView>::empty();
                let a = scan_observations(scan_view(mdns));
                let b = scan_observations(scan_view(ssdp));
                let c = scan_observations(scan_view(ws));
                assert(table::views(whole@) =~= a + b + c);
            }
            Ok(deduplicate_and_bound(&whole, max_candidates))
        },
    }
}

/// What the settings of the organization's secret amount to.
#[derive(Clone, Copy, Debug, PartialEq, Eq, Structural)]
pub enum SecretSettings {
    Absent,
    /// The secret is in the named file.
    Given,
    Incomplete,
    Invalid,
}

pub open spec fn secret_settings(
    organization_id: Option<Seq<char>>,
    key_id: Option<Seq<char>>,
    path_is_absolute: Option<bool>,
) -> SecretSettings {
    match (organization_id, key_id, path_is_absolute) {
        (None, None, None) => SecretSettings::Absent,
        (Some(organization), Some(key), Some(absolute)) => if absolute
            && edge_advertisement::organization_token(organization, 64)
            && edge_advertisement::organization_token(key, 32) {
            SecretSettings::Given
        } else {
            SecretSettings::Invalid
        },
        _ => SecretSettings::Incomplete,
    }
}

/// Reads the settings of the organization's secret: all of them or none.
pub fn read_secret_settings(
    organization_id: &Option<String>,
    key_id: &Option<String>,
    path_is_absolute: Option<bool>,
) -> (r: SecretSettings)
    ensures
        r == secret_settings(
            table::view_option(*organization_id),
            table::view_option(*key_id),
            path_is_absolute,
        ),
{
    match (organization_id, key_id, path_is_absolute) {
        (None, None, None) => SecretSettings::Absent,
        (Some(organization), Some(key), Some(absolute)) => {
            if absolute && edge_advertisement::valid_organization_token(organization.as_str(), 64)
                && edge_advertisement::valid_organization_token(key.as_str(), 32) {
                SecretSettings::Given
            } else {
                SecretSettings::Invalid
            }
        },
        _ => SecretSettings::Incomplete,
    }
}

/// Why the file of a secret is not accepted.
#[derive(Clone, Copy, Debug, PartialEq, Eq, Structural)]
pub enum SecretFault {
    NotRegular,
    OpenToOthers,
    TooShort,
}

/// Checks the file of a secret before it is read.
pub fn check_secret_file(is_regular: bool, mode: Option<u32>) -> (r: Option<SecretFault>)
    ensures
        r == if !is_regular {
            Some(SecretFault::NotRegular)
        } else if mode is Some && heartbeat::grants_others(mode->Some_0) {
            Some(SecretFault::OpenToOthers)
        } else {
            None
        },
{
    if !is_regular {
        return Some(SecretFault::NotRegular);
    }
    match mode {
        Some(mode) => {
            if mode & 0o077 != 0 {
                return Some(SecretFault::OpenToOthers);
            }
        },
        None => {},
    }
    None
}

/// Takes the secret from the content of its file.
pub fn accept_secret(content: Vec<u8>) -> (r: Result<Vec<u8>, SecretFault>)
    ensures
        match r {
            Ok(secret) => secret@ == heartbeat::without_trailing_space(content@) && secret@.len()
                >= edge_advertisement::MIN_SECRET_LEN,
            Err(fault) => fault == SecretFault::TooShort && heartbeat::without_trailing_space(
                content@,
            ).len() < edge_advertisement::MIN_SECRET_LEN,
        },
{
    let secret = heartbeat::trim_trailing_space(content);
    if secret.len() < edge_advertisement::MIN_SECRET_LEN {
        Err(SecretFault::TooShort)
    } else {
        Ok(secret)
    }
}

/// A provider that finds a fixed set of observations.
#[derive(Clone, Debug)]
pub struct FakeDiscoveryProvider {
    pub observations: Vec<DiscoveryObservation>,
    /// How long a scan takes, in milliseconds.
    pub scan_delay_ms: u64,
    pub verification_status: ProviderVerificationStatus,
}

#[verifier::ext_equal]
pub struct FakeDiscoveryProviderView {
    pub observations: Seq<DiscoveryObservationView>,
    pub scan_delay_ms: u64,
    pub verification_status: ProviderVerificationStatus,
}

impl View for FakeDiscoveryProvider {
    type V = FakeDiscoveryProviderView;

    open spec fn view(&self) -> FakeDiscoveryProviderView {
        FakeDiscoveryProviderView {
            observations: table::views(self.observations@),
            scan_delay_ms: self.scan_delay_ms,
            verification_status: self.verification_status,
        }
    }
}

/// What a fixed provider says of a candidate.
pub open spec fn fixed_answer(p: FakeDiscoveryProviderView, candidate: DiscoveryObservationView) -> ProviderVerificationView {
    let at = machine_index(p.observations, candidate, 0);
    if at < p.observations.len() {
        ProviderVerificationView {
            status: p.verification_status,
            observation: Some(p.observations[at]),
        }
    } else {
        unavailable()
    }
}

pub open spec fn fixture_source(
    id: Seq<char>,
    label: Seq<char>,
    category: DiscoverySourceCategory,
    protocol: Seq<char>,
    port: u16,
    scheme: Seq<char>,
    path: Seq<char>,
) -> DiscoveredSourceView {
    DiscoveredSourceView {
        id,
        label,
        category,
        status: DiscoverySourceStatus::Ready,
        protocol,
        endpoint: PinnedDiscoveryEndpointView {
            source_address: SourceAddress::V4 { a: 192, b: 168, c: 10, d: 42 },
            address_text: "192.168.10.42"@,
            port,
            scheme,
            path,
        },
    }
}

/// The machine that the fixture provider finds.
pub open spec fn fixture_observation(now_ms: i64) -> DiscoveryObservationView {
    DiscoveryObservationView {
        fingerprint: "fixture:rms-edge:robot-42"@,
        display_name: "Robot-42"@,
        category: DiscoveryCandidateCategory::Robot,
        suggested_device_kind: "robot"@,
        integration_kind: "rerun"@,
        endpoint_label: "RMS Edge Agent"@,
        last_seen_at_ms: now_ms,
        expires_at_ms: discovery::saturated(now_ms + 120_000),
        sources: seq![
            fixture_source(
                "telemetry"@,
                "상태 데이터"@,
                DiscoverySourceCategory::Telemetry,
                "rerun"@,
                9877,
                "rerun+http"@,
                "/proxy"@,
            ),
            fixture_source(
                "camera"@,
                "전방 카메라"@,
                DiscoverySourceCategory::Camera,
                "rtsp"@,
                8554,
                "rtsp"@,
                "/front"@,
            ),
        ],
        edge_identity: None,
    }
}

fn make_fixture_source(
    id: &str,
    label: &str,
    category: DiscoverySourceCategory,
    protocol: &str,
    port: u16,
    scheme: &str,
    path: &str,
) -> (r: DiscoveredSource)
    ensures
        r@ == fixture_source(id@, label@, category, protocol@, port, scheme@, path@),
{
    DiscoveredSource {
        id: id.to_owned(),
        label: label.to_owned(),
        category,
        status: DiscoverySourceStatus::Ready,
        protocol: protocol.to_owned(),
        endpoint: PinnedDiscoveryEndpoint {
            source_address: SourceAddress::V4 { a: 192, b: 168, c: 10, d: 42 },
            address_text: "192.168.10.42".to_owned(),
            port,
            scheme: scheme.to_owned(),
            path: path.to_owned(),
        },
    }
}

impl FakeDiscoveryProvider {
    pub fn new(observations: Vec<DiscoveryObservation>) -> (r: Self)
        ensures
            r@ == (FakeDiscoveryProviderView {
                observations: table::views(observations@),
                scan_delay_ms: 0,
                verification_status: ProviderVerificationStatus::Verified,
            }),
    {
        FakeDiscoveryProvider {
            observations,
            scan_delay_ms: 0,
            verification_status: ProviderVerificationStatus::Verified,
        }
    }

    pub fn with_scan_delay(self, scan_delay_ms: u64) -> (r: Self)
        ensures
            r@ == (FakeDiscoveryProviderView { scan_delay_ms, ..self@ }),
    {
        FakeDiscoveryProvider {
            observations: self.observations,
            scan_delay_ms,
            verification_status: self.verification_status,
        }
    }

    pub fn with_verification_status(self, verification_status: ProviderVerificationStatus) -> (r: Self)
        ensures
            r@ == (FakeDiscoveryProviderView { verification_status, ..self@ }),
    {
        FakeDiscoveryProvider {
            observations: self.observations,
            scan_delay_ms: self.scan_delay_ms,
            verification_status,
        }
    }

    /// A provider that finds one robot, seen now.
    pub fn fixture(now_ms: i64) -> (r: Self)
        ensures
            r@ == (FakeDiscoveryProviderView {
                observations: seq![fixture_observation(now_ms)],
                scan_delay_ms: 0,
                verification_status: ProviderVerificationStatus::Verified,
            }),
    {
        let mut sources: Vec<DiscoveredSource> = Vec::new();
        sources.push(
            make_fixture_source(
                "telemetry",
                "상태 데이터",
                DiscoverySourceCategory::Telemetry,
                "rerun",
                9877,
                "rerun+http",
                "/proxy",
            ),
        );
        sources.push(
            make_fixture_source(
                "camera",
                "전방 카메라",
                DiscoverySourceCategory::Camera,
                "rtsp",
                8554,
                "rtsp",
                "/front",
            ),
        );
        assert(table::views(sources@) =~= fixture_observation(now_ms).sources);
        let one = DiscoveryObservation {
            fingerprint: "fixture:rms-edge:robot-42".to_owned(),
            display_name: "Robot-42".to_owned(),
            category: DiscoveryCandidateCategory::Robot,
            suggested_device_kind: "robot".to_owned(),
            integration_kind: "rerun".to_owned(),
            endpoint_label: "RMS Edge Agent".to_owned(),
            last_seen_at_ms: now_ms,
            expires_at_ms: discovery::saturating_add(now_ms, 120_000),
            sources,
            edge_identity: None,
        };
        assert(one@ =~= fixture_observation(now_ms));
        let mut observations: Vec<DiscoveryObservation> = Vec::new();
        observations.push(one);
        assert(table::views(observations@) =~= seq![fixture_observation(now_ms)]);
        FakeDiscoveryProvider::new(observations)
    }

    /// What a scan finds once its delay is over, unless it was cancelled.
    pub fn discover(&self, cancelled: bool) -> (r: Vec<DiscoveryObservation>)
        ensures
            table::views(r@) == if cancelled {
                Seq::<DiscoveryObservationView>::empty()
            } else {
                self@.observations
            },
    {
        if cancelled {
            let none: Vec<DiscoveryObservation> = Vec::new();
            assert(table::views(none@) =~= Seq::<DiscoveryObservationView>::empty());
            none
        } else {
            copy_all(&self.observations)
        }
    }

    /// Looks a candidate up again, unless the search was cancelled.
    pub fn verify(&self, candidate: &DiscoveryObservation, cancelled: bool) -> (r: ProviderVerification)
        ensures
            r@ == if cancelled {
                unavailable()
            } else {
                fixed_answer(self@, candidate@)
            },
    {
        if cancelled {
            return unavailable_verification();
        }
        let ghost all = table::views(self.observations@);
        let mut i: usize = 0;
        while i < self.observations.len()
            invariant
                !cancelled,
                i <= self.observations@.len(),
                all == table::views(self.observations@),
                machine_index(all, candidate@, 0) == machine_index(all, candidate@, i as int),
            decreases self.observations@.len() - i,
        {
            assert(all[i as int] == self.observations@[i as int]@);
            if is_same_machine(&self.observations[i], candidate) {
                return ProviderVerification {
                    status: self.verification_status,
                    observation: Some(self.observations[i].copied()),
                };
            }
            i = i + 1;
        }
        unavailable_verification()
    }
}

/// Whether an observation is of a machine at all the endpoints of another observation of it, and
/// of the same agent with a new nonce and no less trust.
pub open spec fn sees_again(o: DiscoveryObservationView, before: DiscoveryObservationView) -> bool {
    &&& o.fingerprint == before.fingerprint
    &&& o.sources.len() == before.sources.len()
    &&& forall|i: int|
        0 <= i < o.sources.len() ==> exists|j: int|
            0 <= j < before.sources.len() && (#[trigger] before.sources[j]).id == (
            #[trigger] o.sources[i]).id && before.sources[j].endpoint == o.sources[i].endpoint
    &&& o.edge_identity is Some <==> before.edge_identity is Some
    &&& o.edge_identity is Some ==> {
        let now = o.edge_identity->Some_0;
        let earlier = before.edge_identity->Some_0;
        &&& now.device_id == earlier.device_id
        &&& now.public_key == earlier.public_key
        &&& now.nonce != earlier.nonce
        &&& now.organization_id == earlier.organization_id
        &&& earlier.organization_trusted ==> now.organization_trusted
    }
}

/// A second look verifies a candidate exactly if the machine is seen again as it was; it finds it
/// incompatible if only its fingerprint is seen again, and unavailable if not even that is.
pub proof fn law_second_looks_tell_what_was_seen(
    observations: Seq<DiscoveryObservationView>,
    candidate: DiscoveryObservationView,
)
    ensures
        ({
            let found = second_look(observations, candidate);
            let again = exists|i: int|
                0 <= i < observations.len() && sees_again(#[trigger] observations[i], candidate);
            let fingerprint = exists|i: int|
                0 <= i < observations.len() && (#[trigger] observations[i]).fingerprint
                    == candidate.fingerprint;
            &&& found.status == ProviderVerificationStatus::Verified <==> again
            &&& found.status == ProviderVerificationStatus::Incompatible <==> !again && fingerprint
            &&& found.status == ProviderVerificationStatus::Unavailable <==> !fingerprint
            &&& found.observation is Some <==> again
            &&& found.observation is Some ==> observations.contains(found.observation->Some_0)
                && sees_again(found.observation->Some_0, candidate)
        }),
{
    assert forall|i: int| 0 <= i < observations.len() implies confirms(observations[i], candidate)
        == sees_again(#[trigger] observations[i], candidate) by {
        lemma_seen_again(observations[i], candidate);
    }
    lemma_confirming_index(observations, candidate, 0);
    let at = confirming_index(observations, candidate, 0);
    if at < observations.len() {
        assert(sees_again(observations[at], candidate));
    } else {
        lemma_confirming_missed(observations, candidate, 0);
    }
}

proof fn lemma_seen_again(o: DiscoveryObservationView, before: DiscoveryObservationView)
    ensures
        confirms(o, before) == sees_again(o, before),
{
    if confirms(o, before) {
        assert forall|i: int| 0 <= i < o.sources.len() implies exists|j: int|
            0 <= j < before.sources.len() && (#[trigger] before.sources[j]).id == (
            #[trigger] o.sources[i]).id && before.sources[j].endpoint == o.sources[i].endpoint by {
            assert(discovery::pinned_in(o.sources[i], before.sources));
        }
        assert(continues(o.edge_identity, before.edge_identity));
        assert(sees_again(o, before));
    }
    if sees_again(o, before) {
        assert forall|i: int| 0 <= i < o.sources.len() implies discovery::pinned_in(
            #[trigger] o.sources[i],
            before.sources,
        ) by {
        }
        assert(discovery::same_pin(o.sources, before.sources));
        assert(continues(o.edge_identity, before.edge_identity));
    }
}

proof fn lemma_confirming_missed(
    observations: Seq<DiscoveryObservationView>,
    candidate: DiscoveryObservationView,
    i: int,
)
    requires
        0 <= i <= observations.len(),
        confirming_index(observations, candidate, i) == observations.len(),
    ensures
        forall|k: int|
            i <= k < observations.len() ==> !confirms(#[trigger] observations[k], candidate),
    decreases observations.len() - i,
{
    if i < observations.len() {
        lemma_confirming_index(observations, candidate, i + 1);
        lemma_confirming_missed(observations, candidate, i + 1);
    }
}

/// Whether an observation is one of others, but for when it was seen and until when it counts.
pub open spec fn observed_among(
    o: DiscoveryObservationView,
    all: Seq<DiscoveryObservationView>,
) -> bool {
    exists|k: int|
        0 <= k < all.len() && (DiscoveryObservationView {
            last_seen_at_ms: o.last_seen_at_ms,
            expires_at_ms: o.expires_at_ms,
            ..#[trigger] all[k]
        }) == o
}

/// Whether an observation is kept among others: one of the same machine, seen no earlier and
/// counting no shorter, or there is no room for it.
pub open spec fn kept_among(
    o: DiscoveryObservationView,
    kept: Seq<DiscoveryObservationView>,
    limit: usize,
) -> bool {
    kept.len() >= limit || exists|k: int|
        0 <= k < kept.len() && (#[trigger] kept[k]).fingerprint == o.fingerprint
            && kept[k].last_seen_at_ms >= o.last_seen_at_ms && kept[k].expires_at_ms
            >= o.expires_at_ms
}

proof fn lemma_machine_found(
    kept: Seq<DiscoveryObservationView>,
    o: DiscoveryObservationView,
    i: int,
)
    requires
        0 <= i <= kept.len(),
    ensures
        i <= machine_index(kept, o, i) <= kept.len(),
        machine_index(kept, o, i) < kept.len() ==> same_machine(kept[machine_index(kept, o, i)], o),
        forall|k: int| i <= k < machine_index(kept, o, i) ==> !same_machine(#[trigger] kept[k], o),
    decreases kept.len() - i,
{
    if i < kept.len() && !same_machine(kept[i], o) {
        lemma_machine_found(kept, o, i + 1);
    }
}

proof fn lemma_folded(
    observations: Seq<DiscoveryObservationView>,
    limit: usize,
    i: int,
    kept: Seq<DiscoveryObservationView>,
)
    requires
        0 <= i <= observations.len(),
        kept.len() <= limit,
        forall|k: int| 0 <= k < kept.len() ==> observed_among(#[trigger] kept[k], observations),
        forall|k: int|
            0 <= k < i ==> kept_among(#[trigger] observations[k], kept, limit),
        forall|a: int, b: int|
            0 <= a < b < kept.len() ==> !same_machine(#[trigger] kept[a], #[trigger] kept[b]),
    ensures
        ({
            let all = folded(observations, limit, i, kept);
            &&& forall|k: int|
                0 <= k < all.len() ==> observed_among(#[trigger] all[k], observations)
            &&& forall|k: int|
                0 <= k < observations.len() ==> kept_among(#[trigger] observations[k], all, limit)
            &&& forall|a: int, b: int|
                0 <= a < b < all.len() ==> !same_machine(#[trigger] all[a], #[trigger] all[b])
        }),
    decreases observations.len() - i,
{
    if i < observations.len() {
        let o = observations[i];
        let at = machine_index(kept, o, 0);
        let next = with_observation(kept, o, limit);
        lemma_machine_found(kept, o, 0);
        assert forall|k: int| 0 <= k < next.len() implies observed_among(
            #[trigger] next[k],
            observations,
        ) by {
            if k < kept.len() {
                assert(observed_among(kept[k], observations));
                let j = choose|j: int|
                    0 <= j < observations.len() && (DiscoveryObservationView {
                        last_seen_at_ms: kept[k].last_seen_at_ms,
                        expires_at_ms: kept[k].expires_at_ms,
                        ..#[trigger] observations[j]
                    }) == kept[k];
                assert((DiscoveryObservationView {
                    last_seen_at_ms: next[k].last_seen_at_ms,
                    expires_at_ms: next[k].expires_at_ms,
                    ..observations[j]
                }) == next[k]);
            } else {
                assert((DiscoveryObservationView {
                    last_seen_at_ms: next[k].last_seen_at_ms,
                    expires_at_ms: next[k].expires_at_ms,
                    ..observations[i]
                }) == next[k]);
            }
        }
        assert forall|k: int| 0 <= k < i + 1 implies kept_among(
            #[trigger] observations[k],
            next,
            limit,
        ) by {
            if next.len() < limit {
                if k < i {
                    assert(kept_among(observations[k], kept, limit));
                    let j = choose|j: int|
                        0 <= j < kept.len() && (#[trigger] kept[j]).fingerprint
                            == observations[k].fingerprint && kept[j].last_seen_at_ms
                            >= observations[k].last_seen_at_ms && kept[j].expires_at_ms
                            >= observations[k].expires_at_ms;
                    assert(next[j].fingerprint == observations[k].fingerprint);
                } else if at < kept.len() {
                    assert(next[at].fingerprint == o.fingerprint);
                } else {
                    assert(next[kept.len() as int].fingerprint == o.fingerprint);
                }
            }
        }
        assert forall|a: int, b: int| 0 <= a < b < next.len() implies !same_machine(
            #[trigger] next[a],
            #[trigger] next[b],
        ) by {
            if b < kept.len() {
                assert(!same_machine(kept[a], kept[b]));
                assert(next[a].sources == kept[a].sources && next[b].sources == kept[b].sources);
                assert(next[a].fingerprint == kept[a].fingerprint && next[b].fingerprint
                    == kept[b].fingerprint);
            } else {
                assert(!same_machine(kept[a], o));
            }
        }
        lemma_folded(observations, limit, i + 1, next);
    }
}

proof fn lemma_sorted_same(s: Seq<DiscoveryObservationView>, o: DiscoveryObservationView)
    ensures
        order::sorted(
            s,
            |a: DiscoveryObservationView, b: DiscoveryObservationView| observation_before(a, b),
        ).contains(o) <==> s.contains(o),
{
    let before = |a: DiscoveryObservationView, b: DiscoveryObservationView| observation_before(a, b);
    let all = order::sorted(s, before);
    order::law_sorting_keeps_the_elements(s, before);
    s.to_multiset_ensures();
    all.to_multiset_ensures();
    assert(s.contains(o) <==> s.to_multiset().count(o) > 0);
    assert(all.contains(o) <==> all.to_multiset().count(o) > 0);
}

/// A scan gives what was observed, each machine at its endpoints once, and each observed machine
/// under its fingerprint as it was seen last, for as long as there is room.
pub proof fn law_scans_keep_each_machine_once(
    observations: Seq<DiscoveryObservationView>,
    limit: usize,
    k: int,
    a: int,
    b: int,
)
    ensures
        ({
            let all = deduplicated(observations, limit);
            &&& 0 <= k < all.len() ==> observed_among(all[k], observations)
            &&& 0 <= k < observations.len() ==> kept_among(observations[k], all, limit)
            &&& 0 <= a < b < all.len() && all[a].fingerprint == all[b].fingerprint
                ==> !discovery::same_pin(all[a].sources, all[b].sources)
        }),
{
    let sorted = order::sorted(
        observations,
        |a: DiscoveryObservationView, b: DiscoveryObservationView| observation_before(a, b),
    );
    let all = deduplicated(observations, limit);
    lemma_folded(sorted, limit, 0, Seq::empty());
    if 0 <= k < all.len() {
        assert(observed_among(all[k], sorted));
        let j = choose|j: int|
            0 <= j < sorted.len() && (DiscoveryObservationView {
                last_seen_at_ms: all[k].last_seen_at_ms,
                expires_at_ms: all[k].expires_at_ms,
                ..#[trigger] sorted[j]
            }) == all[k];
        lemma_sorted_same(observations, sorted[j]);
        assert(sorted.contains(sorted[j]));
        let i = choose|i: int| 0 <= i < observations.len() && observations[i] == sorted[j];
        assert((DiscoveryObservationView {
            last_seen_at_ms: all[k].last_seen_at_ms,
            expires_at_ms: all[k].expires_at_ms,
            ..observations[i]
        }) == all[k]);
    }
    if 0 <= k < observations.len() {
        lemma_sorted_same(observations, observations[k]);
        assert(observations.contains(observations[k]));
        let j = choose|j: int| 0 <= j < sorted.len() && sorted[j] == observations[k];
        assert(kept_among(sorted[j], all, limit));
    }
    if 0 <= a < b < all.len() {
        assert(!same_machine(all[a], all[b]));
    }
}

/// A scan fails exactly if all three of its parts failed; otherwise it gives what those that did
/// not fail have observed.
pub proof fn law_scans_fail_together(
    mdns: Result<Seq<DiscoveryObservationView>, Seq<char>>,
    ssdp: Result<Seq<DiscoveryObservationView>, Seq<char>>,
    ws: Result<Seq<DiscoveryObservationView>, Seq<char>>,
    limit: usize,
    k: int,
)
    ensures
        combined(mdns, ssdp, ws, limit) is Err <==> mdns is Err && ssdp is Err && ws is Err,
        combined(mdns, ssdp, ws, limit) matches Ok(all) ==> {
            &&& mdns matches Ok(list) ==> (0 <= k < list.len() ==> kept_among(list[k], all, limit))
            &&& ssdp matches Ok(list) ==> (0 <= k < list.len() ==> kept_among(list[k], all, limit))
            &&& ws matches Ok(list) ==> (0 <= k < list.len() ==> kept_among(list[k], all, limit))
        },
{
    let m = scan_observations(mdns);
    let s = scan_observations(ssdp);
    let w = scan_observations(ws);
    let whole = m + s + w;
    law_scans_keep_each_machine_once(whole, limit, k, 0, 0);
    law_scans_keep_each_machine_once(whole, limit, m.len() + k, 0, 0);
    law_scans_keep_each_machine_once(whole, limit, m.len() + s.len() + k, 0, 0);
    if 0 <= k < m.len() {
        assert(whole[k] == m[k]);
    }
    if 0 <= k < s.len() {
        assert(whole[m.len() + k] == s[k]);
    }
    if 0 <= k < w.len() {
        assert(whole[m.len() + s.len() + k] == w[k]);
    }
}

/// An announcement is accepted exactly if it has no identity or its nonce is not remembered; the
/// nonce of an accepted one is remembered for two minutes from when it was signed, and nothing
/// else is remembered newly.
pub proof fn law_nonces_are_remembered(
    m: Map<Seq<char>, i64>,
    o: DiscoveryObservationView,
    key: Seq<char>,
)
    requires
        o.edge_identity is Some ==> 0 <= o.edge_identity->Some_0.timestamp_seconds <= i64::MAX
            - 120,
    ensures
        ({
            let (after, accepted) = nonce_step(m, o);
            &&& accepted <==> (o.edge_identity is None || !m.contains_key(
                nonce_key(o.edge_identity->Some_0),
            ))
            &&& accepted && o.edge_identity is Some ==> after.contains_pair(
                nonce_key(o.edge_identity->Some_0),
                (o.edge_identity->Some_0.timestamp_seconds + 120) as i64,
            )
            &&& !accepted || o.edge_identity is None ==> after == m
            &&& after.contains_key(key) && (o.edge_identity is None || key != nonce_key(
                o.edge_identity->Some_0,
            )) ==> m.contains_key(key) && after[key] == m[key]
            &&& m.contains_key(key) && m.len() < 2_048 ==> after.contains_key(key)
        }),
{
}

/// A secret is given exactly if all of its three settings are, with names of plain characters and
/// an absolute path; none of them is no secret, and some of them are not enough.
pub proof fn law_secrets_have_three_settings(
    organization: Option<Seq<char>>,
    key: Option<Seq<char>>,
    absolute: Option<bool>,
)
    ensures
        secret_settings(organization, key, absolute) == SecretSettings::Absent <==> organization
            is None && key is None && absolute is None,
        secret_settings(organization, key, absolute) == SecretSettings::Incomplete <==> (
        organization is Some || key is Some || absolute is Some) && !(organization is Some && key
            is Some && absolute is Some),
        secret_settings(organization, key, absolute) == SecretSettings::Given <==> absolute == Some(
            true,
        ) && organization is Some && edge_advertisement::organization_token(
            organization->Some_0,
            64,
        ) && key is Some && edge_advertisement::organization_token(key->Some_0, 32),
{
}

} // verus!
