//! What the heartbeats of edge agents do: replay protection, the catalog and the deadline after
//! which an agent counts as gone.

use crate::api;
use crate::api::{ApiError, ApiErrorKind, ApiErrorView};
use crate::catalog;
use crate::catalog::{Catalog, CatalogView};
use crate::discovery;
use crate::domain::{
    ControlLease, ControlLeaseView, DataSource, DataSourceView, DeviceAssignment,
    DeviceAssignmentView, DeviceView, EdgeEnrollment, EdgeEnrollmentView, IntegrationView,
    Project, ProjectView, Topic, TopicList, TopicView,
};
use crate::edge_topics;
use crate::heartbeat;
use crate::heartbeat::{
    EdgeAdapterHeartbeat, EdgeAdapterHeartbeatView, EdgeHeartbeat, EdgeHeartbeatView,
    EdgeObservation, EdgeObservationView, EdgeSource, EdgeSourceView, EdgeTopic, EdgeTopicView,
    SignatureHeaders, SignatureHeadersView, MAX_CLOCK_SKEW_MS, MAX_TOPICS, STALE_AFTER_MS,
};
use crate::imports;
use crate::table;
use crate::table::{Copied, Table};
use crate::text;
use crate::time;
use vstd::prelude::*;
use vstd::string::*;
use vstd::utf8::*;

verus! {

pub const MAX_NONCES: usize = 4_096;
pub const MAX_BOOT_SEQUENCES: usize = 1_024;
pub const SEQUENCE_RETENTION_MS: i64 = 86_400_000;

/// An instant in milliseconds.
#[derive(Debug)]
pub struct Instant {
    pub at_ms: i64,
}

impl View for Instant {
    type V = i64;

    open spec fn view(&self) -> i64 {
        self.at_ms
    }
}

/// The last sequence number of a boot of an agent, and when it was seen.
#[derive(Debug)]
pub struct SeenSequence {
    pub sequence: u64,
    pub seen_at_ms: i64,
}

impl View for SeenSequence {
    type V = (u64, i64);

    open spec fn view(&self) -> (u64, i64) {
        (self.sequence, self.seen_at_ms)
    }
}

/// What is remembered of heartbeats, so that none counts twice.
#[derive(Debug)]
pub struct EdgeHeartbeatRuntime {
    /// When each nonce was seen.
    pub nonces: Table<Instant>,
    /// The last sequence number of each boot.
    pub sequences: Table<SeenSequence>,
    /// When each device goes stale.
    pub deadlines: Table<Instant>,
}

#[verifier::ext_equal]
pub struct EdgeHeartbeatRuntimeView {
    pub nonces: Map<Seq<char>, i64>,
    pub sequences: Map<Seq<char>, (u64, i64)>,
    pub deadlines: Map<Seq<char>, i64>,
}

impl View for EdgeHeartbeatRuntime {
    type V = EdgeHeartbeatRuntimeView;

    open spec fn view(&self) -> EdgeHeartbeatRuntimeView {
        EdgeHeartbeatRuntimeView {
            nonces: self.nonces@,
            sequences: self.sequences@,
            deadlines: self.deadlines@,
        }
    }
}

impl Default for EdgeHeartbeatRuntime {
    fn default() -> (r: Self)
        ensures
            r@ == (EdgeHeartbeatRuntimeView {
                nonces: Map::empty(),
                sequences: Map::empty(),
                deadlines: Map::empty(),
            }),
    {
        EdgeHeartbeatRuntime::new()
    }
}

impl EdgeHeartbeatRuntime {
    pub fn new() -> (r: Self)
        ensures
            r@ == (EdgeHeartbeatRuntimeView {
                nonces: Map::empty(),
                sequences: Map::empty(),
                deadlines: Map::empty(),
            }),
    {
        EdgeHeartbeatRuntime {
            nonces: Table::new(),
            sequences: Table::new(),
            deadlines: Table::new(),
        }
    }
}

/// What was known of a device and its boot before a heartbeat was admitted.
#[derive(Debug)]
pub struct Admission {
    pub previous_sequence: Option<SeenSequence>,
    pub previous_deadline: Option<Instant>,
    pub deadline: i64,
}

#[verifier::ext_equal]
pub struct AdmissionView {
    pub previous_sequence: Option<(u64, i64)>,
    pub previous_deadline: Option<i64>,
    pub deadline: i64,
}

impl View for Admission {
    type V = AdmissionView;

    open spec fn view(&self) -> AdmissionView {
        AdmissionView {
            previous_sequence: table::view_option(self.previous_sequence),
            previous_deadline: table::view_option(self.previous_deadline),
            deadline: self.deadline,
        }
    }
}

/// The boot that a heartbeat belongs to. The identifier of a device holds no line break.
pub open spec fn boot_key(h: EdgeHeartbeatView) -> Seq<char> {
    h.device_id + "\n"@ + h.boot_id
}

fn boot_key_of(h: &EdgeHeartbeat) -> (r: String)
    ensures
        r@ == boot_key(h@),
{
    text::line(h.device_id.as_str()).add("\n").add(h.boot_id.as_str()).done()
}

/// Two well-formed heartbeats of one boot key are of one device and one boot.
pub proof fn law_boot_keys_tell_boots_apart(a: EdgeHeartbeatView, b: EdgeHeartbeatView)
    requires
        heartbeat::heartbeat_fits(a),
        heartbeat::heartbeat_fits(b),
        boot_key(a) == boot_key(b),
    ensures
        a.device_id == b.device_id,
        a.boot_id == b.boot_id,
{
    reveal_strlit("\n");
    let key = boot_key(a);
    let m: int = a.device_id.len() as int;
    let n: int = b.device_id.len() as int;
    assert(key[m] == '\n');
    assert(boot_key(b)[n] == '\n');
    if m < n {
        assert(b.device_id[m] == '\n');
        assert(heartbeat::token_char(b.device_id[m]));
    }
    if n < m {
        assert(a.device_id[n] == '\n');
        assert(heartbeat::token_char(a.device_id[n]));
    }
    assert(a.device_id =~= key.take(m));
    assert(b.device_id =~= key.take(n));
    assert(a.boot_id =~= key.skip(m + 1));
    assert(b.boot_id =~= key.skip(n + 1));
}

/// The nonces that are still remembered.
pub open spec fn recent_nonces(m: Map<Seq<char>, i64>, received_at_ms: i64) -> Map<Seq<char>, i64> {
    table::without(m, |t: i64| t < discovery::saturated(received_at_ms - MAX_CLOCK_SKEW_MS))
}

/// The boots that are still remembered.
pub open spec fn recent_sequences(m: Map<Seq<char>, (u64, i64)>, received_at_ms: i64) -> Map<
    Seq<char>,
    (u64, i64),
> {
    table::without(
        m,
        |s: (u64, i64)| s.1 < discovery::saturated(received_at_ms - SEQUENCE_RETENTION_MS),
    )
}

pub open spec fn found<W>(m: Map<Seq<char>, W>, k: Seq<char>) -> Option<W> {
    if m.contains_key(k) {
        Some(m[k])
    } else {
        None
    }
}

/// When a device goes stale after a heartbeat.
pub open spec fn deadline_after(received_at_ms: i64) -> i64 {
    discovery::saturated(received_at_ms + STALE_AFTER_MS)
}

/// What is remembered after a heartbeat asked to be admitted, and what it was answered.
pub open spec fn admitted(
    m: EdgeHeartbeatRuntimeView,
    h: EdgeHeartbeatView,
    nonce: Seq<char>,
    received_at_ms: i64,
) -> (EdgeHeartbeatRuntimeView, Result<AdmissionView, ApiErrorView>) {
    let nonces = recent_nonces(m.nonces, received_at_ms);
    let sequences = recent_sequences(m.sequences, received_at_ms);
    let key = boot_key(h);
    let deadline = deadline_after(received_at_ms);
    if nonces.contains_key(nonce) {
        (
            EdgeHeartbeatRuntimeView { nonces, ..m },
            Err(api::conflict("The Edge Agent heartbeat was already accepted."@)),
        )
    } else if sequences.contains_key(key) && h.sequence <= sequences[key].0 {
        (
            EdgeHeartbeatRuntimeView { nonces, sequences, ..m },
            Err(api::conflict("The Edge Agent heartbeat sequence is stale."@)),
        )
    } else if sequences.len() >= MAX_BOOT_SEQUENCES && !sequences.contains_key(key) {
        (
            EdgeHeartbeatRuntimeView { nonces, sequences, ..m },
            Err(
                api::failure(
                    ApiErrorKind::TooManyRequests,
                    "Too many Edge Agent boots are active."@,
                ),
            ),
        )
    } else {
        (
            EdgeHeartbeatRuntimeView {
                nonces: table::last_entries(nonces.insert(nonce, received_at_ms), MAX_NONCES),
                sequences: sequences.insert(key, (h.sequence, received_at_ms)),
                deadlines: m.deadlines.insert(h.device_id, deadline),
            },
            Ok(
                AdmissionView {
                    previous_sequence: found(sequences, key),
                    previous_deadline: found(m.deadlines, h.device_id),
                    deadline,
                },
            ),
        )
    }
}

/// Admits a heartbeat that has not been seen, and remembers it.
pub fn admit_heartbeat(
    m: &mut EdgeHeartbeatRuntime,
    h: &EdgeHeartbeat,
    nonce: &str,
    received_at_ms: i64,
) -> (r: Result<Admission, ApiError>)
    ensures
        (final(m)@, api::answer_view(r)) == admitted(old(m)@, h@, nonce@, received_at_ms),
{
    let oldest_nonce: i64 = discovery::saturating_sub(received_at_ms, MAX_CLOCK_SKEW_MS as i64);
    let old_nonce = |t: &Instant| -> (b: bool)
        ensures
            b == (t@ < discovery::saturated(received_at_ms - MAX_CLOCK_SKEW_MS)),
        { t.at_ms < oldest_nonce };
    m.nonces.remove_where(
        old_nonce,
        Ghost(|t: i64| t < discovery::saturated(received_at_ms - MAX_CLOCK_SKEW_MS)),
    );
    if m.nonces.contains(nonce) {
        return Err(ApiError::conflict("The Edge Agent heartbeat was already accepted."));
    }
    let oldest_boot: i64 = discovery::saturating_sub(received_at_ms, SEQUENCE_RETENTION_MS);
    let old_boot = |s: &SeenSequence| -> (b: bool)
        ensures
            b == (s@.1 < discovery::saturated(received_at_ms - SEQUENCE_RETENTION_MS)),
        { s.seen_at_ms < oldest_boot };
    m.sequences.remove_where(
        old_boot,
        Ghost(
            |s: (u64, i64)| s.1 < discovery::saturated(received_at_ms - SEQUENCE_RETENTION_MS),
        ),
    );
    let key = boot_key_of(h);
    match m.sequences.get(key.as_str()) {
        Some(seen) => {
            if h.sequence <= seen.sequence {
                return Err(ApiError::conflict("The Edge Agent heartbeat sequence is stale."));
            }
        },
        None => {
            if m.sequences.len() >= MAX_BOOT_SEQUENCES {
                return Err(
                    ApiError::new(
                        ApiErrorKind::TooManyRequests,
                        "Too many Edge Agent boots are active.",
                    ),
                );
            }
        },
    }
    let deadline: i64 = discovery::saturating_add(received_at_ms, STALE_AFTER_MS);
    let _ = m.nonces.insert(nonce.to_owned(), Instant { at_ms: received_at_ms });
    m.nonces.keep_last(MAX_NONCES);
    let previous_sequence = m.sequences.insert(
        key,
        SeenSequence { sequence: h.sequence, seen_at_ms: received_at_ms },
    );
    let previous_deadline = m.deadlines.insert(
        h.device_id.clone(),
        Instant { at_ms: deadline },
    );
    Ok(Admission { previous_sequence, previous_deadline, deadline })
}

pub open spec fn put_back<W>(m: Map<Seq<char>, W>, k: Seq<char>, value: Option<W>) -> Map<
    Seq<char>,
    W,
> {
    match value {
        Some(w) => m.insert(k, w),
        None => m.remove(k),
    }
}

/// What is remembered once an admitted heartbeat is taken back.
pub open spec fn taken_back(
    m: EdgeHeartbeatRuntimeView,
    h: EdgeHeartbeatView,
    nonce: Seq<char>,
    a: AdmissionView,
) -> EdgeHeartbeatRuntimeView {
    EdgeHeartbeatRuntimeView {
        nonces: m.nonces.remove(nonce),
        sequences: put_back(m.sequences, boot_key(h), a.previous_sequence),
        deadlines: if found(m.deadlines, h.device_id) == Some(a.deadline) {
            put_back(m.deadlines, h.device_id, a.previous_deadline)
        } else {
            m.deadlines
        },
    }
}

/// Takes back an admitted heartbeat that could not be applied.
pub fn withdraw_heartbeat(
    m: &mut EdgeHeartbeatRuntime,
    h: &EdgeHeartbeat,
    nonce: &str,
    a: Admission,
)
    ensures
        final(m)@ == taken_back(old(m)@, h@, nonce@, a@),
{
    let _ = m.nonces.remove(nonce);
    let key = boot_key_of(h);
    match a.previous_sequence {
        Some(seen) => {
            let _ = m.sequences.insert(key, seen);
        },
        None => {
            let _ = m.sequences.remove(key.as_str());
        },
    }
    let current = match m.deadlines.get(h.device_id.as_str()) {
        Some(t) => t.at_ms == a.deadline,
        None => false,
    };
    if current {
        match a.previous_deadline {
            Some(t) => {
                let _ = m.deadlines.insert(h.device_id.clone(), t);
            },
            None => {
                let _ = m.deadlines.remove(h.device_id.as_str());
            },
        }
    }
}

/// Taking back an admitted heartbeat leaves the boots and the deadlines as they were, but for
/// boots that are too old to be remembered, and its nonce forgotten. Where there was room for one
/// more, the other nonces are still remembered, but for those that are too old.
pub proof fn law_withdrawal_undoes_admission(
    m: EdgeHeartbeatRuntimeView,
    h: EdgeHeartbeatView,
    nonce: Seq<char>,
    received_at_ms: i64,
)
    requires
        admitted(m, h, nonce, received_at_ms).1 is Ok,
    ensures
        ({
            let (after, answer) = admitted(m, h, nonce, received_at_ms);
            let back = taken_back(after, h, nonce, answer->Ok_0);
            &&& back.sequences == recent_sequences(m.sequences, received_at_ms)
            &&& back.deadlines == m.deadlines
            &&& !back.nonces.contains_key(nonce)
            &&& m.nonces.dom().finite() && m.nonces.len() < MAX_NONCES ==> back.nonces
                == recent_nonces(m.nonces, received_at_ms)
        }),
{
    let (after, answer) = admitted(m, h, nonce, received_at_ms);
    let back = taken_back(after, h, nonce, answer->Ok_0);
    if m.nonces.dom().finite() && m.nonces.len() < MAX_NONCES {
        let kept = recent_nonces(m.nonces, received_at_ms);
        assert(kept.dom().subset_of(m.nonces.dom()));
        vstd::set_lib::lemma_len_subset(kept.dom(), m.nonces.dom());
        let with = kept.insert(nonce, received_at_ms);
        assert(with.dom() =~= kept.dom().insert(nonce));
        table::lemma_items_exist(with);
        assert(after.nonces =~= with);
        assert(back.nonces =~= kept);
    }
    assert(back.sequences =~= recent_sequences(m.sequences, received_at_ms));
    assert(back.deadlines =~= m.deadlines);
}

/// Once a heartbeat is admitted, none of the same boot with the same or an earlier sequence
/// number is, whatever its nonce, as long as the boot is remembered.
pub proof fn law_sequences_never_repeat(
    m: EdgeHeartbeatRuntimeView,
    first: EdgeHeartbeatView,
    nonce: Seq<char>,
    received_at_ms: i64,
    second: EdgeHeartbeatView,
    other: Seq<char>,
    later_ms: i64,
)
    requires
        admitted(m, first, nonce, received_at_ms).1 is Ok,
        boot_key(first) == boot_key(second),
        second.sequence <= first.sequence,
        later_ms - SEQUENCE_RETENTION_MS <= received_at_ms,
    ensures
        admitted(admitted(m, first, nonce, received_at_ms).0, second, other, later_ms).1 matches Err(
            e,
        ) && e.kind == ApiErrorKind::Conflict,
{
}

/// Once a heartbeat is admitted, no other with its nonce is, as long as the nonce is remembered
/// and its table is not full.
pub proof fn law_nonces_never_repeat(
    m: EdgeHeartbeatRuntimeView,
    first: EdgeHeartbeatView,
    nonce: Seq<char>,
    received_at_ms: i64,
    second: EdgeHeartbeatView,
    later_ms: i64,
)
    requires
        admitted(m, first, nonce, received_at_ms).1 is Ok,
        m.nonces.dom().finite(),
        m.nonces.len() < MAX_NONCES,
        later_ms - MAX_CLOCK_SKEW_MS <= received_at_ms,
    ensures
        admitted(admitted(m, first, nonce, received_at_ms).0, second, nonce, later_ms).1 == Err::<
            AdmissionView,
            ApiErrorView,
        >(api::conflict("The Edge Agent heartbeat was already accepted."@)),
{
    let kept = recent_nonces(m.nonces, received_at_ms);
    assert(kept.dom().subset_of(m.nonces.dom()));
    vstd::set_lib::lemma_len_subset(kept.dom(), m.nonces.dom());
    let with = kept.insert(nonce, received_at_ms);
    assert(with.dom() =~= kept.dom().insert(nonce));
    table::lemma_items_exist(with);
}

/// The memory of boots stays bounded.
pub proof fn law_remembered_boots_stay_bounded(
    m: EdgeHeartbeatRuntimeView,
    h: EdgeHeartbeatView,
    nonce: Seq<char>,
    received_at_ms: i64,
)
    requires
        m.sequences.dom().finite(),
        m.sequences.len() <= MAX_BOOT_SEQUENCES,
    ensures
        admitted(m, h, nonce, received_at_ms).0.sequences.dom().finite(),
        admitted(m, h, nonce, received_at_ms).0.sequences.len() <= MAX_BOOT_SEQUENCES,
{
    let kept = recent_sequences(m.sequences, received_at_ms);
    assert(kept.dom().subset_of(m.sequences.dom()));
    vstd::set_lib::lemma_len_subset(kept.dom(), m.sequences.dom());
    assert(kept.dom().finite());
    assert(kept.insert(boot_key(h), (h.sequence, received_at_ms)).dom() =~= kept.dom().insert(
        boot_key(h),
    ));
}

/// How long a deadline is away.
pub fn delay_until(deadline: i64, now_ms: i64) -> (r: u64)
    ensures
        r == if deadline > now_ms {
            discovery::saturated(deadline - now_ms) as int
        } else {
            0
        },
{
    let d: i64 = discovery::saturating_sub(deadline, now_ms);
    if d > 0 {
        d as u64
    } else {
        0
    }
}

/// Whether a deadline is still the one of its device.
pub fn is_current_deadline(m: &EdgeHeartbeatRuntime, edge_device_id: &str, deadline: i64) -> (r: bool)
    ensures
        r == (found(m@.deadlines, edge_device_id@) == Some(deadline)),
{
    match m.deadlines.get(edge_device_id) {
        Some(t) => t.at_ms == deadline,
        None => false,
    }
}

/// Takes a deadline that has passed, unless a later heartbeat has moved it.
pub fn take_deadline(m: &mut EdgeHeartbeatRuntime, edge_device_id: &str, deadline: i64) -> (r: bool)
    ensures
        r == (found(old(m)@.deadlines, edge_device_id@) == Some(deadline)),
        final(m)@ == if r {
            EdgeHeartbeatRuntimeView {
                deadlines: old(m)@.deadlines.remove(edge_device_id@),
                ..old(m)@
            }
        } else {
            old(m)@
        },
{
    if !is_current_deadline(m, edge_device_id, deadline) {
        return false;
    }
    let _ = m.deadlines.remove(edge_device_id);
    true
}


/// The enrollment of a device with a key.
pub open spec fn enrollment_of(c: CatalogView, edge_device_id: Seq<char>, public_key: Seq<char>) -> Result<
    EdgeEnrollmentView,
    ApiErrorView,
> {
    if c.edge_enrollments.contains_key(edge_device_id)
        && c.edge_enrollments[edge_device_id].public_key == public_key {
        Ok(c.edge_enrollments[edge_device_id])
    } else {
        Err(not_enrolled())
    }
}

pub open spec fn not_enrolled() -> ApiErrorView {
    api::forbidden("The Edge Agent identity is not enrolled."@)
}

/// Finds the enrollment of a device whose key is the enrolled one.
pub fn find_enrollment(c: &Catalog, edge_device_id: &str, public_key: &str) -> (r: Result<
    EdgeEnrollment,
    ApiError,
>)
    ensures
        api::answer_view(r) == enrollment_of(c@, edge_device_id@, public_key@),
{
    match c.edge_enrollments.get(edge_device_id) {
        Some(e) => {
            if text::same(e.public_key.as_str(), public_key) {
                Ok(e.copied())
            } else {
                Err(ApiError::forbidden("The Edge Agent identity is not enrolled."))
            }
        },
        None => Err(ApiError::forbidden("The Edge Agent identity is not enrolled.")),
    }
}

/// The data sources that were approved with an enrollment.
pub open spec fn approved(e: EdgeEnrollmentView) -> Set<Seq<char>> {
    table::texts_where(e.source_ids, |s: Seq<char>| true, |s: Seq<char>| s)
}

fn approved_sources(e: &EdgeEnrollment) -> (r: Vec<String>)
    ensures
        table::views(r@).no_duplicates(),
        table::named(table::views(r@)) == approved(e@),
{
    let pick = |s: &String| -> (o: Option<String>)
        ensures
            o matches Some(t) && t@ == s@,
        { Some(s.copied()) };
    e.source_ids.distinct(pick, Ghost(|s: Seq<char>| true), Ghost(|s: Seq<char>| s))
}


/// The projects that a device is or was assigned to.
pub open spec fn projects_of(c: CatalogView, device_id: Seq<char>) -> Set<Seq<char>> {
    table::texts_where(
        c.device_assignments,
        |a: DeviceAssignmentView| a.device_id == device_id,
        |a: DeviceAssignmentView| a.project_id,
    )
}

/// The catalog once the counts of a device's projects are up to date.
pub open spec fn recounted(c: CatalogView, device_id: Seq<char>) -> CatalogView {
    CatalogView {
        projects: table::changed_at(
            c.projects,
            projects_of(c, device_id),
            |k: Seq<char>, p: ProjectView| catalog::counted_project(c, k),
        ),
        ..c
    }
}

fn projects_of_device(c: &Catalog, device_id: &str) -> (r: Vec<String>)
    ensures
        table::views(r@).no_duplicates(),
        table::named(table::views(r@)) == projects_of(c@, device_id@),
{
    let pick = |a: &DeviceAssignment| -> (o: Option<String>)
        ensures
            match o {
                Some(s) => a@.device_id == device_id@ && s@ == a@.project_id,
                None => a@.device_id != device_id@,
            },
        {
            if text::same(a.device_id.as_str(), device_id) {
                Some(a.project_id.clone())
            } else {
                None
            }
        };
    c.device_assignments.distinct(
        pick,
        Ghost(|a: DeviceAssignmentView| a.device_id == device_id@),
        Ghost(|a: DeviceAssignmentView| a.project_id),
    )
}

/// Brings the counts of a device's projects up to date.
pub fn refresh_device_projects(c: &mut Catalog, device_id: &str)
    ensures
        final(c)@ == recounted(old(c)@, device_id@),
{
    let keys = projects_of_device(c, device_id);
    let ghost start = c@;
    let ghost all = table::views(keys@);
    let ghost f = |k: Seq<char>, p: ProjectView| catalog::counted_project(start, k);
    let mut i: usize = 0;
    proof {
        assert(table::changed_at(start.projects, table::named(all.take(0)), f) =~= start.projects);
    }
    while i < keys.len()
        invariant
            i <= keys@.len(),
            all == table::views(keys@),
            all.no_duplicates(),
            f == (|k: Seq<char>, p: ProjectView| catalog::counted_project(start, k)),
            c@ == (CatalogView {
                projects: table::changed_at(start.projects, table::named(all.take(i as int)), f),
                ..start
            }),
        decreases keys@.len() - i,
    {
        let ghost before = c@;
        let ghost key = all[i as int];
        proof {
            assert(key == keys@[i as int]@);
            table::lemma_named_step(all, i as int);
        }
        c.refresh_project_counts(keys[i].as_str());
        proof {
            assert(catalog::project_assignments(before.device_assignments, key)
                == catalog::project_assignments(start.device_assignments, key));
            assert(catalog::online_assignments(before, key) =~= catalog::online_assignments(
                start,
                key,
            ));
            if before.projects.contains_key(key) {
                assert(before.projects[key] == start.projects[key]);
                assert(catalog::counted_project(before, key) == catalog::counted_project(
                    start,
                    key,
                ));
            }
            assert(c@.projects =~= table::changed_at(
                start.projects,
                table::named(all.take(i + 1)),
                f,
            ));
            assert(c@ =~= CatalogView { projects: c@.projects, ..start });
        }
        i = i + 1;
    }
    proof {
        assert(all.take(all.len() as int) =~= all);
    }
}

/// The health that an agent's word for it means.
pub open spec fn health_of(agent_health: Seq<char>) -> Seq<char> {
    if agent_health == "healthy"@ {
        "normal"@
    } else if agent_health == "degraded"@ {
        "attention"@
    } else {
        "unknown"@
    }
}

/// An integration whose agent was heard of.
pub open spec fn heard_integration(i: IntegrationView, trusted: bool, now: Seq<char>) -> IntegrationView {
    IntegrationView {
        last_health_at: now,
        status: if trusted {
            "connected"@
        } else {
            "testing"@
        },
        resource_version: catalog::next_version(i.resource_version),
        ..i
    }
}

/// A device whose agent was heard of. Its state version grows where its state changes.
pub open spec fn heard_device(d: DeviceView, health: Seq<char>, now: Seq<char>) -> DeviceView {
    DeviceView {
        status: "online"@,
        health,
        last_seen_at: now,
        state_version: if d.status != "online"@ || d.health != health {
            catalog::next_version(d.state_version)
        } else {
            d.state_version
        },
        ..d
    }
}

/// The catalog once an enrolled agent was heard of.
pub open spec fn with_agent(
    c: CatalogView,
    e: EdgeEnrollmentView,
    agent_health: Seq<char>,
    now: Seq<char>,
) -> CatalogView {
    CatalogView {
        integrations: c.integrations.insert(
            e.integration_id,
            heard_integration(c.integrations[e.integration_id], e.organization_trusted, now),
        ),
        devices: c.devices.insert(
            e.device_id,
            heard_device(c.devices[e.device_id], health_of(agent_health), now),
        ),
        ..c
    }
}

fn hear_agent(c: &mut Catalog, e: &EdgeEnrollment, agent_health: &str, now: &str)
    requires
        old(c)@.integrations.contains_key(e@.integration_id),
        old(c)@.devices.contains_key(e@.device_id),
    ensures
        final(c)@ == with_agent(old(c)@, e@, agent_health@, now@),
{
    let ghost start = c@;
    match c.integrations.remove(e.integration_id.as_str()) {
        Some(mut i) => {
            i.last_health_at = now.to_owned();
            i.status = if e.organization_trusted {
                "connected".to_owned()
            } else {
                "testing".to_owned()
            };
            i.resource_version = catalog::version_after(i.resource_version);
            let _ = c.integrations.insert(e.integration_id.clone(), i);
        },
        None => {},
    }
    let health = if text::same(agent_health, "healthy") {
        "normal"
    } else if text::same(agent_health, "degraded") {
        "attention"
    } else {
        "unknown"
    };
    match c.devices.remove(e.device_id.as_str()) {
        Some(mut d) => {
            let changed = !text::same(d.status.as_str(), "online") || !text::same(
                d.health.as_str(),
                health,
            );
            d.status = "online".to_owned();
            d.health = health.to_owned();
            d.last_seen_at = now.to_owned();
            if changed {
                d.state_version = catalog::version_after(d.state_version);
            }
            let _ = c.devices.insert(e.device_id.clone(), d);
        },
        None => {},
    }
    proof {
        assert(c@.integrations =~= with_agent(start, e@, agent_health@, now@).integrations);
        assert(c@.devices =~= with_agent(start, e@, agent_health@, now@).devices);
    }
}

pub open spec fn pending(s: DataSourceView) -> DataSourceView {
    DataSourceView { status: "pending"@, ..s }
}

/// The catalog in which nothing is known of the approved sources any more.
pub open spec fn unheard(c: CatalogView, e: EdgeEnrollmentView) -> CatalogView {
    CatalogView {
        data_sources: table::changed_at(
            c.data_sources,
            approved(e),
            |k: Seq<char>, s: DataSourceView| pending(s),
        ),
        topics_by_data_source: table::changed_at(
            c.topics_by_data_source,
            approved(e),
            |k: Seq<char>, t: Seq<TopicView>| edge_topics::staled(t),
        ),
        ..c
    }
}

fn forget_sources(c: &mut Catalog, e: &EdgeEnrollment)
    ensures
        final(c)@ == unheard(old(c)@, e@),
{
    let keys = approved_sources(e);
    let to_pending = |_k: &String, s: DataSource| -> (r: DataSource)
        ensures
            r@ == pending(s@),
        {
            let mut r = s;
            r.status = "pending".to_owned();
            r
        };
    c.data_sources.change_at(
        &keys,
        to_pending,
        Ghost(|k: Seq<char>, s: DataSourceView| pending(s)),
    );
    let to_stale = |_k: &String, t: TopicList| -> (r: TopicList)
        ensures
            r@ == edge_topics::staled(t@),
        { TopicList { topics: edge_topics::stale_topics(t.topics) } };
    c.topics_by_data_source.change_at(
        &keys,
        to_stale,
        Ghost(|k: Seq<char>, t: Seq<TopicView>| edge_topics::staled(t)),
    );
}

/// The source that was approved for the adapters of a kind as a whole.
pub open spec fn graph_source(kind: Seq<char>) -> Seq<char> {
    if kind == "ros2_dds"@ {
        "ros2-graph"@
    } else {
        "mavlink-telemetry"@
    }
}

/// The data source that a reported source is bound to: its own, or that of its kind.
pub open spec fn binding(e: EdgeEnrollmentView, source: Seq<char>, kind: Seq<char>) -> Option<Seq<char>> {
    if e.source_ids.contains_key(source) {
        Some(e.source_ids[source])
    } else {
        found(e.source_ids, graph_source(kind))
    }
}

fn binding_of(e: &EdgeEnrollment, source: &str, kind: &str) -> (r: Option<String>)
    ensures
        table::view_option(r) == binding(e@, source@, kind@),
{
    match e.source_ids.get(source) {
        Some(s) => Some(s.clone()),
        None => {
            let graph = if text::same(kind, "ros2_dds") {
                "ros2-graph"
            } else {
                "mavlink-telemetry"
            };
            match e.source_ids.get(graph) {
                Some(s) => Some(s.clone()),
                None => None,
            }
        },
    }
}

/// The topics of a report from `i` on, by path, with those that are known already.
pub open spec fn fresh_topics(
    source_id: Seq<char>,
    device_id: Seq<char>,
    topics: Seq<EdgeTopicView>,
    now: Seq<char>,
    i: int,
    known: Map<Seq<char>, TopicView>,
) -> Result<Map<Seq<char>, TopicView>, ApiErrorView>
    decreases topics.len() - i,
{
    if i < 0 || i >= topics.len() {
        Ok(known)
    } else {
        let next = known.insert(
            topics[i].path,
            edge_topics::materialized(source_id, device_id, topics[i], now),
        );
        if next.len() > MAX_TOPICS {
            Err(api::bad_request("The Edge Agent source topic inventory is too large."@))
        } else {
            fresh_topics(source_id, device_id, topics, now, i + 1, next)
        }
    }
}

fn collect_topics(
    source_id: &str,
    device_id: &str,
    topics: &Vec<EdgeTopic>,
    now: &str,
    known: Table<Topic>,
) -> (r: Result<Table<Topic>, ApiError>)
    ensures
        api::answer_view(r) == fresh_topics(
            source_id@,
            device_id@,
            table::views(topics@),
            now@,
            0,
            known@,
        ),
{
    let ghost all = table::views(topics@);
    let ghost start = known@;
    let mut list = known;
    let mut i: usize = 0;
    while i < topics.len()
        invariant
            i <= topics@.len(),
            all == table::views(topics@),
            start == known@,
            fresh_topics(source_id@, device_id@, all, now@, 0, start) == fresh_topics(
                source_id@,
                device_id@,
                all,
                now@,
                i as int,
                list@,
            ),
        decreases topics@.len() - i,
    {
        assert(all[i as int] == topics@[i as int]@);
        let t = edge_topics::materialize_topic(source_id, device_id, &topics[i], now);
        let _ = list.insert(topics[i].path.clone(), t);
        if list.len() > MAX_TOPICS {
            return Err(
                ApiError::bad_request("The Edge Agent source topic inventory is too large."),
            );
        }
        i = i + 1;
    }
    Ok(list)
}

/// The topics of the reported sources, by data source.
pub type FreshTopics = Map<Seq<char>, Map<Seq<char>, TopicView>>;

pub open spec fn bad_binding() -> ApiErrorView {
    api::forbidden("The Edge Agent source binding is invalid."@)
}

/// Whether a data source is the one that an enrollment was approved for.
pub open spec fn binding_holds(
    c: CatalogView,
    e: EdgeEnrollmentView,
    id: Seq<char>,
    kind: Seq<char>,
) -> bool {
    c.data_sources.contains_key(id) && c.data_sources[id].device_id == e.device_id
        && c.data_sources[id].integration_id == e.integration_id && c.data_sources[id].protocol
        == heartbeat::protocol_of(kind)
}

/// The fresh topics with those of one more reported source.
pub open spec fn fresh_source(
    c: CatalogView,
    e: EdgeEnrollmentView,
    kind: Seq<char>,
    s: EdgeSourceView,
    now: Seq<char>,
    known: FreshTopics,
) -> Result<FreshTopics, ApiErrorView> {
    if s.protocol != heartbeat::protocol_of(kind) {
        Err(api::forbidden("The Edge Agent source protocol binding is invalid."@))
    } else {
        match binding(e, s.id, kind) {
            None => Ok(known),
            Some(id) => if !binding_holds(c, e, id, kind) {
                Err(bad_binding())
            } else {
                match fresh_topics(
                    id,
                    e.device_id,
                    s.topics,
                    now,
                    0,
                    if known.contains_key(id) {
                        known[id]
                    } else {
                        Map::empty()
                    },
                ) {
                    Ok(list) => Ok(known.insert(id, list)),
                    Err(x) => Err(x),
                }
            },
        }
    }
}

fn collect_source(
    c: &Catalog,
    e: &EdgeEnrollment,
    kind: &str,
    s: &EdgeSource,
    now: &str,
    known: Table<Table<Topic>>,
) -> (r: Result<Table<Table<Topic>>, ApiError>)
    ensures
        api::answer_view(r) == fresh_source(c@, e@, kind@, s@, now@, known@),
{
    let protocol = if text::same(kind, "ros2_dds") {
        "ros2"
    } else {
        "mavlink"
    };
    if !text::same(s.protocol.as_str(), protocol) {
        return Err(
            ApiError::forbidden("The Edge Agent source protocol binding is invalid."),
        );
    }
    let id = match binding_of(e, s.id.as_str(), kind) {
        Some(id) => id,
        None => {
            return Ok(known);
        },
    };
    let holds = match c.data_sources.get(id.as_str()) {
        Some(d) => text::same(d.device_id.as_str(), e.device_id.as_str()) && text::same(
            d.integration_id.as_str(),
            e.integration_id.as_str(),
        ) && text::same(d.protocol.as_str(), protocol),
        None => false,
    };
    if !holds {
        return Err(ApiError::forbidden("The Edge Agent source binding is invalid."));
    }
    let mut lists = known;
    let ghost start = lists@;
    let list = match lists.remove(id.as_str()) {
        Some(list) => list,
        None => Table::new(),
    };
    match collect_topics(id.as_str(), e.device_id.as_str(), &s.topics, now, list) {
        Ok(list) => {
            let ghost whole = start.insert(id@, list@);
            let _ = lists.insert(id, list);
            assert(lists@ =~= whole);
            Ok(lists)
        },
        Err(x) => Err(x),
    }
}

/// The fresh topics with those of the sources from `i` on.
pub open spec fn fresh_sources(
    c: CatalogView,
    e: EdgeEnrollmentView,
    kind: Seq<char>,
    sources: Seq<EdgeSourceView>,
    now: Seq<char>,
    i: int,
    known: FreshTopics,
) -> Result<FreshTopics, ApiErrorView>
    decreases sources.len() - i,
{
    if i < 0 || i >= sources.len() {
        Ok(known)
    } else {
        match fresh_source(c, e, kind, sources[i], now, known) {
            Ok(next) => fresh_sources(c, e, kind, sources, now, i + 1, next),
            Err(x) => Err(x),
        }
    }
}

fn collect_sources(
    c: &Catalog,
    e: &EdgeEnrollment,
    kind: &str,
    sources: &Vec<EdgeSource>,
    now: &str,
    known: Table<Table<Topic>>,
) -> (r: Result<Table<Table<Topic>>, ApiError>)
    ensures
        api::answer_view(r) == fresh_sources(
            c@,
            e@,
            kind@,
            table::views(sources@),
            now@,
            0,
            known@,
        ),
{
    let ghost all = table::views(sources@);
    let ghost start = known@;
    let mut lists = known;
    let mut i: usize = 0;
    while i < sources.len()
        invariant
            i <= sources@.len(),
            all == table::views(sources@),
            start == known@,
            fresh_sources(c@, e@, kind@, all, now@, 0, start) == fresh_sources(
                c@,
                e@,
                kind@,
                all,
                now@,
                i as int,
                lists@,
            ),
        decreases sources@.len() - i,
    {
        assert(all[i as int] == sources@[i as int]@);
        match collect_source(c, e, kind, &sources[i], now, lists) {
            Ok(next) => {
                lists = next;
            },
            Err(x) => {
                return Err(x);
            },
        }
        i = i + 1;
    }
    Ok(lists)
}

/// The fresh topics with those of the observations from `i` on; what has expired does not count.
pub open spec fn fresh_observations(
    c: CatalogView,
    e: EdgeEnrollmentView,
    kind: Seq<char>,
    observations: Seq<EdgeObservationView>,
    received_at_ms: i64,
    i: int,
    known: FreshTopics,
) -> Result<FreshTopics, ApiErrorView>
    decreases observations.len() - i,
{
    if i < 0 || i >= observations.len() {
        Ok(known)
    } else if observations[i].expires_at_ms <= received_at_ms {
        fresh_observations(c, e, kind, observations, received_at_ms, i + 1, known)
    } else {
        match fresh_sources(
            c,
            e,
            kind,
            observations[i].sources,
            time::iso(received_at_ms),
            0,
            known,
        ) {
            Ok(next) => fresh_observations(c, e, kind, observations, received_at_ms, i + 1, next),
            Err(x) => Err(x),
        }
    }
}

fn collect_observations(
    c: &Catalog,
    e: &EdgeEnrollment,
    kind: &str,
    observations: &Vec<EdgeObservation>,
    received_at_ms: i64,
    now: &str,
    known: Table<Table<Topic>>,
) -> (r: Result<Table<Table<Topic>>, ApiError>)
    requires
        now@ == time::iso(received_at_ms),
    ensures
        api::answer_view(r) == fresh_observations(
            c@,
            e@,
            kind@,
            table::views(observations@),
            received_at_ms,
            0,
            known@,
        ),
{
    let ghost all = table::views(observations@);
    let ghost start = known@;
    let mut lists = known;
    let mut i: usize = 0;
    while i < observations.len()
        invariant
            i <= observations@.len(),
            all == table::views(observations@),
            start == known@,
            now@ == time::iso(received_at_ms),
            fresh_observations(c@, e@, kind@, all, received_at_ms, 0, start) == fresh_observations(
                c@,
                e@,
                kind@,
                all,
                received_at_ms,
                i as int,
                lists@,
            ),
        decreases observations@.len() - i,
    {
        assert(all[i as int] == observations@[i as int]@);
        if observations[i].expires_at_ms > received_at_ms {
            match collect_sources(c, e, kind, &observations[i].sources, now, lists) {
                Ok(next) => {
                    lists = next;
                },
                Err(x) => {
                    return Err(x);
                },
            }
        }
        i = i + 1;
    }
    Ok(lists)
}

/// Whether what an adapter reports counts.
pub open spec fn adapter_counts(agent_health: Seq<char>, a: EdgeAdapterHeartbeatView) -> bool {
    agent_health != "stale"@ && heartbeat::is_active(a.state) && (a.kind == "ros2_dds"@ || a.kind
        == "mavlink"@)
}

/// The fresh topics with those of the adapters from `i` on.
pub open spec fn fresh_adapters(
    c: CatalogView,
    e: EdgeEnrollmentView,
    h: EdgeHeartbeatView,
    received_at_ms: i64,
    i: int,
    known: FreshTopics,
) -> Result<FreshTopics, ApiErrorView>
    decreases h.adapters.len() - i,
{
    if i < 0 || i >= h.adapters.len() {
        Ok(known)
    } else if !adapter_counts(h.agent_health, h.adapters[i]) {
        fresh_adapters(c, e, h, received_at_ms, i + 1, known)
    } else {
        match fresh_observations(
            c,
            e,
            h.adapters[i].kind,
            h.adapters[i].observations,
            received_at_ms,
            0,
            known,
        ) {
            Ok(next) => fresh_adapters(c, e, h, received_at_ms, i + 1, next),
            Err(x) => Err(x),
        }
    }
}

fn collect_adapters(c: &Catalog, e: &EdgeEnrollment, h: &EdgeHeartbeat, received_at_ms: i64, now: &str) -> (r:
    Result<Table<Table<Topic>>, ApiError>)
    requires
        now@ == time::iso(received_at_ms),
    ensures
        api::answer_view(r) == fresh_adapters(c@, e@, h@, received_at_ms, 0, Map::empty()),
{
    let ghost all = table::views(h.adapters@);
    let mut lists: Table<Table<Topic>> = Table::new();
    let stale = text::same(h.agent_health.as_str(), "stale");
    let mut i: usize = 0;
    while i < h.adapters.len()
        invariant
            i <= h.adapters@.len(),
            all == table::views(h.adapters@),
            all == h@.adapters,
            stale == (h@.agent_health == "stale"@),
            now@ == time::iso(received_at_ms),
            fresh_adapters(c@, e@, h@, received_at_ms, 0, Map::empty()) == fresh_adapters(
                c@,
                e@,
                h@,
                received_at_ms,
                i as int,
                lists@,
            ),
        decreases h.adapters@.len() - i,
    {
        let a: &EdgeAdapterHeartbeat = &h.adapters[i];
        assert(all[i as int] == a@);
        if !stale && heartbeat::active_state(a.state.as_str()) && (text::same(
            a.kind.as_str(),
            "ros2_dds",
        ) || text::same(a.kind.as_str(), "mavlink")) {
            match collect_observations(
                c,
                e,
                a.kind.as_str(),
                &a.observations,
                received_at_ms,
                now,
                lists,
            ) {
                Ok(next) => {
                    lists = next;
                },
                Err(x) => {
                    return Err(x);
                },
            }
        }
        i = i + 1;
    }
    Ok(lists)
}

pub open spec fn listed_topics(m: Map<Seq<char>, Seq<TopicView>>, id: Seq<char>) -> Seq<TopicView> {
    if m.contains_key(id) {
        m[id]
    } else {
        Seq::empty()
    }
}

/// The topics of every source with the fresh ones of the items from `i` on.
pub open spec fn refreshed_topics(
    m: Map<Seq<char>, Seq<TopicView>>,
    items: Seq<(Seq<char>, Map<Seq<char>, TopicView>)>,
    i: int,
) -> Map<Seq<char>, Seq<TopicView>>
    decreases items.len() - i,
{
    if i < 0 || i >= items.len() {
        m
    } else {
        refreshed_topics(
            m.insert(
                items[i].0,
                edge_topics::merged(
                    listed_topics(m, items[i].0),
                    table::items_of(items[i].1),
                    0,
                ),
            ),
            items,
            i + 1,
        )
    }
}

/// A data source that was reported now. A report proves no live stream.
pub open spec fn reported(s: DataSourceView, now: Seq<char>) -> DataSourceView {
    DataSourceView { status: "pending"@, last_data_at: now, ..s }
}

/// The catalog with the fresh topics of a report.
pub open spec fn with_report(c: CatalogView, fresh: FreshTopics, now: Seq<char>) -> CatalogView {
    CatalogView {
        data_sources: table::changed_at(
            c.data_sources,
            fresh.dom(),
            |k: Seq<char>, s: DataSourceView| reported(s, now),
        ),
        topics_by_data_source: refreshed_topics(
            c.topics_by_data_source,
            table::items_of(fresh),
            0,
        ),
        ..c
    }
}

fn merge_report(c: &mut Catalog, fresh: &Table<Table<Topic>>, now: &str)
    ensures
        final(c)@ == with_report(old(c)@, fresh@, now@),
{
    let ghost start = c@;
    let n: usize = fresh.len();
    let ghost items = fresh.items();
    let mut keys: Vec<String> = Vec::new();
    let mut i: usize = 0;
    proof {
        assert(table::views(keys@) =~= Seq::<Seq<char>>::empty());
    }
    while i < n
        invariant
            i <= n,
            n == items.len(),
            items == fresh.items(),
            items == table::items_of(fresh@),
            table::keys_ascend(items),
            keys@.len() == i,
            forall|j: int| 0 <= j < i ==> (#[trigger] keys@[j])@ == items[j].0,
            c@ == (CatalogView { topics_by_data_source: c@.topics_by_data_source, ..start }),
            refreshed_topics(start.topics_by_data_source, items, 0) == refreshed_topics(
                c@.topics_by_data_source,
                items,
                i as int,
            ),
        decreases n - i,
    {
        let key = fresh.key_at(i);
        let list = fresh.value_at(i);
        let ghost before = c@.topics_by_data_source;
        let mut topics: Vec<Topic> = match c.topics_by_data_source.remove(key.as_str()) {
            Some(l) => l.topics,
            None => Vec::new(),
        };
        proof {
            assert(table::views(topics@) =~= listed_topics(before, key@));
        }
        edge_topics::merge_topics(&mut topics, list);
        let ghost whole = table::views(topics@);
        let _ = c.topics_by_data_source.insert(key.clone(), TopicList { topics });
        proof {
            assert(c@.topics_by_data_source =~= before.insert(key@, whole));
        }
        keys.push(key.clone());
        i = i + 1;
    }
    let to_reported = |_k: &String, s: DataSource| -> (r: DataSource)
        ensures
            r@ == reported(s@, now@),
        {
            let mut r = s;
            r.status = "pending".to_owned();
            r.last_data_at = now.to_owned();
            r
        };
    proof {
        let all = table::views(keys@);
        table::lemma_items_all(items);
        assert(all.no_duplicates()) by {
            assert forall|a: int, b: int| 0 <= a < all.len() && 0 <= b < all.len() && a != b implies all[a]
                != all[b] by {
                text::lemma_less_irreflexive(items[a].0);
                assert(keys@[a]@ == items[a].0 && keys@[b]@ == items[b].0);
                if a < b {
                    assert(text::less(items[a].0, items[b].0));
                } else {
                    assert(text::less(items[b].0, items[a].0));
                }
            }
        }
        assert(table::named(all) =~= fresh@.dom()) by {
            assert forall|k: Seq<char>| all.contains(k) implies fresh@.contains_key(k) by {
                let j = choose|j: int| 0 <= j < all.len() && all[j] == k;
                assert(keys@[j]@ == items[j].0);
            }
            assert forall|k: Seq<char>| fresh@.contains_key(k) implies all.contains(k) by {
                let j = table::key_index(items, k);
                assert(keys@[j]@ == items[j].0);
                assert(all[j] == k);
            }
        }
    }
    c.data_sources.change_at(
        &keys,
        to_reported,
        Ghost(|k: Seq<char>, s: DataSourceView| reported(s, now@)),
    );
}


/// A data source with the identifiers of its topics. Its mapping grows where their schema differs.
pub open spec fn remapped(s: DataSourceView, before: Seq<TopicView>, after: Seq<TopicView>) -> DataSourceView {
    DataSourceView {
        topic_ids: imports::topic_ids(after),
        mapping_version: if edge_topics::schema_of(before) != edge_topics::schema_of(after) {
            catalog::next_version(s.mapping_version)
        } else {
            s.mapping_version
        },
        ..s
    }
}

/// The catalog once the approved sources keep their topics.
pub open spec fn settled(
    c: CatalogView,
    before: Map<Seq<char>, Seq<TopicView>>,
    e: EdgeEnrollmentView,
) -> CatalogView {
    let after = table::changed_at(
        c.topics_by_data_source,
        approved(e),
        |k: Seq<char>, t: Seq<TopicView>| edge_topics::retained(t),
    );
    CatalogView {
        topics_by_data_source: after,
        data_sources: table::changed_at(
            c.data_sources,
            approved(e),
            |k: Seq<char>, s: DataSourceView|
                remapped(s, listed_topics(before, k), listed_topics(after, k)),
        ),
        ..c
    }
}

fn settle_sources(c: &mut Catalog, before: &Table<TopicList>, e: &EdgeEnrollment)
    ensures
        final(c)@ == settled(old(c)@, before@, e@),
{
    let ghost start = c@;
    let keys = approved_sources(e);
    let ghost all = table::views(keys@);
    let to_retained = |_k: &String, t: TopicList| -> (r: TopicList)
        ensures
            r@ == edge_topics::retained(t@),
        {
            let mut topics = t.topics;
            edge_topics::prune_retained_topics(&mut topics);
            TopicList { topics }
        };
    c.topics_by_data_source.change_at(
        &keys,
        to_retained,
        Ghost(|k: Seq<char>, t: Seq<TopicView>| edge_topics::retained(t)),
    );
    let ghost after = c@.topics_by_data_source;
    let ghost f = |k: Seq<char>, s: DataSourceView|
        remapped(s, listed_topics(before@, k), listed_topics(after, k));
    let none: Vec<Topic> = Vec::new();
    let mut i: usize = 0;
    proof {
        assert(table::views(none@) =~= Seq::<TopicView>::empty());
        assert(table::changed_at(start.data_sources, table::named(all.take(0)), f)
            =~= start.data_sources);
    }
    while i < keys.len()
        invariant
            i <= keys@.len(),
            all == table::views(keys@),
            all.no_duplicates(),
            table::views(none@) == Seq::<TopicView>::empty(),
            f == (|k: Seq<char>, s: DataSourceView|
                remapped(s, listed_topics(before@, k), listed_topics(after, k))),
            c@ == (CatalogView {
                topics_by_data_source: after,
                data_sources: table::changed_at(
                    start.data_sources,
                    table::named(all.take(i as int)),
                    f,
                ),
                ..start
            }),
        decreases keys@.len() - i,
    {
        let key = keys[i].as_str();
        proof {
            assert(all[i as int] == key@);
            table::lemma_named_step(all, i as int);
        }
        match c.data_sources.remove(key) {
            Some(mut s) => {
                let old_topics: &Vec<Topic> = match before.get(key) {
                    Some(l) => &l.topics,
                    None => &none,
                };
                let new_topics: &Vec<Topic> = match c.topics_by_data_source.get(key) {
                    Some(l) => &l.topics,
                    None => &none,
                };
                let changed = !edge_topics::same_schema(old_topics, new_topics);
                s.topic_ids = imports::ids_of(new_topics);
                if changed {
                    s.mapping_version = catalog::version_after(s.mapping_version);
                }
                let _ = c.data_sources.insert(keys[i].clone(), s);
            },
            None => {},
        }
        proof {
            assert(c@.data_sources =~= table::changed_at(
                start.data_sources,
                table::named(all.take(i + 1)),
                f,
            ));
        }
        i = i + 1;
    }
    proof {
        assert(all.take(all.len() as int) =~= all);
    }
}

/// The catalog after a heartbeat of an enrolled agent, or why it cannot be applied.
pub open spec fn applied(
    c: CatalogView,
    e: EdgeEnrollmentView,
    h: EdgeHeartbeatView,
    received_at_ms: i64,
) -> Result<CatalogView, ApiErrorView> {
    let now = time::iso(received_at_ms);
    if !c.integrations.contains_key(e.integration_id) || !c.devices.contains_key(e.device_id) {
        Err(not_enrolled())
    } else {
        match fresh_adapters(c, e, h, received_at_ms, 0, Map::empty()) {
            Err(x) => Err(x),
            Ok(fresh) => {
                let heard = unheard(with_agent(c, e, h.agent_health, now), e);
                let kept = settled(
                    with_report(heard, fresh, now),
                    c.topics_by_data_source,
                    e,
                );
                Ok(catalog::bumped(recounted(kept, e.device_id)))
            },
        }
    }
}

/// Applies a heartbeat to the catalog, as a whole or not at all.
pub fn apply_heartbeat_to_catalog(
    c: &mut Catalog,
    e: &EdgeEnrollment,
    h: &EdgeHeartbeat,
    received_at_ms: i64,
) -> (r: Result<(), ApiError>)
    ensures
        match applied(old(c)@, e@, h@, received_at_ms) {
            Ok(after) => r is Ok && final(c)@ == after,
            Err(x) => r matches Err(y) && y@ == x && final(c)@ == old(c)@,
        },
{
    if !c.integrations.contains(e.integration_id.as_str()) || !c.devices.contains(
        e.device_id.as_str(),
    ) {
        return Err(ApiError::forbidden("The Edge Agent identity is not enrolled."));
    }
    let now = time::iso_from_millis(received_at_ms);
    let fresh = match collect_adapters(c, e, h, received_at_ms, now.as_str()) {
        Ok(fresh) => fresh,
        Err(x) => {
            return Err(x);
        },
    };
    let before = c.topics_by_data_source.copied();
    hear_agent(c, e, h.agent_health.as_str(), now.as_str());
    forget_sources(c, e);
    merge_report(c, &fresh, now.as_str());
    settle_sources(c, &before, e);
    refresh_device_projects(c, e.device_id.as_str());
    let _ = c.bump_version();
    Ok(())
}

/// The enrollment that a heartbeat was applied for, and the catalog after it.
pub open spec fn heartbeat_applied(
    c: CatalogView,
    edge_device_id: Seq<char>,
    public_key: Seq<char>,
    h: EdgeHeartbeatView,
    received_at_ms: i64,
) -> Result<(EdgeEnrollmentView, CatalogView), ApiErrorView> {
    match enrollment_of(c, edge_device_id, public_key) {
        Err(x) => Err(x),
        Ok(e) => match applied(c, e, h, received_at_ms) {
            Err(x) => Err(x),
            Ok(after) => Ok((e, after)),
        },
    }
}

/// Applies a heartbeat of a device whose enrollment still stands, and gives that enrollment.
pub fn apply_heartbeat(
    c: &mut Catalog,
    edge_device_id: &str,
    public_key: &str,
    h: &EdgeHeartbeat,
    received_at_ms: i64,
) -> (r: Result<EdgeEnrollment, ApiError>)
    ensures
        match heartbeat_applied(old(c)@, edge_device_id@, public_key@, h@, received_at_ms) {
            Ok((e, after)) => r matches Ok(x) && x@ == e && final(c)@ == after,
            Err(x) => r matches Err(y) && y@ == x && final(c)@ == old(c)@,
        },
{
    let e = match find_enrollment(c, edge_device_id, public_key) {
        Ok(e) => e,
        Err(x) => {
            return Err(x);
        },
    };
    match apply_heartbeat_to_catalog(c, &e, h, received_at_ms) {
        Ok(()) => Ok(e),
        Err(x) => Err(x),
    }
}

/// A heartbeat opens no session, grants no lease, answers no command and makes no source live.
pub proof fn law_heartbeats_create_no_control_state(
    c: CatalogView,
    e: EdgeEnrollmentView,
    h: EdgeHeartbeatView,
    received_at_ms: i64,
    source: Seq<char>,
)
    requires
        applied(c, e, h, received_at_ms) is Ok,
    ensures
        ({
            let after = applied(c, e, h, received_at_ms)->Ok_0;
            &&& after.live_sessions == c.live_sessions
            &&& after.replay_sessions == c.replay_sessions
            &&& after.leases == c.leases
            &&& after.lease_epochs == c.lease_epochs
            &&& after.command_receipts == c.command_receipts
            &&& after.edge_enrollments == c.edge_enrollments
            &&& after.data_sources.dom() == c.data_sources.dom()
            &&& approved(e).contains(source) && c.data_sources.contains_key(source)
                ==> after.data_sources[source].status == "pending"@
        }),
{
    let after = applied(c, e, h, received_at_ms)->Ok_0;
    assert(after.data_sources.dom() =~= c.data_sources.dom());
}

/// A heartbeat leaves an approved source with a bounded number of topics, and its mapping grows
/// exactly if their schema is another than before.
pub proof fn law_mappings_grow_with_their_schema(
    c: CatalogView,
    e: EdgeEnrollmentView,
    h: EdgeHeartbeatView,
    received_at_ms: i64,
    source: Seq<char>,
)
    requires
        applied(c, e, h, received_at_ms) is Ok,
        approved(e).contains(source),
        c.data_sources.contains_key(source),
    ensures
        ({
            let after = applied(c, e, h, received_at_ms)->Ok_0;
            let topics = listed_topics(after.topics_by_data_source, source);
            let old_topics = listed_topics(c.topics_by_data_source, source);
            &&& topics.len() <= edge_topics::MAX_RETAINED_TOPICS_PER_SOURCE
            &&& after.data_sources[source].topic_ids == imports::topic_ids(topics)
            &&& after.data_sources[source].mapping_version == if edge_topics::schema_of(old_topics)
                == edge_topics::schema_of(topics) {
                c.data_sources[source].mapping_version
            } else {
                catalog::next_version(c.data_sources[source].mapping_version)
            }
        }),
{
    let now = time::iso(received_at_ms);
    let fresh = fresh_adapters(c, e, h, received_at_ms, 0, Map::empty())->Ok_0;
    let heard = with_report(unheard(with_agent(c, e, h.agent_health, now), e), fresh, now);
    let kept = settled(heard, c.topics_by_data_source, e);
    assert(applied(c, e, h, received_at_ms)->Ok_0.topics_by_data_source
        == kept.topics_by_data_source);
    if heard.topics_by_data_source.contains_key(source) {
        edge_topics::law_retained_topics_are_bounded_and_distinct(
            heard.topics_by_data_source[source],
        );
    }
}

/// A device that is out of reach.
pub open spec fn offline(d: DeviceView) -> DeviceView {
    DeviceView {
        status: "offline"@,
        health: "unknown"@,
        state_version: catalog::next_version(d.state_version),
        ..d
    }
}

pub open spec fn is_offline(d: DeviceView) -> bool {
    d.status == "offline"@ && d.health == "unknown"@
}

/// An integration that is out of reach.
pub open spec fn disconnected(i: IntegrationView) -> IntegrationView {
    IntegrationView {
        status: "disconnected"@,
        resource_version: catalog::next_version(i.resource_version),
        ..i
    }
}

/// The catalog in which an agent is out of reach: its device and integration are, its sources are
/// unheard of, and nobody holds a lease on the device.
pub open spec fn out_of_reach(c: CatalogView, e: EdgeEnrollmentView) -> CatalogView {
    let unheard_of = unheard(c, e);
    CatalogView {
        devices: if c.devices.contains_key(e.device_id) && !is_offline(c.devices[e.device_id]) {
            c.devices.insert(e.device_id, offline(c.devices[e.device_id]))
        } else {
            c.devices
        },
        integrations: if c.integrations.contains_key(e.integration_id)
            && c.integrations[e.integration_id].status != "disconnected"@ {
            c.integrations.insert(
                e.integration_id,
                disconnected(c.integrations[e.integration_id]),
            )
        } else {
            c.integrations
        },
        leases: table::without(c.leases, |l: ControlLeaseView| l.device_id == e.device_id),
        ..unheard_of
    }
}

/// The catalog once an agent counts as gone.
pub open spec fn gone(c: CatalogView, e: EdgeEnrollmentView) -> CatalogView {
    recounted(out_of_reach(c, e), e.device_id)
}

pub open spec fn any_stale_source(c: CatalogView, e: EdgeEnrollmentView) -> bool {
    exists|k: Seq<char>| #[trigger]
        approved(e).contains(k) && c.data_sources.contains_key(k) && c.data_sources[k].status
            != "pending"@
}

pub open spec fn all_stale(topics: Seq<TopicView>) -> bool {
    forall|i: int| 0 <= i < topics.len() ==> (#[trigger] topics[i]).quality == "stale"@
}

pub open spec fn any_live_topic(c: CatalogView, e: EdgeEnrollmentView) -> bool {
    exists|k: Seq<char>| #[trigger]
        approved(e).contains(k) && c.topics_by_data_source.contains_key(k) && !all_stale(
            c.topics_by_data_source[k],
        )
}

pub open spec fn any_count_change(c: CatalogView, e: EdgeEnrollmentView) -> bool {
    let after = out_of_reach(c, e);
    exists|k: Seq<char>| #[trigger]
        projects_of(c, e.device_id).contains(k) && c.projects.contains_key(k)
            && catalog::counted_project(after, k).online_device_count
            != c.projects[k].online_device_count
}

/// Whether an agent that counts as gone changes anything that is shown.
pub open spec fn gone_changes(c: CatalogView, e: EdgeEnrollmentView) -> bool {
    (c.devices.contains_key(e.device_id) && !is_offline(c.devices[e.device_id])) || (
    c.integrations.contains_key(e.integration_id) && c.integrations[e.integration_id].status
        != "disconnected"@) || any_stale_source(c, e) || any_live_topic(c, e) || table::any_value(
        c.leases,
        |l: ControlLeaseView| l.device_id == e.device_id,
    ) || any_count_change(c, e)
}

fn has_stale_source(c: &Catalog, keys: &Vec<String>, Ghost(e): Ghost<EdgeEnrollmentView>) -> (r: bool)
    requires
        table::named(table::views(keys@)) == approved(e),
    ensures
        r == any_stale_source(c@, e),
{
    let ghost all = table::views(keys@);
    let mut i: usize = 0;
    while i < keys.len()
        invariant
            i <= keys@.len(),
            all == table::views(keys@),
            table::named(all) == approved(e),
            forall|j: int|
                0 <= j < i ==> !c@.data_sources.contains_key(#[trigger] all[j])
                    || c@.data_sources[all[j]].status == "pending"@,
        decreases keys@.len() - i,
    {
        assert(all[i as int] == keys@[i as int]@);
        match c.data_sources.get(keys[i].as_str()) {
            Some(s) => {
                if !text::same(s.status.as_str(), "pending") {
                    assert(all.contains(all[i as int]));
                    assert(approved(e).contains(all[i as int]));
                    return true;
                }
            },
            None => {},
        }
        i = i + 1;
    }
    proof {
        assert forall|k: Seq<char>| #[trigger] approved(e).contains(k) implies !(
        c@.data_sources.contains_key(k) && c@.data_sources[k].status != "pending"@) by {
            assert(all.contains(k));
            let j = choose|j: int| 0 <= j < all.len() && all[j] == k;
        }
    }
    false
}

fn are_stale(topics: &Vec<Topic>) -> (r: bool)
    ensures
        r == all_stale(table::views(topics@)),
{
    let ghost all = table::views(topics@);
    let mut i: usize = 0;
    while i < topics.len()
        invariant
            i <= topics@.len(),
            all == table::views(topics@),
            forall|j: int| 0 <= j < i ==> (#[trigger] all[j]).quality == "stale"@,
        decreases topics@.len() - i,
    {
        assert(all[i as int] == topics@[i as int]@);
        if !text::same(topics[i].quality.as_str(), "stale") {
            return false;
        }
        i = i + 1;
    }
    true
}

fn has_live_topic(c: &Catalog, keys: &Vec<String>, Ghost(e): Ghost<EdgeEnrollmentView>) -> (r: bool)
    requires
        table::named(table::views(keys@)) == approved(e),
    ensures
        r == any_live_topic(c@, e),
{
    let ghost all = table::views(keys@);
    let mut i: usize = 0;
    while i < keys.len()
        invariant
            i <= keys@.len(),
            all == table::views(keys@),
            table::named(all) == approved(e),
            forall|j: int|
                0 <= j < i ==> !c@.topics_by_data_source.contains_key(#[trigger] all[j])
                    || all_stale(c@.topics_by_data_source[all[j]]),
        decreases keys@.len() - i,
    {
        assert(all[i as int] == keys@[i as int]@);
        match c.topics_by_data_source.get(keys[i].as_str()) {
            Some(l) => {
                if !are_stale(&l.topics) {
                    assert(all.contains(all[i as int]));
                    assert(approved(e).contains(all[i as int]));
                    return true;
                }
            },
            None => {},
        }
        i = i + 1;
    }
    proof {
        assert forall|k: Seq<char>| #[trigger] approved(e).contains(k) implies !(
        c@.topics_by_data_source.contains_key(k) && !all_stale(c@.topics_by_data_source[k])) by {
            assert(all.contains(k));
            let j = choose|j: int| 0 <= j < all.len() && all[j] == k;
        }
    }
    false
}

/// Whether some of the projects has another number of online devices than before.
fn has_count_change(c: &Catalog, before: &Table<Project>, keys: &Vec<String>) -> (r: bool)
    requires
        c@.projects.dom() == before@.dom(),
    ensures
        r == exists|k: Seq<char>| #[trigger]
            table::named(table::views(keys@)).contains(k) && before@.contains_key(k)
                && c@.projects[k].online_device_count != before@[k].online_device_count,
{
    let ghost all = table::views(keys@);
    let mut i: usize = 0;
    while i < keys.len()
        invariant
            i <= keys@.len(),
            all == table::views(keys@),
            c@.projects.dom() == before@.dom(),
            forall|j: int|
                0 <= j < i ==> !before@.contains_key(#[trigger] all[j])
                    || c@.projects[all[j]].online_device_count
                    == before@[all[j]].online_device_count,
        decreases keys@.len() - i,
    {
        assert(all[i as int] == keys@[i as int]@);
        match (c.projects.get(keys[i].as_str()), before.get(keys[i].as_str())) {
            (Some(now), Some(then)) => {
                if now.online_device_count != then.online_device_count {
                    assert(all.contains(all[i as int]));
                    assert(table::named(all).contains(all[i as int]));
                    return true;
                }
            },
            _ => {
                assert(c@.projects.dom().contains(all[i as int]) == before@.dom().contains(
                    all[i as int],
                ));
            },
        }
        i = i + 1;
    }
    proof {
        assert forall|k: Seq<char>| #[trigger] table::named(all).contains(k) implies !(
        before@.contains_key(k) && c@.projects[k].online_device_count
            != before@[k].online_device_count) by {
            let j = choose|j: int| 0 <= j < all.len() && all[j] == k;
        }
    }
    false
}

fn lose_reach(c: &mut Catalog, e: &EdgeEnrollment)
    ensures
        final(c)@ == out_of_reach(old(c)@, e@),
{
    let ghost start = c@;
    forget_sources(c, e);
    match c.devices.remove(e.device_id.as_str()) {
        Some(mut d) => {
            if !text::same(d.status.as_str(), "offline") || !text::same(
                d.health.as_str(),
                "unknown",
            ) {
                d.status = "offline".to_owned();
                d.health = "unknown".to_owned();
                d.state_version = catalog::version_after(d.state_version);
            }
            let _ = c.devices.insert(e.device_id.clone(), d);
        },
        None => {},
    }
    match c.integrations.remove(e.integration_id.as_str()) {
        Some(mut i) => {
            if !text::same(i.status.as_str(), "disconnected") {
                i.status = "disconnected".to_owned();
                i.resource_version = catalog::version_after(i.resource_version);
            }
            let _ = c.integrations.insert(e.integration_id.clone(), i);
        },
        None => {},
    }
    let held = |l: &ControlLease| -> (b: bool)
        ensures
            b == (l@.device_id == e@.device_id),
        { text::same(l.device_id.as_str(), e.device_id.as_str()) };
    c.leases.remove_where(held, Ghost(|l: ControlLeaseView| l.device_id == e@.device_id));
    proof {
        assert(c@.devices =~= out_of_reach(start, e@).devices);
        assert(c@.integrations =~= out_of_reach(start, e@).integrations);
    }
}

/// Takes an agent for gone, and says whether that changes anything that is shown.
pub fn mark_enrollment_stale(c: &mut Catalog, e: &EdgeEnrollment) -> (r: bool)
    ensures
        final(c)@ == gone(old(c)@, e@),
        r == gone_changes(old(c)@, e@),
{
    let ghost start = c@;
    let keys = approved_sources(e);
    let device_changes = match c.devices.get(e.device_id.as_str()) {
        Some(d) => !text::same(d.status.as_str(), "offline") || !text::same(
            d.health.as_str(),
            "unknown",
        ),
        None => false,
    };
    let integration_changes = match c.integrations.get(e.integration_id.as_str()) {
        Some(i) => !text::same(i.status.as_str(), "disconnected"),
        None => false,
    };
    let held = |l: &ControlLease| -> (b: bool)
        ensures
            b == (l@.device_id == e@.device_id),
        { text::same(l.device_id.as_str(), e.device_id.as_str()) };
    let leased = c.leases.find(
        held,
        Ghost(|l: ControlLeaseView| l.device_id == e@.device_id),
    ).is_some();
    let shown = device_changes || integration_changes || has_stale_source(c, &keys, Ghost(e@))
        || has_live_topic(c, &keys, Ghost(e@)) || leased;
    lose_reach(c, e);
    let projects = projects_of_device(c, e.device_id.as_str());
    let before = c.projects.copied();
    let ghost reached = c@;
    refresh_device_projects(c, e.device_id.as_str());
    proof {
        assert(c@.projects.dom() =~= before@.dom());
        assert(reached.device_assignments == start.device_assignments);
        assert(projects_of(reached, e@.device_id) == projects_of(start, e@.device_id));
    }
    let counted = has_count_change(c, &before, &projects);
    proof {
        assert(counted == any_count_change(start, e@)) by {
            let keys = projects_of(start, e@.device_id);
            if counted {
                let k = choose|k: Seq<char>| #[trigger]
                    keys.contains(k) && before@.contains_key(k)
                        && c@.projects[k].online_device_count != before@[k].online_device_count;
                assert(c@.projects[k] == catalog::counted_project(reached, k));
            }
            if any_count_change(start, e@) {
                let k = choose|k: Seq<char>| #[trigger]
                    keys.contains(k) && start.projects.contains_key(k)
                        && catalog::counted_project(reached, k).online_device_count
                        != start.projects[k].online_device_count;
                assert(c@.projects[k] == catalog::counted_project(reached, k));
            }
        }
    }
    shown || counted
}

/// The catalog once the deadline of an enrolled agent has passed.
pub open spec fn expired(c: CatalogView, edge_device_id: Seq<char>, public_key: Seq<char>) -> CatalogView {
    match enrollment_of(c, edge_device_id, public_key) {
        Err(_) => c,
        Ok(e) => if gone_changes(c, e) {
            catalog::bumped(gone(c, e))
        } else {
            gone(c, e)
        },
    }
}

/// Takes an agent whose deadline has passed for gone, if its enrollment still stands.
pub fn expire_enrollment(c: &mut Catalog, edge_device_id: &str, public_key: &str)
    ensures
        final(c)@ == expired(old(c)@, edge_device_id@, public_key@),
{
    match find_enrollment(c, edge_device_id, public_key) {
        Err(_) => {},
        Ok(e) => {
            if mark_enrollment_stale(c, &e) {
                let _ = c.bump_version();
            }
        },
    }
}

/// Once an agent counts as gone, nobody holds a lease on its device, its device and integration
/// are out of reach, and none of its sources or topics counts as live.
pub proof fn law_gone_agents_hold_nothing(c: CatalogView, e: EdgeEnrollmentView)
    ensures
        ({
            let after = gone(c, e);
            &&& !table::any_value(after.leases, |l: ControlLeaseView| l.device_id == e.device_id)
            &&& after.devices.contains_key(e.device_id) ==> is_offline(after.devices[e.device_id])
            &&& after.integrations.contains_key(e.integration_id)
                ==> after.integrations[e.integration_id].status == "disconnected"@
            &&& !any_stale_source(after, e)
            &&& !any_live_topic(after, e)
        }),
{
    let after = gone(c, e);
    assert forall|k: Seq<char>| #[trigger] approved(e).contains(k) && after.topics_by_data_source.contains_key(
        k,
    ) implies all_stale(after.topics_by_data_source[k]) by {
        assert(after.topics_by_data_source[k] == edge_topics::staled(c.topics_by_data_source[k]));
    }
}

/// Taking an agent for gone a second time changes nothing that is shown.
pub proof fn law_gone_agents_stay_gone(c: CatalogView, e: EdgeEnrollmentView)
    ensures
        !gone_changes(gone(c, e), e),
{
    law_gone_agents_hold_nothing(c, e);
    let reached = out_of_reach(c, e);
    let after = gone(c, e);
    let again = out_of_reach(after, e);
    assert(again.devices =~= reached.devices);
    assert(projects_of(after, e.device_id) == projects_of(c, e.device_id));
    assert forall|k: Seq<char>| #[trigger] projects_of(after, e.device_id).contains(k)
        && after.projects.contains_key(k) implies catalog::counted_project(again, k).online_device_count
        == after.projects[k].online_device_count by {
        assert(catalog::online_assignments(again, k) =~= catalog::online_assignments(reached, k));
        assert(projects_of(reached, e.device_id).contains(k));
        assert(after.projects[k] == catalog::counted_project(reached, k));
    }
}

/// What is kept of edge agents: the catalog and what was seen of their heartbeats.
#[verifier::ext_equal]
pub struct AgentsView {
    pub catalog: CatalogView,
    pub runtime: EdgeHeartbeatRuntimeView,
}

/// What a heartbeat does, and what it is answered: the enrollment of its agent and the instant
/// until which the agent counts as present.
pub open spec fn heartbeat_accepted(
    s: AgentsView,
    h: EdgeHeartbeatView,
    headers: SignatureHeadersView,
    body: Seq<u8>,
    received_at_ms: i64,
) -> (AgentsView, Result<(EdgeEnrollmentView, i64), ApiErrorView>) {
    if heartbeat::heartbeat_failure(h) is Some {
        (s, Err(heartbeat::heartbeat_failure(h)->Some_0))
    } else {
        match heartbeat::authenticated(h, headers, body, received_at_ms) {
            Err(e) => (s, Err(e)),
            Ok(nonce) => match enrollment_of(s.catalog, h.device_id, h.public_key) {
                Err(e) => (s, Err(e)),
                Ok(_) => {
                    let (runtime, answer) = admitted(s.runtime, h, nonce, received_at_ms);
                    match answer {
                        Err(e) => (AgentsView { runtime, ..s }, Err(e)),
                        Ok(a) => match heartbeat_applied(
                            s.catalog,
                            h.device_id,
                            h.public_key,
                            h,
                            received_at_ms,
                        ) {
                            Err(e) => (
                                AgentsView { runtime: taken_back(runtime, h, nonce, a), ..s },
                                Err(e),
                            ),
                            Ok((enrollment, catalog)) => (
                                AgentsView { catalog, runtime },
                                Ok((enrollment, a.deadline)),
                            ),
                        },
                    }
                },
            },
        }
    }
}

pub open spec fn accepted_view(r: Result<(EdgeEnrollment, i64), ApiError>) -> Result<
    (EdgeEnrollmentView, i64),
    ApiErrorView,
> {
    match r {
        Ok((e, deadline)) => Ok((e@, deadline)),
        Err(e) => Err(e@),
    }
}

/// Takes a heartbeat in: it is checked, authenticated, admitted and applied. One that cannot be
/// applied is taken back.
pub fn accept_heartbeat(
    c: &mut Catalog,
    m: &mut EdgeHeartbeatRuntime,
    h: &EdgeHeartbeat,
    headers: &SignatureHeaders,
    body: &[u8],
    received_at_ms: i64,
) -> (r: Result<(EdgeEnrollment, i64), ApiError>)
    ensures
        (AgentsView { catalog: final(c)@, runtime: final(m)@ }, accepted_view(r))
            == heartbeat_accepted(
            AgentsView { catalog: old(c)@, runtime: old(m)@ },
            h@,
            headers@,
            body@,
            received_at_ms,
        ),
{
    match heartbeat::validate_heartbeat(h) {
        Ok(()) => {},
        Err(e) => {
            return Err(e);
        },
    }
    let nonce = match heartbeat::authenticate_heartbeat(h, headers, body, received_at_ms) {
        Ok(nonce) => nonce,
        Err(e) => {
            return Err(e);
        },
    };
    match find_enrollment(c, h.device_id.as_str(), h.public_key.as_str()) {
        Ok(_) => {},
        Err(e) => {
            return Err(e);
        },
    }
    let admission = match admit_heartbeat(m, h, nonce.as_str(), received_at_ms) {
        Ok(a) => a,
        Err(e) => {
            return Err(e);
        },
    };
    let deadline: i64 = admission.deadline;
    match apply_heartbeat(
        c,
        h.device_id.as_str(),
        h.public_key.as_str(),
        h,
        received_at_ms,
    ) {
        Ok(enrollment) => Ok((enrollment, deadline)),
        Err(e) => {
            withdraw_heartbeat(m, h, nonce.as_str(), admission);
            Err(e)
        },
    }
}

/// A heartbeat that is refused changes nothing of the catalog, sets no deadline and counts for no
/// boot.
pub proof fn law_refused_heartbeats_leave_no_trace(
    s: AgentsView,
    h: EdgeHeartbeatView,
    headers: SignatureHeadersView,
    body: Seq<u8>,
    received_at_ms: i64,
)
    requires
        heartbeat_accepted(s, h, headers, body, received_at_ms).1 is Err,
    ensures
        ({
            let after = heartbeat_accepted(s, h, headers, body, received_at_ms).0;
            &&& after.catalog == s.catalog
            &&& after.runtime.deadlines == s.runtime.deadlines
            &&& after.runtime.sequences == s.runtime.sequences || after.runtime.sequences
                == recent_sequences(s.runtime.sequences, received_at_ms)
        }),
{
    match heartbeat::authenticated(h, headers, body, received_at_ms) {
        Ok(nonce) => {
            if admitted(s.runtime, h, nonce, received_at_ms).1 is Ok {
                law_withdrawal_undoes_admission(s.runtime, h, nonce, received_at_ms);
            }
        },
        Err(_) => {},
    }
}

/// Only a heartbeat that its enrolled agent signed in time is accepted.
pub proof fn law_accepted_heartbeats_are_signed_by_enrolled_agents(
    s: AgentsView,
    h: EdgeHeartbeatView,
    headers: SignatureHeadersView,
    body: Seq<u8>,
    received_at_ms: i64,
)
    requires
        heartbeat_accepted(s, h, headers, body, received_at_ms).1 is Ok,
    ensures
        heartbeat::authenticated(h, headers, body, received_at_ms) is Ok,
        s.catalog.edge_enrollments.contains_key(h.device_id),
        s.catalog.edge_enrollments[h.device_id].public_key == h.public_key,
{
}

proof fn lemma_readmitted(
    m: EdgeHeartbeatRuntimeView,
    h: EdgeHeartbeatView,
    nonce: Seq<char>,
    received_at_ms: i64,
    later_ms: i64,
)
    requires
        m.sequences.dom().finite(),
        m.sequences.len() <= MAX_BOOT_SEQUENCES,
        admitted(m, h, nonce, received_at_ms).1 is Ok,
    ensures
        ({
            let (after, answer) = admitted(m, h, nonce, received_at_ms);
            admitted(taken_back(after, h, nonce, answer->Ok_0), h, nonce, later_ms).1 is Ok
        }),
{
    law_withdrawal_undoes_admission(m, h, nonce, received_at_ms);
    let key = boot_key(h);
    let first = recent_sequences(m.sequences, received_at_ms);
    let second = recent_sequences(first, later_ms);
    assert(first.dom().subset_of(m.sequences.dom()));
    vstd::set_lib::lemma_len_subset(first.dom(), m.sequences.dom());
    assert(second.dom().subset_of(first.dom()));
    vstd::set_lib::lemma_len_subset(second.dom(), first.dom());
    if first.contains_key(key) && !second.contains_key(key) {
        assert(second.dom().subset_of(first.dom().remove(key)));
        vstd::set_lib::lemma_len_subset(second.dom(), first.dom().remove(key));
    }
}

/// A heartbeat that could not be applied is not held against itself: sent again in time, as it
/// was, it is accepted once the catalog has been repaired.
pub proof fn law_repaired_heartbeats_are_accepted(
    s: AgentsView,
    h: EdgeHeartbeatView,
    headers: SignatureHeadersView,
    body: Seq<u8>,
    received_at_ms: i64,
    repaired: CatalogView,
    later_ms: i64,
)
    requires
        s.runtime.sequences.dom().finite(),
        s.runtime.sequences.len() <= MAX_BOOT_SEQUENCES,
        heartbeat::heartbeat_failure(h) is None,
        heartbeat::authenticated(h, headers, body, received_at_ms) matches Ok(nonce) && admitted(
            s.runtime,
            h,
            nonce,
            received_at_ms,
        ).1 is Ok,
        enrollment_of(s.catalog, h.device_id, h.public_key) is Ok,
        heartbeat_applied(s.catalog, h.device_id, h.public_key, h, received_at_ms) is Err,
        heartbeat::authenticated(h, headers, body, later_ms) is Ok,
        enrollment_of(repaired, h.device_id, h.public_key) is Ok,
        heartbeat_applied(repaired, h.device_id, h.public_key, h, later_ms) is Ok,
    ensures
        ({
            let (refused, answer) = heartbeat_accepted(s, h, headers, body, received_at_ms);
            &&& answer is Err
            &&& heartbeat_accepted(
                AgentsView { catalog: repaired, ..refused },
                h,
                headers,
                body,
                later_ms,
            ).1 is Ok
        }),
{
    let nonce = heartbeat::authenticated(h, headers, body, received_at_ms)->Ok_0;
    assert(heartbeat::authenticated(h, headers, body, later_ms)->Ok_0 == nonce);
    lemma_readmitted(s.runtime, h, nonce, received_at_ms, later_ms);
}

/// An accepted heartbeat puts the enrolled device online and shows it in the health that the agent
/// reported: normal where the agent is healthy, in need of attention where it is degraded, unknown
/// where it is stale. The integration is connected where the organization trusts the agent and
/// under test where not. Both were last seen when the heartbeat was received.
pub proof fn law_heard_devices_show_the_reported_health(
    s: AgentsView,
    h: EdgeHeartbeatView,
    headers: SignatureHeadersView,
    body: Seq<u8>,
    received_at_ms: i64,
)
    requires
        heartbeat_accepted(s, h, headers, body, received_at_ms).1 is Ok,
    ensures
        ({
            let (after, answer) = heartbeat_accepted(s, h, headers, body, received_at_ms);
            let e = s.catalog.edge_enrollments[h.device_id];
            let d = after.catalog.devices[e.device_id];
            let old_device = s.catalog.devices[e.device_id];
            let i = after.catalog.integrations[e.integration_id];
            &&& answer->Ok_0.0 == e
            &&& after.catalog.devices.dom() == s.catalog.devices.dom()
            &&& after.catalog.devices.contains_key(e.device_id)
            &&& d.status == "online"@
            &&& h.agent_health == "healthy"@ <==> d.health == "normal"@
            &&& h.agent_health == "degraded"@ <==> d.health == "attention"@
            &&& h.agent_health == "stale"@ <==> d.health == "unknown"@
            &&& d.last_seen_at == time::iso(received_at_ms)
            &&& d.id == old_device.id && d.name == old_device.name && d.integration_id
                == old_device.integration_id
            &&& old_device.status == "online"@ && old_device.health == d.health
                ==> d.state_version == old_device.state_version
            &&& (old_device.status != "online"@ || old_device.health != d.health)
                && old_device.state_version < u64::MAX ==> d.state_version
                == old_device.state_version + 1
            &&& after.catalog.integrations.contains_key(e.integration_id)
            &&& i.status == if e.organization_trusted {
                "connected"@
            } else {
                "testing"@
            }
            &&& i.last_health_at == time::iso(received_at_ms)
            &&& s.catalog.snapshot_version < u64::MAX ==> after.catalog.snapshot_version
                == s.catalog.snapshot_version + 1
        }),
{
    reveal_strlit("healthy");
    reveal_strlit("degraded");
    reveal_strlit("stale");
    reveal_strlit("normal");
    reveal_strlit("attention");
    reveal_strlit("unknown");
    assert("healthy"@.len() == 7 && "degraded"@.len() == 8 && "stale"@.len() == 5);
    assert("normal"@.len() == 6 && "attention"@.len() == 9 && "unknown"@.len() == 7);
    let after = heartbeat_accepted(s, h, headers, body, received_at_ms).0;
    assert(heartbeat::heartbeat_fits(h));
    assert(after.catalog.devices.dom() =~= s.catalog.devices.dom());
}

/// A heartbeat changes no device and no integration but those of its agent, and no source or topic
/// but those that were approved for it or that it reports on.
pub proof fn law_heartbeats_change_only_their_device(
    s: AgentsView,
    h: EdgeHeartbeatView,
    headers: SignatureHeadersView,
    body: Seq<u8>,
    received_at_ms: i64,
    k: Seq<char>,
)
    requires
        heartbeat_accepted(s, h, headers, body, received_at_ms).1 is Ok,
    ensures
        ({
            let after = heartbeat_accepted(s, h, headers, body, received_at_ms).0.catalog;
            let c = s.catalog;
            let e = c.edge_enrollments[h.device_id];
            &&& k != e.device_id && c.devices.contains_key(k) ==> after.devices[k] == c.devices[k]
            &&& k != e.integration_id && c.integrations.contains_key(k)
                ==> after.integrations.contains_key(k) && after.integrations[k] == c.integrations[k]
            &&& after.recordings == c.recordings
            &&& after.recording_imports == c.recording_imports
            &&& after.device_assignments == c.device_assignments
            &&& after.data_assignments == c.data_assignments
            &&& after.projects.dom() == c.projects.dom()
        }),
{
    let after = heartbeat_accepted(s, h, headers, body, received_at_ms).0.catalog;
    assert(after.projects.dom() =~= s.catalog.projects.dom());
}

/// An agent counts as present for ten seconds after its heartbeat.
pub proof fn law_agents_are_present_for_ten_seconds(
    s: AgentsView,
    h: EdgeHeartbeatView,
    headers: SignatureHeadersView,
    body: Seq<u8>,
    received_at_ms: i64,
)
    requires
        heartbeat_accepted(s, h, headers, body, received_at_ms).1 is Ok,
        received_at_ms <= i64::MAX - 10_000,
    ensures
        ({
            let (after, answer) = heartbeat_accepted(s, h, headers, body, received_at_ms);
            &&& answer->Ok_0.1 == received_at_ms + 10_000
            &&& after.runtime.deadlines.contains_key(h.device_id)
            &&& after.runtime.deadlines[h.device_id] == received_at_ms + 10_000
            &&& after.runtime.deadlines.remove(h.device_id) == s.runtime.deadlines.remove(
                h.device_id,
            )
        }),
{
    let after = heartbeat_accepted(s, h, headers, body, received_at_ms).0;
    assert(after.runtime.deadlines.remove(h.device_id) =~= s.runtime.deadlines.remove(h.device_id));
}

/// When its deadline has passed, the device of an agent is offline in unknown health, its
/// integration is disconnected, its sources are pending, its topics are stale, and nobody holds a
/// lease on the device. Where no such agent is enrolled, nothing changes.
pub proof fn law_expired_agents_are_offline(
    c: CatalogView,
    edge_device_id: Seq<char>,
    public_key: Seq<char>,
    k: Seq<char>,
    i: int,
)
    ensures
        ({
            let after = expired(c, edge_device_id, public_key);
            let e = c.edge_enrollments[edge_device_id];
            if c.edge_enrollments.contains_key(edge_device_id) && e.public_key == public_key {
                &&& c.devices.contains_key(e.device_id) ==> after.devices.contains_key(e.device_id)
                    && after.devices[e.device_id].status == "offline"@
                    && after.devices[e.device_id].health == "unknown"@
                &&& c.integrations.contains_key(e.integration_id)
                    ==> after.integrations.contains_key(e.integration_id)
                    && after.integrations[e.integration_id].status == "disconnected"@
                &&& after.leases.contains_key(k) <==> c.leases.contains_key(k)
                    && c.leases[k].device_id != e.device_id
                &&& (exists|j: Seq<char>| #[trigger]
                    e.source_ids.contains_key(j) && e.source_ids[j] == k)
                    && c.data_sources.contains_key(k) ==> after.data_sources[k].status
                    == "pending"@
                &&& (exists|j: Seq<char>| #[trigger]
                    e.source_ids.contains_key(j) && e.source_ids[j] == k)
                    && c.topics_by_data_source.contains_key(k) && 0 <= i
                    < c.topics_by_data_source[k].len() ==> after.topics_by_data_source[k].len()
                    == c.topics_by_data_source[k].len() && after.topics_by_data_source[k][i].quality
                    == "stale"@ && after.topics_by_data_source[k][i].path
                    == c.topics_by_data_source[k][i].path
                &&& k != e.device_id && c.devices.contains_key(k) ==> after.devices[k]
                    == c.devices[k]
            } else {
                after == c
            }
        }),
{
    if enrollment_of(c, edge_device_id, public_key) is Ok {
        let e = c.edge_enrollments[edge_device_id];
        law_gone_agents_hold_nothing(c, e);
        assert(approved(e).contains(k) == exists|j: Seq<char>| #[trigger]
            e.source_ids.contains_key(j) && e.source_ids[j] == k);
    }
}

/// Whether what is collected of a report was reported now, for one device.
spec fn reported_now(fresh: FreshTopics, device_id: Seq<char>, now: Seq<char>) -> bool {
    &&& fresh.dom().finite()
    &&& forall|id: Seq<char>| #[trigger]
        fresh.contains_key(id) ==> fresh[id].dom().finite() && forall|p: Seq<char>| #[trigger]
            fresh[id].contains_key(p) ==> fresh[id][p].path == p && fresh[id][p].quality == "fresh"@
                && fresh[id][p].updated_at == now && fresh[id][p].device_id == device_id
                && fresh[id][p].data_source_id == id
}

/// Whether a topic of a source is among what is collected.
spec fn collected(fresh: FreshTopics, id: Seq<char>, path: Seq<char>) -> bool {
    fresh.contains_key(id) && fresh[id].contains_key(path)
}

proof fn lemma_fresh_topics(
    source_id: Seq<char>,
    device_id: Seq<char>,
    topics: Seq<EdgeTopicView>,
    now: Seq<char>,
    i: int,
    known: Map<Seq<char>, TopicView>,
)
    requires
        0 <= i <= topics.len(),
        known.dom().finite(),
        forall|p: Seq<char>| #[trigger]
            known.contains_key(p) ==> known[p].path == p && known[p].quality == "fresh"@
                && known[p].updated_at == now && known[p].device_id == device_id
                && known[p].data_source_id == source_id,
        fresh_topics(source_id, device_id, topics, now, i, known) is Ok,
    ensures
        ({
            let out = fresh_topics(source_id, device_id, topics, now, i, known)->Ok_0;
            &&& out.dom().finite()
            &&& forall|p: Seq<char>| #[trigger]
                out.contains_key(p) ==> out[p].path == p && out[p].quality == "fresh"@
                    && out[p].updated_at == now && out[p].device_id == device_id
                    && out[p].data_source_id == source_id
            &&& forall|p: Seq<char>| #[trigger] known.contains_key(p) ==> out.contains_key(p)
            &&& forall|k: int| i <= k < topics.len() ==> out.contains_key((#[trigger] topics[k]).path)
        }),
    decreases topics.len() - i,
{
    if i < topics.len() {
        let next = known.insert(
            topics[i].path,
            edge_topics::materialized(source_id, device_id, topics[i], now),
        );
        edge_topics::law_reported_topics_are_fresh(source_id, device_id, topics[i], now);
        lemma_fresh_topics(source_id, device_id, topics, now, i + 1, next);
        let out = fresh_topics(source_id, device_id, topics, now, i, known)->Ok_0;
        assert(out == fresh_topics(source_id, device_id, topics, now, i + 1, next)->Ok_0);
        assert(next.contains_key(topics[i].path));
        assert forall|p: Seq<char>| #[trigger] known.contains_key(p) implies out.contains_key(p) by {
            assert(next.contains_key(p));
        }
    }
}

proof fn lemma_fresh_source(
    c: CatalogView,
    e: EdgeEnrollmentView,
    kind: Seq<char>,
    s: EdgeSourceView,
    now: Seq<char>,
    known: FreshTopics,
)
    requires
        reported_now(known, e.device_id, now),
        fresh_source(c, e, kind, s, now, known) is Ok,
    ensures
        ({
            let out = fresh_source(c, e, kind, s, now, known)->Ok_0;
            &&& reported_now(out, e.device_id, now)
            &&& forall|id: Seq<char>, p: Seq<char>| #[trigger]
                collected(known, id, p) ==> collected(out, id, p)
            &&& binding(e, s.id, kind) matches Some(id) ==> forall|k: int|
                0 <= k < s.topics.len() ==> collected(out, id, (#[trigger] s.topics[k]).path)
        }),
{
    if binding(e, s.id, kind) is Some {
        let id = binding(e, s.id, kind)->Some_0;
        let start = if known.contains_key(id) {
            known[id]
        } else {
            Map::empty()
        };
        lemma_fresh_topics(id, e.device_id, s.topics, now, 0, start);
        let out = fresh_source(c, e, kind, s, now, known)->Ok_0;
        assert(out.dom() =~= known.dom().insert(id));
        assert forall|j: Seq<char>, p: Seq<char>| #[trigger] collected(known, j, p) implies collected(
            out,
            j,
            p,
        ) by {
            if j == id {
                assert(start.contains_key(p));
            }
        }
    }
}

proof fn lemma_fresh_sources(
    c: CatalogView,
    e: EdgeEnrollmentView,
    kind: Seq<char>,
    sources: Seq<EdgeSourceView>,
    now: Seq<char>,
    i: int,
    known: FreshTopics,
)
    requires
        0 <= i <= sources.len(),
        reported_now(known, e.device_id, now),
        fresh_sources(c, e, kind, sources, now, i, known) is Ok,
    ensures
        ({
            let out = fresh_sources(c, e, kind, sources, now, i, known)->Ok_0;
            &&& reported_now(out, e.device_id, now)
            &&& forall|id: Seq<char>, p: Seq<char>| #[trigger]
                collected(known, id, p) ==> collected(out, id, p)
            &&& forall|s: int, k: int|
                i <= s < sources.len() && 0 <= k < sources[s].topics.len() && binding(
                    e,
                    sources[s].id,
                    kind,
                ) is Some ==> collected(
                    out,
                    binding(e, sources[s].id, kind)->Some_0,
                    (#[trigger] sources[s].topics[k]).path,
                )
        }),
    decreases sources.len() - i,
{
    if i < sources.len() {
        lemma_fresh_source(c, e, kind, sources[i], now, known);
        let next = fresh_source(c, e, kind, sources[i], now, known)->Ok_0;
        lemma_fresh_sources(c, e, kind, sources, now, i + 1, next);
        let out = fresh_sources(c, e, kind, sources, now, i, known)->Ok_0;
        assert forall|s: int, k: int|
            i <= s < sources.len() && 0 <= k < sources[s].topics.len() && binding(
                e,
                sources[s].id,
                kind,
            ) is Some implies collected(
            out,
            binding(e, sources[s].id, kind)->Some_0,
            (#[trigger] sources[s].topics[k]).path,
        ) by {
            if s == i {
                assert(collected(
                    next,
                    binding(e, sources[i].id, kind)->Some_0,
                    sources[i].topics[k].path,
                ));
            }
        }
    }
}

proof fn lemma_fresh_observations(
    c: CatalogView,
    e: EdgeEnrollmentView,
    kind: Seq<char>,
    observations: Seq<EdgeObservationView>,
    received_at_ms: i64,
    i: int,
    known: FreshTopics,
)
    requires
        0 <= i <= observations.len(),
        reported_now(known, e.device_id, time::iso(received_at_ms)),
        fresh_observations(c, e, kind, observations, received_at_ms, i, known) is Ok,
    ensures
        ({
            let out = fresh_observations(c, e, kind, observations, received_at_ms, i, known)->Ok_0;
            &&& reported_now(out, e.device_id, time::iso(received_at_ms))
            &&& forall|id: Seq<char>, p: Seq<char>| #[trigger]
                collected(known, id, p) ==> collected(out, id, p)
            &&& forall|o: int, s: int, k: int|
                i <= o < observations.len() && observations[o].expires_at_ms > received_at_ms && 0
                    <= s < observations[o].sources.len() && 0 <= k
                    < observations[o].sources[s].topics.len() && binding(
                    e,
                    observations[o].sources[s].id,
                    kind,
                ) is Some ==> collected(
                    out,
                    binding(e, observations[o].sources[s].id, kind)->Some_0,
                    (#[trigger] observations[o].sources[s].topics[k]).path,
                )
        }),
    decreases observations.len() - i,
{
    if i < observations.len() {
        let now = time::iso(received_at_ms);
        let out = fresh_observations(c, e, kind, observations, received_at_ms, i, known)->Ok_0;
        if observations[i].expires_at_ms <= received_at_ms {
            lemma_fresh_observations(c, e, kind, observations, received_at_ms, i + 1, known);
        } else {
            let sources = observations[i].sources;
            lemma_fresh_sources(c, e, kind, sources, now, 0, known);
            let next = fresh_sources(c, e, kind, sources, now, 0, known)->Ok_0;
            lemma_fresh_observations(c, e, kind, observations, received_at_ms, i + 1, next);
            assert forall|o: int, s: int, k: int|
                i <= o < observations.len() && observations[o].expires_at_ms > received_at_ms && 0
                    <= s < observations[o].sources.len() && 0 <= k
                    < observations[o].sources[s].topics.len() && binding(
                    e,
                    observations[o].sources[s].id,
                    kind,
                ) is Some implies collected(
                out,
                binding(e, observations[o].sources[s].id, kind)->Some_0,
                (#[trigger] observations[o].sources[s].topics[k]).path,
            ) by {
                if o == i {
                    assert(collected(
                        next,
                        binding(e, sources[s].id, kind)->Some_0,
                        sources[s].topics[k].path,
                    ));
                }
            }
        }
    }
}

proof fn lemma_fresh_adapters(
    c: CatalogView,
    e: EdgeEnrollmentView,
    h: EdgeHeartbeatView,
    received_at_ms: i64,
    i: int,
    known: FreshTopics,
    a: int,
    o: int,
    s: int,
    k: int,
)
    requires
        0 <= i <= h.adapters.len(),
        reported_now(known, e.device_id, time::iso(received_at_ms)),
        fresh_adapters(c, e, h, received_at_ms, i, known) is Ok,
    ensures
        ({
            let out = fresh_adapters(c, e, h, received_at_ms, i, known)->Ok_0;
            &&& reported_now(out, e.device_id, time::iso(received_at_ms))
            &&& forall|id: Seq<char>, p: Seq<char>| #[trigger]
                collected(known, id, p) ==> collected(out, id, p)
            &&& i <= a < h.adapters.len() && adapter_counts(h.agent_health, h.adapters[a])
                && tells(h, received_at_ms, a, o, s, k) && binding(
                e,
                h.adapters[a].observations[o].sources[s].id,
                h.adapters[a].kind,
            ) is Some ==> collected(
                out,
                binding(
                    e,
                    h.adapters[a].observations[o].sources[s].id,
                    h.adapters[a].kind,
                )->Some_0,
                h.adapters[a].observations[o].sources[s].topics[k].path,
            )
        }),
    decreases h.adapters.len() - i,
{
    if i < h.adapters.len() {
        if !adapter_counts(h.agent_health, h.adapters[i]) {
            lemma_fresh_adapters(c, e, h, received_at_ms, i + 1, known, a, o, s, k);
        } else {
            let kind = h.adapters[i].kind;
            let seen = h.adapters[i].observations;
            lemma_fresh_observations(c, e, kind, seen, received_at_ms, 0, known);
            let next = fresh_observations(c, e, kind, seen, received_at_ms, 0, known)->Ok_0;
            lemma_fresh_adapters(c, e, h, received_at_ms, i + 1, next, a, o, s, k);
            if a == i && tells(h, received_at_ms, a, o, s, k) && binding(e, seen[o].sources[s].id, kind) is Some {
                assert(collected(
                    next,
                    binding(e, seen[o].sources[s].id, kind)->Some_0,
                    seen[o].sources[s].topics[k].path,
                ));
            }
        }
    }
}

/// Whether a heartbeat has a topic at a place, in an observation that has not expired.
pub open spec fn tells(h: EdgeHeartbeatView, received_at_ms: i64, a: int, o: int, s: int, k: int) -> bool {
    &&& 0 <= a < h.adapters.len()
    &&& 0 <= o < h.adapters[a].observations.len()
    &&& h.adapters[a].observations[o].expires_at_ms > received_at_ms
    &&& 0 <= s < h.adapters[a].observations[o].sources.len()
    &&& 0 <= k < h.adapters[a].observations[o].sources[s].topics.len()
}

proof fn lemma_refreshed(
    m: Map<Seq<char>, Seq<TopicView>>,
    items: Seq<(Seq<char>, Map<Seq<char>, TopicView>)>,
    i: int,
    id: Seq<char>,
)
    requires
        0 <= i <= items.len(),
        table::keys_ascend(items),
    ensures
        ({
            let out = refreshed_topics(m, items, i);
            &&& (forall|j: int| i <= j < items.len() ==> (#[trigger] items[j]).0 != id) ==> (
            out.contains_key(id) == m.contains_key(id) && (m.contains_key(id) ==> out[id] == m[id]))
            &&& forall|j: int|
                i <= j < items.len() && (#[trigger] items[j]).0 == id ==> out.contains_key(id)
                    && out[id] == edge_topics::merged(
                    listed_topics(m, id),
                    table::items_of(items[j].1),
                    0,
                )
        }),
    decreases items.len() - i,
{
    if i < items.len() {
        let next = m.insert(
            items[i].0,
            edge_topics::merged(listed_topics(m, items[i].0), table::items_of(items[i].1), 0),
        );
        lemma_refreshed(next, items, i + 1, id);
        if items[i].0 == id {
            text::lemma_less_irreflexive(id);
            assert forall|j: int| i + 1 <= j < items.len() implies (#[trigger] items[j]).0 != id by {
                assert(text::less(items[i].0, items[j].0));
            }
        }
    }
}

/// The topics of a source after the report, before they are pruned.
proof fn lemma_report_of(
    c: CatalogView,
    e: EdgeEnrollmentView,
    h: EdgeHeartbeatView,
    received_at_ms: i64,
    id: Seq<char>,
) -> (topics: Seq<TopicView>)
    requires
        applied(c, e, h, received_at_ms) is Ok,
        approved(e).contains(id),
    ensures
        ({
            let after = applied(c, e, h, received_at_ms)->Ok_0.topics_by_data_source;
            let fresh = fresh_adapters(c, e, h, received_at_ms, 0, Map::empty())->Ok_0;
            &&& listed_topics(after, id) == edge_topics::retained(topics)
            &&& forall|u: TopicView| #[trigger]
                topics.contains(u) ==> u.quality == "stale"@ || (u.quality == "fresh"@
                    && u.updated_at == time::iso(received_at_ms) && collected(fresh, id, u.path))
            &&& forall|p: Seq<char>| #[trigger]
                collected(fresh, id, p) ==> after.contains_key(id) && topics.contains(fresh[id][p])
                    && fresh[id][p].path == p && fresh[id][p].quality == "fresh"@
        }),
{
    let now = time::iso(received_at_ms);
    let fresh = fresh_adapters(c, e, h, received_at_ms, 0, Map::empty())->Ok_0;
    lemma_fresh_adapters(c, e, h, received_at_ms, 0, Map::empty(), 0, 0, 0, 0);
    let heard = unheard(with_agent(c, e, h.agent_health, now), e);
    let told = with_report(heard, fresh, now);
    let kept = settled(told, c.topics_by_data_source, e);
    let items = table::items_of(fresh);
    table::lemma_items_exist(fresh);
    table::lemma_items_all(items);
    lemma_refreshed(heard.topics_by_data_source, items, 0, id);
    let before = listed_topics(heard.topics_by_data_source, id);
    assert forall|u: TopicView| #[trigger] before.contains(u) implies u.quality == "stale"@ by {
        let i = choose|i: int| 0 <= i < before.len() && before[i] == u;
        assert(heard.topics_by_data_source.contains_key(id));
    }
    let topics = listed_topics(told.topics_by_data_source, id);
    if fresh.contains_key(id) {
        let at = table::key_index(items, id);
        assert(items[at].0 == id && items[at].1 == fresh[id]);
        let one = table::items_of(fresh[id]);
        table::lemma_items_exist(fresh[id]);
        table::lemma_items_all(one);
        assert forall|j: int| 0 <= j < one.len() implies (#[trigger] one[j]).1.path == one[j].0 by {
            assert(fresh[id].contains_key(one[j].0));
        }
        edge_topics::law_merged_topics_hold_the_report(before, one, 0);
        assert(topics == edge_topics::merged(before, one, 0));
        assert forall|u: TopicView| #[trigger] topics.contains(u) implies u.quality == "stale"@ || (
        u.quality == "fresh"@ && u.updated_at == now && collected(fresh, id, u.path)) by {
            if !before.contains(u) {
                let j = choose|j: int| 0 <= j < one.len() && (#[trigger] one[j]).1 == u;
                assert(fresh[id].contains_key(one[j].0));
            }
        }
        assert forall|p: Seq<char>| #[trigger] collected(fresh, id, p) implies topics.contains(
            fresh[id][p],
        ) by {
            let j = table::key_index(one, p);
            assert(one[j].0 == p && one[j].1 == fresh[id][p]);
        }
    } else {
        assert forall|j: int| 0 <= j < items.len() implies (#[trigger] items[j]).0 != id by {
            assert(fresh.contains_key(items[j].0));
        }
        assert(topics == before);
    }
    assert(applied(c, e, h, received_at_ms)->Ok_0.topics_by_data_source
        == kept.topics_by_data_source);
    if !told.topics_by_data_source.contains_key(id) {
        assert(topics =~= Seq::empty());
        edge_topics::law_retained_topics_are_bounded_and_distinct(topics);
        assert(edge_topics::retained(topics) =~= Seq::empty()) by {
            if edge_topics::retained(topics).len() > 0 {
                assert(edge_topics::retained(topics).contains(edge_topics::retained(topics)[0]));
            }
        }
    }
    topics
}

/// A topic that a working adapter reports, in an observation that has not expired, is listed as
/// fresh under the data source that its source was approved for, unless that source is full of
/// other fresh topics.
pub proof fn law_reported_topics_are_listed(
    c: CatalogView,
    e: EdgeEnrollmentView,
    h: EdgeHeartbeatView,
    received_at_ms: i64,
    a: int,
    o: int,
    s: int,
    k: int,
)
    requires
        applied(c, e, h, received_at_ms) is Ok,
        tells(h, received_at_ms, a, o, s, k),
        h.agent_health != "stale"@,
        h.adapters[a].state == "healthy"@ || h.adapters[a].state == "degraded"@,
        h.adapters[a].kind == "ros2_dds"@ || h.adapters[a].kind == "mavlink"@,
        e.source_ids.contains_key(h.adapters[a].observations[o].sources[s].id),
    ensures
        ({
            let after = applied(c, e, h, received_at_ms)->Ok_0;
            let source = h.adapters[a].observations[o].sources[s];
            let id = e.source_ids[source.id];
            let listed = after.topics_by_data_source[id];
            &&& after.topics_by_data_source.contains_key(id)
            &&& (exists|i: int|
                0 <= i < listed.len() && (#[trigger] listed[i]).path == source.topics[k].path
                    && listed[i].quality == "fresh"@) || (listed.len() == 512 && forall|i: int|
                0 <= i < listed.len() ==> (#[trigger] listed[i]).quality == "fresh"@)
        }),
{
    let source = h.adapters[a].observations[o].sources[s];
    let id = e.source_ids[source.id];
    assert(approved(e).contains(id));
    let fresh = fresh_adapters(c, e, h, received_at_ms, 0, Map::empty())->Ok_0;
    lemma_fresh_adapters(c, e, h, received_at_ms, 0, Map::empty(), a, o, s, k);
    let topics = lemma_report_of(c, e, h, received_at_ms, id);
    let t = fresh[id][source.topics[k].path];
    assert(collected(fresh, id, source.topics[k].path));
    edge_topics::law_fresh_topics_are_preserved(topics, t);
}

/// No topic of an approved source counts as fresh after a heartbeat but those that it reported:
/// none at all where the agent is stale.
pub proof fn law_unreported_topics_are_stale(
    c: CatalogView,
    e: EdgeEnrollmentView,
    h: EdgeHeartbeatView,
    received_at_ms: i64,
    id: Seq<char>,
    i: int,
)
    requires
        applied(c, e, h, received_at_ms) is Ok,
        approved(e).contains(id),
        applied(c, e, h, received_at_ms)->Ok_0.topics_by_data_source.contains_key(id),
        0 <= i < applied(c, e, h, received_at_ms)->Ok_0.topics_by_data_source[id].len(),
    ensures
        ({
            let t = applied(c, e, h, received_at_ms)->Ok_0.topics_by_data_source[id][i];
            &&& t.quality == "stale"@ || (t.quality == "fresh"@ && t.updated_at == time::iso(
                received_at_ms,
            ))
            &&& h.agent_health == "stale"@ ==> t.quality == "stale"@
        }),
{
    let after = applied(c, e, h, received_at_ms)->Ok_0.topics_by_data_source;
    let topics = lemma_report_of(c, e, h, received_at_ms, id);
    edge_topics::law_retained_topics_are_bounded_and_distinct(topics);
    let t = after[id][i];
    assert(edge_topics::retained(topics).contains(t));
    assert(topics.contains(t));
    if h.agent_health == "stale"@ {
        lemma_stale_agents_tell_nothing(c, e, h, received_at_ms, 0, Map::empty());
    }
}

proof fn lemma_stale_agents_tell_nothing(
    c: CatalogView,
    e: EdgeEnrollmentView,
    h: EdgeHeartbeatView,
    received_at_ms: i64,
    i: int,
    known: FreshTopics,
)
    requires
        h.agent_health == "stale"@,
    ensures
        fresh_adapters(c, e, h, received_at_ms, i, known) == Ok::<FreshTopics, ApiErrorView>(known),
    decreases h.adapters.len() - i,
{
    if 0 <= i < h.adapters.len() {
        lemma_stale_agents_tell_nothing(c, e, h, received_at_ms, i + 1, known);
    }
}

} // verus!
