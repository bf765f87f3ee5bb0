//! Short-lived discovery sessions, their candidates and how those age.

use crate::domain::{
    CandidateVerification, CandidateVerificationStatus, CandidateVerificationView,
    DiscoveryCandidate, DiscoveryCandidateCategory, DiscoveryCandidateView, DiscoverySessionStatus,
    DiscoverySourceCategory, DiscoverySourceStatus, NetworkDiscoverySession,
    NetworkDiscoverySessionView, NetworkLinkReceipt, NetworkLinkReceiptView,
};
use crate::table;
use crate::table::{copy_all, copy_option, Copied, Table};
use crate::text;
use std::sync::atomic::{AtomicBool, Ordering};
use std::sync::Arc;
use vstd::prelude::*;

verus! {

pub const DEFAULT_SESSION_TTL_MS: i64 = 300_000;
pub const DEFAULT_VERIFICATION_TTL_MS: i64 = 60_000;
pub const DEFAULT_PROVIDER_VERIFICATION_TIMEOUT_MS: u64 = 5_000;
pub const EXPIRED_SESSION_RETENTION_MS: i64 = 300_000;
pub const MAX_CANDIDATES_PER_SESSION: usize = 128;
pub const MAX_SOURCES_PER_CANDIDATE: usize = 16;

/// Cloneable cancellation signal of a discovery session.
#[derive(Clone, Debug, Default)]
pub struct DiscoveryCancellation {
    cancelled: Arc<AtomicBool>,
}

impl DiscoveryCancellation {
    /// A signal that has not been raised.
    pub fn new() -> (r: Self) {
        DiscoveryCancellation { cancelled: Arc::new(AtomicBool::new(false)) }
    }

    /// Raises the signal for every clone.
    pub fn cancel(&self) {
        self.cancelled.store(true, Ordering::Release);
    }

    /// Whether the signal was raised. Other threads decide, so nothing is promised of the answer.
    pub fn is_cancelled(&self) -> (r: bool) {
        self.cancelled.load(Ordering::Acquire)
    }
}

/// An IP address.
#[derive(Clone, Copy, Debug, PartialEq, Eq, Structural)]
pub enum SourceAddress {
    V4 { a: u8, b: u8, c: u8, d: u8 },
    V6 { high: u64, low: u64 },
}

/// What a discovery provider found when it looked at a candidate again.
#[derive(Clone, Copy, Debug, PartialEq, Eq, Structural)]
pub enum ProviderVerificationStatus {
    Verified,
    NeedsCredentials,
    Incompatible,
    Unavailable,
}

/// A provider could not complete a discovery pass.
#[derive(Clone, Debug, PartialEq, Eq)]
pub struct DiscoveryProviderError {
    message: String,
}

impl View for DiscoveryProviderError {
    type V = Seq<char>;

    closed spec fn view(&self) -> Seq<char> {
        self.message@
    }
}

impl DiscoveryProviderError {
    pub fn new(message: String) -> (r: Self)
        ensures
            r@ == message@,
    {
        DiscoveryProviderError { message }
    }

    pub fn message(&self) -> (r: &str)
        ensures
            r@ == self@,
    {
        self.message.as_str()
    }
}

/// The packet source that an endpoint was observed at.
#[derive(Clone, Debug, PartialEq, Eq)]
pub struct PinnedDiscoveryEndpoint {
    pub source_address: SourceAddress,
    /// The address as it is written in text.
    pub address_text: String,
    pub port: u16,
    pub scheme: String,
    pub path: String,
}

#[verifier::ext_equal]
pub struct PinnedDiscoveryEndpointView {
    pub source_address: SourceAddress,
    pub address_text: Seq<char>,
    pub port: u16,
    pub scheme: Seq<char>,
    pub path: Seq<char>,
}

impl View for PinnedDiscoveryEndpoint {
    type V = PinnedDiscoveryEndpointView;

    open spec fn view(&self) -> PinnedDiscoveryEndpointView {
        PinnedDiscoveryEndpointView {
            source_address: self.source_address,
            address_text: self.address_text@,
            port: self.port,
            scheme: self.scheme@,
            path: self.path@,
        }
    }
}

impl Copied for PinnedDiscoveryEndpoint {
    fn copied(&self) -> (r: Self) {
        PinnedDiscoveryEndpoint {
            source_address: self.source_address,
            address_text: self.address_text.copied(),
            port: self.port,
            scheme: self.scheme.copied(),
            path: self.path.copied(),
        }
    }
}

#[derive(Clone, Debug, PartialEq, Eq)]
pub struct DiscoveredSource {
    pub id: String,
    pub label: String,
    pub category: DiscoverySourceCategory,
    pub status: DiscoverySourceStatus,
    pub protocol: String,
    pub endpoint: PinnedDiscoveryEndpoint,
}

#[verifier::ext_equal]
pub struct DiscoveredSourceView {
    pub id: Seq<char>,
    pub label: Seq<char>,
    pub category: DiscoverySourceCategory,
    pub status: DiscoverySourceStatus,
    pub protocol: Seq<char>,
    pub endpoint: PinnedDiscoveryEndpointView,
}

impl View for DiscoveredSource {
    type V = DiscoveredSourceView;

    open spec fn view(&self) -> DiscoveredSourceView {
        DiscoveredSourceView {
            id: self.id@,
            label: self.label@,
            category: self.category,
            status: self.status,
            protocol: self.protocol@,
            endpoint: self.endpoint@,
        }
    }
}

impl Copied for DiscoveredSource {
    fn copied(&self) -> (r: Self) {
        DiscoveredSource {
            id: self.id.copied(),
            label: self.label.copied(),
            category: self.category,
            status: self.status,
            protocol: self.protocol.copied(),
            endpoint: self.endpoint.copied(),
        }
    }
}

/// The verified identity of an edge agent. It never crosses the public discovery interface.
#[derive(Clone, Debug, PartialEq, Eq)]
pub struct EdgeObservationIdentity {
    pub device_id: String,
    pub public_key: [u8; 32],
    pub nonce: [u8; 16],
    pub timestamp_seconds: i64,
    pub organization_id: Option<String>,
    pub organization_trusted: bool,
}

#[verifier::ext_equal]
pub struct EdgeObservationIdentityView {
    pub device_id: Seq<char>,
    pub public_key: Seq<u8>,
    pub nonce: Seq<u8>,
    pub timestamp_seconds: i64,
    pub organization_id: Option<Seq<char>>,
    pub organization_trusted: bool,
}

impl View for EdgeObservationIdentity {
    type V = EdgeObservationIdentityView;

    open spec fn view(&self) -> EdgeObservationIdentityView {
        EdgeObservationIdentityView {
            device_id: self.device_id@,
            public_key: self.public_key@,
            nonce: self.nonce@,
            timestamp_seconds: self.timestamp_seconds,
            organization_id: table::view_option(self.organization_id),
            organization_trusted: self.organization_trusted,
        }
    }
}

impl Copied for EdgeObservationIdentity {
    fn copied(&self) -> (r: Self) {
        EdgeObservationIdentity {
            device_id: self.device_id.copied(),
            public_key: self.public_key,
            nonce: self.nonce,
            timestamp_seconds: self.timestamp_seconds,
            organization_id: copy_option(&self.organization_id),
            organization_trusted: self.organization_trusted,
        }
    }
}

/// What one discovery pass saw of one machine.
#[derive(Clone, Debug, PartialEq, Eq)]
pub struct DiscoveryObservation {
    pub fingerprint: String,
    pub display_name: String,
    pub category: DiscoveryCandidateCategory,
    /// One of `robot`, `drone`, `vehicle`, `camera`, or `gateway`.
    pub suggested_device_kind: String,
    /// A known integration kind such as `rerun` or `rtsp`.
    pub integration_kind: String,
    pub endpoint_label: String,
    pub last_seen_at_ms: i64,
    pub expires_at_ms: i64,
    pub sources: Vec<DiscoveredSource>,
    pub edge_identity: Option<EdgeObservationIdentity>,
}

#[verifier::ext_equal]
pub struct DiscoveryObservationView {
    pub fingerprint: Seq<char>,
    pub display_name: Seq<char>,
    pub category: DiscoveryCandidateCategory,
    pub suggested_device_kind: Seq<char>,
    pub integration_kind: Seq<char>,
    pub endpoint_label: Seq<char>,
    pub last_seen_at_ms: i64,
    pub expires_at_ms: i64,
    pub sources: Seq<DiscoveredSourceView>,
    pub edge_identity: Option<EdgeObservationIdentityView>,
}

impl View for DiscoveryObservation {
    type V = DiscoveryObservationView;

    open spec fn view(&self) -> DiscoveryObservationView {
        DiscoveryObservationView {
            fingerprint: self.fingerprint@,
            display_name: self.display_name@,
            category: self.category,
            suggested_device_kind: self.suggested_device_kind@,
            integration_kind: self.integration_kind@,
            endpoint_label: self.endpoint_label@,
            last_seen_at_ms: self.last_seen_at_ms,
            expires_at_ms: self.expires_at_ms,
            sources: table::views(self.sources@),
            edge_identity: table::view_option(self.edge_identity),
        }
    }
}

impl Copied for DiscoveryObservation {
    fn copied(&self) -> (r: Self) {
        DiscoveryObservation {
            fingerprint: self.fingerprint.copied(),
            display_name: self.display_name.copied(),
            category: self.category,
            suggested_device_kind: self.suggested_device_kind.copied(),
            integration_kind: self.integration_kind.copied(),
            endpoint_label: self.endpoint_label.copied(),
            last_seen_at_ms: self.last_seen_at_ms,
            expires_at_ms: self.expires_at_ms,
            sources: copy_all(&self.sources),
            edge_identity: copy_option(&self.edge_identity),
        }
    }
}

#[derive(Clone, Debug)]
pub struct ProviderVerification {
    pub status: ProviderVerificationStatus,
    /// A fresh observation of the same pinned identity, when it is still present.
    pub observation: Option<DiscoveryObservation>,
}

#[verifier::ext_equal]
pub struct ProviderVerificationView {
    pub status: ProviderVerificationStatus,
    pub observation: Option<DiscoveryObservationView>,
}

impl View for ProviderVerification {
    type V = ProviderVerificationView;

    open spec fn view(&self) -> ProviderVerificationView {
        ProviderVerificationView {
            status: self.status,
            observation: table::view_option(self.observation),
        }
    }
}

impl Copied for ProviderVerification {
    fn copied(&self) -> (r: Self) {
        ProviderVerification {
            status: self.status,
            observation: copy_option(&self.observation),
        }
    }
}

/// A verification and the identity it was made for.
#[derive(Debug)]
pub struct StoredVerification {
    pub dto: CandidateVerification,
    pub fingerprint: String,
    pub expires_at_ms: i64,
}

#[verifier::ext_equal]
pub struct StoredVerificationView {
    pub dto: CandidateVerificationView,
    pub fingerprint: Seq<char>,
    pub expires_at_ms: i64,
}

impl View for StoredVerification {
    type V = StoredVerificationView;

    open spec fn view(&self) -> StoredVerificationView {
        StoredVerificationView {
            dto: self.dto@,
            fingerprint: self.fingerprint@,
            expires_at_ms: self.expires_at_ms,
        }
    }
}

impl Copied for StoredVerification {
    fn copied(&self) -> (r: Self) {
        StoredVerification {
            dto: self.dto.copied(),
            fingerprint: self.fingerprint.copied(),
            expires_at_ms: self.expires_at_ms,
        }
    }
}

/// The answer to an approval, kept for its repetition.
#[derive(Debug)]
pub struct StoredApproval {
    pub input_fingerprint: String,
    pub receipt: NetworkLinkReceipt,
}

#[verifier::ext_equal]
pub struct StoredApprovalView {
    pub input_fingerprint: Seq<char>,
    pub receipt: NetworkLinkReceiptView,
}

impl View for StoredApproval {
    type V = StoredApprovalView;

    open spec fn view(&self) -> StoredApprovalView {
        StoredApprovalView {
            input_fingerprint: self.input_fingerprint@,
            receipt: self.receipt@,
        }
    }
}

impl Copied for StoredApproval {
    fn copied(&self) -> (r: Self) {
        StoredApproval {
            input_fingerprint: self.input_fingerprint.copied(),
            receipt: self.receipt.copied(),
        }
    }
}

/// A candidate of a discovery session.
#[derive(Debug)]
pub struct StoredCandidate {
    pub dto: DiscoveryCandidate,
    pub observation: DiscoveryObservation,
    pub verification: Option<StoredVerification>,
    pub verification_attempt: Option<String>,
    pub approval: Option<StoredApproval>,
}

#[verifier::ext_equal]
pub struct StoredCandidateView {
    pub dto: DiscoveryCandidateView,
    pub observation: DiscoveryObservationView,
    pub verification: Option<StoredVerificationView>,
    pub verification_attempt: Option<Seq<char>>,
    pub approval: Option<StoredApprovalView>,
}

impl View for StoredCandidate {
    type V = StoredCandidateView;

    open spec fn view(&self) -> StoredCandidateView {
        StoredCandidateView {
            dto: self.dto@,
            observation: self.observation@,
            verification: table::view_option(self.verification),
            verification_attempt: table::view_option(self.verification_attempt),
            approval: table::view_option(self.approval),
        }
    }
}

impl Copied for StoredCandidate {
    fn copied(&self) -> (r: Self) {
        StoredCandidate {
            dto: self.dto.copied(),
            observation: self.observation.copied(),
            verification: copy_option(&self.verification),
            verification_attempt: copy_option(&self.verification_attempt),
            approval: copy_option(&self.approval),
        }
    }
}

/// The session that an idempotency key was used for.
#[derive(Debug)]
pub struct StoredStartReceipt {
    pub organization_id: String,
    pub session_id: String,
}

#[verifier::ext_equal]
pub struct StoredStartReceiptView {
    pub organization_id: Seq<char>,
    pub session_id: Seq<char>,
}

impl View for StoredStartReceipt {
    type V = StoredStartReceiptView;

    open spec fn view(&self) -> StoredStartReceiptView {
        StoredStartReceiptView {
            organization_id: self.organization_id@,
            session_id: self.session_id@,
        }
    }
}

impl Copied for StoredStartReceipt {
    fn copied(&self) -> (r: Self) {
        StoredStartReceipt {
            organization_id: self.organization_id.copied(),
            session_id: self.session_id.copied(),
        }
    }
}

/// A discovery session with its candidates.
#[derive(Debug)]
pub struct StoredDiscoverySession {
    pub dto: NetworkDiscoverySession,
    pub organization_id: String,
    pub expires_at_ms: i64,
    pub purge_at_ms: i64,
    pub cancellation: DiscoveryCancellation,
    pub candidates: Table<StoredCandidate>,
}

#[verifier::ext_equal]
pub struct StoredDiscoverySessionView {
    pub dto: NetworkDiscoverySessionView,
    pub organization_id: Seq<char>,
    pub expires_at_ms: i64,
    pub purge_at_ms: i64,
    pub candidates: Map<Seq<char>, StoredCandidateView>,
}

impl View for StoredDiscoverySession {
    type V = StoredDiscoverySessionView;

    open spec fn view(&self) -> StoredDiscoverySessionView {
        StoredDiscoverySessionView {
            dto: self.dto@,
            organization_id: self.organization_id@,
            expires_at_ms: self.expires_at_ms,
            purge_at_ms: self.purge_at_ms,
            candidates: self.candidates@,
        }
    }
}

/// All discovery sessions, and the idempotency keys that started them.
#[derive(Debug)]
pub struct NetworkDiscoveryStore {
    pub sessions: Table<StoredDiscoverySession>,
    pub start_receipts: Table<StoredStartReceipt>,
}

#[verifier::ext_equal]
pub struct NetworkDiscoveryStoreView {
    pub sessions: Map<Seq<char>, StoredDiscoverySessionView>,
    pub start_receipts: Map<Seq<char>, StoredStartReceiptView>,
}

impl View for NetworkDiscoveryStore {
    type V = NetworkDiscoveryStoreView;

    open spec fn view(&self) -> NetworkDiscoveryStoreView {
        NetworkDiscoveryStoreView {
            sessions: self.sessions@,
            start_receipts: self.start_receipts@,
        }
    }
}

/// A session is over once its status is one of these.
pub open spec fn is_final(status: DiscoverySessionStatus) -> bool {
    status == DiscoverySessionStatus::Cancelled || status == DiscoverySessionStatus::Failed
        || status == DiscoverySessionStatus::Expired
}

/// A session at `now_ms`: past its end it is expired and has lost its candidates.
pub open spec fn aged_session(s: StoredDiscoverySessionView, now_ms: i64) -> StoredDiscoverySessionView {
    if s.expires_at_ms <= now_ms && !is_final(s.dto.status) {
        StoredDiscoverySessionView {
            dto: NetworkDiscoverySessionView {
                status: DiscoverySessionStatus::Expired,
                candidate_count: 0,
                resource_version: crate::catalog::next_version(s.dto.resource_version),
                ..s.dto
            },
            candidates: Map::empty(),
            ..s
        }
    } else {
        s
    }
}

/// The sessions that are still kept at `now_ms`.
pub open spec fn aged_sessions(
    m: Map<Seq<char>, StoredDiscoverySessionView>,
    now_ms: i64,
) -> Map<Seq<char>, StoredDiscoverySessionView> {
    Map::new(
        |k: Seq<char>| m.contains_key(k) && m[k].purge_at_ms > now_ms,
        |k: Seq<char>| aged_session(m[k], now_ms),
    )
}

/// The store at `now_ms`: purged sessions are gone together with the keys that started them.
pub open spec fn aged(s: NetworkDiscoveryStoreView, now_ms: i64) -> NetworkDiscoveryStoreView {
    let sessions = aged_sessions(s.sessions, now_ms);
    NetworkDiscoveryStoreView {
        sessions,
        start_receipts: Map::new(
            |k: Seq<char>|
                s.start_receipts.contains_key(k) && sessions.contains_key(
                    s.start_receipts[k].session_id,
                ),
            |k: Seq<char>| s.start_receipts[k],
        ),
    }
}

fn age_session(s: StoredDiscoverySession, now_ms: i64) -> (r: StoredDiscoverySession)
    ensures
        r@ == aged_session(s@, now_ms),
{
    if s.expires_at_ms <= now_ms && s.dto.status != DiscoverySessionStatus::Cancelled
        && s.dto.status != DiscoverySessionStatus::Failed && s.dto.status
        != DiscoverySessionStatus::Expired {
        s.cancellation.cancel();
        let mut r = s;
        r.dto.status = DiscoverySessionStatus::Expired;
        r.dto.resource_version = crate::catalog::version_after(r.dto.resource_version);
        r.candidates = Table::new();
        r.dto.candidate_count = 0;
        r
    } else {
        s
    }
}

impl Default for NetworkDiscoveryStore {
    fn default() -> (r: Self)
        ensures
            r@.sessions == Map::<Seq<char>, StoredDiscoverySessionView>::empty(),
            r@.start_receipts == Map::<Seq<char>, StoredStartReceiptView>::empty(),
    {
        NetworkDiscoveryStore::new()
    }
}

impl NetworkDiscoveryStore {
    pub fn new() -> (r: Self)
        ensures
            r@.sessions == Map::<Seq<char>, StoredDiscoverySessionView>::empty(),
            r@.start_receipts == Map::<Seq<char>, StoredStartReceiptView>::empty(),
    {
        NetworkDiscoveryStore { sessions: Table::new(), start_receipts: Table::new() }
    }

    /// Expires the sessions whose time is over and forgets those that were kept long enough.
    pub fn expire_and_purge(&mut self, now_ms: i64)
        ensures
            final(self)@ == aged(old(self)@, now_ms),
    {
        let ghost before = self@;
        let mut rest: Table<StoredDiscoverySession> = Table::new();
        std::mem::swap(&mut rest, &mut self.sessions);
        let mut kept: Table<StoredDiscoverySession> = Table::new();
        loop
            invariant_except_break
                forall|k: Seq<char>| #[trigger]
                    rest@.contains_key(k) ==> before.sessions.contains_key(k) && rest@[k]
                        == before.sessions[k],
                forall|k: Seq<char>|
                    #![trigger kept@.contains_key(k)]
                    #![trigger before.sessions.contains_key(k)]
                    kept@.contains_key(k) <==> before.sessions.contains_key(k)
                        && !rest@.contains_key(k) && before.sessions[k].purge_at_ms > now_ms,
                forall|k: Seq<char>| #[trigger]
                    kept@.contains_key(k) ==> kept@[k] == aged_session(before.sessions[k], now_ms),
            ensures
                kept@ == aged_sessions(before.sessions, now_ms),
            decreases rest.items().len(),
        {
            match rest.pop() {
                None => {
                    proof {
                        assert(kept@ =~= aged_sessions(before.sessions, now_ms));
                    }
                    break;
                },
                Some((key, session)) => {
                    if session.purge_at_ms > now_ms {
                        let session = age_session(session, now_ms);
                        let _ = kept.insert(key, session);
                    }
                },
            }
        }
        self.sessions = kept;
        let mut receipts: Table<StoredStartReceipt> = Table::new();
        std::mem::swap(&mut receipts, &mut self.start_receipts);
        let mut live: Table<StoredStartReceipt> = Table::new();
        loop
            invariant_except_break
                self.sessions@ == aged_sessions(before.sessions, now_ms),
                forall|k: Seq<char>| #[trigger]
                    receipts@.contains_key(k) ==> before.start_receipts.contains_key(k)
                        && receipts@[k] == before.start_receipts[k],
                forall|k: Seq<char>|
                    #![trigger live@.contains_key(k)]
                    #![trigger before.start_receipts.contains_key(k)]
                    live@.contains_key(k) <==> before.start_receipts.contains_key(k)
                        && !receipts@.contains_key(k) && aged_sessions(
                        before.sessions,
                        now_ms,
                    ).contains_key(before.start_receipts[k].session_id),
                forall|k: Seq<char>| #[trigger]
                    live@.contains_key(k) ==> live@[k] == before.start_receipts[k],
            ensures
                self.sessions@ == aged_sessions(before.sessions, now_ms),
                live@ == aged(before, now_ms).start_receipts,
            decreases receipts.items().len(),
        {
            match receipts.pop() {
                None => {
                    proof {
                        assert(live@ =~= aged(before, now_ms).start_receipts);
                    }
                    break;
                },
                Some((key, receipt)) => {
                    if self.sessions.contains(receipt.session_id.as_str()) {
                        let _ = live.insert(key, receipt);
                    }
                },
            }
        }
        self.start_receipts = live;
    }
}

/// Every key that is kept still leads to a session.
pub open spec fn receipts_lead_to_sessions(s: NetworkDiscoveryStoreView) -> bool {
    forall|k: Seq<char>| #[trigger]
        s.start_receipts.contains_key(k) ==> s.sessions.contains_key(
            s.start_receipts[k].session_id,
        )
}

/// After ageing, no key leads nowhere, no session is past its retention, and an unfinished
/// session is not past its end.
pub proof fn law_ageing_leaves_no_stale_entry(s: NetworkDiscoveryStoreView, now_ms: i64)
    ensures
        receipts_lead_to_sessions(aged(s, now_ms)),
        forall|k: Seq<char>| #[trigger]
            aged(s, now_ms).sessions.contains_key(k) ==> aged(s, now_ms).sessions[k].purge_at_ms
                > now_ms && (is_final(aged(s, now_ms).sessions[k].dto.status) || aged(
                s,
                now_ms,
            ).sessions[k].expires_at_ms > now_ms),
{
}

/// Ageing again, at the same time or later, is ageing once at the later time.
pub proof fn law_ageing_composes(s: NetworkDiscoveryStoreView, first_ms: i64, second_ms: i64)
    requires
        first_ms <= second_ms,
    ensures
        aged(aged(s, first_ms), second_ms) == aged(s, second_ms),
{
    let once = aged(s, second_ms);
    let twice = aged(aged(s, first_ms), second_ms);
    assert(once.sessions =~= twice.sessions);
    assert(once.start_receipts =~= twice.start_receipts);
}

/// A session that is past its end and not over yet.
pub open spec fn is_overdue(x: StoredDiscoverySessionView, now_ms: i64) -> bool {
    x.expires_at_ms <= now_ms && !is_final(x.dto.status)
}

/// Ageing keeps the sessions whose retention has not run out and the keys that lead to them. An
/// overdue one has expired, one version further and without its candidates; nothing else of it
/// and none of the others has changed. Ageing again at the same time changes nothing.
pub proof fn law_ageing_expires_what_is_overdue(
    s: NetworkDiscoveryStoreView,
    now_ms: i64,
    k: Seq<char>,
)
    ensures
        aged(s, now_ms).sessions.contains_key(k) <==> s.sessions.contains_key(k)
            && s.sessions[k].purge_at_ms > now_ms,
        aged(s, now_ms).start_receipts.contains_key(k) <==> s.start_receipts.contains_key(k)
            && aged(s, now_ms).sessions.contains_key(s.start_receipts[k].session_id),
        aged(s, now_ms).start_receipts.contains_key(k) ==> aged(s, now_ms).start_receipts[k]
            == s.start_receipts[k],
        aged(s, now_ms).sessions.contains_key(k) ==> {
            let old = s.sessions[k];
            aged(s, now_ms).sessions[k] == if is_overdue(old, now_ms) {
                StoredDiscoverySessionView {
                    dto: NetworkDiscoverySessionView {
                        status: DiscoverySessionStatus::Expired,
                        resource_version: crate::catalog::next_version(old.dto.resource_version),
                        candidate_count: 0,
                        ..old.dto
                    },
                    candidates: Map::empty(),
                    ..old
                }
            } else {
                old
            }
        },
        aged(aged(s, now_ms), now_ms) == aged(s, now_ms),
{
    law_ageing_composes(s, now_ms, now_ms);
}

/// Two observations of the same sources at the same endpoints.
pub open spec fn same_pin(left: Seq<DiscoveredSourceView>, right: Seq<DiscoveredSourceView>) -> bool {
    left.len() == right.len() && forall|i: int|
        0 <= i < left.len() ==> pinned_in(#[trigger] left[i], right)
}

pub open spec fn pinned_in(source: DiscoveredSourceView, list: Seq<DiscoveredSourceView>) -> bool {
    exists|j: int|
        0 <= j < list.len() && (#[trigger] list[j]).id == source.id && list[j].endpoint
            == source.endpoint
}

pub fn same_endpoint(left: &PinnedDiscoveryEndpoint, right: &PinnedDiscoveryEndpoint) -> (r: bool)
    ensures
        r == (left@ == right@),
{
    let r = left.source_address == right.source_address && left.port == right.port && text::same(
        left.address_text.as_str(),
        right.address_text.as_str(),
    ) && text::same(left.scheme.as_str(), right.scheme.as_str()) && text::same(
        left.path.as_str(),
        right.path.as_str(),
    );
    proof {
        if r {
            assert(left@ =~= right@);
        }
    }
    r
}

fn has_pin(source: &DiscoveredSource, list: &Vec<DiscoveredSource>) -> (r: bool)
    ensures
        r == pinned_in(source@, table::views(list@)),
{
    let mut j: usize = 0;
    while j < list.len()
        invariant
            j <= list@.len(),
            forall|k: int|
                0 <= k < j ==> !((#[trigger] table::views(list@)[k]).id == source@.id
                    && table::views(list@)[k].endpoint == source@.endpoint),
        decreases list@.len() - j,
    {
        proof {
            assert(table::views(list@)[j as int] == list@[j as int]@);
        }
        if text::same(list[j].id.as_str(), source.id.as_str()) && same_endpoint(
            &list[j].endpoint,
            &source.endpoint,
        ) {
            return true;
        }
        j = j + 1;
    }
    false
}

/// Whether both observations pin the same sources to the same endpoints.
pub fn same_source_pin(left: &DiscoveryObservation, right: &DiscoveryObservation) -> (r: bool)
    ensures
        r == same_pin(left@.sources, right@.sources),
{
    if left.sources.len() != right.sources.len() {
        return false;
    }
    let mut i: usize = 0;
    while i < left.sources.len()
        invariant
            i <= left.sources@.len(),
            left@.sources.len() == right@.sources.len(),
            left@.sources.len() == left.sources@.len(),
            forall|k: int| 0 <= k < i ==> pinned_in(#[trigger] left@.sources[k], right@.sources),
        decreases left.sources@.len() - i,
    {
        proof {
            assert(left@.sources[i as int] == left.sources@[i as int]@);
        }
        if !has_pin(&left.sources[i], &right.sources) {
            return false;
        }
        i = i + 1;
    }
    true
}

/// The candidate status that a provider's finding stands for.
pub open spec fn verification_status(status: ProviderVerificationStatus) -> CandidateVerificationStatus {
    match status {
        ProviderVerificationStatus::Verified => CandidateVerificationStatus::Verified,
        ProviderVerificationStatus::NeedsCredentials => CandidateVerificationStatus::NeedsCredentials,
        ProviderVerificationStatus::Incompatible => CandidateVerificationStatus::Incompatible,
        ProviderVerificationStatus::Unavailable => CandidateVerificationStatus::Unavailable,
    }
}

pub fn to_verification_status(status: ProviderVerificationStatus) -> (r: CandidateVerificationStatus)
    ensures
        r == verification_status(status),
{
    match status {
        ProviderVerificationStatus::Verified => CandidateVerificationStatus::Verified,
        ProviderVerificationStatus::NeedsCredentials => CandidateVerificationStatus::NeedsCredentials,
        ProviderVerificationStatus::Incompatible => CandidateVerificationStatus::Incompatible,
        ProviderVerificationStatus::Unavailable => CandidateVerificationStatus::Unavailable,
    }
}

/// `a + b`, or the nearest number that fits.
pub open spec fn saturated(n: int) -> i64 {
    if n > i64::MAX {
        i64::MAX
    } else if n < i64::MIN {
        i64::MIN
    } else {
        n as i64
    }
}

pub fn saturating_add(a: i64, b: i64) -> (r: i64)
    ensures
        r == saturated(a + b),
{
    match a.checked_add(b) {
        Some(n) => n,
        None => if b > 0 {
            i64::MAX
        } else {
            i64::MIN
        },
    }
}

pub fn saturating_sub(a: i64, b: i64) -> (r: i64)
    ensures
        r == saturated(a - b),
{
    match a.checked_sub(b) {
        Some(n) => n,
        None => if b < 0 {
            i64::MAX
        } else {
            i64::MIN
        },
    }
}

pub fn least(a: i64, b: i64) -> (r: i64)
    ensures
        r == if a <= b {
            a
        } else {
            b
        },
{
    if a <= b {
        a
    } else {
        b
    }
}

/// The status of a candidate says what the provider found: each finding has a status of its own.
pub proof fn law_candidates_show_the_finding(status: ProviderVerificationStatus)
    ensures
        verification_status(status) == CandidateVerificationStatus::Verified <==> status
            == ProviderVerificationStatus::Verified,
        verification_status(status) == CandidateVerificationStatus::NeedsCredentials <==> status
            == ProviderVerificationStatus::NeedsCredentials,
        verification_status(status) == CandidateVerificationStatus::Incompatible <==> status
            == ProviderVerificationStatus::Incompatible,
        verification_status(status) == CandidateVerificationStatus::Unavailable <==> status
            == ProviderVerificationStatus::Unavailable,
{
}

/// Two observations with different sources, or with a source at another endpoint, are not pinned
/// alike; the same sources are, in whatever order they are listed.
pub proof fn law_pins_hold_the_endpoints(
    left: Seq<DiscoveredSourceView>,
    right: Seq<DiscoveredSourceView>,
    i: int,
)
    requires
        0 <= i < left.len(),
    ensures
        same_pin(left, left),
        same_pin(left, left.reverse()),
        left.len() != right.len() ==> !same_pin(left, right),
        (forall|j: int|
            0 <= j < right.len() ==> (#[trigger] right[j]).id != left[i].id || right[j].endpoint
                != left[i].endpoint) ==> !same_pin(left, right),
{
    assert forall|k: int| 0 <= k < left.len() implies pinned_in(#[trigger] left[k], left)
        && pinned_in(left[k], left.reverse()) by {
        assert(left.reverse()[left.len() - 1 - k] == left[k]);
    }
    if same_pin(left, right) {
        assert(pinned_in(left[i], right));
    }
}

/// A sum that does not fit is moved to the nearest number that does.
pub proof fn law_sums_stay_in_range(n: int)
    ensures
        i64::MIN <= n <= i64::MAX ==> saturated(n) == n,
        n > i64::MAX ==> saturated(n) == 9_223_372_036_854_775_807,
        n < i64::MIN ==> saturated(n) == -9_223_372_036_854_775_808,
{
}

} // verus!
