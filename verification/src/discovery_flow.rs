//! The life of a discovery session: started, searched, verified, approved, cancelled.

use crate::api;
use crate::api::{ApiError, ApiErrorView};
use crate::catalog;
use crate::discovery;
use crate::discovery::{
    DiscoveredSource, DiscoveredSourceView, DiscoveryCancellation, DiscoveryObservation,
    DiscoveryObservationView, NetworkDiscoveryStore, NetworkDiscoveryStoreView,
    ProviderVerification, ProviderVerificationView, StoredCandidate, StoredCandidateView,
    StoredDiscoverySession, StoredDiscoverySessionView, StoredStartReceipt, StoredStartReceiptView,
    StoredVerification, StoredVerificationView,
};
use crate::discovery_rules;
use crate::domain::{
    CandidateVerification, CandidateVerificationStatus, CandidateVerificationView, Device,
    DeviceView, DiscoveryCandidate, DiscoveryCandidateStatus, DiscoveryCandidateView,
    DiscoverySessionStatus, DiscoverySourceStatus, NetworkDiscoverySession,
    NetworkDiscoverySessionView, NetworkDiscoverySnapshot, SuggestedDevice, SuggestedDeviceView,
    VerifiedDiscoverySource, VerifiedDiscoverySourceView,
};
use crate::hashing;
use crate::table;
use crate::table::{Copied, Table};
use crate::text;
use crate::time;
use vstd::prelude::*;

verus! {

/// Whether an idempotency key already started a session: none, that session, or the conflict.
pub open spec fn start_receipt(
    store: NetworkDiscoveryStoreView,
    key: Seq<char>,
    organization: Seq<char>,
) -> Result<Option<NetworkDiscoverySessionView>, ApiErrorView> {
    if !store.start_receipts.contains_key(key) {
        Ok(None)
    } else if store.start_receipts[key].organization_id != organization {
        Err(
            api::conflict(
                "Idempotency-Key was already used for another discovery request."@,
            ),
        )
    } else if !store.sessions.contains_key(store.start_receipts[key].session_id) {
        Err(api::internal("Network discovery idempotency state is inconsistent."@))
    } else {
        Ok(Some(store.sessions[store.start_receipts[key].session_id].dto))
    }
}

pub open spec fn session_answer(r: Result<Option<NetworkDiscoverySession>, ApiError>) -> Result<
    Option<NetworkDiscoverySessionView>,
    ApiErrorView,
> {
    match r {
        Ok(o) => Ok(table::view_option(o)),
        Err(e) => Err(e@),
    }
}

fn find_start(store: &NetworkDiscoveryStore, key: &str, organization: &str) -> (r: Result<
    Option<NetworkDiscoverySession>,
    ApiError,
>)
    ensures
        session_answer(r) == start_receipt(store@, key@, organization@),
{
    match store.start_receipts.get(key) {
        None => Ok(None),
        Some(receipt) => {
            if !text::same(receipt.organization_id.as_str(), organization) {
                return Err(
                    ApiError::conflict(
                        "Idempotency-Key was already used for another discovery request.",
                    ),
                );
            }
            match store.sessions.get(receipt.session_id.as_str()) {
                Some(session) => Ok(Some(session.dto.copied())),
                None => Err(
                    ApiError::internal("Network discovery idempotency state is inconsistent."),
                ),
            }
        },
    }
}

/// Looks for the session that an idempotency key already started.
pub fn repeated_start(
    store: &mut NetworkDiscoveryStore,
    key: &str,
    organization: &str,
    now_ms: i64,
) -> (r: Result<Option<NetworkDiscoverySession>, ApiError>)
    ensures
        final(store)@ == discovery::aged(old(store)@, now_ms),
        session_answer(r) == start_receipt(final(store)@, key@, organization@),
{
    store.expire_and_purge(now_ms);
    find_start(store, key, organization)
}

/// A session that starts at `now_ms`.
pub open spec fn new_session(id: Seq<char>, now_ms: i64, ttl_ms: i64) -> NetworkDiscoverySessionView {
    NetworkDiscoverySessionView {
        id,
        status: DiscoverySessionStatus::Searching,
        candidate_count: 0,
        started_at: time::iso(now_ms),
        expires_at: time::iso(discovery::saturated(now_ms + ttl_ms)),
        resource_version: 1,
    }
}

/// The store with a new session that `key` started.
pub open spec fn with_new_session(
    store: NetworkDiscoveryStoreView,
    key: Seq<char>,
    organization: Seq<char>,
    id: Seq<char>,
    now_ms: i64,
    ttl_ms: i64,
) -> NetworkDiscoveryStoreView {
    let expires_at_ms = discovery::saturated(now_ms + ttl_ms);
    NetworkDiscoveryStoreView {
        sessions: store.sessions.insert(
            id,
            StoredDiscoverySessionView {
                dto: new_session(id, now_ms, ttl_ms),
                organization_id: organization,
                expires_at_ms,
                purge_at_ms: discovery::saturated(
                    expires_at_ms + discovery::EXPIRED_SESSION_RETENTION_MS,
                ),
                candidates: Map::empty(),
            },
        ),
        start_receipts: store.start_receipts.insert(
            key,
            StoredStartReceiptView { organization_id: organization, session_id: id },
        ),
    }
}

/// Starts a session under an idempotency key, or answers with the session that the key started
/// before. The flag says whether the session is new.
pub fn start_discovery(
    store: &mut NetworkDiscoveryStore,
    key: String,
    organization: String,
    session_id: String,
    cancellation: DiscoveryCancellation,
    now_ms: i64,
    ttl_ms: i64,
) -> (r: Result<(NetworkDiscoverySession, bool), ApiError>)
    ensures
        ({
            let before = discovery::aged(old(store)@, now_ms);
            match start_receipt(before, key@, organization@) {
                Err(e) => final(store)@ == before && (r matches Err(found) && found@ == e),
                Ok(Some(session)) => final(store)@ == before && (r matches Ok((dto, new)) && dto@
                    == session && !new),
                Ok(None) => final(store)@ == with_new_session(
                    before,
                    key@,
                    organization@,
                    session_id@,
                    now_ms,
                    ttl_ms,
                ) && (r matches Ok((dto, new)) && dto@ == new_session(session_id@, now_ms, ttl_ms)
                    && new),
            }
        }),
{
    store.expire_and_purge(now_ms);
    match find_start(store, key.as_str(), organization.as_str()) {
        Err(e) => {
            return Err(e);
        },
        Ok(Some(session)) => {
            return Ok((session, false));
        },
        Ok(None) => {},
    }
    let expires_at_ms: i64 = discovery::saturating_add(now_ms, ttl_ms);
    let purge_at_ms: i64 = discovery::saturating_add(
        expires_at_ms,
        discovery::EXPIRED_SESSION_RETENTION_MS,
    );
    let dto = NetworkDiscoverySession {
        id: session_id.clone(),
        status: DiscoverySessionStatus::Searching,
        candidate_count: 0,
        started_at: time::iso_from_millis(now_ms),
        expires_at: time::iso_from_millis(expires_at_ms),
        resource_version: 1,
    };
    let answer = dto.copied();
    let session = StoredDiscoverySession {
        dto,
        organization_id: organization.clone(),
        expires_at_ms,
        purge_at_ms,
        cancellation,
        candidates: Table::new(),
    };
    let _ = store.sessions.insert(session_id.clone(), session);
    let _ = store.start_receipts.insert(
        key,
        StoredStartReceipt { organization_id: organization, session_id },
    );
    Ok((answer, true))
}

/// A repeated start is answered with the session that the first one opened, as long as that
/// session is kept.
pub proof fn law_repeated_start_returns_the_session(
    store: NetworkDiscoveryStoreView,
    key: Seq<char>,
    organization: Seq<char>,
    id: Seq<char>,
    now_ms: i64,
    ttl_ms: i64,
    later_ms: i64,
)
    requires
        discovery::saturated(
            discovery::saturated(now_ms + ttl_ms) + discovery::EXPIRED_SESSION_RETENTION_MS,
        ) > later_ms,
    ensures
        start_receipt(
            discovery::aged(
                with_new_session(store, key, organization, id, now_ms, ttl_ms),
                later_ms,
            ),
            key,
            organization,
        ) matches Ok(Some(session)) && session.id == id,
{
    let opened = with_new_session(store, key, organization, id, now_ms, ttl_ms);
    assert(opened.start_receipts.contains_key(key));
    assert(opened.sessions.contains_key(id));
    let later = discovery::aged(opened, later_ms);
    assert(later.sessions.contains_key(id));
    assert(later.start_receipts.contains_key(key));
}

/// Why a session cannot be worked with.
pub open spec fn session_failure(
    store: NetworkDiscoveryStoreView,
    session_id: Seq<char>,
    now_ms: i64,
) -> Option<ApiErrorView> {
    if !store.sessions.contains_key(session_id) {
        Some(api::not_found("NetworkDiscoverySession"@, session_id))
    } else {
        let s = store.sessions[session_id];
        if s.expires_at_ms <= now_ms || s.dto.status == DiscoverySessionStatus::Expired {
            Some(api::gone("The network discovery session has expired."@))
        } else if s.dto.status == DiscoverySessionStatus::Cancelled {
            Some(api::conflict("The network discovery session was cancelled."@))
        } else if s.dto.status == DiscoverySessionStatus::Failed {
            Some(api::conflict("The network discovery session failed."@))
        } else if s.dto.status == DiscoverySessionStatus::Searching {
            Some(api::conflict("The network discovery session is still searching."@))
        } else {
            None
        }
    }
}

fn check_session(store: &NetworkDiscoveryStore, session_id: &str, now_ms: i64) -> (r: Result<
    (),
    ApiError,
>)
    ensures
        discovery_rules::checked(r, session_failure(store@, session_id@, now_ms)),
{
    match store.sessions.get(session_id) {
        None => Err(ApiError::not_found("NetworkDiscoverySession", session_id)),
        Some(s) => {
            if s.expires_at_ms <= now_ms || s.dto.status == DiscoverySessionStatus::Expired {
                Err(ApiError::gone("The network discovery session has expired."))
            } else if s.dto.status == DiscoverySessionStatus::Cancelled {
                Err(ApiError::conflict("The network discovery session was cancelled."))
            } else if s.dto.status == DiscoverySessionStatus::Failed {
                Err(ApiError::conflict("The network discovery session failed."))
            } else if s.dto.status == DiscoverySessionStatus::Searching {
                Err(ApiError::conflict("The network discovery session is still searching."))
            } else {
                Ok(())
            }
        },
    }
}

/// The candidate of a session that can be worked with.
pub open spec fn candidate_lookup(
    store: NetworkDiscoveryStoreView,
    session_id: Seq<char>,
    candidate_id: Seq<char>,
    now_ms: i64,
) -> Result<StoredCandidateView, ApiErrorView> {
    match session_failure(store, session_id, now_ms) {
        Some(e) => Err(e),
        None => if store.sessions[session_id].candidates.contains_key(candidate_id) {
            Ok(store.sessions[session_id].candidates[candidate_id])
        } else {
            Err(api::not_found("DiscoveryCandidate"@, candidate_id))
        },
    }
}

pub fn find_candidate(
    store: &NetworkDiscoveryStore,
    session_id: &str,
    candidate_id: &str,
    now_ms: i64,
) -> (r: Result<StoredCandidate, ApiError>)
    ensures
        api::answer_view(r) == candidate_lookup(store@, session_id@, candidate_id@, now_ms),
{
    match check_session(store, session_id, now_ms) {
        Ok(()) => {},
        Err(e) => {
            return Err(e);
        },
    }
    match store.sessions.get(session_id) {
        None => Err(ApiError::not_found("NetworkDiscoverySession", session_id)),
        Some(session) => match session.candidates.get(candidate_id) {
            Some(c) => Ok(c.copied()),
            None => Err(ApiError::not_found("DiscoveryCandidate", candidate_id)),
        },
    }
}

/// The store with one candidate replaced.
pub open spec fn with_candidate(
    store: NetworkDiscoveryStoreView,
    session_id: Seq<char>,
    candidate_id: Seq<char>,
    candidate: StoredCandidateView,
) -> NetworkDiscoveryStoreView {
    let s = store.sessions[session_id];
    NetworkDiscoveryStoreView {
        sessions: store.sessions.insert(
            session_id,
            StoredDiscoverySessionView {
                candidates: s.candidates.insert(candidate_id, candidate),
                ..s
            },
        ),
        ..store
    }
}

pub fn put_candidate(
    store: &mut NetworkDiscoveryStore,
    session_id: &str,
    candidate_id: &str,
    candidate: StoredCandidate,
)
    requires
        old(store)@.sessions.contains_key(session_id@),
    ensures
        final(store)@ == with_candidate(old(store)@, session_id@, candidate_id@, candidate@),
{
    match store.sessions.remove(session_id) {
        None => {},
        Some(mut session) => {
            let ghost view = session@;
            let _ = session.candidates.insert(candidate_id.to_owned(), candidate);
            let _ = store.sessions.insert(session_id.to_owned(), session);
            proof {
                assert(store@.sessions =~= with_candidate(
                    old(store)@,
                    session_id@,
                    candidate_id@,
                    candidate@,
                ).sessions);
            }
        },
    }
}

/// Reads a session with its candidates in the order of their identifiers.
pub fn get_discovery(store: &mut NetworkDiscoveryStore, session_id: &str, now_ms: i64) -> (r: Result<
    NetworkDiscoverySnapshot,
    ApiError,
>)
    ensures
        final(store)@ == discovery::aged(old(store)@, now_ms),
        match r {
            Ok(snapshot) => final(store)@.sessions.contains_key(session_id@) && snapshot@.session
                == final(store)@.sessions[session_id@].dto && snapshot@.candidates
                == table::items_of(final(store)@.sessions[session_id@].candidates).map_values(
                |e: (Seq<char>, StoredCandidateView)| e.1.dto,
            ),
            Err(e) => !final(store)@.sessions.contains_key(session_id@) && e@ == api::not_found(
                "NetworkDiscoverySession"@,
                session_id@,
            ),
        },
{
    store.expire_and_purge(now_ms);
    match store.sessions.get(session_id) {
        None => Err(ApiError::not_found("NetworkDiscoverySession", session_id)),
        Some(session) => {
            let n: usize = session.candidates.len();
            let ghost items = session.candidates.items();
            let mut candidates: Vec<DiscoveryCandidate> = Vec::new();
            let mut i: usize = 0;
            while i < n
                invariant
                    i <= n,
                    n == items.len(),
                    items == session.candidates.items(),
                    candidates@.len() == i,
                    forall|j: int| 0 <= j < i ==> (#[trigger] candidates@[j])@ == items[j].1.dto,
                decreases n - i,
            {
                candidates.push(session.candidates.value_at(i).dto.copied());
                i = i + 1;
            }
            proof {
                assert(table::views(candidates@) =~= items.map_values(
                    |e: (Seq<char>, StoredCandidateView)| e.1.dto,
                ));
            }
            Ok(NetworkDiscoverySnapshot { session: session.dto.copied(), candidates })
        },
    }
}

/// A session that its user has cancelled.
pub open spec fn cancelled_session(s: StoredDiscoverySessionView) -> StoredDiscoverySessionView {
    if s.dto.status == DiscoverySessionStatus::Expired {
        s
    } else {
        StoredDiscoverySessionView {
            dto: NetworkDiscoverySessionView {
                status: DiscoverySessionStatus::Cancelled,
                resource_version: catalog::next_version(s.dto.resource_version),
                ..s.dto
            },
            ..s
        }
    }
}

/// Cancels a session; one that has expired stays expired.
pub fn cancel_discovery(store: &mut NetworkDiscoveryStore, session_id: &str, now_ms: i64) -> (r: Result<
    (),
    ApiError,
>)
    ensures
        ({
            let before = discovery::aged(old(store)@, now_ms);
            if before.sessions.contains_key(session_id@) {
                r is Ok && final(store)@ == (NetworkDiscoveryStoreView {
                    sessions: before.sessions.insert(
                        session_id@,
                        cancelled_session(before.sessions[session_id@]),
                    ),
                    ..before
                })
            } else {
                final(store)@ == before && (r matches Err(e) && e@ == api::not_found(
                    "NetworkDiscoverySession"@,
                    session_id@,
                ))
            }
        }),
{
    store.expire_and_purge(now_ms);
    let ghost before = store@;
    match store.sessions.remove(session_id) {
        None => {
            proof {
                assert(store@.sessions =~= before.sessions);
            }
            Err(ApiError::not_found("NetworkDiscoverySession", session_id))
        },
        Some(mut session) => {
            session.cancellation.cancel();
            if session.dto.status != DiscoverySessionStatus::Expired {
                session.dto.status = DiscoverySessionStatus::Cancelled;
                session.dto.resource_version = catalog::version_after(session.dto.resource_version);
            }
            let _ = store.sessions.insert(session_id.to_owned(), session);
            proof {
                assert(store@.sessions =~= before.sessions.insert(
                    session_id@,
                    cancelled_session(before.sessions[session_id@]),
                ));
            }
            Ok(())
        },
    }
}

/// What a verification request finds: a verification that still holds, or the start of a new one.
pub enum BeginVerification {
    Cached(CandidateVerification),
    Started { observation: DiscoveryObservation, session_expires_at_ms: i64, previous_status: DiscoveryCandidateStatus },
}

pub enum BeginVerificationView {
    Cached(CandidateVerificationView),
    Started {
        observation: DiscoveryObservationView,
        session_expires_at_ms: i64,
        previous_status: DiscoveryCandidateStatus,
    },
}

impl View for BeginVerification {
    type V = BeginVerificationView;

    open spec fn view(&self) -> BeginVerificationView {
        match self {
            BeginVerification::Cached(v) => BeginVerificationView::Cached(v@),
            BeginVerification::Started { observation, session_expires_at_ms, previous_status } => BeginVerificationView::Started {
                observation: observation@,
                session_expires_at_ms: *session_expires_at_ms,
                previous_status: *previous_status,
            },
        }
    }
}

pub open spec fn with_candidate_status(
    c: StoredCandidateView,
    status: DiscoveryCandidateStatus,
) -> StoredCandidateView {
    StoredCandidateView { dto: DiscoveryCandidateView { status, ..c.dto }, ..c }
}

/// The store and the answer after a verification request for a candidate.
pub open spec fn begin_outcome(
    store: NetworkDiscoveryStoreView,
    session_id: Seq<char>,
    candidate_id: Seq<char>,
    attempt_id: Seq<char>,
    now_ms: i64,
) -> (NetworkDiscoveryStoreView, Result<BeginVerificationView, ApiErrorView>) {
    match candidate_lookup(store, session_id, candidate_id, now_ms) {
        Err(e) => (store, Err(e)),
        Ok(c) => if c.verification is Some && c.verification->Some_0.expires_at_ms > now_ms {
            (store, Ok(BeginVerificationView::Cached(c.verification->Some_0.dto)))
        } else if c.verification_attempt is Some {
            (
                store,
                Err(api::conflict("This network candidate is already being verified."@)),
            )
        } else if c.dto.status == DiscoveryCandidateStatus::AlreadyLinked {
            (store, Err(api::conflict("This network candidate is already linked."@)))
        } else if c.observation.expires_at_ms <= now_ms {
            (
                with_candidate(
                    store,
                    session_id,
                    candidate_id,
                    with_candidate_status(c, DiscoveryCandidateStatus::Unavailable),
                ),
                Err(api::gone("The network candidate has expired."@)),
            )
        } else {
            (
                with_candidate(
                    store,
                    session_id,
                    candidate_id,
                    StoredCandidateView {
                        verification_attempt: Some(attempt_id),
                        ..with_candidate_status(c, DiscoveryCandidateStatus::Verifying)
                    },
                ),
                Ok(
                    BeginVerificationView::Started {
                        observation: c.observation,
                        session_expires_at_ms: store.sessions[session_id].expires_at_ms,
                        previous_status: c.dto.status,
                    },
                ),
            )
        },
    }
}

/// Claims a candidate for verification, unless a verification of it still holds.
pub fn begin_verification(
    store: &mut NetworkDiscoveryStore,
    session_id: &str,
    candidate_id: &str,
    attempt_id: String,
    now_ms: i64,
) -> (r: Result<BeginVerification, ApiError>)
    ensures
        (final(store)@, api::answer_view(r)) == begin_outcome(
            discovery::aged(old(store)@, now_ms),
            session_id@,
            candidate_id@,
            attempt_id@,
            now_ms,
        ),
{
    store.expire_and_purge(now_ms);
    let mut c = match find_candidate(store, session_id, candidate_id, now_ms) {
        Ok(c) => c,
        Err(e) => {
            return Err(e);
        },
    };
    let ghost view = c@;
    match &c.verification {
        Some(v) => {
            if v.expires_at_ms > now_ms {
                return Ok(BeginVerification::Cached(v.dto.copied()));
            }
        },
        None => {},
    }
    if c.verification_attempt.is_some() {
        return Err(ApiError::conflict("This network candidate is already being verified."));
    }
    if c.dto.status == DiscoveryCandidateStatus::AlreadyLinked {
        return Err(ApiError::conflict("This network candidate is already linked."));
    }
    if c.observation.expires_at_ms <= now_ms {
        c.dto.status = DiscoveryCandidateStatus::Unavailable;
        put_candidate(store, session_id, candidate_id, c);
        return Err(ApiError::gone("The network candidate has expired."));
    }
    let previous_status = c.dto.status;
    let observation = c.observation.copied();
    let session_expires_at_ms: i64 = match store.sessions.get(session_id) {
        Some(s) => s.expires_at_ms,
        None => 0,
    };
    c.verification_attempt = Some(attempt_id);
    c.dto.status = DiscoveryCandidateStatus::Verifying;
    put_candidate(store, session_id, candidate_id, c);
    Ok(BeginVerification::Started { observation, session_expires_at_ms, previous_status })
}

/// The store once a verification attempt was given up.
pub open spec fn rolled_back(
    store: NetworkDiscoveryStoreView,
    session_id: Seq<char>,
    candidate_id: Seq<char>,
    attempt_id: Seq<char>,
    previous_status: DiscoveryCandidateStatus,
) -> NetworkDiscoveryStoreView {
    if store.sessions.contains_key(session_id) && store.sessions[session_id].candidates.contains_key(
        candidate_id,
    ) && store.sessions[session_id].candidates[candidate_id].verification_attempt == Some(
        attempt_id,
    ) {
        let c = store.sessions[session_id].candidates[candidate_id];
        let status = if c.dto.status == DiscoveryCandidateStatus::Verifying {
            previous_status
        } else {
            c.dto.status
        };
        with_candidate(
            store,
            session_id,
            candidate_id,
            StoredCandidateView { verification_attempt: None, ..with_candidate_status(c, status) },
        )
    } else {
        store
    }
}

/// Gives up a verification attempt; an attempt that was superseded changes nothing.
pub fn rollback_verification_attempt(
    store: &mut NetworkDiscoveryStore,
    session_id: &str,
    candidate_id: &str,
    attempt_id: &str,
    previous_status: DiscoveryCandidateStatus,
)
    ensures
        final(store)@ == rolled_back(
            old(store)@,
            session_id@,
            candidate_id@,
            attempt_id@,
            previous_status,
        ),
{
    let found = match store.sessions.get(session_id) {
        None => None,
        Some(session) => match session.candidates.get(candidate_id) {
            None => None,
            Some(c) => if table::is_text(&c.verification_attempt, attempt_id) {
                Some(c.copied())
            } else {
                None
            },
        },
    };
    match found {
        None => {},
        Some(mut c) => {
            c.verification_attempt = None;
            if c.dto.status == DiscoveryCandidateStatus::Verifying {
                c.dto.status = previous_status;
            }
            put_candidate(store, session_id, candidate_id, c);
        },
    }
}

/// Giving up an attempt right after it began leaves the candidate as it was.
pub proof fn law_rollback_undoes_begin(
    store: NetworkDiscoveryStoreView,
    session_id: Seq<char>,
    candidate_id: Seq<char>,
    attempt_id: Seq<char>,
    now_ms: i64,
)
    requires
        begin_outcome(store, session_id, candidate_id, attempt_id, now_ms).1 matches Ok(begun)
            && begun is Started,
    ensures
        begin_outcome(store, session_id, candidate_id, attempt_id, now_ms).1 matches Ok(
            BeginVerificationView::Started { observation, session_expires_at_ms, previous_status },
        ) && rolled_back(
            begin_outcome(store, session_id, candidate_id, attempt_id, now_ms).0,
            session_id,
            candidate_id,
            attempt_id,
            previous_status,
        ) == store,
{
    let (begun, answer) = begin_outcome(store, session_id, candidate_id, attempt_id, now_ms);
    let c = store.sessions[session_id].candidates[candidate_id];
    let back = rolled_back(begun, session_id, candidate_id, attempt_id, c.dto.status);
    assert(back.sessions[session_id].candidates =~= store.sessions[session_id].candidates);
    assert(back.sessions =~= store.sessions);
    assert(back =~= store);
}

/// The fresh observation of a provider, if it is one of the same machine that still holds.
pub open spec fn accepted_observation(
    result: Option<ProviderVerificationView>,
    observation: DiscoveryObservationView,
    now_ms: i64,
) -> Option<DiscoveryObservationView> {
    match result {
        None => None,
        Some(p) => match p.observation {
            None => None,
            Some(fresh) => if fresh.fingerprint == observation.fingerprint && fresh.expires_at_ms
                > now_ms && discovery::same_pin(fresh.sources, observation.sources) {
                Some(fresh)
            } else {
                None
            },
        },
    }
}

/// The outcome of a verification: unavailable unless a fresh observation was accepted.
pub open spec fn accepted_status(
    result: Option<ProviderVerificationView>,
    observation: DiscoveryObservationView,
    now_ms: i64,
) -> CandidateVerificationStatus {
    if accepted_observation(result, observation, now_ms) is Some {
        discovery::verification_status(result->Some_0.status)
    } else {
        CandidateVerificationStatus::Unavailable
    }
}

pub open spec fn candidate_status_after(status: CandidateVerificationStatus) -> DiscoveryCandidateStatus {
    match status {
        CandidateVerificationStatus::Verified => DiscoveryCandidateStatus::Verified,
        CandidateVerificationStatus::NeedsCredentials => DiscoveryCandidateStatus::NeedsAttention,
        CandidateVerificationStatus::Incompatible => DiscoveryCandidateStatus::NeedsAttention,
        CandidateVerificationStatus::Unavailable => DiscoveryCandidateStatus::Unavailable,
    }
}

pub open spec fn min3(a: i64, b: i64, c: i64) -> i64 {
    let ab = if a <= b {
        a
    } else {
        b
    };
    if ab <= c {
        ab
    } else {
        c
    }
}

pub open spec fn verified_sources(
    sources: Seq<DiscoveredSourceView>,
    status: CandidateVerificationStatus,
) -> Seq<VerifiedDiscoverySourceView> {
    sources.map_values(
        |s: DiscoveredSourceView|
            VerifiedDiscoverySourceView {
                id: s.id,
                label: s.label,
                category: s.category,
                status: if status == CandidateVerificationStatus::Verified {
                    s.status
                } else {
                    DiscoverySourceStatus::Unavailable
                },
            },
    )
}

/// A candidate whose verification ended with `result`.
pub open spec fn verified_candidate(
    c: StoredCandidateView,
    observation: DiscoveryObservationView,
    result: Option<ProviderVerificationView>,
    token: Seq<char>,
    candidate_id: Seq<char>,
    session_expires_at_ms: i64,
    ttl_ms: i64,
    now_ms: i64,
) -> StoredCandidateView {
    let fresh = accepted_observation(result, observation, now_ms);
    let status = accepted_status(result, observation, now_ms);
    let current = match fresh {
        Some(o) => o,
        None => c.observation,
    };
    let last_seen_at = match fresh {
        Some(o) => time::iso(o.last_seen_at_ms),
        None => c.dto.last_seen_at,
    };
    let expires_at_ms = min3(
        discovery::saturated(now_ms + ttl_ms),
        session_expires_at_ms,
        current.expires_at_ms,
    );
    StoredCandidateView {
        dto: DiscoveryCandidateView {
            last_seen_at,
            status: candidate_status_after(status),
            ..c.dto
        },
        observation: current,
        verification: Some(
            StoredVerificationView {
                dto: CandidateVerificationView {
                    verification_token: token,
                    candidate_id,
                    status,
                    suggested_device: SuggestedDeviceView {
                        name: c.dto.display_name,
                        kind: current.suggested_device_kind,
                    },
                    sources: verified_sources(current.sources, status),
                    expires_at: time::iso(expires_at_ms),
                },
                fingerprint: current.fingerprint,
                expires_at_ms,
            },
        ),
        verification_attempt: None,
        approval: c.approval,
    }
}

/// The store and the answer once a provider has looked at a candidate.
pub open spec fn finish_outcome(
    store: NetworkDiscoveryStoreView,
    session_id: Seq<char>,
    candidate_id: Seq<char>,
    attempt_id: Seq<char>,
    previous_status: DiscoveryCandidateStatus,
    observation: DiscoveryObservationView,
    result: Option<ProviderVerificationView>,
    token: Seq<char>,
    session_expires_at_ms: i64,
    ttl_ms: i64,
    now_ms: i64,
) -> (NetworkDiscoveryStoreView, Result<CandidateVerificationView, ApiErrorView>) {
    let back = rolled_back(store, session_id, candidate_id, attempt_id, previous_status);
    match candidate_lookup(store, session_id, candidate_id, now_ms) {
        Err(e) => (back, Err(e)),
        Ok(c) => if c.verification_attempt != Some(attempt_id) {
            (
                back,
                Err(
                    api::conflict("The network candidate verification attempt was superseded."@),
                ),
            )
        } else if c.observation.fingerprint != observation.fingerprint || !discovery::same_pin(
            c.observation.sources,
            observation.sources,
        ) {
            (
                with_candidate(
                    store,
                    session_id,
                    candidate_id,
                    StoredCandidateView {
                        verification_attempt: None,
                        ..with_candidate_status(c, DiscoveryCandidateStatus::Unavailable)
                    },
                ),
                Err(
                    api::conflict("The network candidate identity changed during verification."@),
                ),
            )
        } else {
            let after = verified_candidate(
                c,
                observation,
                result,
                token,
                candidate_id,
                session_expires_at_ms,
                ttl_ms,
                now_ms,
            );
            (
                with_candidate(store, session_id, candidate_id, after),
                Ok(after.verification->Some_0.dto),
            )
        },
    }
}

fn verify_sources(sources: &Vec<DiscoveredSource>, status: CandidateVerificationStatus) -> (r: Vec<
    VerifiedDiscoverySource,
>)
    ensures
        table::views(r@) == verified_sources(table::views(sources@), status),
{
    let mut r: Vec<VerifiedDiscoverySource> = Vec::new();
    let mut i: usize = 0;
    while i < sources.len()
        invariant
            i <= sources@.len(),
            r@.len() == i,
            forall|j: int|
                0 <= j < i ==> (#[trigger] r@[j])@ == verified_sources(
                    table::views(sources@),
                    status,
                )[j],
        decreases sources@.len() - i,
    {
        let s = &sources[i];
        let source_status = if status == CandidateVerificationStatus::Verified {
            s.status
        } else {
            DiscoverySourceStatus::Unavailable
        };
        r.push(
            VerifiedDiscoverySource {
                id: s.id.clone(),
                label: s.label.clone(),
                category: s.category,
                status: source_status,
            },
        );
        i = i + 1;
    }
    proof {
        assert(table::views(r@) =~= verified_sources(table::views(sources@), status));
    }
    r
}

fn accept_observation(
    result: Option<ProviderVerification>,
    observation: &DiscoveryObservation,
    now_ms: i64,
) -> (r: (Option<DiscoveryObservation>, CandidateVerificationStatus))
    ensures
        table::view_option(r.0) == accepted_observation(
            table::view_option(result),
            observation@,
            now_ms,
        ),
        r.1 == accepted_status(table::view_option(result), observation@, now_ms),
{
    match result {
        None => (None, CandidateVerificationStatus::Unavailable),
        Some(p) => {
            let status = p.status;
            match p.observation {
                None => (None, CandidateVerificationStatus::Unavailable),
                Some(fresh) => {
                    if text::same(fresh.fingerprint.as_str(), observation.fingerprint.as_str())
                        && fresh.expires_at_ms > now_ms && discovery::same_source_pin(
                        &fresh,
                        observation,
                    ) {
                        (Some(fresh), discovery::to_verification_status(status))
                    } else {
                        (None, CandidateVerificationStatus::Unavailable)
                    }
                },
            }
        },
    }
}

fn verify_stored(
    c: StoredCandidate,
    observation: &DiscoveryObservation,
    result: Option<ProviderVerification>,
    token: String,
    candidate_id: &str,
    session_expires_at_ms: i64,
    ttl_ms: i64,
    now_ms: i64,
) -> (r: (StoredCandidate, CandidateVerification))
    ensures
        r.0@ == verified_candidate(
            c@,
            observation@,
            table::view_option(result),
            token@,
            candidate_id@,
            session_expires_at_ms,
            ttl_ms,
            now_ms,
        ),
        r.0@.verification matches Some(v) && v.dto == r.1@,
{
    let (fresh, status) = accept_observation(result, observation, now_ms);
    let mut c = c;
    match fresh {
        Some(o) => {
            c.dto.last_seen_at = time::iso_from_millis(o.last_seen_at_ms);
            c.observation = o;
        },
        None => {},
    }
    c.dto.status = match status {
        CandidateVerificationStatus::Verified => DiscoveryCandidateStatus::Verified,
        CandidateVerificationStatus::NeedsCredentials => DiscoveryCandidateStatus::NeedsAttention,
        CandidateVerificationStatus::Incompatible => DiscoveryCandidateStatus::NeedsAttention,
        CandidateVerificationStatus::Unavailable => DiscoveryCandidateStatus::Unavailable,
    };
    let until: i64 = discovery::least(
        discovery::least(discovery::saturating_add(now_ms, ttl_ms), session_expires_at_ms),
        c.observation.expires_at_ms,
    );
    let dto = CandidateVerification {
        verification_token: token,
        candidate_id: candidate_id.to_owned(),
        status,
        suggested_device: SuggestedDevice {
            name: c.dto.display_name.clone(),
            kind: c.observation.suggested_device_kind.clone(),
        },
        sources: verify_sources(&c.observation.sources, status),
        expires_at: time::iso_from_millis(until),
    };
    let answer = dto.copied();
    c.verification = Some(
        StoredVerification {
            dto,
            fingerprint: c.observation.fingerprint.clone(),
            expires_at_ms: until,
        },
    );
    c.verification_attempt = None;
    (c, answer)
}

/// Ends a verification attempt with what the provider found, or with nothing where it failed.
pub fn finish_verification(
    store: &mut NetworkDiscoveryStore,
    session_id: &str,
    candidate_id: &str,
    attempt_id: &str,
    previous_status: DiscoveryCandidateStatus,
    observation: &DiscoveryObservation,
    result: Option<ProviderVerification>,
    token: String,
    session_expires_at_ms: i64,
    ttl_ms: i64,
    now_ms: i64,
) -> (r: Result<CandidateVerification, ApiError>)
    ensures
        (final(store)@, api::answer_view(r)) == finish_outcome(
            discovery::aged(old(store)@, now_ms),
            session_id@,
            candidate_id@,
            attempt_id@,
            previous_status,
            observation@,
            table::view_option(result),
            token@,
            session_expires_at_ms,
            ttl_ms,
            now_ms,
        ),
{
    store.expire_and_purge(now_ms);
    let mut c = match find_candidate(store, session_id, candidate_id, now_ms) {
        Ok(c) => c,
        Err(e) => {
            rollback_verification_attempt(
                store,
                session_id,
                candidate_id,
                attempt_id,
                previous_status,
            );
            return Err(e);
        },
    };
    if !table::is_text(&c.verification_attempt, attempt_id) {
        rollback_verification_attempt(store, session_id, candidate_id, attempt_id, previous_status);
        return Err(
            ApiError::conflict("The network candidate verification attempt was superseded."),
        );
    }
    if !text::same(c.observation.fingerprint.as_str(), observation.fingerprint.as_str())
        || !discovery::same_source_pin(&c.observation, observation) {
        c.verification_attempt = None;
        c.dto.status = DiscoveryCandidateStatus::Unavailable;
        put_candidate(store, session_id, candidate_id, c);
        return Err(
            ApiError::conflict("The network candidate identity changed during verification."),
        );
    }
    let (after, answer) = verify_stored(
        c,
        observation,
        result,
        token,
        candidate_id,
        session_expires_at_ms,
        ttl_ms,
        now_ms,
    );
    put_candidate(store, session_id, candidate_id, after);
    Ok(answer)
}

/// A candidate ends up verified only if a provider says so and hands in a fresh observation of
/// the same fingerprint at the same endpoints.
pub proof fn law_verified_needs_a_fresh_pinned_observation(
    store: NetworkDiscoveryStoreView,
    session_id: Seq<char>,
    candidate_id: Seq<char>,
    attempt_id: Seq<char>,
    previous_status: DiscoveryCandidateStatus,
    observation: DiscoveryObservationView,
    result: Option<ProviderVerificationView>,
    token: Seq<char>,
    session_expires_at_ms: i64,
    ttl_ms: i64,
    now_ms: i64,
)
    requires
        finish_outcome(
            store,
            session_id,
            candidate_id,
            attempt_id,
            previous_status,
            observation,
            result,
            token,
            session_expires_at_ms,
            ttl_ms,
            now_ms,
        ).1 matches Ok(v) && v.status == CandidateVerificationStatus::Verified,
    ensures
        result matches Some(p) && p.status == discovery::ProviderVerificationStatus::Verified && (
        p.observation matches Some(fresh) && fresh.fingerprint == observation.fingerprint
            && fresh.expires_at_ms > now_ms && discovery::same_pin(
            fresh.sources,
            observation.sources,
        )),
{
}

/// The first eligible observation of each fingerprint, from the `i`th observation on, up to the
/// limit of candidates.
pub open spec fn kept_observations(
    list: Seq<DiscoveryObservationView>,
    i: int,
    kept: Map<Seq<char>, DiscoveryObservationView>,
    now_ms: i64,
) -> Map<Seq<char>, DiscoveryObservationView>
    decreases list.len() - i,
{
    if i < 0 || i >= list.len() || kept.len() >= discovery::MAX_CANDIDATES_PER_SESSION {
        kept
    } else if discovery_rules::observation_failure(list[i], now_ms) is Some || kept.contains_key(
        list[i].fingerprint,
    ) {
        kept_observations(list, i + 1, kept, now_ms)
    } else {
        kept_observations(list, i + 1, kept.insert(list[i].fingerprint, list[i]), now_ms)
    }
}

pub open spec fn candidate_id_of(session_id: Seq<char>, fingerprint: Seq<char>) -> Seq<char> {
    hashing::asset_id("network-candidate"@, session_id + "\0"@ + fingerprint)
}

pub open spec fn any_ready(sources: Seq<DiscoveredSourceView>) -> bool {
    exists|i: int|
        0 <= i < sources.len() && (#[trigger] sources[i]).status == DiscoverySourceStatus::Ready
}

/// The candidate that an observation becomes.
pub open spec fn new_candidate(
    session_id: Seq<char>,
    o: DiscoveryObservationView,
    devices: Map<Seq<char>, DeviceView>,
) -> StoredCandidateView {
    StoredCandidateView {
        dto: DiscoveryCandidateView {
            id: candidate_id_of(session_id, o.fingerprint),
            session_id,
            display_name: o.display_name,
            category: o.category,
            status: if devices.contains_key(
                hashing::asset_id("device-network"@, o.fingerprint),
            ) {
                DiscoveryCandidateStatus::AlreadyLinked
            } else {
                DiscoveryCandidateStatus::Found
            },
            last_seen_at: time::iso(o.last_seen_at_ms),
            source_count: o.sources.len() as usize,
            supports_live: any_ready(o.sources),
        },
        observation: o,
        verification: None,
        verification_attempt: None,
        approval: None,
    }
}

/// The candidates of the first `i` observations.
pub open spec fn candidates_of(
    session_id: Seq<char>,
    items: Seq<(Seq<char>, DiscoveryObservationView)>,
    i: int,
    devices: Map<Seq<char>, DeviceView>,
) -> Map<Seq<char>, StoredCandidateView>
    decreases i,
{
    if i <= 0 {
        Map::empty()
    } else {
        candidates_of(session_id, items, i - 1, devices).insert(
            candidate_id_of(session_id, items[i - 1].1.fingerprint),
            new_candidate(session_id, items[i - 1].1, devices),
        )
    }
}

/// A session whose search ended.
pub open spec fn completed_session(
    s: StoredDiscoverySessionView,
    session_id: Seq<char>,
    result: Option<Seq<DiscoveryObservationView>>,
    cancelled: bool,
    devices: Map<Seq<char>, DeviceView>,
    now_ms: i64,
) -> StoredDiscoverySessionView {
    if cancelled || s.dto.status == DiscoverySessionStatus::Cancelled || s.dto.status
        == DiscoverySessionStatus::Expired {
        cancelled_session(s)
    } else {
        let version = catalog::next_version(s.dto.resource_version);
        match result {
            None => StoredDiscoverySessionView {
                dto: NetworkDiscoverySessionView {
                    status: DiscoverySessionStatus::Failed,
                    resource_version: version,
                    ..s.dto
                },
                ..s
            },
            Some(list) => {
                let items = table::items_of(kept_observations(list, 0, Map::empty(), now_ms));
                let candidates = candidates_of(session_id, items, items.len() as int, devices);
                StoredDiscoverySessionView {
                    dto: NetworkDiscoverySessionView {
                        status: DiscoverySessionStatus::Ready,
                        candidate_count: candidates.len() as usize,
                        resource_version: version,
                        ..s.dto
                    },
                    candidates,
                    ..s
                }
            },
        }
    }
}

/// The store once the search of a session ended.
pub open spec fn completed(
    store: NetworkDiscoveryStoreView,
    session_id: Seq<char>,
    result: Option<Seq<DiscoveryObservationView>>,
    cancelled: bool,
    devices: Map<Seq<char>, DeviceView>,
    now_ms: i64,
) -> NetworkDiscoveryStoreView {
    if store.sessions.contains_key(session_id) {
        NetworkDiscoveryStoreView {
            sessions: store.sessions.insert(
                session_id,
                completed_session(
                    store.sessions[session_id],
                    session_id,
                    result,
                    cancelled,
                    devices,
                    now_ms,
                ),
            ),
            ..store
        }
    } else {
        store
    }
}

fn keep_observations(list: &Vec<DiscoveryObservation>, now_ms: i64) -> (r: Table<
    DiscoveryObservation,
>)
    ensures
        r@ == kept_observations(table::views(list@), 0, Map::empty(), now_ms),
{
    let ghost views = table::views(list@);
    let mut kept: Table<DiscoveryObservation> = Table::new();
    let mut i: usize = 0;
    while i < list.len() && kept.len() < discovery::MAX_CANDIDATES_PER_SESSION
        invariant
            i <= list@.len(),
            views == table::views(list@),
            kept_observations(views, 0, Map::empty(), now_ms) == kept_observations(
                views,
                i as int,
                kept@,
                now_ms,
            ),
        decreases list@.len() - i,
    {
        assert(views[i as int] == list@[i as int]@);
        let o = &list[i];
        if discovery_rules::sanitize_observation(o, now_ms).is_ok() && !kept.contains(
            o.fingerprint.as_str(),
        ) {
            let _ = kept.insert(o.fingerprint.clone(), o.copied());
        }
        i = i + 1;
    }
    kept
}

fn has_ready(sources: &Vec<DiscoveredSource>) -> (r: bool)
    ensures
        r == any_ready(table::views(sources@)),
{
    let ghost views = table::views(sources@);
    let mut i: usize = 0;
    while i < sources.len()
        invariant
            i <= sources@.len(),
            views == table::views(sources@),
            forall|j: int|
                0 <= j < i ==> (#[trigger] views[j]).status != DiscoverySourceStatus::Ready,
        decreases sources@.len() - i,
    {
        assert(views[i as int] == sources@[i as int]@);
        if sources[i].status == DiscoverySourceStatus::Ready {
            return true;
        }
        i = i + 1;
    }
    false
}

fn make_candidate(session_id: &str, o: &DiscoveryObservation, devices: &Table<Device>) -> (r:
    StoredCandidate)
    ensures
        r@ == new_candidate(session_id@, o@, devices@),
{
    let identity = text::line(session_id).add("\0").add(o.fingerprint.as_str()).done();
    let id = hashing::stable_asset_id("network-candidate", identity.as_str());
    let device_id = hashing::stable_asset_id("device-network", o.fingerprint.as_str());
    let status = if devices.contains(device_id.as_str()) {
        DiscoveryCandidateStatus::AlreadyLinked
    } else {
        DiscoveryCandidateStatus::Found
    };
    let dto = DiscoveryCandidate {
        id,
        session_id: session_id.to_owned(),
        display_name: o.display_name.clone(),
        category: o.category,
        status,
        last_seen_at: time::iso_from_millis(o.last_seen_at_ms),
        source_count: o.sources.len(),
        supports_live: has_ready(&o.sources),
    };
    StoredCandidate {
        dto,
        observation: o.copied(),
        verification: None,
        verification_attempt: None,
        approval: None,
    }
}

fn make_candidates(session_id: &str, kept: &Table<DiscoveryObservation>, devices: &Table<Device>) -> (r:
    Table<StoredCandidate>)
    ensures
        r@ == candidates_of(
            session_id@,
            table::items_of(kept@),
            table::items_of(kept@).len() as int,
            devices@,
        ),
{
    let n: usize = kept.len();
    let ghost items = kept.items();
    let mut r: Table<StoredCandidate> = Table::new();
    let mut i: usize = 0;
    while i < n
        invariant
            i <= n,
            n == items.len(),
            items == kept.items(),
            r@ == candidates_of(session_id@, items, i as int, devices@),
        decreases n - i,
    {
        let candidate = make_candidate(session_id, kept.value_at(i), devices);
        let id = candidate.dto.id.clone();
        let _ = r.insert(id, candidate);
        i = i + 1;
    }
    r
}

/// Ends the search of a session with what the provider saw, or with nothing where it failed.
pub fn complete_discovery(
    store: &mut NetworkDiscoveryStore,
    session_id: &str,
    result: Option<Vec<DiscoveryObservation>>,
    cancelled: bool,
    devices: &Table<Device>,
    now_ms: i64,
)
    ensures
        final(store)@ == completed(
            discovery::aged(old(store)@, now_ms),
            session_id@,
            match result {
                Some(list) => Some(table::views(list@)),
                None => None,
            },
            cancelled,
            devices@,
            now_ms,
        ),
{
    store.expire_and_purge(now_ms);
    let ghost before = store@;
    match store.sessions.remove(session_id) {
        None => {
            proof {
                assert(store@.sessions =~= before.sessions);
            }
        },
        Some(session) => {
            let mut session = session;
            if cancelled || session.dto.status == DiscoverySessionStatus::Cancelled
                || session.dto.status == DiscoverySessionStatus::Expired {
                if session.dto.status != DiscoverySessionStatus::Expired {
                    session.dto.status = DiscoverySessionStatus::Cancelled;
                    session.dto.resource_version = catalog::version_after(
                        session.dto.resource_version,
                    );
                }
            } else {
                session.dto.resource_version = catalog::version_after(session.dto.resource_version);
                match result {
                    None => {
                        session.dto.status = DiscoverySessionStatus::Failed;
                    },
                    Some(list) => {
                        let kept = keep_observations(&list, now_ms);
                        let candidates = make_candidates(session_id, &kept, devices);
                        session.dto.candidate_count = candidates.len();
                        session.candidates = candidates;
                        session.dto.status = DiscoverySessionStatus::Ready;
                    },
                }
            }
            let _ = store.sessions.insert(session_id.to_owned(), session);
            proof {
                assert(store@.sessions =~= before.sessions.insert(
                    session_id@,
                    store@.sessions[session_id@],
                ));
            }
        },
    }
}

proof fn lemma_kept_bounded(
    list: Seq<DiscoveryObservationView>,
    i: int,
    kept: Map<Seq<char>, DiscoveryObservationView>,
    now_ms: i64,
)
    requires
        kept.dom().finite(),
        kept.len() <= discovery::MAX_CANDIDATES_PER_SESSION,
        forall|k: Seq<char>| #[trigger]
            kept.contains_key(k) ==> discovery_rules::observation_failure(kept[k], now_ms) is None,
    ensures
        ({
            let after = kept_observations(list, i, kept, now_ms);
            after.dom().finite() && after.len() <= discovery::MAX_CANDIDATES_PER_SESSION && forall|
                k: Seq<char>,
            | #[trigger]
                after.contains_key(k) ==> discovery_rules::observation_failure(
                    after[k],
                    now_ms,
                ) is None
        }),
    decreases list.len() - i,
{
    if 0 <= i < list.len() && kept.len() < discovery::MAX_CANDIDATES_PER_SESSION {
        if discovery_rules::observation_failure(list[i], now_ms) is Some || kept.contains_key(
            list[i].fingerprint,
        ) {
            lemma_kept_bounded(list, i + 1, kept, now_ms);
        } else {
            lemma_kept_bounded(
                list,
                i + 1,
                kept.insert(list[i].fingerprint, list[i]),
                now_ms,
            );
        }
    }
}

/// A search keeps no more observations than allowed, and none that is not eligible.
pub proof fn law_search_keeps_few_eligible_observations(
    list: Seq<DiscoveryObservationView>,
    now_ms: i64,
)
    ensures
        ({
            let kept = kept_observations(list, 0, Map::empty(), now_ms);
            kept.len() <= discovery::MAX_CANDIDATES_PER_SESSION && forall|k: Seq<char>| #[trigger]
                kept.contains_key(k) ==> discovery_rules::observation_failure(
                    kept[k],
                    now_ms,
                ) is None
        }),
{
    lemma_kept_bounded(list, 0, Map::empty(), now_ms);
}
/// Whether two observations differ in nothing but their endpoints, protocols and signed identity.
pub open spec fn same_but_endpoints(
    a: DiscoveryObservationView,
    b: DiscoveryObservationView,
) -> bool {
    &&& a.fingerprint == b.fingerprint
    &&& a.display_name == b.display_name
    &&& a.category == b.category
    &&& a.last_seen_at_ms == b.last_seen_at_ms
    &&& a.sources.len() == b.sources.len()
    &&& forall|i: int|
        0 <= i < a.sources.len() ==> {
            &&& (#[trigger] a.sources[i]).id == b.sources[i].id
            &&& a.sources[i].label == b.sources[i].label
            &&& a.sources[i].category == b.sources[i].category
            &&& a.sources[i].status == b.sources[i].status
        }
}

/// What is answered of a candidate and of its sources does not depend on endpoints, protocols or
/// the signed identity of what was observed: those are never revealed.
pub proof fn law_answers_reveal_no_endpoints(
    session_id: Seq<char>,
    a: DiscoveryObservationView,
    b: DiscoveryObservationView,
    devices: Map<Seq<char>, DeviceView>,
    status: CandidateVerificationStatus,
)
    requires
        same_but_endpoints(a, b),
    ensures
        new_candidate(session_id, a, devices).dto == new_candidate(session_id, b, devices).dto,
        verified_sources(a.sources, status) == verified_sources(b.sources, status),
{
    assert(verified_sources(a.sources, status) =~= verified_sources(b.sources, status)) by {
        assert forall|i: int| 0 <= i < a.sources.len() implies #[trigger] verified_sources(
            a.sources,
            status,
        )[i] == verified_sources(b.sources, status)[i] by {
            assert(a.sources[i].id == b.sources[i].id);
        }
    }
    if any_ready(a.sources) {
        let i = choose|i: int|
            0 <= i < a.sources.len() && (#[trigger] a.sources[i]).status
                == DiscoverySourceStatus::Ready;
        assert(b.sources[i].status == DiscoverySourceStatus::Ready);
    }
    if any_ready(b.sources) {
        let i = choose|i: int|
            0 <= i < b.sources.len() && (#[trigger] b.sources[i]).status
                == DiscoverySourceStatus::Ready;
        assert(a.sources[i].status == DiscoverySourceStatus::Ready);
    }
}

/// A candidate is verified anew exactly if its search has ended well and is still kept, it has no
/// verification that still holds, nobody verifies it, it is not linked, and what was observed of
/// it has not expired. Meanwhile it is marked as being verified.
pub proof fn law_verification_begins_for_fresh_candidates(
    store: NetworkDiscoveryStoreView,
    session_id: Seq<char>,
    candidate_id: Seq<char>,
    attempt_id: Seq<char>,
    now_ms: i64,
)
    ensures
        ({
            let (after, answer) = begin_outcome(store, session_id, candidate_id, attempt_id, now_ms);
            let s = store.sessions[session_id];
            let c = s.candidates[candidate_id];
            let d = after.sessions[session_id].candidates[candidate_id];
            &&& (answer matches Ok(BeginVerificationView::Started { .. })) <==> {
                &&& store.sessions.contains_key(session_id)
                &&& s.expires_at_ms > now_ms
                &&& s.dto.status == DiscoverySessionStatus::Ready
                &&& s.candidates.contains_key(candidate_id)
                &&& c.verification is Some ==> c.verification->Some_0.expires_at_ms <= now_ms
                &&& c.verification_attempt is None
                &&& c.dto.status != DiscoveryCandidateStatus::AlreadyLinked
                &&& c.observation.expires_at_ms > now_ms
            }
            &&& answer matches Ok(
                BeginVerificationView::Started {
                    observation,
                    session_expires_at_ms,
                    previous_status,
                },
            ) ==> {
                &&& observation == c.observation
                &&& session_expires_at_ms == s.expires_at_ms
                &&& previous_status == c.dto.status
                &&& d.dto.status == DiscoveryCandidateStatus::Verifying
                &&& d.verification_attempt == Some(attempt_id)
                &&& d.observation == c.observation
            }
            &&& answer matches Ok(BeginVerificationView::Cached(v)) ==> after == store
                && c.verification is Some && v == c.verification->Some_0.dto
                && c.verification->Some_0.expires_at_ms > now_ms
        }),
{
}

/// What a verification comes to: a finding is answered as the provider made it, for this candidate
/// and under its token; it holds no longer than it was asked to, than the search, or than what was
/// observed; and its sources count as usable only where the candidate was verified.
pub proof fn law_findings_are_answered_as_made(
    store: NetworkDiscoveryStoreView,
    session_id: Seq<char>,
    candidate_id: Seq<char>,
    attempt_id: Seq<char>,
    previous_status: DiscoveryCandidateStatus,
    observation: DiscoveryObservationView,
    result: Option<ProviderVerificationView>,
    token: Seq<char>,
    session_expires_at_ms: i64,
    ttl_ms: i64,
    now_ms: i64,
)
    requires
        i64::MIN <= now_ms + ttl_ms <= i64::MAX,
        finish_outcome(
            store,
            session_id,
            candidate_id,
            attempt_id,
            previous_status,
            observation,
            result,
            token,
            session_expires_at_ms,
            ttl_ms,
            now_ms,
        ).1 is Ok,
    ensures
        ({
            let (after, answer) = finish_outcome(
                store,
                session_id,
                candidate_id,
                attempt_id,
                previous_status,
                observation,
                result,
                token,
                session_expires_at_ms,
                ttl_ms,
                now_ms,
            );
            let v = answer->Ok_0;
            let before = store.sessions[session_id].candidates[candidate_id];
            let c = after.sessions[session_id].candidates[candidate_id];
            let stored = c.verification->Some_0;
            let sure = result is Some && result->Some_0.observation is Some
                && result->Some_0.observation->Some_0.fingerprint == observation.fingerprint
                && result->Some_0.observation->Some_0.expires_at_ms > now_ms && discovery::same_pin(
                result->Some_0.observation->Some_0.sources,
                observation.sources,
            );
            &&& before.verification_attempt == Some(attempt_id)
            &&& before.observation.fingerprint == observation.fingerprint
            &&& v.verification_token == token
            &&& v.candidate_id == candidate_id
            &&& !sure ==> v.status == CandidateVerificationStatus::Unavailable && c.observation
                == before.observation
            &&& sure ==> c.observation == result->Some_0.observation->Some_0 && (v.status
                == CandidateVerificationStatus::Verified <==> result->Some_0.status
                == discovery::ProviderVerificationStatus::Verified) && (v.status
                == CandidateVerificationStatus::NeedsCredentials <==> result->Some_0.status
                == discovery::ProviderVerificationStatus::NeedsCredentials) && (v.status
                == CandidateVerificationStatus::Incompatible <==> result->Some_0.status
                == discovery::ProviderVerificationStatus::Incompatible)
            &&& c.dto.status == DiscoveryCandidateStatus::Verified <==> v.status
                == CandidateVerificationStatus::Verified
            &&& c.dto.status == DiscoveryCandidateStatus::Unavailable <==> v.status
                == CandidateVerificationStatus::Unavailable
            &&& c.verification is Some && stored.dto == v
            &&& stored.fingerprint == c.observation.fingerprint
            &&& stored.expires_at_ms <= now_ms + ttl_ms
            &&& stored.expires_at_ms <= session_expires_at_ms
            &&& stored.expires_at_ms <= c.observation.expires_at_ms
            &&& stored.expires_at_ms == now_ms + ttl_ms || stored.expires_at_ms
                == session_expires_at_ms || stored.expires_at_ms == c.observation.expires_at_ms
            &&& v.expires_at == time::iso(stored.expires_at_ms)
            &&& c.verification_attempt is None
            &&& v.sources.len() == c.observation.sources.len()
            &&& forall|i: int|
                0 <= i < v.sources.len() ==> (#[trigger] v.sources[i]).id
                    == c.observation.sources[i].id && (v.sources[i].status
                    == DiscoverySourceStatus::Ready ==> v.status
                    == CandidateVerificationStatus::Verified && c.observation.sources[i].status
                    == DiscoverySourceStatus::Ready)
        }),
{
}

/// A search that its user cancelled ends cancelled; one that failed ends failed; any other ends
/// ready, with one candidate for each observation that it kept, each as it was observed: found, or
/// linked already where its device is known.
pub proof fn law_searches_end_with_what_was_observed(
    s: StoredDiscoverySessionView,
    session_id: Seq<char>,
    result: Option<Seq<DiscoveryObservationView>>,
    cancelled: bool,
    devices: Map<Seq<char>, DeviceView>,
    now_ms: i64,
    k: Seq<char>,
)
    requires
        s.dto.status == DiscoverySessionStatus::Searching,
    ensures
        ({
            let after = completed_session(s, session_id, result, cancelled, devices, now_ms);
            let c = after.candidates[k];
            &&& after.dto.status == DiscoverySessionStatus::Cancelled <==> cancelled
            &&& after.dto.status == DiscoverySessionStatus::Failed <==> !cancelled && result is None
            &&& after.dto.status == DiscoverySessionStatus::Ready <==> !cancelled && result is Some
            &&& after.dto.id == s.dto.id
            &&& after.expires_at_ms == s.expires_at_ms
            &&& after.organization_id == s.organization_id
            &&& !cancelled && result is Some ==> after.dto.candidate_count
                == after.candidates.len() as usize
            &&& !cancelled && result is Some && after.candidates.contains_key(k) ==> {
                &&& result->Some_0.contains(c.observation)
                &&& discovery_rules::observation_failure(c.observation, now_ms) is None
                &&& c.dto.session_id == session_id
                &&& c.dto.id == k
                &&& c.dto.display_name == c.observation.display_name
                &&& c.dto.category == c.observation.category
                &&& c.dto.last_seen_at == time::iso(c.observation.last_seen_at_ms)
                &&& c.dto.source_count == c.observation.sources.len() as usize
                &&& c.dto.supports_live <==> exists|i: int|
                    0 <= i < c.observation.sources.len() && (
                    #[trigger] c.observation.sources[i]).status == DiscoverySourceStatus::Ready
                &&& c.dto.status == DiscoveryCandidateStatus::AlreadyLinked <==> devices.contains_key(
                    hashing::asset_id("device-network"@, c.observation.fingerprint),
                )
                &&& c.verification is None && c.verification_attempt is None && c.approval is None
            }
        }),
{
    if !cancelled && result is Some {
        let list = result->Some_0;
        let kept = kept_observations(list, 0, Map::empty(), now_ms);
        let items = table::items_of(kept);
        lemma_kept_observed(list, 0, Map::empty(), now_ms);
        lemma_kept_bounded(list, 0, Map::empty(), now_ms);
        table::lemma_items_exist(kept);
        table::lemma_items_all(items);
        lemma_candidates_of(session_id, items, items.len() as int, devices, k);
        let after = completed_session(s, session_id, result, cancelled, devices, now_ms);
        if after.candidates.contains_key(k) {
            let i = choose|i: int|
                0 <= i < items.len() && candidate_id_of(
                    session_id,
                    (#[trigger] items[i]).1.fingerprint,
                ) == k && after.candidates[k] == new_candidate(session_id, items[i].1, devices);
            assert(kept.contains_key(items[i].0));
        }
    }
}

proof fn lemma_kept_observed(
    list: Seq<DiscoveryObservationView>,
    i: int,
    kept: Map<Seq<char>, DiscoveryObservationView>,
    now_ms: i64,
)
    requires
        0 <= i,
        kept.dom().finite(),
        forall|k: Seq<char>| #[trigger] kept.contains_key(k) ==> list.contains(kept[k]),
    ensures
        kept_observations(list, i, kept, now_ms).dom().finite(),
        forall|k: Seq<char>| #[trigger]
            kept_observations(list, i, kept, now_ms).contains_key(k) ==> list.contains(
                kept_observations(list, i, kept, now_ms)[k],
            ),
    decreases list.len() - i,
{
    if i < list.len() && kept.len() < discovery::MAX_CANDIDATES_PER_SESSION {
        assert(list.contains(list[i]));
        lemma_kept_observed(list, i + 1, kept, now_ms);
        lemma_kept_observed(list, i + 1, kept.insert(list[i].fingerprint, list[i]), now_ms);
    }
}

proof fn lemma_candidates_of(
    session_id: Seq<char>,
    items: Seq<(Seq<char>, DiscoveryObservationView)>,
    n: int,
    devices: Map<Seq<char>, DeviceView>,
    k: Seq<char>,
)
    requires
        0 <= n <= items.len(),
    ensures
        ({
            let m = candidates_of(session_id, items, n, devices);
            m.contains_key(k) ==> exists|i: int|
                0 <= i < n && candidate_id_of(session_id, (#[trigger] items[i]).1.fingerprint) == k
                    && m[k] == new_candidate(session_id, items[i].1, devices)
        }),
    decreases n,
{
    if n > 0 {
        lemma_candidates_of(session_id, items, n - 1, devices, k);
        let m = candidates_of(session_id, items, n, devices);
        let before = candidates_of(session_id, items, n - 1, devices);
        if m.contains_key(k) {
            if candidate_id_of(session_id, items[n - 1].1.fingerprint) == k {
                assert(m[k] == new_candidate(session_id, items[n - 1].1, devices));
            } else {
                assert(before.contains_key(k));
                let i = choose|i: int|
                    0 <= i < n - 1 && candidate_id_of(
                        session_id,
                        (#[trigger] items[i]).1.fingerprint,
                    ) == k && before[k] == new_candidate(session_id, items[i].1, devices);
                assert(candidate_id_of(session_id, items[i].1.fingerprint) == k);
            }
        }
    }
}

/// Every eligible observation of a search is kept, or another of the same fingerprint is, unless
/// there are as many as a search may have.
pub proof fn law_searches_keep_each_eligible_fingerprint(
    list: Seq<DiscoveryObservationView>,
    now_ms: i64,
    j: int,
)
    requires
        0 <= j < list.len(),
        discovery_rules::observation_failure(list[j], now_ms) is None,
    ensures
        ({
            let kept = kept_observations(list, 0, Map::empty(), now_ms);
            kept.contains_key(list[j].fingerprint) || kept.len() >= 128
        }),
{
    lemma_keeps(list, 0, Map::empty(), now_ms, j);
}

proof fn lemma_keeps(
    list: Seq<DiscoveryObservationView>,
    i: int,
    kept: Map<Seq<char>, DiscoveryObservationView>,
    now_ms: i64,
    j: int,
)
    requires
        0 <= i,
        0 <= j < list.len(),
        i <= j || kept.contains_key(list[j].fingerprint),
        discovery_rules::observation_failure(list[j], now_ms) is None,
    ensures
        ({
            let out = kept_observations(list, i, kept, now_ms);
            out.contains_key(list[j].fingerprint) || out.len()
                >= discovery::MAX_CANDIDATES_PER_SESSION
        }),
    decreases list.len() - i,
{
    if i < list.len() && kept.len() < discovery::MAX_CANDIDATES_PER_SESSION {
        if discovery_rules::observation_failure(list[i], now_ms) is Some || kept.contains_key(
            list[i].fingerprint,
        ) {
            lemma_keeps(list, i + 1, kept, now_ms, j);
        } else {
            lemma_keeps(list, i + 1, kept.insert(list[i].fingerprint, list[i]), now_ms, j);
        }
    }
}

/// A new search runs for its organization, without candidates, for as long as it was given, and is
/// found again under the key that started it. Other searches stay as they are.
pub proof fn law_new_searches_are_empty(
    store: NetworkDiscoveryStoreView,
    key: Seq<char>,
    organization: Seq<char>,
    id: Seq<char>,
    now_ms: i64,
    ttl_ms: i64,
    k: Seq<char>,
)
    requires
        i64::MIN <= now_ms + ttl_ms <= i64::MAX - 300_000,
    ensures
        ({
            let after = with_new_session(store, key, organization, id, now_ms, ttl_ms);
            let s = after.sessions[id];
            &&& after.sessions.contains_key(id)
            &&& s.dto.id == id
            &&& s.dto.status == DiscoverySessionStatus::Searching
            &&& s.dto.candidate_count == 0
            &&& s.candidates.len() == 0
            &&& s.organization_id == organization
            &&& s.expires_at_ms == now_ms + ttl_ms
            &&& s.purge_at_ms == now_ms + ttl_ms + 300_000
            &&& s.dto.started_at == time::iso(now_ms)
            &&& s.dto.expires_at == time::iso((now_ms + ttl_ms) as i64)
            &&& start_receipt(after, key, organization) == Ok::<
                Option<NetworkDiscoverySessionView>,
                ApiErrorView,
            >(Some(s.dto))
            &&& k != id && store.sessions.contains_key(k) ==> after.sessions[k]
                == store.sessions[k]
        }),
{
}

} // verus!
