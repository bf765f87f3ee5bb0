use rms::api::ApiErrorKind;
use rms::approval::{approval_input_fingerprint, approve_candidate};
use rms::catalog::Catalog;
use rms::discovery::{
    DiscoveredSource, DiscoveryCancellation, DiscoveryObservation, EdgeObservationIdentity,
    NetworkDiscoveryStore, PinnedDiscoveryEndpoint, SourceAddress,
};
use rms::discovery_flow::{
    begin_verification, cancel_discovery, complete_discovery, finish_verification, get_discovery,
    rollback_verification_attempt, start_discovery, BeginVerification,
};
use rms::discovery_rules::{endpoint_url, require_mutation_headers, validate_approval_input};
use rms::domain::{
    AccessMode, ApproveNetworkCandidateInput, CandidateVerification, CandidateVerificationStatus,
    DataVisibility, DiscoveryCandidateCategory, DiscoveryCandidateStatus, DiscoverySessionStatus,
    DiscoverySourceCategory, DiscoverySourceStatus, Project,
};
use rms::hashing::hex_sha256;
use rms::providers::{
    confirm_candidate, reject_replayed_edge_nonces, FakeDiscoveryProvider,
};
use rms::table::{Copied as _, Table};

const NOW_MS: i64 = 1_800_000_000_000;
const NOW: &str = "2027-01-15T08:00:00Z";

fn observation() -> DiscoveryObservation {
    DiscoveryObservation {
        fingerprint: "test-candidate".to_owned(),
        display_name: "Test robot".to_owned(),
        category: DiscoveryCandidateCategory::Robot,
        suggested_device_kind: "robot".to_owned(),
        integration_kind: "rerun".to_owned(),
        endpoint_label: "Test edge".to_owned(),
        last_seen_at_ms: NOW_MS,
        expires_at_ms: NOW_MS + 1_000,
        sources: vec![DiscoveredSource {
            id: "telemetry".to_owned(),
            label: "Telemetry".to_owned(),
            category: DiscoverySourceCategory::Telemetry,
            status: DiscoverySourceStatus::Ready,
            protocol: "rerun".to_owned(),
            endpoint: PinnedDiscoveryEndpoint {
                source_address: SourceAddress::V4 { a: 10, b: 0, c: 0, d: 2 },
                address_text: "10.0.0.2".to_owned(),
                port: 9877,
                scheme: "rerun+http".to_owned(),
                path: "/proxy".to_owned(),
            },
        }],
        edge_identity: None,
    }
}

fn edge_observation() -> DiscoveryObservation {
    let mut edge = observation();
    edge.integration_kind = "rms_edge".to_owned();
    edge.sources[0].id = "mavlink-telemetry".to_owned();
    edge.sources[0].protocol = "mavlink".to_owned();
    edge.sources[0].endpoint.scheme = "http".to_owned();
    edge.edge_identity = Some(EdgeObservationIdentity {
        device_id: "edge-device".to_owned(),
        public_key: [1; 32],
        nonce: [2; 16],
        timestamp_seconds: 1,
        organization_id: None,
        organization_trusted: false,
    });
    edge
}

fn catalog() -> Catalog {
    let mut catalog = Catalog::new();
    catalog.projects.insert(
        "project-logistics".to_owned(),
        Project {
            id: "project-logistics".to_owned(),
            organization_id: "org-rms".to_owned(),
            name: "Logistics".to_owned(),
            description: String::new(),
            status: "active".to_owned(),
            device_count: 0,
            online_device_count: 0,
            created_at: NOW.to_owned(),
            resource_version: 1,
        },
    );
    catalog
}

fn started(store: &mut NetworkDiscoveryStore) {
    let (session, new) = start_discovery(
        store,
        "start-1".to_owned(),
        "org-rms".to_owned(),
        "session-1".to_owned(),
        DiscoveryCancellation::new(),
        NOW_MS,
        300_000,
    )
    .expect("discovery starts");
    assert!(new);
    assert_eq!(session.status, DiscoverySessionStatus::Searching);
}

/// Searches with a provider and verifies the one candidate that it finds.
fn verified(provider: &FakeDiscoveryProvider) -> (NetworkDiscoveryStore, String, CandidateVerification) {
    let mut store = NetworkDiscoveryStore::new();
    started(&mut store);
    let devices = Table::new();
    complete_discovery(
        &mut store,
        "session-1",
        Some(provider.discover(false)),
        false,
        &devices,
        NOW_MS,
    );
    let snapshot = get_discovery(&mut store, "session-1", NOW_MS).expect("snapshot is available");
    assert_eq!(snapshot.session.status, DiscoverySessionStatus::Ready);
    let candidate = snapshot.candidates.first().expect("candidate is retained").id.clone();
    let begun = begin_verification(
        &mut store,
        "session-1",
        &candidate,
        "attempt-1".to_owned(),
        NOW_MS,
    )
    .expect("verification begins");
    let BeginVerification::Started { observation, session_expires_at_ms, previous_status } = begun
    else {
        panic!("nothing was verified before");
    };
    let result = provider.verify(&observation, false);
    let verification = finish_verification(
        &mut store,
        "session-1",
        &candidate,
        "attempt-1",
        previous_status,
        &observation,
        Some(result),
        "token-1".to_owned(),
        session_expires_at_ms,
        60_000,
        NOW_MS,
    )
    .expect("candidate verifies");
    assert_eq!(verification.status, CandidateVerificationStatus::Verified);
    (store, candidate, verification)
}

fn input(verification: &CandidateVerification, version: u64, source: &str) -> ApproveNetworkCandidateInput {
    ApproveNetworkCandidateInput {
        verification_token: verification.verification_token.clone(),
        project_id: "project-logistics".to_owned(),
        expected_workspace_version: version,
        device_name: "Edge vehicle".to_owned(),
        selected_source_ids: vec![source.to_owned()],
        access_mode: AccessMode::Observe,
        visibility: DataVisibility::Operator,
    }
}

#[test]
fn signed_edge_candidate_completes_scan_verify_and_approval() {
    let provider = FakeDiscoveryProvider::new(vec![edge_observation()]);
    let (mut store, candidate, verification) = verified(&provider);
    let mut catalog = catalog();
    let input = input(&verification, catalog.snapshot_version, "mavlink-telemetry");
    let receipt = approve_candidate(
        &mut store,
        &mut catalog,
        "session-1",
        &candidate,
        &input,
        "da-1",
        &vec!["ds-1".to_owned()],
        NOW_MS,
        NOW_MS,
        NOW,
    )
    .expect("Edge candidate approval succeeds");
    assert_eq!(
        catalog.integrations.get(&receipt.integration_id).expect("approved Edge integration exists").kind,
        "rms_edge"
    );
    let enrollment =
        catalog.edge_enrollments.get("edge-device").expect("the edge device is enrolled");
    assert_eq!(enrollment.public_key, "AQEBAQEBAQEBAQEBAQEBAQEBAQEBAQEBAQEBAQEBAQE");
    assert_eq!(catalog.live_sessions.len(), 0);
    assert_eq!(catalog.leases.len(), 0);
}

#[test]
fn approval_never_creates_live_or_control_state() {
    let provider = FakeDiscoveryProvider::new(vec![observation()]);
    let (mut store, candidate, verification) = verified(&provider);
    let mut catalog = catalog();
    let input = input(&verification, catalog.snapshot_version, "telemetry");
    let receipt = approve_candidate(
        &mut store,
        &mut catalog,
        "session-1",
        &candidate,
        &input,
        "da-1",
        &vec!["ds-1".to_owned()],
        NOW_MS,
        NOW_MS,
        NOW,
    )
    .expect("candidate approval succeeds");
    assert_eq!(catalog.live_sessions.len(), 0);
    assert_eq!(catalog.live_session_shutdown.len(), 0);
    assert_eq!(catalog.replay_sessions.len(), 0);
    assert_eq!(catalog.leases.len(), 0);
    assert_eq!(catalog.lease_epochs.len(), 0);
    assert_eq!(catalog.command_receipts.len(), 0);
    let assignment = catalog.device_assignments.get("da-1").expect("the device is assigned");
    assert_eq!(assignment.project_id, receipt.project_id);
    assert_eq!(assignment.device_id, receipt.device_id);
    assert_eq!(assignment.access_mode, AccessMode::Observe);
    assert_eq!(receipt.workspace_version, catalog.snapshot_version);
}

#[test]
fn repeated_approvals_return_the_receipt() {
    let provider = FakeDiscoveryProvider::new(vec![observation()]);
    let (mut store, candidate, verification) = verified(&provider);
    let mut catalog = catalog();
    let input = input(&verification, catalog.snapshot_version, "telemetry");
    let mut renamed = input.copied();
    renamed.device_name = "Another vehicle".to_owned();
    let mut approve = |catalog: &mut Catalog, input: &ApproveNetworkCandidateInput| {
        approve_candidate(
            &mut store,
            catalog,
            "session-1",
            &candidate,
            input,
            "da-1",
            &vec!["ds-1".to_owned()],
            NOW_MS,
            NOW_MS,
            NOW,
        )
    };
    let first = approve(&mut catalog, &input).unwrap();
    let version = catalog.snapshot_version;
    let again = approve(&mut catalog, &input).unwrap();
    assert_eq!(again.workspace_version, first.workspace_version);
    assert_eq!(again.device_id, first.device_id);
    assert_eq!(catalog.snapshot_version, version);
    assert_eq!(approve(&mut catalog, &renamed).unwrap_err().kind, ApiErrorKind::Conflict);
    assert_eq!(catalog.snapshot_version, version);
    assert_eq!(catalog.devices.len(), 1);
}

#[test]
fn approvals_are_told_apart_by_the_digest_of_their_settings() {
    let input = ApproveNetworkCandidateInput {
        verification_token: "token-1".to_owned(),
        project_id: "project-logistics".to_owned(),
        expected_workspace_version: 12,
        device_name: "The \"edge\"\nvehicle".to_owned(),
        selected_source_ids: vec!["telemetry".to_owned(), "camera".to_owned()],
        access_mode: AccessMode::Observe,
        visibility: DataVisibility::Restricted,
    };
    let json = [
        r#"{"verificationToken":"token-1","projectId":"project-logistics","#,
        r#""expectedWorkspaceVersion":12,"deviceName":"The \"edge\"\nvehicle","#,
        r#""selectedSourceIds":["telemetry","camera"],"accessMode":"observe","#,
        r#""visibility":"restricted"}"#,
    ]
    .concat();
    assert_eq!(approval_input_fingerprint(&input), hex_sha256(json.as_bytes()));
    let parsed: serde_json::Value = serde_json::from_str(&json).expect("the settings are JSON");
    assert_eq!(parsed["deviceName"], "The \"edge\"\nvehicle");
}

#[test]
fn approvals_need_the_current_workspace() {
    let provider = FakeDiscoveryProvider::new(vec![observation()]);
    let (mut store, candidate, verification) = verified(&provider);
    let mut catalog = catalog();
    let input = input(&verification, catalog.snapshot_version + 1, "telemetry");
    let refused = approve_candidate(
        &mut store,
        &mut catalog,
        "session-1",
        &candidate,
        &input,
        "da-1",
        &vec!["ds-1".to_owned()],
        NOW_MS,
        NOW_MS,
        NOW,
    )
    .unwrap_err();
    assert_eq!(
        refused.message,
        "The Project workspace changed. Refresh it before linking the candidate."
    );
    assert_eq!(catalog.devices.len(), 0);
    let mut none = input;
    none.selected_source_ids.clear();
    assert!(validate_approval_input(&none).is_err());
}

#[test]
fn repeated_starts_return_the_session() {
    let mut store = NetworkDiscoveryStore::new();
    started(&mut store);
    let (session, new) = start_discovery(
        &mut store,
        "start-1".to_owned(),
        "org-rms".to_owned(),
        "session-2".to_owned(),
        DiscoveryCancellation::new(),
        NOW_MS,
        300_000,
    )
    .unwrap();
    assert!(!new);
    assert_eq!(session.id, "session-1");
    cancel_discovery(&mut store, "session-1", NOW_MS).unwrap();
    let snapshot = get_discovery(&mut store, "session-1", NOW_MS).unwrap();
    assert_eq!(snapshot.session.status, DiscoverySessionStatus::Cancelled);
    assert!(get_discovery(&mut store, "missing", NOW_MS).is_err());
}

#[test]
fn rollback_undoes_begin() {
    let provider = FakeDiscoveryProvider::new(vec![observation()]);
    let mut store = NetworkDiscoveryStore::new();
    started(&mut store);
    complete_discovery(
        &mut store,
        "session-1",
        Some(provider.discover(false)),
        false,
        &Table::new(),
        NOW_MS,
    );
    let candidate =
        get_discovery(&mut store, "session-1", NOW_MS).unwrap().candidates[0].id.clone();
    begin_verification(&mut store, "session-1", &candidate, "a1".to_owned(), NOW_MS).unwrap();
    assert!(
        begin_verification(&mut store, "session-1", &candidate, "a2".to_owned(), NOW_MS).is_err()
    );
    rollback_verification_attempt(
        &mut store,
        "session-1",
        &candidate,
        "a1",
        DiscoveryCandidateStatus::Found,
    );
    assert!(
        begin_verification(&mut store, "session-1", &candidate, "a2".to_owned(), NOW_MS).is_ok()
    );
}

#[test]
fn old_sessions_expire_and_go() {
    let mut store = NetworkDiscoveryStore::new();
    started(&mut store);
    let snapshot = get_discovery(&mut store, "session-1", NOW_MS + 300_000).unwrap();
    assert_eq!(snapshot.session.status, DiscoverySessionStatus::Expired);
    assert!(get_discovery(&mut store, "session-1", NOW_MS + 600_000).is_err());
}

#[test]
fn ageing_expires_what_is_overdue() {
    let provider = FakeDiscoveryProvider::new(vec![observation()]);
    let (mut store, _, _) = verified(&provider);
    let before = store.sessions.get("session-1").expect("the session is kept");
    let (version, count) = (before.dto.resource_version, before.candidates.len());
    assert_eq!(count, 1);
    let signal = before.cancellation.clone();
    store.expire_and_purge(NOW_MS + 1);
    let kept = store.sessions.get("session-1").expect("the session is kept");
    assert_eq!(kept.dto.resource_version, version);
    assert_eq!(kept.candidates.len(), 1);
    assert!(!signal.is_cancelled());
    for _ in 0..2 {
        store.expire_and_purge(NOW_MS + 300_000);
        let expired = store.sessions.get("session-1").expect("the session is kept");
        assert_eq!(expired.dto.status, DiscoverySessionStatus::Expired);
        assert_eq!(expired.dto.resource_version, version + 1);
        assert_eq!(expired.dto.candidate_count, 0);
        assert_eq!(expired.candidates.len(), 0);
        assert!(signal.is_cancelled());
        assert_eq!(store.start_receipts.len(), 1);
    }
    store.expire_and_purge(NOW_MS + 600_000);
    assert_eq!(store.sessions.len(), 0);
    assert_eq!(store.start_receipts.len(), 0);
}

#[test]
fn announcements_never_repeat() {
    let mut nonces = Table::new();
    let seen = vec![edge_observation()];
    assert_eq!(reject_replayed_edge_nonces(&mut nonces, &seen, 1).len(), 1);
    assert_eq!(reject_replayed_edge_nonces(&mut nonces, &seen, 1).len(), 0);
}

#[test]
fn confirmations_pin_the_machine() {
    let candidate = observation();
    let mut moved = observation();
    moved.sources[0].endpoint.source_address = SourceAddress::V4 { a: 10, b: 0, c: 0, d: 3 };
    assert!(confirm_candidate(&vec![candidate.copied()], &candidate, false).observation.is_some());
    assert!(confirm_candidate(&vec![moved], &candidate, false).observation.is_none());
    assert!(confirm_candidate(&vec![candidate.copied()], &candidate, true).observation.is_none());
    assert_eq!(
        endpoint_url(&candidate.sources[0].endpoint),
        "rerun+http://10.0.0.2:9877/proxy"
    );
    assert!(require_mutation_headers(&None, &Some(b"r".to_vec())).is_err());
    assert_eq!(
        require_mutation_headers(&Some(b"key".to_vec()), &Some(b"r".to_vec())).unwrap(),
        "key"
    );
}

#[test]
fn answers_reveal_no_endpoints() {
    let mut moved = edge_observation();
    moved.sources[0].id = "telemetry".to_owned();
    moved.sources[0].endpoint.port = 4711;
    moved.sources[0].endpoint.path = "/hidden".to_owned();
    let answers: Vec<String> = [observation(), moved]
        .into_iter()
        .map(|seen| {
            let (mut store, _, verification) = verified(&FakeDiscoveryProvider::new(vec![seen]));
            let snapshot = get_discovery(&mut store, "session-1", NOW_MS).unwrap();
            format!("{:?} {:?}", snapshot.candidates, verification)
        })
        .collect();
    assert_eq!(answers[0], answers[1]);
    assert!(!answers[1].contains("hidden"));
    assert!(!answers[1].contains("edge-device"));
}
