use rms::api::ApiErrorKind;
use rms::catalog::Catalog;
use rms::control::{
    ensure_command_dispatch_available, ensure_device_can_be_controlled,
    ensure_session_control_scope, ensure_session_source_is_control_safe, get_control_state,
    release_control_lease, request_control_lease, same_request, send_command,
    validate_command_times, LEASE_DURATION_MS,
};
use rms::domain::{
    AccessMode, ControlLease, CreateDataAssignmentRequest, CreateDataSourceRequest,
    CreateDeviceAssignmentRequest, CreateDeviceRequest, CreateIntegrationRequest,
    CreateLiveSessionRequest, CreateProjectRequest, CreateReplaySessionRequest, DataAssignment,
    DataSource, DataVisibility, Device, DeviceAssignment, Integration, LiveSession,
    PlaybackCursor, Project, ReplayLoop, RequestControlLease, SendCommandRequest,
};
use rms::inventory::{
    create_data_source, create_device, create_integration, list_data_sources, list_devices,
    list_integrations, list_topics, validate_required,
};
use rms::projects::{
    create_data_assignment, create_device_assignment, create_project, delete_data_assignment,
    delete_device_assignment, get_workspace, list_projects, list_recordings, workspace_event_id,
};
use rms::sessions::{
    close_live_session, close_replay_session, create_live_session, create_replay_session,
    get_live_session, get_replay_session, live_events, open_live_stream, open_recording_stream,
    open_replay_stream, RecordingContent, ReplayStart,
};
use rms::table::Copied as _;

const NOW_MS: i64 = 1_787_184_000_000;
const NOW_NS: i128 = 1_787_184_000_000_000_000;
const NOW: &str = "2026-08-20T00:00:00Z";

fn fixture() -> Catalog {
    let mut catalog = Catalog::new();
    catalog.integrations.insert(
        "integration-logistics".to_owned(),
        Integration {
            id: "integration-logistics".to_owned(),
            organization_id: "org-rms".to_owned(),
            name: "Logistics".to_owned(),
            kind: "rerun".to_owned(),
            status: "connected".to_owned(),
            endpoint_label: "edge".to_owned(),
            last_health_at: NOW.to_owned(),
            created_at: NOW.to_owned(),
            resource_version: 1,
        },
    );
    catalog.devices.insert(
        "robot-07".to_owned(),
        Device {
            id: "robot-07".to_owned(),
            organization_id: "org-rms".to_owned(),
            integration_id: "integration-logistics".to_owned(),
            name: "Robot 07".to_owned(),
            kind: "robot".to_owned(),
            status: "online".to_owned(),
            health: "normal".to_owned(),
            operation_mode: "automatic".to_owned(),
            battery_percent: Some(80),
            task_name: "Delivery".to_owned(),
            task_progress: 10,
            last_seen_at: NOW.to_owned(),
            state_version: 142,
        },
    );
    catalog.data_sources.insert(
        "robot-07-source".to_owned(),
        DataSource {
            id: "robot-07-source".to_owned(),
            integration_id: "integration-logistics".to_owned(),
            device_id: "robot-07".to_owned(),
            name: "Telemetry".to_owned(),
            protocol: "rerun".to_owned(),
            status: "recording".to_owned(),
            live_url: "http://10.0.0.2".to_owned(),
            topic_ids: vec!["velocity".to_owned()],
            mapping_version: 3,
            last_data_at: NOW.to_owned(),
        },
    );
    catalog.projects.insert(
        "project-logistics".to_owned(),
        Project {
            id: "project-logistics".to_owned(),
            organization_id: "org-rms".to_owned(),
            name: "Logistics".to_owned(),
            description: String::new(),
            status: "active".to_owned(),
            device_count: 1,
            online_device_count: 1,
            created_at: NOW.to_owned(),
            resource_version: 1,
        },
    );
    catalog.device_assignments.insert(
        "assignment-1".to_owned(),
        DeviceAssignment {
            id: "assignment-1".to_owned(),
            project_id: "project-logistics".to_owned(),
            device_id: "robot-07".to_owned(),
            access_mode: AccessMode::Control,
            valid_from: NOW.to_owned(),
            valid_to: None,
            resource_version: 1,
        },
    );
    catalog.data_assignments.insert(
        "data-assignment-1".to_owned(),
        DataAssignment {
            id: "data-assignment-1".to_owned(),
            project_id: "project-logistics".to_owned(),
            data_source_id: "robot-07-source".to_owned(),
            visibility: DataVisibility::Operator,
            valid_from: NOW.to_owned(),
            valid_to: None,
            resource_version: 1,
        },
    );
    catalog
}

fn live_session(source_health: &str) -> LiveSession {
    LiveSession {
        id: "live-session-source-safety".to_owned(),
        project_id: "project-logistics".to_owned(),
        device_id: "robot-07".to_owned(),
        data_source_id: "robot-07-source".to_owned(),
        opened_by: "operator-01".to_owned(),
        status: "open".to_owned(),
        play_state: "following".to_owned(),
        source_health: source_health.to_owned(),
        stream_url: "/rerun/live/live-session-source-safety".to_owned(),
        started_at: "2026-08-20T00:00:00Z".to_owned(),
        closed_at: None,
        resource_version: 1,
    }
}

fn lease(session: &LiveSession) -> ControlLease {
    ControlLease {
        id: "lease-source-safety".to_owned(),
        live_session_id: session.id.clone(),
        device_id: session.device_id.clone(),
        holder_id: session.opened_by.clone(),
        holder_name: "나".to_owned(),
        expires_at: "2099-08-20T00:00:00Z".to_owned(),
        epoch: 1,
        expires_at_ms: i64::MAX,
    }
}

fn command(session: &LiveSession, lease: &ControlLease, key: &str) -> SendCommandRequest {
    SendCommandRequest {
        live_session_id: Some(session.id.clone()),
        device_id: session.device_id.clone(),
        command_type: "safe_stop".to_owned(),
        expected_device_version: 142,
        idempotency_key: key.to_owned(),
        lease_id: lease.id.clone(),
        lease_epoch: lease.epoch,
        session_mode: Some("live".to_owned()),
        issued_at: "2026-08-20T00:00:00Z".to_owned(),
        expires_at: "2099-08-20T00:00:00Z".to_owned(),
    }
}

#[test]
fn command_fails_closed_and_revokes_lease_when_source_becomes_offline() {
    let mut catalog = fixture();
    let session = live_session("fresh");
    let lease = lease(&session);
    catalog.live_sessions.insert(session.id.clone(), session.copied());
    catalog.leases.insert(lease.id.clone(), lease.copied());
    let mut source = catalog.data_sources.remove(&session.data_source_id).expect("Fixture source exists");
    source.status = "offline".to_owned();
    catalog.data_sources.insert(session.data_source_id.clone(), source);

    let request = command(&session, &lease, "unsafe-source-command");
    let result =
        send_command(&mut catalog, true, &session.id, &request, "command-1", NOW_MS, NOW_NS, NOW);
    assert!(result.is_err());
    assert_eq!(catalog.leases.len(), 0);
    assert_eq!(catalog.command_receipts.len(), 0);
}

#[test]
fn delayed_or_removed_sources_revoke_existing_session_leases() {
    for source_case in ["delayed", "removed"] {
        let mut catalog = fixture();
        let session =
            live_session(if source_case == "delayed" { "delayed" } else { "fresh" });
        catalog.leases.insert("lease-source-safety".to_owned(), lease(&session));
        if source_case == "removed" {
            catalog.data_sources.remove(&session.data_source_id);
        }

        assert!(ensure_session_source_is_control_safe(&mut catalog, &session).is_err());
        assert_eq!(catalog.leases.len(), 0);
    }
}

#[test]
fn observation_only_edge_integration_never_accepts_control() {
    let mut catalog = fixture();
    let session = live_session("fresh");
    assert!(ensure_session_control_scope(&catalog, &session).is_ok());
    for status in ["testing", "connected"] {
        let mut integration = catalog
            .integrations
            .remove("integration-logistics")
            .expect("fixture integration exists");
        integration.kind = "rms_edge".to_owned();
        integration.status = status.to_owned();
        catalog.integrations.insert("integration-logistics".to_owned(), integration);
        assert!(ensure_session_control_scope(&catalog, &session).is_err());
    }
}

#[test]
fn production_control_fails_closed_without_a_dispatcher() {
    assert!(ensure_command_dispatch_available(false).is_err());
    assert!(ensure_command_dispatch_available(true).is_ok());
}

#[test]
fn one_operator_holds_a_device() {
    let mut catalog = fixture();
    let session = live_session("fresh");
    catalog.live_sessions.insert(session.id.clone(), session.copied());
    let request = RequestControlLease { expected_device_version: 142, scope: None };
    let first =
        request_control_lease(&mut catalog, true, &session.id, &request, "lease-1", NOW_MS).unwrap();
    assert_eq!(first.epoch, 1);
    assert_eq!(first.holder_name, "나");
    assert_eq!(first.expires_at_ms, NOW_MS + LEASE_DURATION_MS);
    assert_eq!(first.expires_at, "2026-08-20T00:02:00Z");
    let refused = request_control_lease(&mut catalog, true, &session.id, &request, "lease-2", NOW_MS)
        .unwrap_err();
    assert_eq!(refused.message, "Another operator already holds the Device control lease.");
    let later = NOW_MS + LEASE_DURATION_MS;
    let second =
        request_control_lease(&mut catalog, true, &session.id, &request, "lease-3", later).unwrap();
    assert_eq!(second.epoch, 2);
    assert_eq!(catalog.leases.len(), 1);
    let state = get_control_state(&catalog, &session.id, later).unwrap().unwrap();
    assert_eq!(state.id, "lease-3");
    assert!(release_control_lease(&mut catalog, "other", "lease-3").is_err());
    release_control_lease(&mut catalog, &session.id, "lease-3").unwrap();
    assert!(get_control_state(&catalog, &session.id, later).unwrap().is_none());
    assert_eq!(
        get_control_state(&catalog, "missing", later).unwrap_err().kind,
        ApiErrorKind::NotFound
    );
}

#[test]
fn leases_need_the_current_device_version() {
    let mut catalog = fixture();
    let session = live_session("fresh");
    catalog.live_sessions.insert(session.id.clone(), session.copied());
    let request = RequestControlLease { expected_device_version: 141, scope: None };
    let refused =
        request_control_lease(&mut catalog, true, &session.id, &request, "lease-1", NOW_MS).unwrap_err();
    assert_eq!(refused.kind, ApiErrorKind::Conflict);
    assert_eq!(
        request_control_lease(&mut catalog, false, &session.id, &request, "l", NOW_MS).unwrap_err().kind,
        ApiErrorKind::Unavailable
    );
    assert!(ensure_device_can_be_controlled("offline", "normal", 1, 1).is_err());
    assert!(ensure_device_can_be_controlled("online", "critical", 1, 1).is_err());
    assert!(ensure_device_can_be_controlled("online", "normal", 1, 1).is_ok());
}

#[test]
fn repeated_commands_return_the_receipt() {
    let mut catalog = fixture();
    let session = live_session("fresh");
    let lease = lease(&session);
    catalog.live_sessions.insert(session.id.clone(), session.copied());
    catalog.leases.insert(lease.id.clone(), lease.copied());
    let request = command(&session, &lease, "key-1");
    let first =
        send_command(&mut catalog, true, &session.id, &request, "command-1", NOW_MS, NOW_NS, NOW).unwrap();
    assert_eq!(first.status, "accepted");
    assert_eq!(first.message, "안전 정지 요청을 수락했습니다.");
    let version = catalog.snapshot_version;
    let again =
        send_command(&mut catalog, true, &session.id, &request, "command-2", NOW_MS, NOW_NS, NOW).unwrap();
    assert_eq!(again.command_id, "command-1");
    assert_eq!(catalog.snapshot_version, version);
    let mut other = request.copied();
    other.command_type = "pause_mission".to_owned();
    assert!(!same_request(&other, &request));
    let conflict =
        send_command(&mut catalog, true, &session.id, &other, "command-3", NOW_MS, NOW_NS, NOW).unwrap_err();
    assert_eq!(
        conflict.message,
        "Idempotency key is already bound to a different command request."
    );
}

#[test]
fn commands_need_a_matching_lease_and_time() {
    let mut catalog = fixture();
    let session = live_session("fresh");
    let lease = lease(&session);
    catalog.live_sessions.insert(session.id.clone(), session.copied());
    catalog.leases.insert(lease.id.clone(), lease.copied());
    let mut stale = command(&session, &lease, "key-1");
    stale.lease_epoch = 2;
    let refused =
        send_command(&mut catalog, true, &session.id, &stale, "c", NOW_MS, NOW_NS, NOW).unwrap_err();
    assert_eq!(
        refused.message,
        "The command lease is stale or does not match the LiveSession."
    );
    let mut unknown = command(&session, &lease, "key-2");
    unknown.command_type = "fly".to_owned();
    assert_eq!(
        send_command(&mut catalog, true, &session.id, &unknown, "c", NOW_MS, NOW_NS, NOW)
            .unwrap_err()
            .kind,
        ApiErrorKind::BadRequest
    );
    let mut expired = command(&session, &lease, "key-3");
    expired.expires_at = "2026-08-19T23:59:59Z".to_owned();
    assert_eq!(validate_command_times(&expired, NOW_NS).unwrap_err().kind, ApiErrorKind::Conflict);
    expired.issued_at = "yesterday".to_owned();
    let invalid = validate_command_times(&expired, NOW_NS).unwrap_err();
    assert!(invalid.message.starts_with("Invalid issuedAt: "));
    assert!(invalid.message.len() > "Invalid issuedAt: ".len());
}

fn content() -> RecordingContent {
    RecordingContent {
        timelines: Vec::new(),
        default_timeline: "tick".to_owned(),
        duration_seconds: 0,
        rrd_version: "0.36".to_owned(),
        footer_verified: true,
        content_sha256: "00".to_owned(),
    }
}

fn session_request() -> CreateLiveSessionRequest {
    CreateLiveSessionRequest {
        project_id: "project-logistics".to_owned(),
        device_id: "robot-07".to_owned(),
        data_source_id: "robot-07-source".to_owned(),
        opened_by: "operator-02".to_owned(),
    }
}

#[test]
fn live_sessions_end_without_control() {
    let mut catalog = fixture();
    let session = create_live_session(&mut catalog, &session_request(), "s1", NOW).unwrap();
    assert_eq!(session.stream_url, "/rerun/live/s1");
    assert_eq!(session.source_health, "fresh");
    assert_eq!(session.resource_version, catalog.snapshot_version);
    assert!(open_live_stream(&catalog, "s1").is_ok());
    let request = RequestControlLease { expected_device_version: 142, scope: None };
    let lease = request_control_lease(&mut catalog, true, "s1", &request, "lease-1", NOW_MS).unwrap();
    assert_eq!(lease.holder_name, "operator-02");
    let feed = live_events(&catalog, "s1").unwrap();
    assert_eq!((feed.topic_id.as_str(), feed.value.as_str()), ("velocity", "1.18"));
    let mut tick = 0;
    let event = feed.next_event(&mut tick);
    assert_eq!((event.event_id.as_str(), event.resource_version), ("live-event-s1-1", 143));
    let closed = close_live_session(&mut catalog, "s1", "r1", content(), NOW).unwrap();
    assert!(closed.stops_stream);
    assert_eq!(closed.recording.name, "Logistics 운용 기록");
    assert_eq!(closed.recording.manifest_hash, "sha256:r1-immutable-local-fixture");
    assert_eq!(closed.recording.project_snapshot.device_assignment_id, "assignment-1");
    assert_eq!(catalog.leases.len(), 0);
    assert_eq!(get_live_session(&catalog, "s1").unwrap().status, "closed");
    assert_eq!(
        close_live_session(&mut catalog, "s1", "r2", content(), NOW).unwrap_err().message,
        "LiveSession is already closed."
    );
    assert!(live_events(&catalog, "s1").is_err());
    assert!(open_recording_stream(&catalog, "r1").is_ok());
    assert_eq!(list_recordings(&catalog, "project-logistics").unwrap().len(), 1);
}

#[test]
fn live_sessions_need_available_resources() {
    let mut catalog = fixture();
    let mut unnamed = session_request();
    unnamed.opened_by = "  ".to_owned();
    assert_eq!(
        create_live_session(&mut catalog, &unnamed, "s", NOW).unwrap_err().message,
        "openedBy is required."
    );
    let mut device = catalog.devices.remove("robot-07").unwrap();
    device.status = "offline".to_owned();
    catalog.devices.insert("robot-07".to_owned(), device);
    assert_eq!(
        create_live_session(&mut catalog, &session_request(), "s", NOW).unwrap_err().message,
        "An offline Device cannot start a LiveSession."
    );
    assert!(open_live_stream(&catalog, "s").is_err());
}

fn replay_start() -> ReplayStart {
    ReplayStart {
        timeline: "tick".to_owned(),
        cursor: PlaybackCursor { kind: "sequence".to_owned(), value: "0".to_owned() },
        play_state: "paused".to_owned(),
        speed: 1.0_f64.to_bits(),
        repeat: ReplayLoop { mode: "off".to_owned(), start: None, end: None },
    }
}

#[test]
fn closing_a_replay_twice_changes_nothing() {
    let mut catalog = fixture();
    create_live_session(&mut catalog, &session_request(), "s1", NOW).unwrap();
    close_live_session(&mut catalog, "s1", "r1", content(), NOW).unwrap();
    let request = CreateReplaySessionRequest {
        project_id: "project-logistics".to_owned(),
        recording_id: "r1".to_owned(),
        opened_by: "operator-01".to_owned(),
    };
    let replay = create_replay_session(&mut catalog, &request, replay_start(), "p1", NOW).unwrap();
    assert_eq!(replay.device_id, "robot-07");
    assert_eq!(replay.stream_url, "/rerun/replay/p1");
    assert!(open_replay_stream(&catalog, "p1").is_ok());
    close_replay_session(&mut catalog, "p1", NOW).unwrap();
    let version = catalog.snapshot_version;
    close_replay_session(&mut catalog, "p1", "2027-01-01T00:00:00Z").unwrap();
    assert_eq!(catalog.snapshot_version, version);
    assert_eq!(get_replay_session(&catalog, "p1").unwrap().closed_at.as_deref(), Some(NOW));
    assert!(open_replay_stream(&catalog, "p1").is_err());
    assert!(close_replay_session(&mut catalog, "missing", NOW).is_err());
}

fn project_request() -> CreateProjectRequest {
    CreateProjectRequest {
        organization_id: "org-rms".to_owned(),
        name: "Patrol".to_owned(),
        description: "Night".to_owned(),
        status: "active".to_owned(),
        device_ids: vec!["drone-1".to_owned(), "drone-1".to_owned()],
        data_source_ids: vec!["robot-07-source".to_owned()],
    }
}

fn ids(prefix: &str) -> Vec<String> {
    (0..4).map(|i| format!("{prefix}-{i}")).collect()
}

fn with_drone() -> Catalog {
    let mut catalog = fixture();
    let request = CreateDeviceRequest {
        id: Some("drone-1".to_owned()),
        organization_id: "org-rms".to_owned(),
        integration_id: "integration-logistics".to_owned(),
        name: "Drone".to_owned(),
        kind: "drone".to_owned(),
        status: "online".to_owned(),
        health: "normal".to_owned(),
        operation_mode: "manual".to_owned(),
        battery_percent: None,
        task_name: String::new(),
        task_progress: 0,
        last_seen_at: None,
    };
    let drone = create_device(&mut catalog, &request, "unused", NOW).unwrap();
    assert_eq!(drone.last_seen_at, NOW);
    assert_eq!(
        create_device(&mut catalog, &request, "unused", NOW).unwrap_err().message,
        "Device ID is already registered."
    );
    catalog
}

#[test]
fn new_projects_keep_control_exclusive() {
    let mut catalog = with_drone();
    let project =
        create_project(&mut catalog, &project_request(), "p", &ids("a"), &ids("d"), NOW).unwrap();
    assert_eq!((project.device_count, project.online_device_count), (1, 1));
    assert_eq!(catalog.device_assignments.get("a-0").unwrap().device_id, "drone-1");
    assert_eq!(catalog.device_assignments.len(), 2);
    let version = catalog.snapshot_version;
    let refused =
        create_project(&mut catalog, &project_request(), "q", &ids("b"), &ids("e"), NOW).unwrap_err();
    assert_eq!(
        refused.message,
        "Device already has a control assignment in another Project."
    );
    assert_eq!(catalog.snapshot_version, version);
    assert!(catalog.projects.get("q").is_none());
    let observe = CreateDeviceAssignmentRequest {
        device_id: "drone-1".to_owned(),
        access_mode: AccessMode::Observe,
    };
    let control = CreateDeviceAssignmentRequest {
        device_id: "drone-1".to_owned(),
        access_mode: AccessMode::Control,
    };
    assert!(create_device_assignment(&mut catalog, "project-logistics", &control, "x", NOW).is_err());
    create_device_assignment(&mut catalog, "project-logistics", &observe, "x", NOW).unwrap();
    assert_eq!(catalog.projects.get("project-logistics").unwrap().device_count, 2);
    assert_eq!(list_projects(&catalog).len(), 2);
}

#[test]
fn open_sessions_keep_their_assignments() {
    let mut catalog = fixture();
    create_live_session(&mut catalog, &session_request(), "s1", NOW).unwrap();
    assert_eq!(
        delete_device_assignment(&mut catalog, "project-logistics", "assignment-1").unwrap_err().kind,
        ApiErrorKind::Conflict
    );
    assert!(delete_data_assignment(&mut catalog, "project-logistics", "data-assignment-1").is_err());
    close_live_session(&mut catalog, "s1", "r1", content(), NOW).unwrap();
    delete_data_assignment(&mut catalog, "project-logistics", "data-assignment-1").unwrap();
    let request = CreateDataAssignmentRequest {
        data_source_id: "robot-07-source".to_owned(),
        visibility: DataVisibility::Analyst,
    };
    create_data_assignment(&mut catalog, "project-logistics", &request, "n", NOW).unwrap();
    delete_device_assignment(&mut catalog, "project-logistics", "assignment-1").unwrap();
    assert_eq!(catalog.projects.get("project-logistics").unwrap().device_count, 0);
    assert!(delete_device_assignment(&mut catalog, "project-logistics", "assignment-1").is_err());
}

#[test]
fn workspaces_hold_everything_of_a_project() {
    let mut catalog = fixture();
    create_live_session(&mut catalog, &session_request(), "s1", NOW).unwrap();
    close_live_session(&mut catalog, "s1", "r1", content(), NOW).unwrap();
    let workspace = get_workspace(&catalog, "project-logistics", NOW).unwrap();
    assert_eq!(workspace.devices.len(), 1);
    assert_eq!(workspace.data_sources[0].id, "robot-07-source");
    assert_eq!(workspace.recordings[0].id, "r1");
    assert_eq!(workspace.snapshot_version, catalog.snapshot_version);
    assert!(get_workspace(&catalog, "missing", NOW).is_err());
    assert_eq!(workspace_event_id("p", 7), "workspace-event-p-7");
}

#[test]
fn inventories_list_and_register() {
    let mut catalog = fixture();
    let request = CreateIntegrationRequest {
        organization_id: "org-rms".to_owned(),
        name: "Fleet".to_owned(),
        kind: "mavlink".to_owned(),
        endpoint_label: "fleet".to_owned(),
    };
    let made = create_integration(&mut catalog, &request, "i2", NOW).unwrap();
    assert_eq!(made.status, "testing");
    assert_eq!(list_integrations(&catalog).len(), 2);
    assert_eq!(list_devices(&catalog).len(), 1);
    assert_eq!(list_data_sources(&catalog, &Some("robot-07".to_owned())).len(), 1);
    assert_eq!(list_data_sources(&catalog, &Some("other".to_owned())).len(), 0);
    assert_eq!(validate_required("name", " ").unwrap_err().message, "name is required.");
    let source = CreateDataSourceRequest {
        id: None,
        integration_id: "integration-logistics".to_owned(),
        device_id: "robot-07".to_owned(),
        name: "Camera".to_owned(),
        protocol: "rtsp".to_owned(),
        status: "pending".to_owned(),
        live_url: "rtsp://10.0.0.2".to_owned(),
        topic_ids: vec!["/front".to_owned()],
        last_data_at: None,
    };
    let made = create_data_source(&mut catalog, &source, "new", NOW).unwrap();
    assert_eq!(made.id, "new");
    let topics = list_topics(&catalog, "new").unwrap();
    assert_eq!(topics.len(), 1);
    assert_eq!(made.topic_ids, vec![topics[0].id.clone()]);
    assert_eq!(topics[0].path, "/front");
    assert_eq!(topics[0].label, "/front");
    assert_eq!(topics[0].renderer, "raw");
    assert_eq!(topics[0].device_id, "robot-07");
    assert_eq!(topics[0].updated_at, NOW);
    assert_eq!(list_topics(&catalog, "robot-07-source").unwrap().len(), 0);
    assert!(list_topics(&catalog, "missing").is_err());
}
