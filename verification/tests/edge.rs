use base64::prelude::BASE64_URL_SAFE_NO_PAD;
use base64::Engine as _;
use ring::hmac;
use ring::signature::{Ed25519KeyPair, KeyPair as _};

use rms::api::{ApiError, ApiErrorKind};
use rms::catalog::Catalog;
use rms::crypto::{derive_device_id, new_id};
use rms::domain::{
    ControlLease, DataSource, Device, EdgeEnrollment, Integration, Topic, TopicList,
};
use rms::edge_advertisement::{
    canonical_bytes, verify, EdgeOrganizationProof, InvalidEdgeAdvertisement,
};
use rms::edge_agents::{
    accept_heartbeat, admit_heartbeat, delay_until, expire_enrollment, is_current_deadline,
    take_deadline, withdraw_heartbeat, EdgeHeartbeatRuntime,
};
use rms::edge_topics::{prune_retained_topics, MAX_RETAINED_TOPICS_PER_SOURCE};
use rms::hashing::hex_sha256;
use rms::heartbeat::{
    accept_token, authenticate_heartbeat, check_token_file, renderer, valid_renderer,
    validate_heartbeat, verify_bearer, EdgeAdapterHeartbeat, EdgeHeartbeat, EdgeObservation,
    EdgeQos, EdgeSource, EdgeTopic, SignatureHeaders, TokenFault, TokenFile, MAX_TOPICS,
    STALE_AFTER_MS,
};
use rms::table::{Copied as _, Table};
use rms::time::iso_from_millis;

const SERVICE_TYPE: &str = "_rms._tcp.local";
const TOKEN: &[u8] = b"edge-heartbeat-test-token-32-bytes";
const NOW_MS: i64 = 1_800_000_000_000;

fn signed_properties(seed: [u8; 32], now_seconds: i64) -> (String, Table<String>) {
    let key_pair = Ed25519KeyPair::from_seed_unchecked(&seed).expect("test key is valid");
    let public_key: [u8; 32] =
        key_pair.public_key().as_ref().try_into().expect("Ed25519 key has 32 bytes");
    let device_id = derive_device_id(&public_key);
    let instance = format!("{device_id}.{SERVICE_TYPE}");
    let nonce = BASE64_URL_SAFE_NO_PAD.encode([9_u8; 16]);
    let caps = "mavlink,ros2_dds,status";
    let canonical = canonical_bytes(
        &instance,
        &device_id,
        &nonce,
        now_seconds,
        9877,
        "/v1/edge",
        "robot",
        caps,
        "Robot 42",
    );
    let mut properties: Table<String> = Table::new();
    for (name, value) in [
        ("v", "1".to_owned()),
        ("id", device_id),
        ("pk", BASE64_URL_SAFE_NO_PAD.encode(public_key)),
        ("nonce", nonce),
        ("ts", now_seconds.to_string()),
        ("name", "Robot 42".to_owned()),
        ("kind", "robot".to_owned()),
        ("caps", caps.to_owned()),
        ("path", "/v1/edge".to_owned()),
        ("sig", BASE64_URL_SAFE_NO_PAD.encode(key_pair.sign(canonical.as_bytes()).as_ref())),
    ] {
        properties.insert(name.to_owned(), value);
    }
    let org_key = [3_u8; 32];
    let org_message = format!("{canonical}\norg=org-rms\norg_kid=fleet-a");
    let org_proof =
        hmac::sign(&hmac::Key::new(hmac::HMAC_SHA256, &org_key), org_message.as_bytes());
    properties.insert("org".to_owned(), "org-rms".to_owned());
    properties.insert("org_kid".to_owned(), "fleet-a".to_owned());
    properties
        .insert("org_proof".to_owned(), BASE64_URL_SAFE_NO_PAD.encode(org_proof.as_ref()));
    (instance, properties)
}

#[test]
fn verifies_signed_and_organization_authenticated_advertisement() {
    let now = 1_800_000_000;
    let (instance, properties) = signed_properties([7_u8; 32], now);
    let verified = verify(
        &instance,
        9877,
        &properties,
        now,
        Some(EdgeOrganizationProof {
            organization_id: "org-rms",
            key_id: "fleet-a",
            secret: &[3_u8; 32],
        }),
    )
    .expect("valid advertisement verifies");
    assert!(verified.organization_trusted);
    assert_eq!(verified.organization_id.as_deref(), Some("org-rms"));
    assert_eq!(verified.device_kind, "robot");
    assert_eq!(verified.capabilities.len(), 3);

    assert_eq!(
        verify(
            &instance,
            9877,
            &properties,
            now,
            Some(EdgeOrganizationProof {
                organization_id: "org-other",
                key_id: "fleet-a",
                secret: &[3_u8; 32],
            }),
        ),
        Err(InvalidEdgeAdvertisement),
    );
}

#[test]
fn rejects_tampering_stale_packets_and_public_key_id_mismatch() {
    let now = 1_800_000_000;
    let (instance, mut properties) = signed_properties([8_u8; 32], now);
    properties.insert("kind".to_owned(), "drone".to_owned());
    assert_eq!(
        verify(&instance, 9877, &properties, now, None),
        Err(InvalidEdgeAdvertisement)
    );

    let (instance, properties) = signed_properties([8_u8; 32], now);
    assert_eq!(
        verify(&instance, 9877, &properties, now + 121, None),
        Err(InvalidEdgeAdvertisement)
    );

    let mut properties = properties;
    properties.insert("id".to_owned(), uuid::Uuid::nil().to_string());
    assert_eq!(
        verify(&instance, 9877, &properties, now, None),
        Err(InvalidEdgeAdvertisement)
    );
}

#[test]
fn wrong_organization_secrets_give_no_trust() {
    let now = 1_800_000_000;
    let (instance, properties) = signed_properties([7_u8; 32], now);
    assert_eq!(
        verify(
            &instance,
            9877,
            &properties,
            now,
            Some(EdgeOrganizationProof {
                organization_id: "org-rms",
                key_id: "fleet-a",
                secret: &[4_u8; 32],
            }),
        ),
        Err(InvalidEdgeAdvertisement),
    );
}

#[test]
fn renderer_contract_preserves_raw_and_transform3d_hints() {
    for hint in
        ["image", "point_cloud", "spatial", "transform3d", "plot", "state", "log", "raw"]
    {
        assert!(valid_renderer(hint), "expected `{hint}` to be valid");
    }
    assert!(!valid_renderer("map"));
    assert!(!valid_renderer("text_log"));

    assert_eq!(renderer(Some("transform3d"), "/custom/frames"), "transform3d");
    assert_eq!(renderer(Some("raw"), "/camera/info"), "raw");
    assert_eq!(renderer(None, "/camera/info"), "raw");
    assert_eq!(renderer(Some("point_cloud"), "/lidar/points"), "spatial");
    assert_eq!(renderer(Some("image"), "/front/image"), "camera");
}

#[test]
fn token_loader_requires_an_absolute_regular_file_and_valid_length() {
    let directory = TokenFile { is_regular: false, mode: Some(0o700), size: 4_096 };
    assert_eq!(check_token_file(directory), Some(TokenFault::NotRegular));

    let file = TokenFile { is_regular: true, mode: Some(0o600), size: 47 };
    assert_eq!(check_token_file(file), None);
    assert_eq!(
        accept_token(b"edge-heartbeat-token-that-is-at-least-32-bytes\n".to_vec()).unwrap(),
        b"edge-heartbeat-token-that-is-at-least-32-bytes".to_vec()
    );
    assert!(accept_token(b"short".to_vec()).is_err());
}

#[test]
fn token_loader_rejects_group_or_world_permissions() {
    let open = TokenFile { is_regular: true, mode: Some(0o640), size: 46 };
    assert_eq!(check_token_file(open), Some(TokenFault::OpenToOthers));
}

struct Agent {
    key_pair: Ed25519KeyPair,
    device_id: String,
    catalog: Catalog,
    runtime: EdgeHeartbeatRuntime,
}

fn robot() -> Device {
    Device {
        id: "robot-07".to_owned(),
        organization_id: "org-rms".to_owned(),
        integration_id: "integration-logistics".to_owned(),
        name: "Robot 07".to_owned(),
        kind: "robot".to_owned(),
        status: "online".to_owned(),
        health: "normal".to_owned(),
        operation_mode: "automatic".to_owned(),
        battery_percent: Some(80),
        task_name: "Delivery".to_owned(),
        task_progress: 10,
        last_seen_at: "2026-08-20T00:00:00Z".to_owned(),
        state_version: 142,
    }
}

fn enrolled(seed: [u8; 32]) -> Agent {
    let key_pair = Ed25519KeyPair::from_seed_unchecked(&seed).expect("test seed is valid");
    let public_key: [u8; 32] =
        key_pair.public_key().as_ref().try_into().expect("Ed25519 public key has 32 bytes");
    let device_id = derive_device_id(&public_key);
    let mut catalog = Catalog::new();
    catalog.integrations.insert(
        "integration-logistics".to_owned(),
        Integration {
            id: "integration-logistics".to_owned(),
            organization_id: "org-rms".to_owned(),
            name: "Logistics".to_owned(),
            kind: "rms_edge".to_owned(),
            status: "connected".to_owned(),
            endpoint_label: "edge".to_owned(),
            last_health_at: "2026-08-20T00:00:00Z".to_owned(),
            created_at: "2026-08-20T00:00:00Z".to_owned(),
            resource_version: 1,
        },
    );
    catalog.devices.insert("robot-07".to_owned(), robot());
    catalog.data_sources.insert(
        "robot-07-source".to_owned(),
        DataSource {
            id: "robot-07-source".to_owned(),
            integration_id: "integration-logistics".to_owned(),
            device_id: "robot-07".to_owned(),
            name: "Telemetry".to_owned(),
            protocol: "ros2".to_owned(),
            status: "recording".to_owned(),
            live_url: "http://10.0.0.2".to_owned(),
            topic_ids: Vec::new(),
            mapping_version: 1,
            last_data_at: "2026-08-20T00:00:00Z".to_owned(),
        },
    );
    catalog
        .topics_by_data_source
        .insert("robot-07-source".to_owned(), TopicList { topics: Vec::new() });
    let mut source_ids: Table<String> = Table::new();
    source_ids.insert("ros2-graph".to_owned(), "robot-07-source".to_owned());
    catalog.edge_enrollments.insert(
        device_id.clone(),
        EdgeEnrollment {
            edge_device_id: device_id.clone(),
            public_key: BASE64_URL_SAFE_NO_PAD.encode(public_key),
            organization_id: "org-rms".to_owned(),
            integration_id: "integration-logistics".to_owned(),
            device_id: "robot-07".to_owned(),
            source_ids,
            organization_trusted: true,
            created_at: iso_from_millis(NOW_MS),
        },
    );
    Agent { key_pair, device_id, catalog, runtime: EdgeHeartbeatRuntime::new() }
}

fn topic(path: &str, label: &str, hint: &str) -> EdgeTopic {
    EdgeTopic {
        path: path.to_owned(),
        label: label.to_owned(),
        message_type: Some("std_msgs/msg/Float64".to_owned()),
        qos: None,
        renderer_hint: Some(hint.to_owned()),
    }
}

fn generated_topics(prefix: &str, count: usize) -> Vec<EdgeTopic> {
    (0..count)
        .map(|index| topic(&format!("/{prefix}/{index:04}"), &format!("Topic {index}"), "log"))
        .collect()
}

fn heartbeat(key_pair: &Ed25519KeyPair, device_id: &str, sent_at_ms: i64, sequence: u64) -> EdgeHeartbeat {
    let mut metadata: Table<String> = Table::new();
    metadata.insert("domain_id".to_owned(), "0".to_owned());
    EdgeHeartbeat {
        schema_version: 1,
        device_id: device_id.to_owned(),
        public_key: BASE64_URL_SAFE_NO_PAD.encode(key_pair.public_key().as_ref()),
        boot_id: "c873a70b-0b4c-49d2-a402-8f1f21ad85cb".to_owned(),
        sent_at_ms,
        sequence,
        agent_health: "healthy".to_owned(),
        adapters: vec![EdgeAdapterHeartbeat {
            id: "ros-main".to_owned(),
            kind: "ros2_dds".to_owned(),
            state: "healthy".to_owned(),
            last_success_at_ms: Some(sent_at_ms),
            observations: vec![EdgeObservation {
                identity: "robot-07".to_owned(),
                display_name: "Robot 07".to_owned(),
                device_kind: "robot".to_owned(),
                trust: "authenticated".to_owned(),
                observed_at_ms: sent_at_ms,
                expires_at_ms: sent_at_ms + 5_000,
                sources: vec![EdgeSource {
                    id: "ros2:telemetry".to_owned(),
                    label: "Telemetry".to_owned(),
                    category: "telemetry".to_owned(),
                    protocol: "ros2".to_owned(),
                    status: "metadata_only".to_owned(),
                    renderer_hint: Some("plot".to_owned()),
                    topics: vec![EdgeTopic {
                        path: "/vehicle/speed".to_owned(),
                        label: "Speed".to_owned(),
                        message_type: Some("std_msgs/msg/Float64".to_owned()),
                        qos: Some(EdgeQos {
                            reliability: "reliable".to_owned(),
                            durability: "volatile".to_owned(),
                            history_depth: Some(10),
                        }),
                        renderer_hint: Some("plot".to_owned()),
                    }],
                }],
                metadata,
            }],
        }],
    }
}

fn topics_of(h: &mut EdgeHeartbeat) -> &mut Vec<EdgeTopic> {
    &mut h.adapters[0].observations[0].sources[0].topics
}

fn signed(key_pair: &Ed25519KeyPair, body: &[u8], timestamp: i64, nonce_byte: u8) -> SignatureHeaders {
    let nonce = BASE64_URL_SAFE_NO_PAD.encode([nonce_byte; 16]);
    let canonical = format!("rms-heartbeat-v1\n{timestamp}\n{nonce}\n{}", hex_sha256(body));
    let signature = BASE64_URL_SAFE_NO_PAD.encode(key_pair.sign(canonical.as_bytes()).as_ref());
    SignatureHeaders {
        timestamp: Some(timestamp.to_string().into_bytes()),
        nonce: Some(nonce.into_bytes()),
        signature: Some(signature.into_bytes()),
    }
}

/// Takes a heartbeat in: it is authenticated, admitted and applied, or leaves no trace.
fn accept(
    catalog: &mut Catalog,
    runtime: &mut EdgeHeartbeatRuntime,
    h: &EdgeHeartbeat,
    headers: &SignatureHeaders,
    body: &[u8],
    received_at_ms: i64,
) -> Result<(), ApiError> {
    verify_bearer(
        &Some([b"Bearer ".as_slice(), TOKEN].concat()),
        TOKEN,
    )?;
    accept_heartbeat(catalog, runtime, h, headers, body, received_at_ms).map(|_| ())
}

impl Agent {
    fn beat(&mut self, h: &EdgeHeartbeat, nonce_byte: u8, received_at_ms: i64) -> Result<(), ApiError> {
        let body = format!("{h:?}").into_bytes();
        let headers = signed(&self.key_pair, &body, h.sent_at_ms, nonce_byte);
        accept(&mut self.catalog, &mut self.runtime, h, &headers, &body, received_at_ms)
    }

    fn heartbeat(&self, sent_at_ms: i64, sequence: u64) -> EdgeHeartbeat {
        heartbeat(&self.key_pair, &self.device_id, sent_at_ms, sequence)
    }

    fn topics(&self) -> &Vec<Topic> {
        &self.catalog.topics_by_data_source.get("robot-07-source").unwrap().topics
    }

    fn source(&self) -> &DataSource {
        self.catalog.data_sources.get("robot-07-source").unwrap()
    }

    fn device_status(&self) -> &str {
        &self.catalog.devices.get("robot-07").unwrap().status
    }
}

#[test]
fn signed_enrolled_heartbeat_updates_topics_then_expires() {
    let mut agent = enrolled([3; 32]);
    let h = agent.heartbeat(NOW_MS, 1);
    agent.beat(&h, 1, NOW_MS).expect("the heartbeat is accepted");
    assert_eq!(agent.device_status(), "online");
    assert_eq!(agent.catalog.integrations.get("integration-logistics").unwrap().status, "connected");
    assert_eq!(agent.source().status, "pending");
    assert_eq!(agent.topics()[0].path, "/vehicle/speed");
    assert_eq!(agent.catalog.live_sessions.len(), 0);
    assert_eq!(agent.catalog.leases.len(), 0);
    assert_eq!(agent.catalog.command_receipts.len(), 0);
    agent.catalog.leases.insert(
        "edge-test-lease".to_owned(),
        ControlLease {
            id: "edge-test-lease".to_owned(),
            live_session_id: "edge-test-session".to_owned(),
            device_id: "robot-07".to_owned(),
            holder_id: "operator".to_owned(),
            holder_name: "Operator".to_owned(),
            expires_at: "2099-01-01T00:00:00Z".to_owned(),
            epoch: 1,
            expires_at_ms: i64::MAX,
        },
    );
    let deadline = agent.runtime.deadlines.get(&agent.device_id).unwrap().at_ms;
    assert!(is_current_deadline(&agent.runtime, &agent.device_id, deadline));
    assert!(take_deadline(&mut agent.runtime, &agent.device_id, deadline));
    assert!(!take_deadline(&mut agent.runtime, &agent.device_id, deadline));
    expire_enrollment(&mut agent.catalog, &agent.device_id, &h.public_key);
    assert_eq!(agent.device_status(), "offline");
    assert_eq!(
        agent.catalog.integrations.get("integration-logistics").unwrap().status,
        "disconnected"
    );
    assert_eq!(agent.source().status, "pending");
    assert_eq!(agent.topics()[0].quality, "stale");
    assert_eq!(agent.catalog.leases.len(), 0);
}

#[test]
fn mapping_version_changes_only_when_topic_schema_changes() {
    let mut agent = enrolled([14; 32]);
    let initial = agent.source().mapping_version;
    let h = agent.heartbeat(NOW_MS, 1);
    agent.beat(&h, 61, NOW_MS).unwrap();
    let first = agent.source().mapping_version;
    assert_eq!(first, initial.saturating_add(1));

    let h = agent.heartbeat(NOW_MS + 1, 2);
    agent.beat(&h, 62, NOW_MS + 1).unwrap();
    assert_eq!(agent.source().mapping_version, first);

    let mut h = agent.heartbeat(NOW_MS + 2, 3);
    topics_of(&mut h)[0].renderer_hint = Some("image".to_owned());
    agent.beat(&h, 63, NOW_MS + 2).unwrap();
    let changed = agent.source().mapping_version;
    assert_eq!(changed, first.saturating_add(1));

    let mut h = agent.heartbeat(NOW_MS + 3, 4);
    topics_of(&mut h).push(topic("/vehicle/heading", "Heading", "plot"));
    agent.beat(&h, 64, NOW_MS + 3).unwrap();
    assert_eq!(agent.source().mapping_version, changed.saturating_add(1));
}

#[test]
fn nonce_and_sequence_replays_fail_closed() {
    let mut agent = enrolled([4; 32]);
    let h = agent.heartbeat(NOW_MS, 1);
    agent.beat(&h, 1, NOW_MS).unwrap();
    assert_eq!(agent.beat(&h, 2, NOW_MS).unwrap_err().kind, ApiErrorKind::Conflict);
    let next = agent.heartbeat(NOW_MS, 2);
    assert_eq!(agent.beat(&next, 1, NOW_MS).unwrap_err().kind, ApiErrorKind::Conflict);
}

#[test]
fn unknown_key_and_stale_timestamp_are_rejected() {
    let mut agent = enrolled([5; 32]);
    let other = Ed25519KeyPair::from_seed_unchecked(&[6; 32]).unwrap();
    let stranger = derive_device_id(other.public_key().as_ref());
    let h = heartbeat(&other, &stranger, NOW_MS, 1);
    let body = format!("{h:?}").into_bytes();
    let headers = signed(&other, &body, NOW_MS, 1);
    let wrong_key =
        accept(&mut agent.catalog, &mut agent.runtime, &h, &headers, &body, NOW_MS).unwrap_err();
    assert_eq!(wrong_key.kind, ApiErrorKind::Forbidden);

    let stale = agent.heartbeat(NOW_MS - 31_000, 1);
    assert_eq!(agent.beat(&stale, 2, NOW_MS).unwrap_err().kind, ApiErrorKind::Unauthorized);
}

#[test]
fn changed_bodies_are_not_authentic() {
    let agent = enrolled([5; 32]);
    let h = agent.heartbeat(NOW_MS, 1);
    let headers = signed(&agent.key_pair, b"signed", NOW_MS, 1);
    assert!(authenticate_heartbeat(&h, &headers, b"signed", NOW_MS).is_ok());
    assert_eq!(
        authenticate_heartbeat(&h, &headers, b"changed", NOW_MS).unwrap_err().kind,
        ApiErrorKind::Unauthorized
    );
    assert_eq!(
        verify_bearer(&Some(b"Bearer wrong".to_vec()), TOKEN).unwrap_err().kind,
        ApiErrorKind::Unauthorized
    );
    assert!(verify_bearer(&None, TOKEN).is_err());
}

#[test]
fn active_adapter_requires_a_fresh_success_after_its_observations() {
    let mut agent = enrolled([11; 32]);
    let mut missing = agent.heartbeat(NOW_MS, 1);
    missing.adapters[0].last_success_at_ms = None;
    assert_eq!(agent.beat(&missing, 15, NOW_MS).unwrap_err().kind, ApiErrorKind::BadRequest);
    assert!(validate_heartbeat(&missing).is_err());

    let mut older = agent.heartbeat(NOW_MS, 1);
    older.adapters[0].last_success_at_ms = Some(NOW_MS - 1);
    assert_eq!(agent.beat(&older, 16, NOW_MS).unwrap_err().kind, ApiErrorKind::BadRequest);
}

#[test]
fn stale_deadline_and_last_seen_use_server_receive_time() {
    let mut agent = enrolled([7; 32]);
    let sent_at_ms = NOW_MS - 20_000;
    let h = agent.heartbeat(sent_at_ms, 1);
    agent.beat(&h, 7, NOW_MS).unwrap();
    assert_eq!(agent.device_status(), "online");
    assert_ne!(
        agent.catalog.devices.get("robot-07").unwrap().last_seen_at,
        iso_from_millis(sent_at_ms)
    );
    assert_eq!(agent.catalog.devices.get("robot-07").unwrap().last_seen_at, iso_from_millis(NOW_MS));
    let deadline = agent.runtime.deadlines.get(&agent.device_id).unwrap().at_ms;
    assert!(deadline >= NOW_MS + STALE_AFTER_MS);
    assert_eq!(delay_until(deadline, NOW_MS), 10_000);
    assert_eq!(delay_until(deadline, deadline + 1), 0);
    expire_enrollment(&mut agent.catalog, &agent.device_id, &h.public_key);
    assert_eq!(agent.device_status(), "offline");
}

#[test]
fn disappeared_and_inactive_adapter_topics_stay_stale() {
    let mut agent = enrolled([8; 32]);
    let mut first = agent.heartbeat(NOW_MS, 1);
    topics_of(&mut first).push(topic("/vehicle/temperature", "Temperature", "plot"));
    agent.beat(&first, 8, NOW_MS).unwrap();

    let second = agent.heartbeat(NOW_MS + 1, 2);
    agent.beat(&second, 9, NOW_MS + 1).unwrap();
    let topics = agent.topics();
    assert_eq!(topics.len(), 2);
    assert_eq!(topics.iter().find(|t| t.path == "/vehicle/speed").unwrap().quality, "fresh");
    assert_eq!(topics.iter().find(|t| t.path == "/vehicle/temperature").unwrap().quality, "stale");

    let mut inactive = agent.heartbeat(NOW_MS + 2, 3);
    inactive.adapters[0].state = "stale".to_owned();
    inactive.adapters[0].last_success_at_ms = None;
    *topics_of(&mut inactive) = vec![EdgeTopic {
        path: "/should/not/appear".to_owned(),
        label: "Ignored".to_owned(),
        message_type: None,
        qos: None,
        renderer_hint: Some("log".to_owned()),
    }];
    agent.beat(&inactive, 10, NOW_MS + 2).unwrap();
    assert!(agent.topics().iter().all(|t| t.quality == "stale"));
    assert!(agent.topics().iter().all(|t| t.path != "/should/not/appear"));
}

#[test]
fn catalog_protocol_mismatch_rolls_back_catalog_and_replay_state() {
    let mut agent = enrolled([9; 32]);
    let mut device = robot();
    device.status = "offline".to_owned();
    device.health = "unknown".to_owned();
    agent.catalog.devices.insert("robot-07".to_owned(), device);
    let mut integration = agent.catalog.integrations.remove("integration-logistics").unwrap();
    integration.status = "disconnected".to_owned();
    agent.catalog.integrations.insert("integration-logistics".to_owned(), integration);
    let mut source = agent.catalog.data_sources.remove("robot-07-source").unwrap();
    source.protocol = "mavlink".to_owned();
    agent.catalog.data_sources.insert("robot-07-source".to_owned(), source);
    let previous_version = agent.catalog.snapshot_version;

    let h = agent.heartbeat(NOW_MS, 1);
    assert_eq!(agent.beat(&h, 11, NOW_MS).unwrap_err().kind, ApiErrorKind::Forbidden);
    assert_eq!(agent.catalog.snapshot_version, previous_version);
    assert_eq!(agent.device_status(), "offline");
    assert_eq!(
        agent.catalog.integrations.get("integration-logistics").unwrap().status,
        "disconnected"
    );
    assert_eq!(agent.runtime.sequences.len(), 0);
    assert_eq!(agent.runtime.deadlines.len(), 0);

    let mut source = agent.catalog.data_sources.remove("robot-07-source").unwrap();
    source.protocol = "ros2".to_owned();
    agent.catalog.data_sources.insert("robot-07-source".to_owned(), source);
    let h = agent.heartbeat(NOW_MS + 1, 1);
    agent.beat(&h, 12, NOW_MS + 1).unwrap();
    assert_eq!(agent.device_status(), "online");
}

#[test]
fn refused_heartbeats_are_accepted_after_repair() {
    let mut agent = enrolled([16; 32]);
    let mut source = agent.catalog.data_sources.remove("robot-07-source").unwrap();
    source.protocol = "mavlink".to_owned();
    agent.catalog.data_sources.insert("robot-07-source".to_owned(), source);
    let h = agent.heartbeat(NOW_MS, 1);
    assert_eq!(agent.beat(&h, 71, NOW_MS).unwrap_err().kind, ApiErrorKind::Forbidden);

    let mut source = agent.catalog.data_sources.remove("robot-07-source").unwrap();
    source.protocol = "ros2".to_owned();
    agent.catalog.data_sources.insert("robot-07-source".to_owned(), source);
    agent.beat(&h, 71, NOW_MS + 5).unwrap();
    assert_eq!(agent.device_status(), "online");
    assert_eq!(agent.beat(&h, 71, NOW_MS + 6).unwrap_err().kind, ApiErrorKind::Conflict);
}

#[test]
fn concurrent_sequences_cannot_commit_out_of_order() {
    let mut agent = enrolled([10; 32]);
    let mut older = agent.heartbeat(NOW_MS, 1);
    topics_of(&mut older)[0].label = "Older".to_owned();
    let mut newer = agent.heartbeat(NOW_MS, 2);
    topics_of(&mut newer)[0].label = "Newer".to_owned();
    agent.beat(&newer, 14, NOW_MS).unwrap();
    assert_eq!(agent.beat(&older, 13, NOW_MS).unwrap_err().kind, ApiErrorKind::Conflict);
    assert_eq!(agent.topics()[0].label, "Newer");
}

#[test]
fn aggregate_topic_limit_cannot_be_bypassed_and_rolls_back() {
    let mut agent = enrolled([12; 32]);
    let previous_version = agent.catalog.snapshot_version;
    let previous_mapping = agent.source().mapping_version;
    let previous_status = agent.source().status.clone();
    let mut oversized = agent.heartbeat(NOW_MS, 1);
    *topics_of(&mut oversized) = generated_topics("aggregate/a", 200);
    let mut second = agent.heartbeat(NOW_MS, 1).adapters.remove(0).observations.remove(0);
    second.identity = "robot-07-secondary-observation".to_owned();
    second.sources[0].id = "ros2:secondary".to_owned();
    second.sources[0].topics = generated_topics("aggregate/b", 200);
    oversized.adapters[0].observations.push(second);
    assert_eq!(agent.beat(&oversized, 17, NOW_MS).unwrap_err().kind, ApiErrorKind::BadRequest);
    assert_eq!(agent.catalog.snapshot_version, previous_version);
    assert!(agent.topics().is_empty());
    assert!(agent.source().topic_ids.is_empty());
    assert_eq!(agent.source().mapping_version, previous_mapping);
    assert_eq!(agent.source().status, previous_status);
    assert_eq!(agent.runtime.sequences.len(), 0);
    assert_eq!(agent.runtime.deadlines.len(), 0);

    let retry = agent.heartbeat(NOW_MS + 1, 1);
    agent.beat(&retry, 18, NOW_MS + 1).unwrap();
}

#[test]
fn topic_churn_is_deterministically_bounded_with_fresh_topics_preserved() {
    let mut agent = enrolled([13; 32]);
    for generation in 0..8_u64 {
        let at = NOW_MS + generation as i64;
        let mut h = agent.heartbeat(at, generation + 1);
        *topics_of(&mut h) = generated_topics(&format!("churn/{generation}"), MAX_TOPICS);
        agent.beat(&h, 32 + u8::try_from(generation).unwrap(), at).unwrap();
    }
    assert_eq!(agent.topics().len(), MAX_RETAINED_TOPICS_PER_SOURCE);
    assert_eq!(agent.source().topic_ids.len(), MAX_RETAINED_TOPICS_PER_SOURCE);
    let fresh: Vec<&Topic> = agent.topics().iter().filter(|t| t.quality == "fresh").collect();
    assert_eq!(fresh.len(), MAX_TOPICS);
    assert!(fresh.iter().all(|t| t.path.starts_with("/churn/7/")));
    let stale: Vec<&Topic> = agent.topics().iter().filter(|t| t.quality == "stale").collect();
    assert_eq!(stale.len(), MAX_TOPICS);
    assert!(stale.iter().all(|t| t.path.starts_with("/churn/6/")));
}

#[test]
fn pruning_keeps_the_first_topic_of_each_path() {
    let made = |id: &str, path: &str, quality: &str, at: i64| Topic {
        id: id.to_owned(),
        data_source_id: "s".to_owned(),
        device_id: "d".to_owned(),
        path: path.to_owned(),
        label: path.to_owned(),
        renderer: "raw".to_owned(),
        quality: quality.to_owned(),
        value: None,
        unit: None,
        message: None,
        samples: None,
        updated_at: iso_from_millis(at),
    };
    let mut topics = vec![
        made("a", "/x", "stale", NOW_MS + 5),
        made("b", "/x", "fresh", NOW_MS),
        made("c", "/y", "fresh", NOW_MS + 1),
        made("d", "/z", "stale", NOW_MS),
        made("e", "/x", "fresh", NOW_MS + 2),
    ];
    prune_retained_topics(&mut topics);
    let kept = |topics: &Vec<Topic>| topics.iter().map(|t| t.id.clone()).collect::<Vec<_>>();
    assert_eq!(kept(&topics), vec!["e", "c", "d"]);
    prune_retained_topics(&mut topics);
    assert_eq!(kept(&topics), vec!["e", "c", "d"]);
}

#[test]
fn new_identifiers_start_with_their_prefix() {
    let id = new_id("device");
    let rest = id.strip_prefix("device-").expect("the prefix comes first");
    assert!(uuid::Uuid::parse_str(rest).is_ok());
    assert_eq!(rest.len(), 36);
    assert_ne!(id, new_id("device"));
}

#[test]
fn withdrawal_undoes_admission() {
    let agent = enrolled([15; 32]);
    let mut runtime = EdgeHeartbeatRuntime::new();
    let h = agent.heartbeat(NOW_MS, 1);
    let admission = admit_heartbeat(&mut runtime, &h, "nonce", NOW_MS).unwrap();
    assert_eq!(runtime.sequences.len(), 1);
    withdraw_heartbeat(&mut runtime, &h, "nonce", admission);
    assert_eq!(runtime.sequences.len(), 0);
    assert_eq!(runtime.deadlines.len(), 0);
    assert!(admit_heartbeat(&mut runtime, &h, "other", NOW_MS).is_ok());
    assert_eq!(robot().copied().state_version, 142);
}
