use rms::advertisement::MAX_PACKET_SIZE;
use rms::discovery::{
    DiscoveredSource, DiscoveryObservation, EdgeObservationIdentity, PinnedDiscoveryEndpoint,
    ProviderVerificationStatus, SourceAddress,
};
use rms::discovery_rules::{
    ensure_edge_organization_scope, is_usable_source_address, sanitize_observation,
};
use rms::domain::{
    DiscoveryCandidateCategory, DiscoverySourceCategory, DiscoverySourceStatus,
};
use rms::mdns::{mdns_query, parse_mdns_packet};
use rms::providers::{
    deduplicate_and_bound, FakeDiscoveryProvider, MAX_CANDIDATES_PER_SCAN,
};
use rms::scanning::{receive_packet, scan_continues, ReceivedPacket, WireProtocol};
use rms::ssdp::{parse_advertised_endpoint, parse_ssdp_packet, ssdp_query};
use rms::ws_discovery::{parse_ws_discovery_packet, percent_decode_component, ws_discovery_query};

const NOW_SECONDS: i64 = 1_800_000_000;
const NOW_MS: i64 = 1_800_000_000_000;

fn v4(a: u8, b: u8, c: u8, d: u8) -> SourceAddress {
    SourceAddress::V4 { a, b, c, d }
}

fn push_dns_name(packet: &mut Vec<u8>, name: &str) {
    for label in name.split('.') {
        packet.push(label.len() as u8);
        packet.extend_from_slice(label.as_bytes());
    }
    packet.push(0);
}

fn mdns_rtsp_response() -> Vec<u8> {
    let mut packet = Vec::new();
    packet.extend_from_slice(&0_u16.to_be_bytes());
    packet.extend_from_slice(&0x8400_u16.to_be_bytes());
    packet.extend_from_slice(&0_u16.to_be_bytes());
    packet.extend_from_slice(&1_u16.to_be_bytes());
    packet.extend_from_slice(&0_u16.to_be_bytes());
    packet.extend_from_slice(&2_u16.to_be_bytes());

    let service_offset = packet.len();
    push_dns_name(&mut packet, "_rtsp._tcp.local");
    packet.extend_from_slice(&12_u16.to_be_bytes());
    packet.extend_from_slice(&1_u16.to_be_bytes());
    packet.extend_from_slice(&60_u32.to_be_bytes());
    let mut instance_name = Vec::new();
    instance_name.push(7);
    instance_name.extend_from_slice(b"Camera1");
    instance_name.extend_from_slice(
        &(0xc000_u16 | u16::try_from(service_offset).expect("test offset fits")).to_be_bytes(),
    );
    packet.extend_from_slice(
        &u16::try_from(instance_name.len()).expect("test record fits").to_be_bytes(),
    );
    packet.extend_from_slice(&instance_name);

    let instance_offset = packet.len();
    packet.extend_from_slice(&instance_name);
    packet.extend_from_slice(&33_u16.to_be_bytes());
    packet.extend_from_slice(&1_u16.to_be_bytes());
    packet.extend_from_slice(&45_u32.to_be_bytes());
    let mut srv_data = Vec::new();
    srv_data.extend_from_slice(&0_u16.to_be_bytes());
    srv_data.extend_from_slice(&0_u16.to_be_bytes());
    srv_data.extend_from_slice(&8554_u16.to_be_bytes());
    push_dns_name(&mut srv_data, "camera.local");
    packet.extend_from_slice(
        &u16::try_from(srv_data.len()).expect("test record fits").to_be_bytes(),
    );
    packet.extend_from_slice(&srv_data);

    packet.extend_from_slice(
        &(0xc000_u16 | u16::try_from(instance_offset).expect("test offset fits")).to_be_bytes(),
    );
    packet.extend_from_slice(&16_u16.to_be_bytes());
    packet.extend_from_slice(&1_u16.to_be_bytes());
    packet.extend_from_slice(&45_u32.to_be_bytes());
    let txt = b"\x0bpath=/front";
    packet.extend_from_slice(&u16::try_from(txt.len()).expect("test record fits").to_be_bytes());
    packet.extend_from_slice(txt);
    packet
}

#[test]
fn parses_allowlisted_mdns_and_ignores_advertised_host() {
    let advertisements = parse_mdns_packet(&mdns_rtsp_response(), None, NOW_SECONDS)
        .expect("valid mDNS response parses");
    assert_eq!(advertisements.len(), 1);
    let advertisement = &advertisements[0];
    assert_eq!(advertisement.display_name, "camera1");
    assert_eq!(advertisement.endpoint_port, 8554);
    assert_eq!(advertisement.endpoint_path, "/front");
    assert_eq!(advertisement.protocol, "rtsp");
}

#[test]
fn rejects_mdns_compression_pointer_loop() {
    let mut packet = vec![0_u8; 12];
    packet[2..4].copy_from_slice(&0x8400_u16.to_be_bytes());
    packet[6..8].copy_from_slice(&1_u16.to_be_bytes());
    packet.extend_from_slice(&[0xc0, 0x0c]);
    packet.extend_from_slice(&12_u16.to_be_bytes());
    packet.extend_from_slice(&1_u16.to_be_bytes());
    packet.extend_from_slice(&30_u32.to_be_bytes());
    packet.extend_from_slice(&2_u16.to_be_bytes());
    packet.extend_from_slice(&[0xc0, 0x0c]);
    assert!(parse_mdns_packet(&packet, None, NOW_SECONDS).is_err());
}

#[test]
fn rejects_oversized_mdns_packet() {
    assert!(parse_mdns_packet(&vec![0_u8; MAX_PACKET_SIZE + 1], None, NOW_SECONDS).is_err());
}

const SSDP_RESPONSE: &[u8] = b"HTTP/1.1 200 OK\r\n\
ST: urn:schemas-upnp-org:device:camera:1\r\n\
USN: uuid:camera-123::urn:schemas-upnp-org:device:camera:1\r\n\
SERVER: Example Camera\r\n\
LOCATION: http://203.0.113.99:8080/device.xml?secret=ignored\r\n\
CACHE-CONTROL: max-age=1800\r\n\
\r\n";

#[test]
fn parses_ssdp_without_trusting_location_host() {
    let advertisements = parse_ssdp_packet(SSDP_RESPONSE).expect("valid SSDP response parses");
    assert_eq!(advertisements.len(), 1);
    let observation = advertisements
        .into_iter()
        .next()
        .expect("one advertisement")
        .into_observation(v4(192, 0, 2, 10), "192.0.2.10", NOW_MS);
    let endpoint = &observation.sources[0].endpoint;
    assert_eq!(endpoint.source_address, v4(192, 0, 2, 10));
    assert_eq!(endpoint.port, 8080);
    assert_eq!(endpoint.path, "/device.xml");
    assert_eq!(observation.expires_at_ms - observation.last_seen_at_ms, 120_000);
}

#[test]
fn rejects_malformed_and_oversized_ssdp_packets() {
    assert!(parse_ssdp_packet(b"HTTP/1.1 200 OK\r\nUSN missing-colon\r\n\r\n").is_err());
    assert!(parse_ssdp_packet(&vec![b'a'; MAX_PACKET_SIZE + 1]).is_err());
}

#[test]
fn parses_onvif_probe_match_and_pins_packet_source() {
    let packet = br#"<?xml version="1.0"?>
<e:Envelope xmlns:e="http://www.w3.org/2003/05/soap-envelope" xmlns:a="http://schemas.xmlsoap.org/ws/2004/08/addressing" xmlns:d="http://schemas.xmlsoap.org/ws/2005/04/discovery">
<e:Body><d:ProbeMatches><d:ProbeMatch>
<a:EndpointReference><a:Address>urn:uuid:camera-456</a:Address></a:EndpointReference>
<d:Types>dn:NetworkVideoTransmitter</d:Types>
<d:Scopes>onvif://www.onvif.org/name/Loading%20Dock</d:Scopes>
<d:XAddrs>http://198.51.100.77:8899/onvif/device_service</d:XAddrs>
</d:ProbeMatch></d:ProbeMatches></e:Body></e:Envelope>"#;
    let advertisement = parse_ws_discovery_packet(packet)
        .expect("valid WS-Discovery response parses")
        .into_iter()
        .next()
        .expect("one advertisement");
    assert_eq!(advertisement.display_name, "Loading Dock");
    let observation = advertisement.into_observation(v4(192, 0, 2, 20), "192.0.2.20", NOW_MS);
    assert_eq!(observation.sources[0].endpoint.source_address, v4(192, 0, 2, 20));
    assert_eq!(observation.sources[0].endpoint.port, 8899);
}

#[test]
fn rejects_unsafe_or_oversized_ws_discovery_packets() {
    let entity_packet =
        br#"<!DOCTYPE x [<!ENTITY y SYSTEM "file:///etc/passwd">]><d:ProbeMatches/>"#;
    assert!(parse_ws_discovery_packet(entity_packet).is_err());
    assert!(parse_ws_discovery_packet(&vec![b'a'; MAX_PACKET_SIZE + 1]).is_err());
}

#[test]
fn accepts_only_lan_source_addresses() {
    for allowed in [
        v4(10, 1, 2, 3),
        v4(172, 16, 4, 5),
        v4(192, 168, 6, 7),
        v4(169, 254, 8, 9),
        SourceAddress::V6 { high: 0xfd12_0000_0000_0000, low: 1 },
        SourceAddress::V6 { high: 0xfe80_0000_0000_0000, low: 1 },
    ] {
        assert!(is_usable_source_address(allowed), "expected {allowed:?} to be accepted");
    }
    for rejected in [
        v4(127, 0, 0, 1),
        v4(8, 8, 8, 8),
        v4(192, 0, 2, 1),
        v4(203, 0, 113, 4),
        SourceAddress::V6 { high: 0, low: 1 },
        SourceAddress::V6 { high: 0x2001_4860_4860_0000, low: 0x8888 },
    ] {
        assert!(!is_usable_source_address(rejected), "expected {rejected:?} to be rejected");
    }
}

fn observation(address: SourceAddress, text: &str) -> DiscoveryObservation {
    DiscoveryObservation {
        fingerprint: "test-candidate".to_owned(),
        display_name: "Test robot".to_owned(),
        category: DiscoveryCandidateCategory::Robot,
        suggested_device_kind: "robot".to_owned(),
        integration_kind: "rerun".to_owned(),
        endpoint_label: "Test edge".to_owned(),
        last_seen_at_ms: NOW_MS,
        expires_at_ms: NOW_MS + 1_000,
        sources: vec![DiscoveredSource {
            id: "telemetry".to_owned(),
            label: "Telemetry".to_owned(),
            category: DiscoverySourceCategory::Telemetry,
            status: DiscoverySourceStatus::Ready,
            protocol: "rerun".to_owned(),
            endpoint: PinnedDiscoveryEndpoint {
                source_address: address,
                address_text: text.to_owned(),
                port: 9877,
                scheme: "rerun+http".to_owned(),
                path: "/proxy".to_owned(),
            },
        }],
        edge_identity: None,
    }
}

#[test]
fn observation_boundary_rejects_non_lan_and_unsafe_paths() {
    assert!(sanitize_observation(&observation(v4(192, 168, 1, 10), "192.168.1.10"), NOW_MS).is_ok());
    assert!(sanitize_observation(&observation(v4(8, 8, 8, 8), "8.8.8.8"), NOW_MS).is_err());
    assert!(sanitize_observation(&observation(v4(127, 0, 0, 1), "127.0.0.1"), NOW_MS).is_err());

    let mut unsafe_path = observation(v4(10, 0, 0, 2), "10.0.0.2");
    unsafe_path.sources[0].endpoint.path = "/../admin".to_owned();
    assert!(sanitize_observation(&unsafe_path, NOW_MS).is_err());
}

fn identity(organization: Option<&str>, trusted: bool) -> EdgeObservationIdentity {
    EdgeObservationIdentity {
        device_id: "edge-device".to_owned(),
        public_key: [1; 32],
        nonce: [2; 16],
        timestamp_seconds: 1,
        organization_id: organization.map(str::to_owned),
        organization_trusted: trusted,
    }
}

#[test]
fn signed_edge_observation_is_eligible_for_registration() {
    let mut edge = observation(v4(10, 0, 0, 2), "10.0.0.2");
    edge.integration_kind = "rms_edge".to_owned();
    edge.sources[0].id = "mavlink-telemetry".to_owned();
    edge.sources[0].protocol = "mavlink".to_owned();
    edge.sources[0].endpoint.scheme = "http".to_owned();
    edge.edge_identity = Some(identity(None, false));

    assert!(sanitize_observation(&edge, NOW_MS).is_ok());

    edge.edge_identity = None;
    assert!(sanitize_observation(&edge, NOW_MS).is_err());
}

#[test]
fn organization_authenticated_edge_cannot_cross_project_tenants() {
    let mut observation = observation(v4(10, 0, 0, 2), "10.0.0.2");
    observation.edge_identity = Some(identity(Some("org-a"), true));
    assert!(ensure_edge_organization_scope(&observation, "org-a").is_ok());
    assert!(ensure_edge_organization_scope(&observation, "org-b").is_err());
}

fn packet(bytes: &[u8], address: SourceAddress) -> ReceivedPacket<'_> {
    ReceivedPacket {
        bytes,
        address,
        address_text: "192.168.1.9",
        now_seconds: NOW_SECONDS,
        now_ms: NOW_MS,
    }
}

#[test]
fn scans_stay_local_and_bounded() {
    let mut found = Vec::new();
    let far = packet(SSDP_RESPONSE, v4(203, 0, 113, 99));
    receive_packet(&mut found, WireProtocol::Ssdp, &far, None, 2);
    assert!(found.is_empty());
    let near = packet(SSDP_RESPONSE, v4(192, 168, 1, 9));
    receive_packet(&mut found, WireProtocol::WsDiscovery, &near, None, 2);
    assert!(found.is_empty(), "an unreadable packet adds nothing");
    for _ in 0..3 {
        receive_packet(&mut found, WireProtocol::Ssdp, &near, None, 2);
    }
    assert_eq!(found.len(), 2);
    assert_eq!(found[0].sources[0].endpoint.source_address, v4(192, 168, 1, 9));
    assert!(scan_continues(1, 2, false, 0, 1));
    assert!(!scan_continues(1, 2, true, 0, 1));
    assert!(!scan_continues(2, 2, false, 0, 1));
    assert!(!scan_continues(1, 2, false, 1, 1));
}

#[test]
fn repeated_observations_are_merged() {
    let mut found = Vec::new();
    let near = packet(SSDP_RESPONSE, v4(192, 168, 1, 9));
    for _ in 0..3 {
        receive_packet(&mut found, WireProtocol::Ssdp, &near, None, 8);
    }
    let merged = deduplicate_and_bound(&found, MAX_CANDIDATES_PER_SCAN);
    assert_eq!(merged.len(), 1);
}

#[test]
fn fixture_providers_answer_with_their_fixture() {
    let provider = FakeDiscoveryProvider::fixture(NOW_MS);
    let found = provider.discover(false);
    assert!(!found.is_empty());
    for one in &found {
        assert!(sanitize_observation(one, NOW_MS).is_ok());
    }
}

#[test]
fn scripted_providers_keep_their_settings() {
    let provider = FakeDiscoveryProvider::fixture(NOW_MS)
        .with_scan_delay(250)
        .with_verification_status(ProviderVerificationStatus::NeedsCredentials);
    assert_eq!(provider.scan_delay_ms, 250);
    let found = provider.discover(false);
    let verified = provider.verify(&found[0], false);
    assert_eq!(verified.status, ProviderVerificationStatus::NeedsCredentials);
    assert!(provider.discover(true).is_empty());
    let refused = provider.verify(&found[0], true);
    assert_eq!(refused.status, ProviderVerificationStatus::Unavailable);
}

#[test]
fn queries_are_those_of_their_protocols() {
    let query = mdns_query();
    assert_eq!(query[0], 0);
    assert!(query.len() < MAX_PACKET_SIZE);
    assert!(ssdp_query().starts_with("M-SEARCH * HTTP/1.1\r\n"));
    let probe = ws_discovery_query();
    assert!(probe.contains("Probe"));
}

#[test]
fn advertised_endpoints_lose_their_host_and_query() {
    let (scheme, port, path) =
        parse_advertised_endpoint("http://203.0.113.99:8080/device.xml?x=1", false).unwrap();
    assert_eq!((scheme.as_str(), port, path.as_str()), ("http", 8080, "/device.xml"));
    assert!(parse_advertised_endpoint("ftp://host/x", false).is_none());
    assert_eq!(percent_decode_component("Loading%20Dock"), "Loading Dock");
}
