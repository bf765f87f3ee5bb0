//! What the machines on the local network announce of themselves, and the observations that come
//! of it. Announced host names and addresses are never trusted: every endpoint is pinned to the
//! address that its packet came from.

use crate::discovery;
use crate::discovery::{
    DiscoveredSource, DiscoveredSourceView, DiscoveryObservation, DiscoveryObservationView,
    EdgeObservationIdentity, EdgeObservationIdentityView, PinnedDiscoveryEndpoint,
    PinnedDiscoveryEndpointView, SourceAddress,
};
use crate::domain::{DiscoveryCandidateCategory, DiscoverySourceCategory, DiscoverySourceStatus};
use crate::edge_advertisement::{
    EdgeCapability, VerifiedEdgeAdvertisement, VerifiedEdgeAdvertisementView,
};
use crate::hashing;
use crate::search;
use crate::table;
use crate::text;
use vstd::prelude::*;
use vstd::string::*;
use vstd::utf8::*;

verus! {

pub const MAX_PACKET_SIZE: usize = 16_384;
pub const MIN_ADVERTISEMENT_TTL_SECS: u64 = 5;
pub const MAX_ADVERTISEMENT_TTL_SECS: u64 = 120;
pub const DEFAULT_ADVERTISEMENT_TTL_SECS: u64 = 30;

/// A packet that is not what its protocol asks for.
#[derive(Clone, Copy, Debug, PartialEq, Eq, Structural)]
pub struct PacketParseError;

/// The result of a parse without its error.
pub open spec fn parsed<T>(r: Result<T, PacketParseError>) -> Option<T> {
    match r {
        Ok(x) => Some(x),
        Err(_) => None,
    }
}

/// The result of a parse, in terms of what its value stands for.
pub open spec fn parsed_view<T: View>(r: Result<T, PacketParseError>) -> Option<T::V> {
    match r {
        Ok(x) => Some(x@),
        Err(_) => None,
    }
}

/// The results of a parse, in terms of what they stand for.
pub open spec fn parsed_views<T: View>(r: Result<Vec<T>, PacketParseError>) -> Option<Seq<T::V>> {
    match r {
        Ok(v) => Some(table::views(v@)),
        Err(_) => None,
    }
}

pub fn ensure_packet_size(packet: &[u8]) -> (r: Result<(), PacketParseError>)
    ensures
        r is Ok <==> packet@.len() <= MAX_PACKET_SIZE,
{
    if packet.len() > MAX_PACKET_SIZE {
        Err(PacketParseError)
    } else {
        Ok(())
    }
}

/// A further source of an announced machine.
#[derive(Debug)]
pub struct ParsedSourceAdvertisement {
    pub id: &'static str,
    pub label: &'static str,
    pub category: DiscoverySourceCategory,
    pub protocol: &'static str,
    pub scheme: &'static str,
    pub port: u16,
    pub path: String,
}

#[verifier::ext_equal]
pub struct ParsedSourceAdvertisementView {
    pub id: Seq<char>,
    pub label: Seq<char>,
    pub category: DiscoverySourceCategory,
    pub protocol: Seq<char>,
    pub scheme: Seq<char>,
    pub port: u16,
    pub path: Seq<char>,
}

impl View for ParsedSourceAdvertisement {
    type V = ParsedSourceAdvertisementView;

    open spec fn view(&self) -> ParsedSourceAdvertisementView {
        ParsedSourceAdvertisementView {
            id: self.id@,
            label: self.label@,
            category: self.category,
            protocol: self.protocol@,
            scheme: self.scheme@,
            port: self.port,
            path: self.path@,
        }
    }
}

/// An announced machine with its first source.
#[derive(Debug)]
pub struct ParsedAdvertisement {
    pub fingerprint_namespace: &'static str,
    pub identity: String,
    pub display_name: String,
    pub category: DiscoveryCandidateCategory,
    pub suggested_device_kind: &'static str,
    pub integration_kind: &'static str,
    pub endpoint_label: String,
    pub source_id: &'static str,
    pub source_label: String,
    pub source_category: DiscoverySourceCategory,
    pub protocol: &'static str,
    pub endpoint_scheme: String,
    pub endpoint_port: u16,
    pub endpoint_path: String,
    pub ttl_seconds: u64,
    pub additional_sources: Vec<ParsedSourceAdvertisement>,
    pub edge_identity: Option<EdgeObservationIdentity>,
}

#[verifier::ext_equal]
pub struct ParsedAdvertisementView {
    pub fingerprint_namespace: Seq<char>,
    pub identity: Seq<char>,
    pub display_name: Seq<char>,
    pub category: DiscoveryCandidateCategory,
    pub suggested_device_kind: Seq<char>,
    pub integration_kind: Seq<char>,
    pub endpoint_label: Seq<char>,
    pub source_id: Seq<char>,
    pub source_label: Seq<char>,
    pub source_category: DiscoverySourceCategory,
    pub protocol: Seq<char>,
    pub endpoint_scheme: Seq<char>,
    pub endpoint_port: u16,
    pub endpoint_path: Seq<char>,
    pub ttl_seconds: u64,
    pub additional_sources: Seq<ParsedSourceAdvertisementView>,
    pub edge_identity: Option<EdgeObservationIdentityView>,
}

impl View for ParsedAdvertisement {
    type V = ParsedAdvertisementView;

    open spec fn view(&self) -> ParsedAdvertisementView {
        ParsedAdvertisementView {
            fingerprint_namespace: self.fingerprint_namespace@,
            identity: self.identity@,
            display_name: self.display_name@,
            category: self.category,
            suggested_device_kind: self.suggested_device_kind@,
            integration_kind: self.integration_kind@,
            endpoint_label: self.endpoint_label@,
            source_id: self.source_id@,
            source_label: self.source_label@,
            source_category: self.source_category,
            protocol: self.protocol@,
            endpoint_scheme: self.endpoint_scheme@,
            endpoint_port: self.endpoint_port,
            endpoint_path: self.endpoint_path@,
            ttl_seconds: self.ttl_seconds,
            additional_sources: table::views(self.additional_sources@),
            edge_identity: table::view_option(self.edge_identity),
        }
    }
}

/// The first characters of a text, at most `limit` of them.
pub open spec fn shortened(s: Seq<char>, limit: int) -> Seq<char> {
    if s.len() > limit {
        s.take(limit)
    } else {
        s
    }
}

pub fn shorten(s: &str, limit: usize) -> (r: String)
    ensures
        r@ == shortened(s@, limit as int),
{
    let v = text::chars_of(s);
    if v.len() > limit {
        let r = text::string_between(v.as_slice(), 0, limit);
        assert(r@ =~= s@.take(limit as int));
        return r;
    }
    s.to_owned()
}

/// A text without its control characters.
pub open spec fn printable(s: Seq<char>) -> Seq<char> {
    s.filter(|c: char| !text::is_control(c))
}

fn drop_control(s: &str) -> (r: String)
    ensures
        r@ == printable(s@),
{
    let v = text::chars_of(s);
    let ghost p = |c: char| !text::is_control(c);
    let mut r = String::new();
    let mut i: usize = 0;
    proof {
        reveal(Seq::filter);
        assert(r@ =~= s@.take(0).filter(p));
    }
    while i < v.len()
        invariant
            i <= v@.len(),
            v@ == s@,
            p == (|c: char| !text::is_control(c)),
            r@ == s@.take(i as int).filter(p),
        decreases v@.len() - i,
    {
        proof {
            reveal(Seq::filter);
            assert(s@.take(i + 1).drop_last() =~= s@.take(i as int));
        }
        if !text::control_char(v[i]) {
            r.push(v[i]);
        }
        i = i + 1;
    }
    assert(s@.take(s@.len() as int) =~= s@);
    r
}

/// A label to show: short and printable, or the fallback.
pub open spec fn clean_label(value: Seq<char>, fallback: Seq<char>) -> Seq<char> {
    let s = shortened(printable(text::trim(value)), 96);
    if s.len() == 0 {
        fallback
    } else {
        s
    }
}

pub fn sanitize_label(value: &str, fallback: &str) -> (r: String)
    ensures
        r@ == clean_label(value@, fallback@),
{
    let trimmed = text::trimmed(value);
    let plain = drop_control(trimmed.as_str());
    let s = shorten(plain.as_str(), 96);
    if s.as_str().is_empty() {
        fallback.to_owned()
    } else {
        s
    }
}

/// A path to connect to: absolute, printable and short, or the root.
pub open spec fn clean_path(value: Seq<char>) -> Seq<char> {
    if value.len() == 0 || value[0] != '/' || text::any_control(value) {
        "/"@
    } else {
        shortened(value, 256)
    }
}

pub fn safe_path(value: &str) -> (r: String)
    ensures
        r@ == clean_path(value@),
{
    if value.is_empty() || text::chars_of(value)[0] != '/' || text::has_control(value) {
        return "/".to_owned();
    }
    shorten(value, 256)
}

/// The shorter of two lifetimes, where zero stands for none; a default where both are.
pub open spec fn shorter_life(left: u64, right: u64) -> u64 {
    if left == 0 && right == 0 {
        DEFAULT_ADVERTISEMENT_TTL_SECS
    } else if left == 0 {
        right
    } else if right == 0 || left <= right {
        left
    } else {
        right
    }
}

pub fn nonzero_min(left: u64, right: u64) -> (r: u64)
    ensures
        r == shorter_life(left, right),
{
    if left == 0 && right == 0 {
        DEFAULT_ADVERTISEMENT_TTL_SECS
    } else if left == 0 {
        right
    } else if right == 0 || left <= right {
        left
    } else {
        right
    }
}

/// The fingerprint of an identity in a namespace.
pub open spec fn fingerprint_of(namespace: Seq<char>, identity: Seq<char>) -> Seq<char> {
    "multicast:"@ + namespace + ":"@ + hashing::sha256_hex(
        encode_utf8(namespace) + seq![0u8] + encode_utf8(identity),
    )
}

pub fn stable_fingerprint(namespace: &str, identity: &str) -> (r: String)
    ensures
        r@ == fingerprint_of(namespace@, identity@),
{
    let mut bytes: Vec<u8> = Vec::new();
    hashing::extend(&mut bytes, namespace.as_bytes());
    bytes.push(0u8);
    hashing::extend(&mut bytes, identity.as_bytes());
    assert(bytes@ =~= encode_utf8(namespace@) + seq![0u8] + encode_utf8(identity@));
    let digest = hashing::hex_sha256(bytes.as_slice());
    text::line("multicast:").add(namespace).add(":").add(digest.as_str()).done()
}

/// How long an announcement counts, in milliseconds.
pub open spec fn life_ms(ttl_seconds: u64) -> i64 {
    if ttl_seconds < MIN_ADVERTISEMENT_TTL_SECS {
        5_000
    } else if ttl_seconds > MAX_ADVERTISEMENT_TTL_SECS {
        120_000
    } else {
        (ttl_seconds * 1_000) as i64
    }
}

fn life_of(ttl_seconds: u64) -> (r: i64)
    ensures
        r == life_ms(ttl_seconds),
{
    if ttl_seconds < MIN_ADVERTISEMENT_TTL_SECS {
        5_000
    } else if ttl_seconds > MAX_ADVERTISEMENT_TTL_SECS {
        120_000
    } else {
        ttl_seconds as i64 * 1_000
    }
}

pub open spec fn first_source(
    a: ParsedAdvertisementView,
    address: SourceAddress,
    address_text: Seq<char>,
) -> DiscoveredSourceView {
    DiscoveredSourceView {
        id: a.source_id,
        label: clean_label(a.source_label, "Discovered source"@),
        category: a.source_category,
        status: DiscoverySourceStatus::Ready,
        protocol: a.protocol,
        endpoint: PinnedDiscoveryEndpointView {
            source_address: address,
            address_text,
            port: a.endpoint_port,
            scheme: a.endpoint_scheme,
            path: a.endpoint_path,
        },
    }
}

pub open spec fn further_source(
    s: ParsedSourceAdvertisementView,
    address: SourceAddress,
    address_text: Seq<char>,
) -> DiscoveredSourceView {
    DiscoveredSourceView {
        id: s.id,
        label: s.label,
        category: s.category,
        status: DiscoverySourceStatus::Ready,
        protocol: s.protocol,
        endpoint: PinnedDiscoveryEndpointView {
            source_address: address,
            address_text,
            port: s.port,
            scheme: s.scheme,
            path: s.path,
        },
    }
}

/// The observation of an announced machine at the address that its packet came from.
pub open spec fn observation_of(
    a: ParsedAdvertisementView,
    address: SourceAddress,
    address_text: Seq<char>,
    now_ms: i64,
) -> DiscoveryObservationView {
    DiscoveryObservationView {
        fingerprint: fingerprint_of(a.fingerprint_namespace, a.identity),
        display_name: clean_label(a.display_name, "LAN device"@),
        category: a.category,
        suggested_device_kind: a.suggested_device_kind,
        integration_kind: a.integration_kind,
        endpoint_label: clean_label(a.endpoint_label, "LAN endpoint"@),
        last_seen_at_ms: now_ms,
        expires_at_ms: discovery::saturated(now_ms + life_ms(a.ttl_seconds)),
        sources: seq![first_source(a, address, address_text)] + a.additional_sources.map_values(
            |s: ParsedSourceAdvertisementView| further_source(s, address, address_text),
        ),
        edge_identity: a.edge_identity,
    }
}

impl ParsedAdvertisement {
    /// The observation of the machine, pinned to the address that its packet came from.
    pub fn into_observation(self, address: SourceAddress, address_text: &str, now_ms: i64) -> (r:
        DiscoveryObservation)
        ensures
            r@ == observation_of(self@, address, address_text@, now_ms),
    {
        let ghost given = self@;
        let mut sources: Vec<DiscoveredSource> = Vec::new();
        let label = sanitize_label(self.source_label.as_str(), "Discovered source");
        sources.push(
            DiscoveredSource {
                id: self.source_id.to_owned(),
                label,
                category: self.source_category,
                status: DiscoverySourceStatus::Ready,
                protocol: self.protocol.to_owned(),
                endpoint: PinnedDiscoveryEndpoint {
                    source_address: address,
                    address_text: address_text.to_owned(),
                    port: self.endpoint_port,
                    scheme: self.endpoint_scheme.clone(),
                    path: self.endpoint_path.clone(),
                },
            },
        );
        let ghost further = given.additional_sources.map_values(
            |s: ParsedSourceAdvertisementView| further_source(s, address, address_text@),
        );
        let ghost head = seq![first_source(given, address, address_text@)];
        let mut i: usize = 0;
        proof {
            assert(table::views(sources@) =~= head + further.take(0));
        }
        while i < self.additional_sources.len()
            invariant
                i <= self.additional_sources@.len(),
                given == self@,
                further == given.additional_sources.map_values(
                    |s: ParsedSourceAdvertisementView| further_source(s, address, address_text@),
                ),
                table::views(sources@) == head + further.take(i as int),
            decreases self.additional_sources@.len() - i,
        {
            let s = &self.additional_sources[i];
            assert(given.additional_sources[i as int] == s@);
            let one = DiscoveredSource {
                id: s.id.to_owned(),
                label: s.label.to_owned(),
                category: s.category,
                status: DiscoverySourceStatus::Ready,
                protocol: s.protocol.to_owned(),
                endpoint: PinnedDiscoveryEndpoint {
                    source_address: address,
                    address_text: address_text.to_owned(),
                    port: s.port,
                    scheme: s.scheme.to_owned(),
                    path: s.path.clone(),
                },
            };
            proof {
                table::lemma_views_push(sources@, one);
                assert(one@ == further[i as int]);
                assert(head + further.take(i + 1) =~= (head + further.take(i as int)).push(one@));
            }
            sources.push(one);
            i = i + 1;
        }
        proof {
            assert(further.take(further.len() as int) =~= further);
        }
        let fingerprint = stable_fingerprint(self.fingerprint_namespace, self.identity.as_str());
        let display_name = sanitize_label(self.display_name.as_str(), "LAN device");
        let endpoint_label = sanitize_label(self.endpoint_label.as_str(), "LAN endpoint");
        let expires_at_ms: i64 = discovery::saturating_add(now_ms, life_of(self.ttl_seconds));
        DiscoveryObservation {
            fingerprint,
            display_name,
            category: self.category,
            suggested_device_kind: self.suggested_device_kind.to_owned(),
            integration_kind: self.integration_kind.to_owned(),
            endpoint_label,
            last_seen_at_ms: now_ms,
            expires_at_ms,
            sources,
            edge_identity: self.edge_identity,
        }
    }
}

/// Every source of an observation is pinned to the address that the packet came from, and an
/// observation counts for five seconds to two minutes.
pub proof fn law_observations_are_pinned_to_their_packet(
    a: ParsedAdvertisementView,
    address: SourceAddress,
    address_text: Seq<char>,
    now_ms: i64,
)
    requires
        now_ms <= i64::MAX - 120_000,
    ensures
        ({
            let o = observation_of(a, address, address_text, now_ms);
            &&& forall|i: int|
                0 <= i < o.sources.len() ==> (#[trigger] o.sources[i]).endpoint.source_address
                    == address
            &&& 5_000 <= o.expires_at_ms - o.last_seen_at_ms <= 120_000
        }),
{
}


/// The path of a part of an agent's interface.
pub open spec fn path_below(path: Seq<char>, part: Seq<char>) -> Seq<char> {
    if path == "/"@ {
        "/"@ + part
    } else {
        search::without_end(path, '/') + "/"@ + part
    }
}

fn extend_path(path: &str, part: &str) -> (r: String)
    ensures
        r@ == path_below(path@, part@),
{
    if text::same(path, "/") {
        return text::line("/").add(part).done();
    }
    let head = search::trim_end_char(path, '/');
    text::line(head.as_str()).add("/").add(part).done()
}

/// The source that a capability of an agent offers, if it offers one.
pub open spec fn capability_source(c: EdgeCapability, path: Seq<char>, port: u16) -> Option<
    ParsedSourceAdvertisementView,
> {
    match c {
        EdgeCapability::Ros2Dds => Some(
            ParsedSourceAdvertisementView {
                id: "ros2-graph"@,
                label: "ROS 2 데이터"@,
                category: DiscoverySourceCategory::State,
                protocol: "ros2"@,
                scheme: "http"@,
                port,
                path: path_below(path, "ros2"@),
            },
        ),
        EdgeCapability::Mavlink => Some(
            ParsedSourceAdvertisementView {
                id: "mavlink-telemetry"@,
                label: "MAVLink 텔레메트리"@,
                category: DiscoverySourceCategory::Telemetry,
                protocol: "mavlink"@,
                scheme: "http"@,
                port,
                path: path_below(path, "mavlink"@),
            },
        ),
        EdgeCapability::Status => None,
    }
}

fn source_of_capability(c: EdgeCapability, path: &str, port: u16) -> (r: Option<
    ParsedSourceAdvertisement,
>)
    ensures
        table::view_option(r) == capability_source(c, path@, port),
{
    match c {
        EdgeCapability::Ros2Dds => Some(
            ParsedSourceAdvertisement {
                id: "ros2-graph",
                label: "ROS 2 데이터",
                category: DiscoverySourceCategory::State,
                protocol: "ros2",
                scheme: "http",
                port,
                path: extend_path(path, "ros2"),
            },
        ),
        EdgeCapability::Mavlink => Some(
            ParsedSourceAdvertisement {
                id: "mavlink-telemetry",
                label: "MAVLink 텔레메트리",
                category: DiscoverySourceCategory::Telemetry,
                protocol: "mavlink",
                scheme: "http",
                port,
                path: extend_path(path, "mavlink"),
            },
        ),
        EdgeCapability::Status => None,
    }
}

/// The sources that the first `i` capabilities of an agent offer.
pub open spec fn capability_sources(
    capabilities: Seq<EdgeCapability>,
    path: Seq<char>,
    port: u16,
    i: int,
) -> Seq<ParsedSourceAdvertisementView>
    decreases i,
{
    if i <= 0 || i > capabilities.len() {
        Seq::empty()
    } else {
        let front = capability_sources(capabilities, path, port, i - 1);
        match capability_source(capabilities[i - 1], path, port) {
            Some(s) => front.push(s),
            None => front,
        }
    }
}

pub open spec fn kind_category(kind: Seq<char>) -> Option<DiscoveryCandidateCategory> {
    if kind == "robot"@ {
        Some(DiscoveryCandidateCategory::Robot)
    } else if kind == "drone"@ {
        Some(DiscoveryCandidateCategory::Drone)
    } else if kind == "vehicle"@ {
        Some(DiscoveryCandidateCategory::Vehicle)
    } else if kind == "camera"@ {
        Some(DiscoveryCandidateCategory::Camera)
    } else if kind == "gateway"@ {
        Some(DiscoveryCandidateCategory::Gateway)
    } else {
        None
    }
}

fn category_of_kind(kind: &str) -> (r: Option<DiscoveryCandidateCategory>)
    ensures
        r == kind_category(kind@),
{
    if text::same(kind, "robot") {
        Some(DiscoveryCandidateCategory::Robot)
    } else if text::same(kind, "drone") {
        Some(DiscoveryCandidateCategory::Drone)
    } else if text::same(kind, "vehicle") {
        Some(DiscoveryCandidateCategory::Vehicle)
    } else if text::same(kind, "camera") {
        Some(DiscoveryCandidateCategory::Camera)
    } else if text::same(kind, "gateway") {
        Some(DiscoveryCandidateCategory::Gateway)
    } else {
        None
    }
}

/// What a verified announcement of an edge agent offers.
pub open spec fn edge_offer(v: VerifiedEdgeAdvertisementView, port: u16, ttl_seconds: u64) -> Option<
    ParsedAdvertisementView,
> {
    let sources = capability_sources(
        v.capabilities,
        v.path,
        port,
        v.capabilities.len() as int,
    );
    match kind_category(v.device_kind) {
        None => None,
        Some(category) => if sources.len() == 0 {
            None
        } else {
            Some(
                ParsedAdvertisementView {
                    fingerprint_namespace: "edge-v1"@,
                    identity: v.device_id,
                    display_name: v.display_name,
                    category,
                    suggested_device_kind: v.device_kind,
                    integration_kind: "rms_edge"@,
                    endpoint_label: "RMS Edge Agent"@,
                    source_id: sources[0].id,
                    source_label: sources[0].label,
                    source_category: sources[0].category,
                    protocol: sources[0].protocol,
                    endpoint_scheme: sources[0].scheme,
                    endpoint_port: sources[0].port,
                    endpoint_path: sources[0].path,
                    ttl_seconds,
                    additional_sources: sources.drop_first(),
                    edge_identity: Some(
                        EdgeObservationIdentityView {
                            device_id: v.device_id,
                            public_key: v.public_key,
                            nonce: v.nonce,
                            timestamp_seconds: v.timestamp_seconds,
                            organization_id: v.organization_id,
                            organization_trusted: v.organization_trusted,
                        },
                    ),
                },
            )
        },
    }
}

/// What a verified announcement of an edge agent offers.
pub fn signed_edge_advertisement(v: VerifiedEdgeAdvertisement, port: u16, ttl_seconds: u64) -> (r:
    Option<ParsedAdvertisement>)
    ensures
        table::view_option(r) == edge_offer(v@, port, ttl_seconds),
{
    let category = match category_of_kind(v.device_kind) {
        Some(c) => c,
        None => {
            return None;
        },
    };
    let ghost whole = capability_sources(
        v.capabilities@,
        v.path@,
        port,
        v.capabilities@.len() as int,
    );
    let mut sources: Vec<ParsedSourceAdvertisement> = Vec::new();
    let mut i: usize = 0;
    proof {
        assert(table::views(sources@) =~= capability_sources(v.capabilities@, v.path@, port, 0));
    }
    while i < v.capabilities.len()
        invariant
            i <= v.capabilities@.len(),
            table::views(sources@) == capability_sources(v.capabilities@, v.path@, port, i as int),
        decreases v.capabilities@.len() - i,
    {
        match source_of_capability(v.capabilities[i], v.path.as_str(), port) {
            Some(s) => {
                proof {
                    table::lemma_views_push(sources@, s);
                }
                sources.push(s);
            },
            None => {},
        }
        i = i + 1;
    }
    if sources.len() == 0 {
        return None;
    }
    let primary = sources.remove(0);
    assert(primary@ == whole[0]);
    assert(table::views(sources@) =~= whole.drop_first());
    let identity = EdgeObservationIdentity {
        device_id: v.device_id.clone(),
        public_key: v.public_key,
        nonce: v.nonce,
        timestamp_seconds: v.timestamp_seconds,
        organization_id: v.organization_id,
        organization_trusted: v.organization_trusted,
    };
    Some(
        ParsedAdvertisement {
            fingerprint_namespace: "edge-v1",
            identity: v.device_id,
            display_name: v.display_name,
            category,
            suggested_device_kind: v.device_kind,
            integration_kind: "rms_edge",
            endpoint_label: "RMS Edge Agent".to_owned(),
            source_id: primary.id,
            source_label: primary.label.to_owned(),
            source_category: primary.category,
            protocol: primary.protocol,
            endpoint_scheme: primary.scheme.to_owned(),
            endpoint_port: primary.port,
            endpoint_path: primary.path,
            ttl_seconds,
            additional_sources: sources,
            edge_identity: Some(identity),
        },
    )
}


/// Every source of an agent is offered at the agent's port.
pub proof fn lemma_sources_share_the_port(
    capabilities: Seq<EdgeCapability>,
    path: Seq<char>,
    port: u16,
    i: int,
)
    ensures
        forall|k: int|
            0 <= k < capability_sources(capabilities, path, port, i).len() ==> (
            #[trigger] capability_sources(capabilities, path, port, i)[k]).port == port,
    decreases i,
{
    if 0 < i <= capabilities.len() {
        lemma_sources_share_the_port(capabilities, path, port, i - 1);
    }
}

/// An observation is what was announced: its kinds, its identity and each of its sources at the
/// announced port and path, from the moment on that it was heard, for the announced lifetime
/// within five seconds and two minutes.
pub proof fn law_observations_hold_the_announcement(
    a: ParsedAdvertisementView,
    address: SourceAddress,
    address_text: Seq<char>,
    now_ms: i64,
    i: int,
)
    requires
        now_ms <= i64::MAX - 120_000,
    ensures
        ({
            let o = observation_of(a, address, address_text, now_ms);
            let first = o.sources[0];
            &&& o.category == a.category
            &&& o.suggested_device_kind == a.suggested_device_kind
            &&& o.integration_kind == a.integration_kind
            &&& o.edge_identity == a.edge_identity
            &&& o.last_seen_at_ms == now_ms
            &&& a.ttl_seconds < 5 ==> o.expires_at_ms == now_ms + 5_000
            &&& 5 <= a.ttl_seconds <= 120 ==> o.expires_at_ms == now_ms + a.ttl_seconds * 1_000
            &&& a.ttl_seconds > 120 ==> o.expires_at_ms == now_ms + 120_000
            &&& o.sources.len() == a.additional_sources.len() + 1
            &&& first.id == a.source_id && first.category == a.source_category && first.protocol
                == a.protocol && first.status == DiscoverySourceStatus::Ready
            &&& first.endpoint.port == a.endpoint_port && first.endpoint.scheme
                == a.endpoint_scheme && first.endpoint.path == a.endpoint_path
                && first.endpoint.source_address == address && first.endpoint.address_text
                == address_text
            &&& 0 <= i < a.additional_sources.len() ==> {
                let s = a.additional_sources[i];
                let further = o.sources[i + 1];
                &&& further.id == s.id && further.label == s.label && further.category
                    == s.category && further.protocol == s.protocol && further.status
                    == DiscoverySourceStatus::Ready
                &&& further.endpoint.port == s.port && further.endpoint.scheme == s.scheme
                    && further.endpoint.path == s.path && further.endpoint.source_address
                    == address && further.endpoint.address_text == address_text
            }
        }),
{
}

/// A label that is shown has at most 96 characters, none of them a control character; a short
/// printable text is shown as it is, without the space around it, and a blank one is replaced.
pub proof fn law_labels_are_short_and_printable(value: Seq<char>, fallback: Seq<char>)
    ensures
        clean_label(value, fallback) == fallback || {
            &&& 0 < clean_label(value, fallback).len() <= 96
            &&& forall|i: int|
                0 <= i < clean_label(value, fallback).len() ==> !text::is_control(
                    #[trigger] clean_label(value, fallback)[i],
                ) && value.contains(clean_label(value, fallback)[i])
        },
        text::trim(value).len() == 0 ==> clean_label(value, fallback) == fallback,
        0 < text::trim(value).len() <= 96 && !text::any_control(text::trim(value)) ==> clean_label(
            value,
            fallback,
        ) == text::trim(value),
{
    broadcast use vstd::seq_lib::group_filter_ensures;

    let t = text::trim(value);
    let p = |c: char| !text::is_control(c);
    let kept = printable(t);
    let s = shortened(kept, 96);
    text::lemma_trim_within(value);
    table::lemma_filter_within(t, p);
    assert forall|i: int| 0 <= i < s.len() implies !text::is_control(#[trigger] s[i])
        && value.contains(s[i]) by {
        assert(s[i] == kept[i]);
        assert(kept.contains(kept[i]));
        assert(t.contains(kept[i]));
        assert(p(kept[i]));
        let j = choose|j: int| 0 <= j < t.len() && t[j] == kept[i];
        assert(value.contains(t[j]));
    }
    if t.len() == 0 {
        assert(kept =~= Seq::empty()) by {
            reveal(Seq::filter);
        }
    }
    if !text::any_control(t) {
        lemma_all_kept(t, p);
    }
}

proof fn lemma_all_kept(s: Seq<char>, p: spec_fn(char) -> bool)
    requires
        forall|i: int| 0 <= i < s.len() ==> p(#[trigger] s[i]),
    ensures
        s.filter(p) == s,
    decreases s.len(),
{
    reveal(Seq::filter);
    if s.len() > 0 {
        lemma_all_kept(s.drop_last(), p);
        assert(s.drop_last().push(s.last()) =~= s);
    }
}

/// Of two lifetimes the shorter counts; zero is no lifetime, and thirty seconds stand in for two
/// of them.
pub proof fn law_the_shorter_life_counts(left: u64, right: u64)
    ensures
        left == 0 ==> shorter_life(left, right) == if right == 0 {
            30
        } else {
            right as int
        },
        right == 0 && left > 0 ==> shorter_life(left, right) == left,
        left > 0 && right > 0 ==> shorter_life(left, right) <= left && shorter_life(left, right)
            <= right && (shorter_life(left, right) == left || shorter_life(left, right) == right),
{
}

proof fn lemma_capability_sources(
    capabilities: Seq<EdgeCapability>,
    path: Seq<char>,
    port: u16,
    i: int,
)
    requires
        0 <= i <= capabilities.len(),
    ensures
        capability_sources(capabilities, path, port, i).len() == capabilities.take(i).filter(
            |c: EdgeCapability| c != EdgeCapability::Status,
        ).len(),
        forall|k: int|
            0 <= k < capability_sources(capabilities, path, port, i).len() ==> {
                let s = #[trigger] capability_sources(capabilities, path, port, i)[k];
                let c = capabilities.take(i).filter(
                    |c: EdgeCapability| c != EdgeCapability::Status,
                )[k];
                &&& s.port == port && s.scheme == "http"@
                &&& c == EdgeCapability::Ros2Dds ==> s.id == "ros2-graph"@ && s.protocol
                    == "ros2"@ && s.category == DiscoverySourceCategory::State && s.path
                    == path_below(path, "ros2"@)
                &&& c == EdgeCapability::Mavlink ==> s.id == "mavlink-telemetry"@ && s.protocol
                    == "mavlink"@ && s.category == DiscoverySourceCategory::Telemetry && s.path
                    == path_below(path, "mavlink"@)
                &&& c != EdgeCapability::Status
            },
    decreases i,
{
    reveal(Seq::filter);
    let p = |c: EdgeCapability| c != EdgeCapability::Status;
    if i > 0 {
        lemma_capability_sources(capabilities, path, port, i - 1);
        assert(capabilities.take(i).drop_last() =~= capabilities.take(i - 1));
        assert(capabilities.take(i).last() == capabilities[i - 1]);
        let front = capability_sources(capabilities, path, port, i - 1);
        let whole = capability_sources(capabilities, path, port, i);
        let before = capabilities.take(i - 1).filter(p);
        let chosen = capabilities.take(i).filter(p);
        assert forall|k: int| 0 <= k < whole.len() implies {
            let s = #[trigger] whole[k];
            let c = chosen[k];
            &&& s.port == port && s.scheme == "http"@
            &&& c == EdgeCapability::Ros2Dds ==> s.id == "ros2-graph"@ && s.protocol == "ros2"@
                && s.category == DiscoverySourceCategory::State && s.path == path_below(
                path,
                "ros2"@,
            )
            &&& c == EdgeCapability::Mavlink ==> s.id == "mavlink-telemetry"@ && s.protocol
                == "mavlink"@ && s.category == DiscoverySourceCategory::Telemetry && s.path
                == path_below(path, "mavlink"@)
            &&& c != EdgeCapability::Status
        } by {
            if k < front.len() {
                assert(whole[k] == front[k]);
                assert(chosen[k] == before[k]);
            } else {
                assert(chosen[k] == capabilities[i - 1]);
            }
        }
    }
}

/// A verified agent is offered exactly if its device is of a known kind and one of its capabilities
/// gives data; it is then offered under its own identity, with one source for each such capability,
/// in their order, at the port that it was announced at.
pub proof fn law_agents_offer_their_capabilities(
    v: VerifiedEdgeAdvertisementView,
    port: u16,
    ttl_seconds: u64,
    k: int,
)
    ensures
        ({
            let given = v.capabilities.filter(|c: EdgeCapability| c != EdgeCapability::Status);
            &&& edge_offer(v, port, ttl_seconds) is Some <==> given.len() > 0 && (v.device_kind
                == "robot"@ || v.device_kind == "drone"@ || v.device_kind == "vehicle"@
                || v.device_kind == "camera"@ || v.device_kind == "gateway"@)
            &&& edge_offer(v, port, ttl_seconds) matches Some(a) ==> {
                &&& a.identity == v.device_id && a.display_name == v.display_name
                &&& a.suggested_device_kind == v.device_kind && a.integration_kind == "rms_edge"@
                &&& a.ttl_seconds == ttl_seconds && a.endpoint_port == port
                &&& a.edge_identity is Some && a.edge_identity->Some_0.device_id == v.device_id
                    && a.edge_identity->Some_0.public_key == v.public_key
                    && a.edge_identity->Some_0.nonce == v.nonce
                    && a.edge_identity->Some_0.timestamp_seconds == v.timestamp_seconds
                    && a.edge_identity->Some_0.organization_id == v.organization_id
                    && a.edge_identity->Some_0.organization_trusted == v.organization_trusted
                &&& a.additional_sources.len() == given.len() - 1
                &&& given[0] == EdgeCapability::Ros2Dds ==> a.source_id == "ros2-graph"@
                    && a.protocol == "ros2"@
                &&& given[0] == EdgeCapability::Mavlink ==> a.source_id == "mavlink-telemetry"@
                    && a.protocol == "mavlink"@
                &&& 0 <= k < a.additional_sources.len() ==> {
                    let s = a.additional_sources[k];
                    &&& s.port == port
                    &&& given[k + 1] == EdgeCapability::Ros2Dds ==> s.id == "ros2-graph"@
                        && s.protocol == "ros2"@
                    &&& given[k + 1] == EdgeCapability::Mavlink ==> s.id == "mavlink-telemetry"@
                        && s.protocol == "mavlink"@
                }
            }
        }),
        edge_offer(v, port, ttl_seconds) matches Some(a) ==> {
            &&& a.category == DiscoveryCandidateCategory::Robot <==> v.device_kind == "robot"@
            &&& a.category == DiscoveryCandidateCategory::Drone <==> v.device_kind == "drone"@
            &&& a.category == DiscoveryCandidateCategory::Vehicle <==> v.device_kind == "vehicle"@
            &&& a.category == DiscoveryCandidateCategory::Camera <==> v.device_kind == "camera"@
            &&& a.category == DiscoveryCandidateCategory::Gateway <==> v.device_kind == "gateway"@
        },
{
    lemma_capability_sources(v.capabilities, v.path, port, v.capabilities.len() as int);
    assert(v.capabilities.take(v.capabilities.len() as int) =~= v.capabilities);
    reveal_strlit("robot");
    reveal_strlit("drone");
    reveal_strlit("vehicle");
    reveal_strlit("camera");
    reveal_strlit("gateway");
    assert("robot"@.len() == 5 && "robot"@[0] == 'r');
    assert("drone"@.len() == 5 && "drone"@[0] == 'd');
    assert("vehicle"@.len() == 7 && "vehicle"@[0] == 'v');
    assert("camera"@.len() == 6);
    assert("gateway"@.len() == 7 && "gateway"@[0] == 'g');
}

} // verus!
