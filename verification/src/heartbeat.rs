//! The signed heartbeat of an edge agent: its shape, its checks and its signature.

use crate::api;
use crate::api::{ApiError, ApiErrorView};
use crate::crypto;
use crate::discovery;
use crate::discovery_rules;
use crate::edge_advertisement;
use crate::encoding;
use crate::hashing;
use crate::table;
use crate::table::Table;
use crate::text;
use vstd::prelude::*;
use vstd::string::*;
use vstd::utf8::*;

verus! {

pub const MAX_BODY_BYTES: usize = 524_288;
pub const MAX_CLOCK_SKEW_MS: u64 = 30_000;
pub const STALE_AFTER_MS: i64 = 10_000;
pub const MAX_ADAPTERS: usize = 32;
pub const MAX_OBSERVATIONS: usize = 512;
pub const MAX_SOURCES: usize = 16;
pub const MAX_TOPICS: usize = 256;
pub const MAX_METADATA: usize = 32;
pub const MAX_HISTORY_DEPTH: u32 = 100_000;
pub const MIN_TOKEN_BYTES: usize = 32;
pub const MAX_TOKEN_BYTES: usize = 512;

/// How an edge agent delivers the messages of a topic.
#[derive(Debug)]
pub struct EdgeQos {
    pub reliability: String,
    pub durability: String,
    pub history_depth: Option<u32>,
}

#[verifier::ext_equal]
pub struct EdgeQosView {
    pub reliability: Seq<char>,
    pub durability: Seq<char>,
    pub history_depth: Option<u32>,
}

impl View for EdgeQos {
    type V = EdgeQosView;

    open spec fn view(&self) -> EdgeQosView {
        EdgeQosView {
            reliability: self.reliability@,
            durability: self.durability@,
            history_depth: self.history_depth,
        }
    }
}

/// A topic that an edge agent sees.
#[derive(Debug)]
pub struct EdgeTopic {
    pub path: String,
    pub label: String,
    pub message_type: Option<String>,
    pub qos: Option<EdgeQos>,
    pub renderer_hint: Option<String>,
}

#[verifier::ext_equal]
pub struct EdgeTopicView {
    pub path: Seq<char>,
    pub label: Seq<char>,
    pub message_type: Option<Seq<char>>,
    pub qos: Option<EdgeQosView>,
    pub renderer_hint: Option<Seq<char>>,
}

impl View for EdgeTopic {
    type V = EdgeTopicView;

    open spec fn view(&self) -> EdgeTopicView {
        EdgeTopicView {
            path: self.path@,
            label: self.label@,
            message_type: table::view_option(self.message_type),
            qos: table::view_option(self.qos),
            renderer_hint: table::view_option(self.renderer_hint),
        }
    }
}

/// A source of data that an edge agent sees.
#[derive(Debug)]
pub struct EdgeSource {
    pub id: String,
    pub label: String,
    pub category: String,
    pub protocol: String,
    pub status: String,
    pub renderer_hint: Option<String>,
    pub topics: Vec<EdgeTopic>,
}

#[verifier::ext_equal]
pub struct EdgeSourceView {
    pub id: Seq<char>,
    pub label: Seq<char>,
    pub category: Seq<char>,
    pub protocol: Seq<char>,
    pub status: Seq<char>,
    pub renderer_hint: Option<Seq<char>>,
    pub topics: Seq<EdgeTopicView>,
}

impl View for EdgeSource {
    type V = EdgeSourceView;

    open spec fn view(&self) -> EdgeSourceView {
        EdgeSourceView {
            id: self.id@,
            label: self.label@,
            category: self.category@,
            protocol: self.protocol@,
            status: self.status@,
            renderer_hint: table::view_option(self.renderer_hint),
            topics: table::views(self.topics@),
        }
    }
}

/// A machine that an edge agent sees.
#[derive(Debug)]
pub struct EdgeObservation {
    pub identity: String,
    pub display_name: String,
    pub device_kind: String,
    pub trust: String,
    pub observed_at_ms: i64,
    pub expires_at_ms: i64,
    pub sources: Vec<EdgeSource>,
    pub metadata: Table<String>,
}

#[verifier::ext_equal]
pub struct EdgeObservationView {
    pub identity: Seq<char>,
    pub display_name: Seq<char>,
    pub device_kind: Seq<char>,
    pub trust: Seq<char>,
    pub observed_at_ms: i64,
    pub expires_at_ms: i64,
    pub sources: Seq<EdgeSourceView>,
    pub metadata: Map<Seq<char>, Seq<char>>,
}

impl View for EdgeObservation {
    type V = EdgeObservationView;

    open spec fn view(&self) -> EdgeObservationView {
        EdgeObservationView {
            identity: self.identity@,
            display_name: self.display_name@,
            device_kind: self.device_kind@,
            trust: self.trust@,
            observed_at_ms: self.observed_at_ms,
            expires_at_ms: self.expires_at_ms,
            sources: table::views(self.sources@),
            metadata: self.metadata@,
        }
    }
}

/// An adapter of an edge agent.
#[derive(Debug)]
pub struct EdgeAdapterHeartbeat {
    pub id: String,
    pub kind: String,
    pub state: String,
    pub last_success_at_ms: Option<i64>,
    pub observations: Vec<EdgeObservation>,
}

#[verifier::ext_equal]
pub struct EdgeAdapterHeartbeatView {
    pub id: Seq<char>,
    pub kind: Seq<char>,
    pub state: Seq<char>,
    pub last_success_at_ms: Option<i64>,
    pub observations: Seq<EdgeObservationView>,
}

impl View for EdgeAdapterHeartbeat {
    type V = EdgeAdapterHeartbeatView;

    open spec fn view(&self) -> EdgeAdapterHeartbeatView {
        EdgeAdapterHeartbeatView {
            id: self.id@,
            kind: self.kind@,
            state: self.state@,
            last_success_at_ms: self.last_success_at_ms,
            observations: table::views(self.observations@),
        }
    }
}

/// The health of an edge agent and what its adapters see.
#[derive(Debug)]
pub struct EdgeHeartbeat {
    pub schema_version: u32,
    pub device_id: String,
    pub public_key: String,
    pub boot_id: String,
    pub sent_at_ms: i64,
    pub sequence: u64,
    pub agent_health: String,
    pub adapters: Vec<EdgeAdapterHeartbeat>,
}

#[verifier::ext_equal]
pub struct EdgeHeartbeatView {
    pub schema_version: u32,
    pub device_id: Seq<char>,
    pub public_key: Seq<char>,
    pub boot_id: Seq<char>,
    pub sent_at_ms: i64,
    pub sequence: u64,
    pub agent_health: Seq<char>,
    pub adapters: Seq<EdgeAdapterHeartbeatView>,
}

impl View for EdgeHeartbeat {
    type V = EdgeHeartbeatView;

    open spec fn view(&self) -> EdgeHeartbeatView {
        EdgeHeartbeatView {
            schema_version: self.schema_version,
            device_id: self.device_id@,
            public_key: self.public_key@,
            boot_id: self.boot_id@,
            sent_at_ms: self.sent_at_ms,
            sequence: self.sequence,
            agent_health: self.agent_health@,
            adapters: table::views(self.adapters@),
        }
    }
}


pub open spec fn token_char(c: char) -> bool {
    text::is_alphanumeric(c) || c == '-' || c == '_' || c == '.' || c == ':'
}

pub open spec fn is_token(value: Seq<char>, maximum: usize) -> bool {
    value.len() > 0 && text::byte_len(value) <= maximum && text::all_are(
        value,
        |c: char| token_char(c),
    )
}

pub fn valid_token(value: &str, maximum: usize) -> (r: bool)
    ensures
        r == is_token(value@, maximum),
{
    let test = |c: char| -> (b: bool)
        ensures
            b == token_char(c),
        { text::ascii_alphanumeric(c) || c == '-' || c == '_' || c == '.' || c == ':' };
    !value.is_empty() && text::utf8_size(value) <= maximum && text::all_chars(
        value,
        test,
        Ghost(|c: char| token_char(c)),
    )
}

pub open spec fn is_text(value: Seq<char>, maximum: usize) -> bool {
    value.len() > 0 && text::byte_len(value) <= maximum && !text::any_control(value)
}

pub fn valid_text(value: &str, maximum: usize) -> (r: bool)
    ensures
        r == is_text(value@, maximum),
{
    !value.is_empty() && text::utf8_size(value) <= maximum && !text::has_control(value)
}

pub open spec fn is_topic_path(value: Seq<char>) -> bool {
    value.len() > 0 && value[0] == '/' && text::byte_len(value) <= 256 && !text::contains_text(
        value,
        ".."@,
    ) && !text::any_control(value)
}

pub fn valid_path(value: &str) -> (r: bool)
    ensures
        r == is_topic_path(value@),
{
    !value.is_empty() && text::chars_of(value)[0] == '/' && text::utf8_size(value) <= 256
        && !text::contains(value, "..") && !text::has_control(value)
}

pub open spec fn is_renderer(value: Seq<char>) -> bool {
    value == "image"@ || value == "point_cloud"@ || value == "spatial"@ || value == "transform3d"@
        || value == "plot"@ || value == "state"@ || value == "log"@ || value == "raw"@
}

pub fn valid_renderer(value: &str) -> (r: bool)
    ensures
        r == is_renderer(value@),
{
    text::same(value, "image") || text::same(value, "point_cloud") || text::same(value, "spatial")
        || text::same(value, "transform3d") || text::same(value, "plot") || text::same(
        value,
        "state",
    ) || text::same(value, "log") || text::same(value, "raw")
}

/// The view that shows a topic with a hint.
pub open spec fn renderer_of(hint: Option<Seq<char>>) -> Seq<char> {
    if hint == Some("image"@) {
        "camera"@
    } else if hint == Some("point_cloud"@) || hint == Some("spatial"@) {
        "spatial"@
    } else if hint == Some("transform3d"@) {
        "transform3d"@
    } else if hint == Some("plot"@) {
        "timeseries"@
    } else if hint == Some("state"@) {
        "state"@
    } else if hint == Some("log"@) {
        "log"@
    } else {
        "raw"@
    }
}

pub open spec fn hint_view(hint: Option<&str>) -> Option<Seq<char>> {
    match hint {
        Some(s) => Some(s@),
        None => None,
    }
}

/// The view that shows a topic. The path plays no part in it.
pub fn renderer(hint: Option<&str>, _path: &str) -> (r: &'static str)
    ensures
        r@ == renderer_of(hint_view(hint)),
{
    match hint {
        None => "raw",
        Some(s) => {
            if text::same(s, "image") {
                "camera"
            } else if text::same(s, "point_cloud") || text::same(s, "spatial") {
                "spatial"
            } else if text::same(s, "transform3d") {
                "transform3d"
            } else if text::same(s, "plot") {
                "timeseries"
            } else if text::same(s, "state") {
                "state"
            } else if text::same(s, "log") {
                "log"
            } else {
                "raw"
            }
        },
    }
}

pub open spec fn hint_fits(hint: Option<Seq<char>>) -> bool {
    hint matches Some(h) ==> is_renderer(h)
}

fn check_hint(hint: &Option<String>) -> (r: bool)
    ensures
        r == hint_fits(table::view_option(*hint)),
{
    match hint {
        Some(h) => valid_renderer(h.as_str()),
        None => true,
    }
}

pub open spec fn qos_fits(q: EdgeQosView) -> bool {
    &&& q.reliability == "reliable"@ || q.reliability == "best_effort"@ || q.reliability
        == "unknown"@
    &&& q.durability == "volatile"@ || q.durability == "transient_local"@ || q.durability
        == "unknown"@
    &&& q.history_depth matches Some(depth) ==> depth <= MAX_HISTORY_DEPTH
}

pub open spec fn topic_failure(t: EdgeTopicView) -> Option<ApiErrorView> {
    if !is_topic_path(t.path) || !is_text(t.label, 96) || (t.message_type matches Some(m)
        && !is_text(m, 192)) || !hint_fits(t.renderer_hint) {
        Some(api::bad_request("The Edge Agent topic is invalid."@))
    } else if t.qos is Some && !qos_fits(t.qos->Some_0) {
        Some(api::bad_request("The Edge Agent topic QoS is invalid."@))
    } else {
        None
    }
}

fn validate_topic(t: &EdgeTopic) -> (r: Result<(), ApiError>)
    ensures
        discovery_rules::checked(r, topic_failure(t@)),
{
    let type_fits = match &t.message_type {
        Some(m) => valid_text(m.as_str(), 192),
        None => true,
    };
    if !valid_path(t.path.as_str()) || !valid_text(t.label.as_str(), 96) || !type_fits
        || !check_hint(&t.renderer_hint) {
        return Err(ApiError::bad_request("The Edge Agent topic is invalid."));
    }
    match &t.qos {
        Some(q) => {
            let depth_fits = match q.history_depth {
                Some(depth) => depth <= MAX_HISTORY_DEPTH,
                None => true,
            };
            let reliability = q.reliability.as_str();
            let durability = q.durability.as_str();
            if !(text::same(reliability, "reliable") || text::same(reliability, "best_effort")
                || text::same(reliability, "unknown")) || !(text::same(durability, "volatile")
                || text::same(durability, "transient_local") || text::same(durability, "unknown"))
                || !depth_fits {
                return Err(ApiError::bad_request("The Edge Agent topic QoS is invalid."));
            }
            Ok(())
        },
        None => Ok(()),
    }
}

/// The first fault of the topics from `i` on.
pub open spec fn topics_failure(topics: Seq<EdgeTopicView>, i: int) -> Option<ApiErrorView>
    decreases topics.len() - i,
{
    if i < 0 || i >= topics.len() {
        None
    } else {
        match topic_failure(topics[i]) {
            Some(e) => Some(e),
            None => topics_failure(topics, i + 1),
        }
    }
}

/// The protocol of an adapter's sources.
pub open spec fn protocol_of(kind: Seq<char>) -> Seq<char> {
    if kind == "ros2_dds"@ {
        "ros2"@
    } else {
        "mavlink"@
    }
}

pub open spec fn source_fits(s: EdgeSourceView, kind: Seq<char>) -> bool {
    &&& is_token(s.id, 96)
    &&& is_text(s.label, 96)
    &&& s.protocol == protocol_of(kind)
    &&& s.category == "camera"@ || s.category == "spatial"@ || s.category == "telemetry"@
        || s.category == "state"@ || s.category == "log"@
    &&& s.status == "metadata_only"@ || s.status == "ready"@
    &&& s.topics.len() <= MAX_TOPICS
    &&& hint_fits(s.renderer_hint)
}

pub open spec fn source_failure(s: EdgeSourceView, kind: Seq<char>) -> Option<ApiErrorView> {
    if !source_fits(s, kind) {
        Some(api::bad_request("The Edge Agent source is invalid."@))
    } else {
        topics_failure(s.topics, 0)
    }
}

fn validate_source(s: &EdgeSource, kind: &str) -> (r: Result<(), ApiError>)
    ensures
        discovery_rules::checked(r, source_failure(s@, kind@)),
{
    let expected = if text::same(kind, "ros2_dds") {
        "ros2"
    } else {
        "mavlink"
    };
    let category = s.category.as_str();
    let status = s.status.as_str();
    if !valid_token(s.id.as_str(), 96) || !valid_text(s.label.as_str(), 96) || !text::same(
        s.protocol.as_str(),
        expected,
    ) || !(text::same(category, "camera") || text::same(category, "spatial") || text::same(
        category,
        "telemetry",
    ) || text::same(category, "state") || text::same(category, "log")) || !(text::same(
        status,
        "metadata_only",
    ) || text::same(status, "ready")) || s.topics.len() > MAX_TOPICS || !check_hint(
        &s.renderer_hint,
    ) {
        return Err(ApiError::bad_request("The Edge Agent source is invalid."));
    }
    let ghost views = table::views(s.topics@);
    let mut i: usize = 0;
    while i < s.topics.len()
        invariant
            i <= s.topics@.len(),
            views == table::views(s.topics@),
            topics_failure(views, 0) == topics_failure(views, i as int),
            source_failure(s@, kind@) == topics_failure(views, 0),
        decreases s.topics@.len() - i,
    {
        assert(views[i as int] == s.topics@[i as int]@);
        match validate_topic(&s.topics[i]) {
            Ok(()) => {},
            Err(e) => {
                return Err(e);
            },
        }
        i = i + 1;
    }
    Ok(())
}

/// The first fault of the sources from `i` on.
pub open spec fn sources_failure(
    sources: Seq<EdgeSourceView>,
    kind: Seq<char>,
    i: int,
) -> Option<ApiErrorView>
    decreases sources.len() - i,
{
    if i < 0 || i >= sources.len() {
        None
    } else {
        match source_failure(sources[i], kind) {
            Some(e) => Some(e),
            None => sources_failure(sources, kind, i + 1),
        }
    }
}

pub open spec fn metadata_fits(m: Map<Seq<char>, Seq<char>>) -> bool {
    m.len() <= MAX_METADATA && forall|k: Seq<char>| #[trigger]
        m.contains_key(k) ==> is_token(k, 48) && is_text(m[k], 256)
}

fn check_metadata(m: &Table<String>) -> (r: bool)
    ensures
        r == metadata_fits(m@),
{
    let n: usize = m.len();
    if n > MAX_METADATA {
        return false;
    }
    let mut i: usize = 0;
    while i < n
        invariant
            i <= n,
            n == m.items().len(),
            table::keys_ascend(m.items()),
            forall|j: int|
                0 <= j < i ==> is_token((#[trigger] m.items()[j]).0, 48) && is_text(
                    m.items()[j].1,
                    256,
                ),
        decreases n - i,
    {
        let key = m.key_at(i);
        let value = m.value_at(i);
        if !valid_token(key.as_str(), 48) || !valid_text(value.as_str(), 256) {
            assert(m@.contains_key(key@));
            return false;
        }
        i = i + 1;
    }
    proof {
        table::lemma_items_all(m.items());
        assert forall|k: Seq<char>| #[trigger] m@.contains_key(k) implies is_token(k, 48)
            && is_text(m@[k], 256) by {
            let j = table::key_index(m.items(), k);
            assert(m.items()[j].0 == k);
            assert(m.items()[j].1 == m@[k]);
        }
    }
    true
}

pub open spec fn observation_fits(o: EdgeObservationView, sent_at_ms: i64) -> bool {
    &&& is_text(o.identity, 192)
    &&& is_text(o.display_name, 96)
    &&& edge_advertisement::known_kind(o.device_kind)
    &&& o.trust == "observed"@ || o.trust == "authenticated"@
    &&& o.observed_at_ms <= sent_at_ms
    &&& o.expires_at_ms > o.observed_at_ms
    &&& 0 < o.sources.len() <= MAX_SOURCES
    &&& metadata_fits(o.metadata)
}

pub open spec fn observation_failure(
    o: EdgeObservationView,
    kind: Seq<char>,
    sent_at_ms: i64,
) -> Option<ApiErrorView> {
    if !observation_fits(o, sent_at_ms) {
        Some(api::bad_request("The Edge Agent observation is invalid."@))
    } else {
        sources_failure(o.sources, kind, 0)
    }
}

fn validate_observation(o: &EdgeObservation, kind: &str, sent_at_ms: i64) -> (r: Result<
    (),
    ApiError,
>)
    ensures
        discovery_rules::checked(r, observation_failure(o@, kind@, sent_at_ms)),
{
    let trust = o.trust.as_str();
    let kind_known = match edge_advertisement::parse_device_kind(o.device_kind.as_str()) {
        Ok(_) => true,
        Err(_) => false,
    };
    if !valid_text(o.identity.as_str(), 192) || !valid_text(o.display_name.as_str(), 96)
        || !kind_known || !(text::same(trust, "observed") || text::same(trust, "authenticated"))
        || o.observed_at_ms > sent_at_ms || o.expires_at_ms <= o.observed_at_ms
        || o.sources.len() == 0 || o.sources.len() > MAX_SOURCES || !check_metadata(&o.metadata) {
        return Err(ApiError::bad_request("The Edge Agent observation is invalid."));
    }
    let ghost views = table::views(o.sources@);
    let mut i: usize = 0;
    while i < o.sources.len()
        invariant
            i <= o.sources@.len(),
            views == table::views(o.sources@),
            sources_failure(views, kind@, 0) == sources_failure(views, kind@, i as int),
            observation_failure(o@, kind@, sent_at_ms) == sources_failure(views, kind@, 0),
        decreases o.sources@.len() - i,
    {
        assert(views[i as int] == o.sources@[i as int]@);
        match validate_source(&o.sources[i], kind) {
            Ok(()) => {},
            Err(e) => {
                return Err(e);
            },
        }
        i = i + 1;
    }
    Ok(())
}

/// The first fault of the observations from `i` on.
pub open spec fn observations_failure(
    observations: Seq<EdgeObservationView>,
    kind: Seq<char>,
    sent_at_ms: i64,
    i: int,
) -> Option<ApiErrorView>
    decreases observations.len() - i,
{
    if i < 0 || i >= observations.len() {
        None
    } else {
        match observation_failure(observations[i], kind, sent_at_ms) {
            Some(e) => Some(e),
            None => observations_failure(observations, kind, sent_at_ms, i + 1),
        }
    }
}

/// Whether an adapter says that it works.
pub open spec fn is_active(state: Seq<char>) -> bool {
    state == "healthy"@ || state == "degraded"@
}

pub fn active_state(state: &str) -> (r: bool)
    ensures
        r == is_active(state@),
{
    text::same(state, "healthy") || text::same(state, "degraded")
}

/// Whether some observation is later than `at_ms`.
pub open spec fn observed_after(observations: Seq<EdgeObservationView>, at_ms: i64) -> bool {
    exists|i: int|
        0 <= i < observations.len() && (#[trigger] observations[i]).observed_at_ms > at_ms
}

fn any_observed_after(observations: &Vec<EdgeObservation>, at_ms: i64) -> (r: bool)
    ensures
        r == observed_after(table::views(observations@), at_ms),
{
    let ghost views = table::views(observations@);
    let mut i: usize = 0;
    while i < observations.len()
        invariant
            i <= observations@.len(),
            views == table::views(observations@),
            forall|j: int| 0 <= j < i ==> (#[trigger] views[j]).observed_at_ms <= at_ms,
        decreases observations@.len() - i,
    {
        assert(views[i as int] == observations@[i as int]@);
        if observations[i].observed_at_ms > at_ms {
            return true;
        }
        i = i + 1;
    }
    false
}

/// Whether the state of an adapter is a possible one: an adapter that works has succeeded a short
/// while ago, and not before what it has observed.
pub open spec fn adapter_fits(a: EdgeAdapterHeartbeatView, sent_at_ms: i64) -> bool {
    &&& is_token(a.id, 64)
    &&& a.kind == "ros2_dds"@ || a.kind == "mavlink"@
    &&& a.state == "starting"@ || a.state == "healthy"@ || a.state == "degraded"@ || a.state
        == "stale"@ || a.state == "stopped"@
    &&& a.last_success_at_ms matches Some(t) ==> t <= sent_at_ms
    &&& is_active(a.state) ==> (a.last_success_at_ms matches Some(t) && discovery::saturated(
        sent_at_ms - t,
    ) <= STALE_AFTER_MS && !observed_after(a.observations, t))
}

fn check_adapter(a: &EdgeAdapterHeartbeat, sent_at_ms: i64) -> (r: bool)
    ensures
        r == adapter_fits(a@, sent_at_ms),
{
    let kind = a.kind.as_str();
    let state = a.state.as_str();
    if !valid_token(a.id.as_str(), 64) || !(text::same(kind, "ros2_dds") || text::same(
        kind,
        "mavlink",
    )) || !(text::same(state, "starting") || text::same(state, "healthy") || text::same(
        state,
        "degraded",
    ) || text::same(state, "stale") || text::same(state, "stopped")) {
        return false;
    }
    match a.last_success_at_ms {
        None => !active_state(state),
        Some(t) => {
            if t > sent_at_ms {
                return false;
            }
            !active_state(state) || (discovery::saturating_sub(sent_at_ms, t) <= STALE_AFTER_MS
                && !any_observed_after(&a.observations, t))
        },
    }
}

/// The first fault of the adapters from `i` on, after `total` observations.
pub open spec fn adapters_failure(
    adapters: Seq<EdgeAdapterHeartbeatView>,
    sent_at_ms: i64,
    i: int,
    total: nat,
) -> Option<ApiErrorView>
    decreases adapters.len() - i,
{
    if i < 0 || i >= adapters.len() {
        None
    } else {
        let a = adapters[i];
        if !adapter_fits(a, sent_at_ms) {
            Some(api::bad_request("The Edge Agent adapter status is invalid."@))
        } else if total + a.observations.len() > MAX_OBSERVATIONS {
            Some(api::bad_request("The Edge Agent inventory is too large."@))
        } else {
            match observations_failure(a.observations, a.kind, sent_at_ms, 0) {
                Some(e) => Some(e),
                None => adapters_failure(
                    adapters,
                    sent_at_ms,
                    i + 1,
                    total + a.observations.len(),
                ),
            }
        }
    }
}

pub open spec fn heartbeat_fits(h: EdgeHeartbeatView) -> bool {
    &&& h.schema_version == 1
    &&& h.sequence != 0
    &&& crypto::is_uuid(h.boot_id)
    &&& is_token(h.device_id, 64)
    &&& h.agent_health == "healthy"@ || h.agent_health == "degraded"@ || h.agent_health == "stale"@
    &&& h.adapters.len() <= MAX_ADAPTERS
}

/// Why a heartbeat is refused for its shape.
pub open spec fn heartbeat_failure(h: EdgeHeartbeatView) -> Option<ApiErrorView> {
    if !heartbeat_fits(h) {
        Some(api::bad_request("The Edge Agent heartbeat is invalid."@))
    } else {
        adapters_failure(h.adapters, h.sent_at_ms, 0, 0)
    }
}

fn validate_observations(a: &EdgeAdapterHeartbeat, sent_at_ms: i64) -> (r: Result<(), ApiError>)
    ensures
        discovery_rules::checked(
            r,
            observations_failure(table::views(a.observations@), a.kind@, sent_at_ms, 0),
        ),
{
    let ghost views = table::views(a.observations@);
    let mut i: usize = 0;
    while i < a.observations.len()
        invariant
            i <= a.observations@.len(),
            views == table::views(a.observations@),
            observations_failure(views, a.kind@, sent_at_ms, 0) == observations_failure(
                views,
                a.kind@,
                sent_at_ms,
                i as int,
            ),
        decreases a.observations@.len() - i,
    {
        assert(views[i as int] == a.observations@[i as int]@);
        match validate_observation(&a.observations[i], a.kind.as_str(), sent_at_ms) {
            Ok(()) => {},
            Err(e) => {
                return Err(e);
            },
        }
        i = i + 1;
    }
    Ok(())
}

/// Checks the shape of a heartbeat.
pub fn validate_heartbeat(h: &EdgeHeartbeat) -> (r: Result<(), ApiError>)
    ensures
        discovery_rules::checked(r, heartbeat_failure(h@)),
{
    let health = h.agent_health.as_str();
    if h.schema_version != 1 || h.sequence == 0 || !crypto::reads_as_uuid(h.boot_id.as_str())
        || !valid_token(h.device_id.as_str(), 64) || !(text::same(health, "healthy") || text::same(
        health,
        "degraded",
    ) || text::same(health, "stale")) || h.adapters.len() > MAX_ADAPTERS {
        return Err(ApiError::bad_request("The Edge Agent heartbeat is invalid."));
    }
    let ghost views = table::views(h.adapters@);
    let ghost sent = h.sent_at_ms;
    let mut total: usize = 0;
    let mut i: usize = 0;
    while i < h.adapters.len()
        invariant
            i <= h.adapters@.len(),
            views == table::views(h.adapters@),
            sent == h.sent_at_ms,
            total <= MAX_OBSERVATIONS,
            heartbeat_failure(h@) == adapters_failure(views, sent, 0, 0),
            adapters_failure(views, sent, 0, 0) == adapters_failure(
                views,
                sent,
                i as int,
                total as nat,
            ),
        decreases h.adapters@.len() - i,
    {
        let a = &h.adapters[i];
        assert(views[i as int] == a@);
        if !check_adapter(a, h.sent_at_ms) {
            return Err(ApiError::bad_request("The Edge Agent adapter status is invalid."));
        }
        let n: usize = a.observations.len();
        if n > MAX_OBSERVATIONS - total {
            return Err(ApiError::bad_request("The Edge Agent inventory is too large."));
        }
        match validate_observations(a, h.sent_at_ms) {
            Ok(()) => {},
            Err(e) => {
                return Err(e);
            },
        }
        total = total + n;
        i = i + 1;
    }
    Ok(())
}

/// The text of a header that a signature needs.
pub open spec fn header_value(raw: Option<Seq<u8>>) -> Result<Seq<char>, ApiErrorView> {
    match raw {
        Some(bytes) => if discovery_rules::all_visible(bytes) && 0 < bytes.len() <= 256 {
            Ok(discovery_rules::ascii_text(bytes))
        } else {
            Err(api::unauthorized("The Edge Agent signature is incomplete."@))
        },
        None => Err(api::unauthorized("The Edge Agent signature is incomplete."@)),
    }
}

pub fn header_text(raw: &Option<Vec<u8>>) -> (r: Result<String, ApiError>)
    ensures
        api::answer_view(r) == header_value(discovery_rules::raw_view(*raw)),
{
    match raw {
        Some(bytes) => {
            if bytes.len() > 0 && bytes.len() <= 256 {
                match discovery_rules::visible_text(bytes.as_slice()) {
                    Some(s) => {
                        return Ok(s);
                    },
                    None => {},
                }
            }
            Err(ApiError::unauthorized("The Edge Agent signature is incomplete."))
        },
        None => Err(ApiError::unauthorized("The Edge Agent signature is incomplete.")),
    }
}

/// The token of an authorization header.
pub open spec fn bearer_token(raw: Option<Seq<u8>>) -> Option<Seq<char>> {
    match raw {
        Some(bytes) => if discovery_rules::all_visible(bytes) {
            text::after_prefix(discovery_rules::ascii_text(bytes), "Bearer "@)
        } else {
            None
        },
        None => None,
    }
}

/// Whether a token proves knowledge of the expected one: the codes of a fixed message under both
/// are the same.
pub open spec fn token_accepted(token: Seq<char>, expected: Seq<u8>) -> bool {
    crypto::hmac_accepts(
        expected,
        encode_utf8("rms-edge-bearer-v1"@),
        crypto::hmac_of(encode_utf8(token), encode_utf8("rms-edge-bearer-v1"@)),
    )
}

pub open spec fn bearer_failure(raw: Option<Seq<u8>>, expected: Seq<u8>) -> Option<ApiErrorView> {
    match bearer_token(raw) {
        Some(token) => if token_accepted(token, expected) {
            None
        } else {
            Some(api::unauthorized("Edge Agent authentication failed."@))
        },
        None => Some(api::unauthorized("Edge Agent authentication failed."@)),
    }
}

/// Checks the bearer token of a request against the one that agents are given.
pub fn verify_bearer(raw: &Option<Vec<u8>>, expected: &[u8]) -> (r: Result<(), ApiError>)
    requires
        expected@.len() <= crypto::MAX_KEY_BYTES,
        bearer_token(discovery_rules::raw_view(*raw)) matches Some(token) ==> text::byte_len(token)
            <= crypto::MAX_KEY_BYTES,
    ensures
        discovery_rules::checked(
            r,
            bearer_failure(discovery_rules::raw_view(*raw), expected@),
        ),
{
    let failure = "Edge Agent authentication failed.";
    let header = match raw {
        Some(bytes) => discovery_rules::visible_text(bytes.as_slice()),
        None => None,
    };
    let token = match header {
        Some(value) => text::strip_prefix(value.as_str(), "Bearer "),
        None => None,
    };
    match token {
        Some(token) => {
            let message = "rms-edge-bearer-v1";
            proof {
                reveal_strlit("rms-edge-bearer-v1");
                text::lemma_byte_len_bound(message@);
            }
            let code = crypto::hmac_sign(token.as_str().as_bytes(), message.as_bytes());
            if crypto::hmac_verify(expected, message.as_bytes(), code.as_slice()) {
                Ok(())
            } else {
                Err(ApiError::unauthorized(failure))
            }
        },
        None => Err(ApiError::unauthorized(failure)),
    }
}

/// The raw values of the headers that carry the signature of a heartbeat.
#[derive(Debug)]
pub struct SignatureHeaders {
    pub timestamp: Option<Vec<u8>>,
    pub nonce: Option<Vec<u8>>,
    pub signature: Option<Vec<u8>>,
}

#[verifier::ext_equal]
pub struct SignatureHeadersView {
    pub timestamp: Option<Seq<u8>>,
    pub nonce: Option<Seq<u8>>,
    pub signature: Option<Seq<u8>>,
}

impl View for SignatureHeaders {
    type V = SignatureHeadersView;

    open spec fn view(&self) -> SignatureHeadersView {
        SignatureHeadersView {
            timestamp: discovery_rules::raw_view(self.timestamp),
            nonce: discovery_rules::raw_view(self.nonce),
            signature: discovery_rules::raw_view(self.signature),
        }
    }
}

/// The text that a heartbeat signs.
pub open spec fn signed_heartbeat(timestamp: i64, nonce: Seq<char>, body: Seq<u8>) -> Seq<char> {
    "rms-heartbeat-v1\n"@ + text::signed(timestamp as int) + "\n"@ + nonce + "\n"@
        + hashing::sha256_hex(body)
}

pub open spec fn bad_signature() -> ApiErrorView {
    api::unauthorized("The Edge Agent signature is invalid."@)
}

/// The nonce of a heartbeat whose key, time and signature hold.
pub open spec fn authenticated(
    h: EdgeHeartbeatView,
    headers: SignatureHeadersView,
    body: Seq<u8>,
    received_at_ms: i64,
) -> Result<Seq<char>, ApiErrorView> {
    match encoding::exact_bytes(h.public_key, 32) {
        None => Err(bad_signature()),
        Some(key) => if crypto::device_id_of_key(key) != h.device_id {
            Err(api::forbidden("The Edge Agent identity is not enrolled."@))
        } else {
            match header_value(headers.timestamp) {
                Err(e) => Err(e),
                Ok(time) => match text::signed_read(time) {
                    None => Err(bad_signature()),
                    Some(timestamp) => if timestamp != h.sent_at_ms
                        || edge_advertisement::distance(h.sent_at_ms, received_at_ms)
                        > MAX_CLOCK_SKEW_MS {
                        Err(api::unauthorized("The Edge Agent heartbeat timestamp is stale."@))
                    } else {
                        signed_nonce(h, headers, body, key)
                    },
                },
            }
        },
    }
}

/// The nonce of a heartbeat that `key` has signed.
pub open spec fn signed_nonce(
    h: EdgeHeartbeatView,
    headers: SignatureHeadersView,
    body: Seq<u8>,
    key: Seq<u8>,
) -> Result<Seq<char>, ApiErrorView> {
    match header_value(headers.nonce) {
        Err(e) => Err(e),
        Ok(nonce) => if encoding::exact_bytes(nonce, 16) is None {
            Err(bad_signature())
        } else {
            match header_value(headers.signature) {
                Err(e) => Err(e),
                Ok(signature) => match encoding::exact_bytes(signature, 64) {
                    None => Err(bad_signature()),
                    Some(bytes) => if crypto::ed25519_accepts(
                        key,
                        encode_utf8(signed_heartbeat(h.sent_at_ms, nonce, body)),
                        bytes,
                    ) {
                        Ok(nonce)
                    } else {
                        Err(bad_signature())
                    },
                },
            }
        },
    }
}

/// Checks that a heartbeat is signed by the key of its device, about now, and gives its nonce.
pub fn authenticate_heartbeat(
    h: &EdgeHeartbeat,
    headers: &SignatureHeaders,
    body: &[u8],
    received_at_ms: i64,
) -> (r: Result<String, ApiError>)
    ensures
        api::answer_view(r) == authenticated(h@, headers@, body@, received_at_ms),
{
    let invalid = "The Edge Agent signature is invalid.";
    let key = match encoding::decode_exact(h.public_key.as_str(), 32) {
        Some(v) => v,
        None => {
            return Err(ApiError::unauthorized(invalid));
        },
    };
    let device_id = crypto::derive_device_id(key.as_slice());
    if !text::same(device_id.as_str(), h.device_id.as_str()) {
        return Err(ApiError::forbidden("The Edge Agent identity is not enrolled."));
    }
    let time = match header_text(&headers.timestamp) {
        Ok(s) => s,
        Err(e) => {
            return Err(e);
        },
    };
    let timestamp: i64 = match text::parse_signed(time.as_str()) {
        Some(n) => n,
        None => {
            return Err(ApiError::unauthorized(invalid));
        },
    };
    if timestamp != h.sent_at_ms || !edge_advertisement::is_within(
        timestamp,
        received_at_ms,
        MAX_CLOCK_SKEW_MS,
    ) {
        return Err(ApiError::unauthorized("The Edge Agent heartbeat timestamp is stale."));
    }
    let nonce = match header_text(&headers.nonce) {
        Ok(s) => s,
        Err(e) => {
            return Err(e);
        },
    };
    if encoding::decode_exact(nonce.as_str(), 16).is_none() {
        return Err(ApiError::unauthorized(invalid));
    }
    let signature_text = match header_text(&headers.signature) {
        Ok(s) => s,
        Err(e) => {
            return Err(e);
        },
    };
    let signature = match encoding::decode_exact(signature_text.as_str(), 64) {
        Some(v) => v,
        None => {
            return Err(ApiError::unauthorized(invalid));
        },
    };
    let digest = hashing::hex_sha256(body);
    let signed = text::line("rms-heartbeat-v1\n").signed(timestamp).add("\n").add(
        nonce.as_str(),
    ).add("\n").add(digest.as_str()).done();
    if !crypto::ed25519_verify(
        key.as_slice(),
        signed.as_str().as_bytes(),
        signature.as_slice(),
    ) {
        return Err(ApiError::unauthorized(invalid));
    }
    Ok(nonce)
}

/// What is known of a file that should hold the agents' token.
#[derive(Clone, Copy, Debug, PartialEq, Eq, Structural)]
pub struct TokenFile {
    pub is_regular: bool,
    /// Its permission bits, where the system has them.
    pub mode: Option<u32>,
    pub size: u64,
}

/// Why a token is not accepted.
#[derive(Clone, Copy, Debug, PartialEq, Eq, Structural)]
pub enum TokenFault {
    NotAbsolute,
    NotRegular,
    OpenToOthers,
    TooLarge,
    NotVisible,
}

impl TokenFault {
    pub open spec fn text(self) -> Seq<char> {
        match self {
            TokenFault::NotAbsolute => "RMS Edge bearer token path must be absolute"@,
            TokenFault::NotRegular => "RMS Edge bearer token must be stored in a regular file"@,
            TokenFault::OpenToOthers => "RMS Edge bearer token file must not grant group or world permissions"@,
            TokenFault::TooLarge => "RMS Edge bearer token file is too large"@,
            TokenFault::NotVisible => "RMS Edge bearer token must contain 32 to 512 visible ASCII bytes"@,
        }
    }

    pub fn message(self) -> (r: &'static str)
        ensures
            r@ == self.text(),
    {
        match self {
            TokenFault::NotAbsolute => "RMS Edge bearer token path must be absolute",
            TokenFault::NotRegular => "RMS Edge bearer token must be stored in a regular file",
            TokenFault::OpenToOthers => "RMS Edge bearer token file must not grant group or world permissions",
            TokenFault::TooLarge => "RMS Edge bearer token file is too large",
            TokenFault::NotVisible => "RMS Edge bearer token must contain 32 to 512 visible ASCII bytes",
        }
    }
}

/// Whether permission bits grant anything to the group or to others.
pub open spec fn grants_others(mode: u32) -> bool {
    mode & 0o077 != 0
}

pub open spec fn token_file_fault(file: TokenFile) -> Option<TokenFault> {
    if !file.is_regular {
        Some(TokenFault::NotRegular)
    } else if file.mode is Some && grants_others(file.mode->Some_0) {
        Some(TokenFault::OpenToOthers)
    } else if file.size > MAX_TOKEN_BYTES + 16 {
        Some(TokenFault::TooLarge)
    } else {
        None
    }
}

/// Checks the file that holds the agents' token before it is read.
pub fn check_token_file(file: TokenFile) -> (r: Option<TokenFault>)
    ensures
        r == token_file_fault(file),
{
    if !file.is_regular {
        return Some(TokenFault::NotRegular);
    }
    match file.mode {
        Some(mode) => {
            if mode & 0o077 != 0 {
                return Some(TokenFault::OpenToOthers);
            }
        },
        None => {},
    }
    if file.size > MAX_TOKEN_BYTES as u64 + 16 {
        return Some(TokenFault::TooLarge);
    }
    None
}

pub open spec fn is_space_byte(b: u8) -> bool {
    b == 9 || b == 10 || b == 12 || b == 13 || b == 32
}

pub open spec fn is_graphic_byte(b: u8) -> bool {
    33 <= b && b <= 126
}

/// A byte string without the white space at its end.
pub open spec fn without_trailing_space(s: Seq<u8>) -> Seq<u8>
    decreases s.len(),
{
    if s.len() > 0 && is_space_byte(s.last()) {
        without_trailing_space(s.drop_last())
    } else {
        s
    }
}

/// Takes the white space off the end of a byte string.
pub fn trim_trailing_space(content: Vec<u8>) -> (r: Vec<u8>)
    ensures
        r@ == without_trailing_space(content@),
{
    let ghost start = content@;
    let mut rest = content;
    loop
        invariant_except_break
            without_trailing_space(rest@) == without_trailing_space(start),
        ensures
            rest@ == without_trailing_space(start),
        decreases rest@.len(),
    {
        let n: usize = rest.len();
        if n == 0 {
            break;
        }
        let b: u8 = rest[n - 1];
        if !(b == 9 || b == 10 || b == 12 || b == 13 || b == 32) {
            break;
        }
        let ghost before = rest@;
        let _ = rest.pop();
        assert(rest@ =~= before.drop_last());
    }
    rest
}

/// The token that the content of a file gives.
pub open spec fn token_of(content: Seq<u8>) -> Result<Seq<u8>, TokenFault> {
    let token = without_trailing_space(content);
    if MIN_TOKEN_BYTES <= token.len() <= MAX_TOKEN_BYTES && (forall|i: int|
        0 <= i < token.len() ==> is_graphic_byte(#[trigger] token[i])) {
        Ok(token)
    } else {
        Err(TokenFault::NotVisible)
    }
}

/// Takes the token from the content of its file.
pub fn accept_token(content: Vec<u8>) -> (r: Result<Vec<u8>, TokenFault>)
    ensures
        (match r {
            Ok(token) => Ok::<Seq<u8>, TokenFault>(token@),
            Err(e) => Err(e),
        }) == token_of(content@),
{
    let ghost start = content@;
    let token = trim_trailing_space(content);
    if token.len() < MIN_TOKEN_BYTES || token.len() > MAX_TOKEN_BYTES {
        return Err(TokenFault::NotVisible);
    }
    let mut i: usize = 0;
    while i < token.len()
        invariant
            i <= token@.len(),
            token@ == without_trailing_space(start),
            start == content@,
            forall|j: int| 0 <= j < i ==> is_graphic_byte(#[trigger] token@[j]),
        decreases token@.len() - i,
    {
        let b: u8 = token[i];
        if !(33 <= b && b <= 126) {
            return Err(TokenFault::NotVisible);
        }
        i = i + 1;
    }
    Ok(token)
}

proof fn lemma_adapter_sound(
    adapters: Seq<EdgeAdapterHeartbeatView>,
    sent_at_ms: i64,
    i: int,
    total: nat,
    k: int,
)
    requires
        0 <= i <= k < adapters.len(),
        adapters_failure(adapters, sent_at_ms, i, total) is None,
    ensures
        adapter_fits(adapters[k], sent_at_ms),
        observations_failure(adapters[k].observations, adapters[k].kind, sent_at_ms, 0) is None,
        total + adapters[k].observations.len() <= MAX_OBSERVATIONS,
    decreases k - i,
{
    if i < k {
        lemma_adapter_sound(
            adapters,
            sent_at_ms,
            i + 1,
            total + adapters[i].observations.len(),
            k,
        );
    }
}

proof fn lemma_observation_sound(
    observations: Seq<EdgeObservationView>,
    kind: Seq<char>,
    sent_at_ms: i64,
    i: int,
    k: int,
)
    requires
        0 <= i <= k < observations.len(),
        observations_failure(observations, kind, sent_at_ms, i) is None,
    ensures
        observation_failure(observations[k], kind, sent_at_ms) is None,
    decreases k - i,
{
    if i < k {
        lemma_observation_sound(observations, kind, sent_at_ms, i + 1, k);
    }
}

proof fn lemma_source_sound(sources: Seq<EdgeSourceView>, kind: Seq<char>, i: int, k: int)
    requires
        0 <= i <= k < sources.len(),
        sources_failure(sources, kind, i) is None,
    ensures
        source_failure(sources[k], kind) is None,
    decreases k - i,
{
    if i < k {
        lemma_source_sound(sources, kind, i + 1, k);
    }
}

proof fn lemma_topic_sound(topics: Seq<EdgeTopicView>, i: int, k: int)
    requires
        0 <= i <= k < topics.len(),
        topics_failure(topics, i) is None,
    ensures
        topic_failure(topics[k]) is None,
    decreases k - i,
{
    if i < k {
        lemma_topic_sound(topics, i + 1, k);
    }
}

/// A heartbeat of the right shape is of the first schema, counts up from one, says how its agent
/// is, and has at most thirty-two adapters. Each of these reports over ROS 2 or MAVLink; one that
/// works has succeeded within the ten seconds before, and has observed nothing since.
pub proof fn law_heartbeats_have_working_adapters(h: EdgeHeartbeatView, a: int)
    requires
        heartbeat_failure(h) is None,
        0 <= a < h.adapters.len(),
    ensures
        h.schema_version == 1,
        h.sequence > 0,
        h.agent_health == "healthy"@ || h.agent_health == "degraded"@ || h.agent_health == "stale"@,
        h.adapters.len() <= 32,
        h.adapters[a].kind == "ros2_dds"@ || h.adapters[a].kind == "mavlink"@,
        h.adapters[a].observations.len() <= 512,
        h.adapters[a].state == "healthy"@ || h.adapters[a].state == "degraded"@ ==> (
        h.adapters[a].last_success_at_ms matches Some(t) && t <= h.sent_at_ms && h.sent_at_ms - t
            <= 10_000 && forall|o: int|
            0 <= o < h.adapters[a].observations.len() ==> (
            #[trigger] h.adapters[a].observations[o]).observed_at_ms <= t),
{
    lemma_adapter_sound(h.adapters, h.sent_at_ms, 0, 0, a);
}

/// Whether a text may be shown: it is not empty, not longer than a number of bytes, and has no
/// control characters.
pub open spec fn is_shown_text(s: Seq<char>, bytes: nat) -> bool {
    &&& 0 < s.len()
    &&& text::byte_len(s) <= bytes
    &&& forall|i: int| 0 <= i < s.len() ==> !text::is_control(#[trigger] s[i])
}

/// Each observation in a heartbeat of the right shape was made before it was sent and expires
/// after it was made; it has one to sixteen sources of its adapter's protocol, each with at most
/// 256 topics, whose paths start at the root and never lead upwards.
pub proof fn law_observed_topics_have_plain_paths(h: EdgeHeartbeatView, a: int, o: int, s: int, t: int)
    requires
        heartbeat_failure(h) is None,
        0 <= a < h.adapters.len(),
        0 <= o < h.adapters[a].observations.len(),
        0 <= s < h.adapters[a].observations[o].sources.len(),
        0 <= t < h.adapters[a].observations[o].sources[s].topics.len(),
    ensures
        ({
            let seen = h.adapters[a].observations[o];
            let source = seen.sources[s];
            let topic = source.topics[t];
            &&& seen.observed_at_ms <= h.sent_at_ms
            &&& seen.observed_at_ms < seen.expires_at_ms
            &&& 1 <= seen.sources.len() <= 16
            &&& is_shown_text(seen.display_name, 96)
            &&& h.adapters[a].kind == "ros2_dds"@ ==> source.protocol == "ros2"@
            &&& h.adapters[a].kind == "mavlink"@ ==> source.protocol == "mavlink"@
            &&& source.topics.len() <= 256
            &&& is_shown_text(source.label, 96)
            &&& is_shown_text(topic.label, 96)
            &&& is_shown_text(topic.path, 256)
            &&& topic.path[0] == '/'
            &&& forall|i: int|
                0 <= i < topic.path.len() - 1 ==> !(#[trigger] topic.path[i] == '.'
                    && topic.path[i + 1] == '.')
        }),
{
    lemma_adapter_sound(h.adapters, h.sent_at_ms, 0, 0, a);
    let ad = h.adapters[a];
    lemma_observation_sound(ad.observations, ad.kind, h.sent_at_ms, 0, o);
    let seen = ad.observations[o];
    lemma_source_sound(seen.sources, ad.kind, 0, s);
    let source = seen.sources[s];
    lemma_topic_sound(source.topics, 0, t);
    let path = source.topics[t].path;
    reveal_strlit("..");
    reveal_strlit("ros2_dds");
    reveal_strlit("mavlink");
    assert("ros2_dds"@.len() == 8 && "mavlink"@.len() == 7);
    assert forall|i: int| 0 <= i < path.len() - 1 implies !(#[trigger] path[i] == '.' && path[i
        + 1] == '.') by {
        if path[i] == '.' && path[i + 1] == '.' {
            assert(path.subrange(i, i + 2) =~= ".."@);
            assert(text::occurs_at(path, ".."@, i));
        }
    }
}

/// A heartbeat is authentic exactly if its device is named after its key, the signed time is its
/// own and within thirty seconds of its arrival, its nonce has sixteen bytes, and its key has
/// signed the time, the nonce and the digest of the body.
pub proof fn law_authentic_heartbeats_are_signed(
    h: EdgeHeartbeatView,
    headers: SignatureHeadersView,
    body: Seq<u8>,
    received_at_ms: i64,
)
    ensures
        authenticated(h, headers, body, received_at_ms) is Ok <==> {
            let key = encoding::exact_bytes(h.public_key, 32)->Some_0;
            let time = header_value(headers.timestamp)->Ok_0;
            let nonce = header_value(headers.nonce)->Ok_0;
            let signature = header_value(headers.signature)->Ok_0;
            &&& encoding::exact_bytes(h.public_key, 32) is Some
            &&& crypto::device_id_of_key(key) == h.device_id
            &&& header_value(headers.timestamp) is Ok
            &&& text::signed_read(time) == Some(h.sent_at_ms as int)
            &&& h.sent_at_ms - received_at_ms <= 30_000
            &&& received_at_ms - h.sent_at_ms <= 30_000
            &&& header_value(headers.nonce) is Ok
            &&& encoding::exact_bytes(nonce, 16) is Some
            &&& header_value(headers.signature) is Ok
            &&& encoding::exact_bytes(signature, 64) is Some
            &&& crypto::ed25519_accepts(
                key,
                encode_utf8(
                    "rms-heartbeat-v1\n"@ + text::signed(h.sent_at_ms as int) + "\n"@ + nonce
                        + "\n"@ + text::hex_text(hashing::sha256_of(body)),
                ),
                encoding::exact_bytes(signature, 64)->Some_0,
            )
        },
        authenticated(h, headers, body, received_at_ms) matches Ok(nonce) ==> Ok::<
            Seq<char>,
            ApiErrorView,
        >(nonce) == header_value(headers.nonce),
{
}

/// Pictures are shown by the camera view, point clouds and positions in space, curves over time,
/// and what has no hint, or an unknown one, as it is.
pub proof fn law_hints_choose_their_view(hint: Option<Seq<char>>)
    ensures
        renderer_of(hint) == "camera"@ <==> hint == Some("image"@),
        renderer_of(hint) == "spatial"@ <==> hint == Some("point_cloud"@) || hint == Some(
            "spatial"@,
        ),
        renderer_of(hint) == "transform3d"@ <==> hint == Some("transform3d"@),
        renderer_of(hint) == "timeseries"@ <==> hint == Some("plot"@),
        renderer_of(hint) == "state"@ <==> hint == Some("state"@),
        renderer_of(hint) == "log"@ <==> hint == Some("log"@),
        hint is None ==> renderer_of(hint) == "raw"@,
        hint matches Some(h) && !is_renderer(h) ==> renderer_of(hint) == "raw"@,
{
    reveal_strlit("camera");
    reveal_strlit("spatial");
    reveal_strlit("transform3d");
    reveal_strlit("timeseries");
    reveal_strlit("state");
    reveal_strlit("log");
    reveal_strlit("raw");
    reveal_strlit("image");
    reveal_strlit("point_cloud");
    reveal_strlit("plot");
    assert("camera"@.len() == 6 && "spatial"@.len() == 7 && "transform3d"@.len() == 11
        && "timeseries"@.len() == 10 && "state"@.len() == 5 && "log"@.len() == 3 && "raw"@.len() == 3
        && "image"@.len() == 5 && "point_cloud"@.len() == 11 && "plot"@.len() == 4);
    assert("log"@[0] == 'l' && "raw"@[0] == 'r' && "state"@[0] == 's' && "image"@[0] == 'i'
        && "point_cloud"@[0] == 'p' && "transform3d"@[0] == 't');
}

/// The token of a file is what it holds up to the white space at its end, 32 to 512 visible
/// characters.
pub proof fn law_tokens_are_visible_and_long(content: Seq<u8>)
    ensures
        token_of(content) matches Ok(token) ==> {
            &&& 32 <= token.len() <= 512
            &&& token.len() <= content.len()
            &&& content.take(token.len() as int) == token
            &&& forall|i: int| 0 <= i < token.len() ==> 0x20 < #[trigger] token[i] < 0x7f
            &&& forall|i: int|
                token.len() <= i < content.len() ==> is_space_byte(#[trigger] content[i])
        },
{
    lemma_without_trailing_space(content);
}

proof fn lemma_without_trailing_space(s: Seq<u8>)
    ensures
        without_trailing_space(s).len() <= s.len(),
        s.take(without_trailing_space(s).len() as int) == without_trailing_space(s),
        forall|i: int|
            without_trailing_space(s).len() <= i < s.len() ==> is_space_byte(#[trigger] s[i]),
    decreases s.len(),
{
    if s.len() > 0 && is_space_byte(s.last()) {
        let front = s.drop_last();
        lemma_without_trailing_space(front);
        let n = without_trailing_space(front).len();
        assert(s.take(n as int) =~= front.take(n as int));
        assert forall|i: int| n <= i < s.len() implies is_space_byte(#[trigger] s[i]) by {
            if i < front.len() {
                assert(s[i] == front[i]);
            }
        }
    } else {
        assert(s.take(s.len() as int) =~= s);
    }
}

/// A request may speak for an edge agent exactly if it bears the token as a bearer token.
pub proof fn law_bearers_show_the_token(raw: Option<Seq<u8>>, expected: Seq<u8>)
    ensures
        bearer_failure(raw, expected) is None <==> (raw matches Some(bytes)
            && discovery_rules::all_visible(bytes) && exists|token: Seq<char>|
            discovery_rules::ascii_text(bytes) == "Bearer "@ + token && #[trigger] token_accepted(
                token,
                expected,
            )),
{
    if raw is Some && discovery_rules::all_visible(raw->Some_0) {
        let s = discovery_rules::ascii_text(raw->Some_0);
        let prefix = "Bearer "@;
        if text::starts_with(s, prefix) {
            assert(s =~= prefix + s.skip(prefix.len() as int));
        }
        assert forall|token: Seq<char>|
            s == prefix + token && #[trigger] token_accepted(token, expected) implies bearer_failure(
            raw,
            expected,
        ) is None by {
            assert(s.subrange(0, prefix.len() as int) =~= prefix);
            assert(s.skip(prefix.len() as int) =~= token);
        }
    }
}

proof fn lemma_topics_accepted(topics: Seq<EdgeTopicView>, i: int)
    requires
        0 <= i,
    ensures
        topics_failure(topics, i) is None <==> forall|k: int|
            i <= k < topics.len() ==> topic_failure(#[trigger] topics[k]) is None,
    decreases topics.len() - i,
{
    if i < topics.len() {
        lemma_topics_accepted(topics, i + 1);
    }
}

proof fn lemma_sources_accepted(sources: Seq<EdgeSourceView>, kind: Seq<char>, i: int)
    requires
        0 <= i,
    ensures
        sources_failure(sources, kind, i) is None <==> forall|k: int|
            i <= k < sources.len() ==> source_failure(#[trigger] sources[k], kind) is None,
    decreases sources.len() - i,
{
    if i < sources.len() {
        lemma_sources_accepted(sources, kind, i + 1);
    }
}

proof fn lemma_observations_accepted(
    observations: Seq<EdgeObservationView>,
    kind: Seq<char>,
    sent_at_ms: i64,
    i: int,
)
    requires
        0 <= i,
    ensures
        observations_failure(observations, kind, sent_at_ms, i) is None <==> forall|k: int|
            i <= k < observations.len() ==> observation_failure(
                #[trigger] observations[k],
                kind,
                sent_at_ms,
            ) is None,
    decreases observations.len() - i,
{
    if i < observations.len() {
        lemma_observations_accepted(observations, kind, sent_at_ms, i + 1);
    }
}

/// A topic is accepted exactly if its path is absolute, printable, short and never leads upwards,
/// its label and type are printable and short, its hint is a known one and its quality of service
/// is possible.
pub proof fn law_topics_are_accepted_if_plain(t: EdgeTopicView)
    ensures
        topic_failure(t) is None <==> {
            &&& t.path.len() > 0 && t.path[0] == '/' && text::byte_len(t.path) <= 256
                && !text::contains_text(t.path, ".."@) && !text::any_control(t.path)
            &&& t.label.len() > 0 && text::byte_len(t.label) <= 96 && !text::any_control(t.label)
            &&& t.message_type is Some ==> t.message_type->Some_0.len() > 0 && text::byte_len(
                t.message_type->Some_0,
            ) <= 192 && !text::any_control(t.message_type->Some_0)
            &&& t.renderer_hint is Some ==> is_renderer(t.renderer_hint->Some_0)
            &&& t.qos is Some ==> {
                let q = t.qos->Some_0;
                &&& q.reliability == "reliable"@ || q.reliability == "best_effort"@
                    || q.reliability == "unknown"@
                &&& q.durability == "volatile"@ || q.durability == "transient_local"@
                    || q.durability == "unknown"@
                &&& q.history_depth is Some ==> q.history_depth->Some_0 <= 100_000
            }
        },
{
}

/// A source is accepted exactly if it has a token for an identifier, a label, the protocol of its
/// adapter, a known category and status, at most 256 topics, a known hint, and only topics that
/// are accepted.
pub proof fn law_sources_are_accepted_with_their_topics(s: EdgeSourceView, kind: Seq<char>)
    ensures
        source_failure(s, kind) is None <==> {
            &&& is_token(s.id, 96) && is_text(s.label, 96)
            &&& s.protocol == if kind == "ros2_dds"@ {
                "ros2"@
            } else {
                "mavlink"@
            }
            &&& s.category == "camera"@ || s.category == "spatial"@ || s.category == "telemetry"@
                || s.category == "state"@ || s.category == "log"@
            &&& s.status == "metadata_only"@ || s.status == "ready"@
            &&& s.topics.len() <= 256
            &&& s.renderer_hint is Some ==> is_renderer(s.renderer_hint->Some_0)
            &&& forall|k: int|
                0 <= k < s.topics.len() ==> topic_failure(#[trigger] s.topics[k]) is None
        },
{
    lemma_topics_accepted(s.topics, 0);
}

/// An observation is accepted exactly if it is named printably, of a known kind and a known trust,
/// was made before it was sent and outlasts that moment, has one to sixteen sources that are all
/// accepted, and only plain metadata.
pub proof fn law_observations_are_accepted_with_their_sources(
    o: EdgeObservationView,
    kind: Seq<char>,
    sent_at_ms: i64,
)
    ensures
        observation_failure(o, kind, sent_at_ms) is None <==> {
            &&& is_text(o.identity, 192) && is_text(o.display_name, 96)
            &&& o.device_kind == "robot"@ || o.device_kind == "drone"@ || o.device_kind
                == "vehicle"@ || o.device_kind == "camera"@ || o.device_kind == "gateway"@
            &&& o.trust == "observed"@ || o.trust == "authenticated"@
            &&& o.observed_at_ms <= sent_at_ms && o.expires_at_ms > o.observed_at_ms
            &&& 1 <= o.sources.len() <= 16
            &&& o.metadata.len() <= 32
            &&& forall|k: Seq<char>| #[trigger]
                o.metadata.contains_key(k) ==> is_token(k, 48) && is_text(o.metadata[k], 256)
            &&& forall|k: int|
                0 <= k < o.sources.len() ==> source_failure(#[trigger] o.sources[k], kind) is None
        },
{
    lemma_sources_accepted(o.sources, kind, 0);
}

/// How many observations the first `n` adapters report.
pub open spec fn observed_by(adapters: Seq<EdgeAdapterHeartbeatView>, n: int) -> nat
    decreases n,
{
    if n <= 0 {
        0
    } else {
        observed_by(adapters, n - 1) + adapters[n - 1].observations.len()
    }
}

proof fn lemma_observed_by(adapters: Seq<EdgeAdapterHeartbeatView>, a: int, b: int)
    requires
        0 <= a <= b,
    ensures
        observed_by(adapters, a) <= observed_by(adapters, b),
    decreases b - a,
{
    if a < b {
        lemma_observed_by(adapters, a, b - 1);
    }
}

proof fn lemma_adapters_accepted(
    adapters: Seq<EdgeAdapterHeartbeatView>,
    sent_at_ms: i64,
    i: int,
)
    requires
        0 <= i <= adapters.len(),
        observed_by(adapters, i) <= 512,
    ensures
        adapters_failure(adapters, sent_at_ms, i, observed_by(adapters, i)) is None <==> observed_by(
            adapters,
            adapters.len() as int,
        ) <= 512 && forall|k: int|
            i <= k < adapters.len() ==> adapter_fits(#[trigger] adapters[k], sent_at_ms)
                && observations_failure(adapters[k].observations, adapters[k].kind, sent_at_ms, 0)
                is None,
    decreases adapters.len() - i,
{
    if i < adapters.len() {
        let a = adapters[i];
        assert(observed_by(adapters, i + 1) == observed_by(adapters, i) + a.observations.len());
        lemma_observed_by(adapters, i + 1, adapters.len() as int);
        if observed_by(adapters, i + 1) <= 512 {
            lemma_adapters_accepted(adapters, sent_at_ms, i + 1);
        }
    }
}

/// A heartbeat is accepted exactly if it is of the first version, is numbered, names its start and
/// its device, reports a known health and at most 32 adapters with at most 512 observations, each
/// adapter in a possible state and with observations that are all accepted.
pub proof fn law_heartbeats_are_accepted_with_their_adapters(h: EdgeHeartbeatView)
    ensures
        heartbeat_failure(h) is None <==> {
            &&& h.schema_version == 1 && h.sequence != 0
            &&& crypto::is_uuid(h.boot_id) && is_token(h.device_id, 64)
            &&& h.agent_health == "healthy"@ || h.agent_health == "degraded"@ || h.agent_health
                == "stale"@
            &&& h.adapters.len() <= 32
            &&& observed_by(h.adapters, h.adapters.len() as int) <= 512
            &&& forall|k: int|
                0 <= k < h.adapters.len() ==> adapter_fits(#[trigger] h.adapters[k], h.sent_at_ms)
            &&& forall|k: int, o: int|
                0 <= k < h.adapters.len() && 0 <= o < h.adapters[k].observations.len()
                    ==> observation_failure(
                    #[trigger] h.adapters[k].observations[o],
                    h.adapters[k].kind,
                    h.sent_at_ms,
                ) is None
        },
{
    lemma_adapters_accepted(h.adapters, h.sent_at_ms, 0);
    assert forall|k: int| 0 <= k < h.adapters.len() implies (observations_failure(
        (#[trigger] h.adapters[k]).observations,
        h.adapters[k].kind,
        h.sent_at_ms,
        0,
    ) is None <==> forall|o: int|
        0 <= o < h.adapters[k].observations.len() ==> observation_failure(
            #[trigger] h.adapters[k].observations[o],
            h.adapters[k].kind,
            h.sent_at_ms,
        ) is None) by {
        lemma_observations_accepted(
            h.adapters[k].observations,
            h.adapters[k].kind,
            h.sent_at_ms,
            0,
        );
    }
}

} // verus!
