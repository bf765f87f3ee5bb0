//! What a discovery request, an observation and an approval must look like.

use crate::api;
use crate::api::{ApiError, ApiErrorView};
use crate::discovery;
use crate::discovery::{
    DiscoveredSource, DiscoveredSourceView, DiscoveryObservation, DiscoveryObservationView,
    EdgeObservationIdentityView, PinnedDiscoveryEndpoint, PinnedDiscoveryEndpointView,
    SourceAddress,
};
use crate::domain::{
    AccessMode, ApproveNetworkCandidateInput, ApproveNetworkCandidateInputView, DataVisibility,
};
use crate::table;
use crate::text;
use vstd::prelude::*;

verus! {

pub const MAX_ORGANIZATION_ID_LEN: usize = 128;
pub const MAX_DISPLAY_NAME_LEN: usize = 128;
pub const MAX_FINGERPRINT_LEN: usize = 256;
pub const MAX_SOURCE_ID_LEN: usize = 64;
pub const MAX_SOURCE_LABEL_LEN: usize = 128;
pub const MAX_ENDPOINT_PATH_LEN: usize = 256;

/// Between one and `max_len` bytes once trimmed, and no control character.
pub open spec fn safe_text(value: Seq<char>, max_len: usize) -> bool {
    let v = text::trim(value);
    v.len() > 0 && text::byte_len(v) <= max_len && !text::any_control(v)
}

pub open spec fn text_failure(field: Seq<char>, value: Seq<char>, max_len: usize) -> Option<
    ApiErrorView,
> {
    if safe_text(value, max_len) {
        None
    } else {
        Some(
            api::bad_request(
                field + " must contain 1 to "@ + text::decimal(max_len as nat)
                    + " safe characters."@,
            ),
        )
    }
}

/// The result of a check that finds at most one fault.
pub open spec fn checked(r: Result<(), ApiError>, fault: Option<ApiErrorView>) -> bool {
    match r {
        Ok(()) => fault is None,
        Err(e) => fault == Some(e@),
    }
}

pub fn validate_text(field: &str, value: &str, max_len: usize) -> (r: Result<(), ApiError>)
    ensures
        checked(r, text_failure(field@, value@, max_len)),
{
    let v = text::trimmed(value);
    if v.as_str().is_empty() || text::utf8_size(v.as_str()) > max_len || text::has_control(
        v.as_str(),
    ) {
        let message = text::line(field).add(" must contain 1 to ").num(max_len as u64).add(
            " safe characters.",
        ).done();
        return Err(ApiError::bad_request(message.as_str()));
    }
    Ok(())
}

/// The bytes that a header value may hold to count as text.
pub open spec fn is_visible(b: u8) -> bool {
    b == 9 || (32 <= b && b < 127)
}

pub open spec fn all_visible(bytes: Seq<u8>) -> bool {
    forall|i: int| 0 <= i < bytes.len() ==> is_visible(#[trigger] bytes[i])
}

pub open spec fn ascii_text(bytes: Seq<u8>) -> Seq<char> {
    bytes.map_values(|b: u8| b as char)
}

/// The text of a header value, if it holds visible ASCII only.
pub fn visible_text(bytes: &[u8]) -> (r: Option<String>)
    ensures
        match r {
            Some(s) => all_visible(bytes@) && s@ == ascii_text(bytes@),
            None => !all_visible(bytes@),
        },
{
    let mut s = String::new();
    let mut i: usize = 0;
    while i < bytes.len()
        invariant
            i <= bytes@.len(),
            forall|j: int| 0 <= j < i ==> is_visible(#[trigger] bytes@[j]),
            s@ == ascii_text(bytes@.take(i as int)),
        decreases bytes@.len() - i,
    {
        let b: u8 = bytes[i];
        if !(b == 9 || (32 <= b && b < 127)) {
            return None;
        }
        s.push(b as char);
        proof {
            assert(ascii_text(bytes@.take(i + 1)) =~= ascii_text(bytes@.take(i as int)).push(
                b as char,
            ));
        }
        i = i + 1;
    }
    proof {
        assert(bytes@.take(bytes@.len() as int) =~= bytes@);
    }
    Some(s)
}

/// What an optional byte string holds.
pub open spec fn raw_view(raw: Option<Vec<u8>>) -> Option<Seq<u8>> {
    match raw {
        Some(v) => Some(v@),
        None => None,
    }
}

/// The value of a header that must be present and printable.
pub open spec fn printable_header(raw: Option<Seq<u8>>, display_name: Seq<char>) -> Result<
    Seq<char>,
    ApiErrorView,
> {
    match raw {
        None => Err(api::bad_request(display_name + " is required."@)),
        Some(bytes) => if !all_visible(bytes) {
            Err(api::bad_request(display_name + " must be valid ASCII."@))
        } else {
            let v = text::trim(ascii_text(bytes));
            if v.len() == 0 || text::byte_len(v) > 128 || text::any_control(v) {
                Err(
                    api::bad_request(
                        display_name + " must contain 1 to 128 printable characters."@,
                    ),
                )
            } else {
                Ok(v)
            }
        },
    }
}

pub fn required_printable_header(raw: &Option<Vec<u8>>, display_name: &str) -> (r: Result<
    String,
    ApiError,
>)
    ensures
        api::answer_view(r) == printable_header(raw_view(*raw), display_name@),
{
    match raw {
        None => {
            let message = text::line(display_name).add(" is required.").done();
            Err(ApiError::bad_request(message.as_str()))
        },
        Some(bytes) => match visible_text(bytes.as_slice()) {
            None => {
                let message = text::line(display_name).add(" must be valid ASCII.").done();
                Err(ApiError::bad_request(message.as_str()))
            },
            Some(s) => {
                let v = text::trimmed(s.as_str());
                if v.as_str().is_empty() || text::utf8_size(v.as_str()) > 128 || text::has_control(
                    v.as_str(),
                ) {
                    let message = text::line(display_name).add(
                        " must contain 1 to 128 printable characters.",
                    ).done();
                    return Err(ApiError::bad_request(message.as_str()));
                }
                Ok(v)
            },
        },
    }
}

/// The idempotency key of a request that changes something, or the header that is wrong.
pub open spec fn mutation_key(
    idempotency_key: Option<Seq<u8>>,
    request_id: Option<Seq<u8>>,
) -> Result<Seq<char>, ApiErrorView> {
    match printable_header(idempotency_key, "Idempotency-Key"@) {
        Err(e) => Err(e),
        Ok(key) => match printable_header(request_id, "X-RMS-Request-ID"@) {
            Err(e) => Err(e),
            Ok(_) => Ok(key),
        },
    }
}

/// Reads the two headers that every changing discovery request carries.
pub fn require_mutation_headers(idempotency_key: &Option<Vec<u8>>, request_id: &Option<Vec<u8>>) -> (r:
    Result<String, ApiError>)
    ensures
        api::answer_view(r) == mutation_key(raw_view(*idempotency_key), raw_view(*request_id)),
{
    let key = match required_printable_header(idempotency_key, "Idempotency-Key") {
        Ok(key) => key,
        Err(e) => {
            return Err(e);
        },
    };
    match required_printable_header(request_id, "X-RMS-Request-ID") {
        Ok(_) => Ok(key),
        Err(e) => Err(e),
    }
}

/// Private and link-local addresses: the ones that a machine on the local network has.
pub open spec fn lan_address(address: SourceAddress) -> bool {
    match address {
        SourceAddress::V4 { a, b, c, d } => a == 10 || (a == 172 && 16 <= b <= 31) || (a == 192 && b
            == 168) || (a == 169 && b == 254),
        SourceAddress::V6 { high, low } => 0xfc00_0000_0000_0000 <= high
            <= 0xfdff_ffff_ffff_ffff || 0xfe80_0000_0000_0000 <= high <= 0xfebf_ffff_ffff_ffff,
    }
}

pub fn address_is_lan_eligible(address: SourceAddress) -> (r: bool)
    ensures
        r == lan_address(address),
{
    match address {
        SourceAddress::V4 { a, b, c, d } => a == 10 || (a == 172 && 16 <= b && b <= 31) || (a == 192
            && b == 168) || (a == 169 && b == 254),
        SourceAddress::V6 { high, low } => (0xfc00_0000_0000_0000 <= high && high
            <= 0xfdff_ffff_ffff_ffff) || (0xfe80_0000_0000_0000 <= high && high
            <= 0xfebf_ffff_ffff_ffff),
    }
}

/// Whether packets from this address are listened to.
pub fn is_usable_source_address(address: SourceAddress) -> (r: bool)
    ensures
        r == lan_address(address),
{
    address_is_lan_eligible(address)
}

pub open spec fn known_device_kind(s: Seq<char>) -> bool {
    s == "robot"@ || s == "drone"@ || s == "vehicle"@ || s == "camera"@ || s == "gateway"@
}

pub fn is_device_kind(s: &str) -> (r: bool)
    ensures
        r == known_device_kind(s@),
{
    text::same(s, "robot") || text::same(s, "drone") || text::same(s, "vehicle") || text::same(
        s,
        "camera",
    ) || text::same(s, "gateway")
}

pub open spec fn known_integration_kind(s: Seq<char>) -> bool {
    s == "ros2"@ || s == "rtsp"@ || s == "mavlink"@ || s == "autoware"@ || s == "rerun"@ || s
        == "rms_edge"@
}

fn is_integration_kind(s: &str) -> (r: bool)
    ensures
        r == known_integration_kind(s@),
{
    text::same(s, "ros2") || text::same(s, "rtsp") || text::same(s, "mavlink") || text::same(
        s,
        "autoware",
    ) || text::same(s, "rerun") || text::same(s, "rms_edge")
}

pub open spec fn known_protocol(s: Seq<char>) -> bool {
    s == "rerun"@ || s == "redap"@ || s == "rtsp"@ || s == "ros2"@ || s == "mavlink"@ || s
        == "onvif"@ || s == "ssdp"@
}

fn is_protocol(s: &str) -> (r: bool)
    ensures
        r == known_protocol(s@),
{
    text::same(s, "rerun") || text::same(s, "redap") || text::same(s, "rtsp") || text::same(
        s,
        "ros2",
    ) || text::same(s, "mavlink") || text::same(s, "onvif") || text::same(s, "ssdp")
}

pub open spec fn known_scheme(s: Seq<char>) -> bool {
    s == "http"@ || s == "https"@ || s == "rtsp"@ || s == "rerun+http"@ || s == "rerun+https"@ || s
        == "redap"@
}

fn is_scheme(s: &str) -> (r: bool)
    ensures
        r == known_scheme(s@),
{
    text::same(s, "http") || text::same(s, "https") || text::same(s, "rtsp") || text::same(
        s,
        "rerun+http",
    ) || text::same(s, "rerun+https") || text::same(s, "redap")
}

/// A path that cannot lead out of its endpoint.
pub open spec fn safe_endpoint_path(path: Seq<char>) -> bool {
    text::byte_len(path) <= MAX_ENDPOINT_PATH_LEN && text::starts_with(path, "/"@)
        && !text::contains_text(path, ".."@) && !text::any_control(path)
}

pub fn endpoint_path_is_safe(path: &str) -> (r: bool)
    ensures
        r == safe_endpoint_path(path@),
{
    text::utf8_size(path) <= MAX_ENDPOINT_PATH_LEN && text::has_prefix(path, "/") && !text::contains(
        path,
        "..",
    ) && !text::has_control(path)
}

/// Whether the source at `i` may be registered, its predecessors being given.
pub open spec fn eligible_source(sources: Seq<DiscoveredSourceView>, i: int) -> bool {
    let s = sources[i];
    &&& forall|j: int| 0 <= j < i ==> (#[trigger] sources[j]).id != s.id
    &&& known_protocol(s.protocol)
    &&& known_scheme(s.endpoint.scheme)
    &&& s.endpoint.port != 0
    &&& lan_address(s.endpoint.source_address)
    &&& safe_endpoint_path(s.endpoint.path)
}

pub open spec fn sources_failure(sources: Seq<DiscoveredSourceView>, i: int) -> Option<ApiErrorView>
    decreases sources.len() - i,
{
    if i < 0 || i >= sources.len() {
        None
    } else if text_failure("source ID"@, sources[i].id, MAX_SOURCE_ID_LEN) is Some {
        text_failure("source ID"@, sources[i].id, MAX_SOURCE_ID_LEN)
    } else if text_failure("source label"@, sources[i].label, MAX_SOURCE_LABEL_LEN) is Some {
        text_failure("source label"@, sources[i].label, MAX_SOURCE_LABEL_LEN)
    } else if !eligible_source(sources, i) {
        Some(
            api::bad_request("The discovery source endpoint is not eligible for registration."@),
        )
    } else {
        sources_failure(sources, i + 1)
    }
}

/// What all observations must satisfy apart from their sources.
pub open spec fn eligible_observation(o: DiscoveryObservationView, now_ms: i64) -> bool {
    &&& known_device_kind(o.suggested_device_kind)
    &&& known_integration_kind(o.integration_kind)
    &&& o.expires_at_ms > now_ms
    &&& o.last_seen_at_ms <= discovery::saturated(now_ms + 5_000)
    &&& o.sources.len() <= discovery::MAX_SOURCES_PER_CANDIDATE
    &&& o.integration_kind == "rms_edge"@ ==> o.edge_identity is Some
}

/// Why an observation may not become a candidate.
pub open spec fn observation_failure(o: DiscoveryObservationView, now_ms: i64) -> Option<
    ApiErrorView,
> {
    if text_failure("candidate fingerprint"@, o.fingerprint, MAX_FINGERPRINT_LEN) is Some {
        text_failure("candidate fingerprint"@, o.fingerprint, MAX_FINGERPRINT_LEN)
    } else if text_failure("candidate display name"@, o.display_name, MAX_DISPLAY_NAME_LEN) is Some {
        text_failure("candidate display name"@, o.display_name, MAX_DISPLAY_NAME_LEN)
    } else if text_failure("candidate endpoint label"@, o.endpoint_label, MAX_DISPLAY_NAME_LEN) is Some {
        text_failure("candidate endpoint label"@, o.endpoint_label, MAX_DISPLAY_NAME_LEN)
    } else if !eligible_observation(o, now_ms) {
        Some(api::bad_request("The discovery observation is not eligible for registration."@))
    } else {
        sources_failure(o.sources, 0)
    }
}

fn source_is_eligible(sources: &Vec<DiscoveredSource>, i: usize) -> (r: bool)
    requires
        i < sources@.len(),
    ensures
        r == eligible_source(table::views(sources@), i as int),
{
    let ghost views = table::views(sources@);
    let s = &sources[i];
    assert(views[i as int] == s@);
    let mut j: usize = 0;
    while j < i
        invariant
            j <= i < sources@.len(),
            views == table::views(sources@),
            views[i as int] == s@,
            forall|k: int| 0 <= k < j ==> (#[trigger] views[k]).id != s@.id,
        decreases i - j,
    {
        assert(views[j as int] == sources@[j as int]@);
        if text::same(sources[j].id.as_str(), s.id.as_str()) {
            return false;
        }
        j = j + 1;
    }
    is_protocol(s.protocol.as_str()) && is_scheme(s.endpoint.scheme.as_str()) && s.endpoint.port != 0
        && address_is_lan_eligible(s.endpoint.source_address) && endpoint_path_is_safe(
        s.endpoint.path.as_str(),
    )
}

/// Checks an observation at the boundary to the catalog.
pub fn sanitize_observation(o: &DiscoveryObservation, now_ms: i64) -> (r: Result<(), ApiError>)
    ensures
        checked(r, observation_failure(o@, now_ms)),
{
    match validate_text("candidate fingerprint", o.fingerprint.as_str(), MAX_FINGERPRINT_LEN) {
        Ok(()) => {},
        Err(e) => {
            return Err(e);
        },
    }
    match validate_text("candidate display name", o.display_name.as_str(), MAX_DISPLAY_NAME_LEN) {
        Ok(()) => {},
        Err(e) => {
            return Err(e);
        },
    }
    match validate_text(
        "candidate endpoint label",
        o.endpoint_label.as_str(),
        MAX_DISPLAY_NAME_LEN,
    ) {
        Ok(()) => {},
        Err(e) => {
            return Err(e);
        },
    }
    let latest: i64 = discovery::saturating_add(now_ms, 5_000);
    if !is_device_kind(o.suggested_device_kind.as_str()) || !is_integration_kind(
        o.integration_kind.as_str(),
    ) || o.expires_at_ms <= now_ms || o.last_seen_at_ms > latest || o.sources.len()
        > discovery::MAX_SOURCES_PER_CANDIDATE || (text::same(
        o.integration_kind.as_str(),
        "rms_edge",
    ) && o.edge_identity.is_none()) {
        return Err(
            ApiError::bad_request("The discovery observation is not eligible for registration."),
        );
    }
    let ghost views = o@.sources;
    let mut i: usize = 0;
    while i < o.sources.len()
        invariant
            i <= o.sources@.len(),
            views == table::views(o.sources@),
            sources_failure(views, 0) == sources_failure(views, i as int),
            observation_failure(o@, now_ms) == sources_failure(views, 0),
        decreases o.sources@.len() - i,
    {
        assert(views[i as int] == o.sources@[i as int]@);
        let s = &o.sources[i];
        match validate_text("source ID", s.id.as_str(), MAX_SOURCE_ID_LEN) {
            Ok(()) => {},
            Err(e) => {
                return Err(e);
            },
        }
        match validate_text("source label", s.label.as_str(), MAX_SOURCE_LABEL_LEN) {
            Ok(()) => {},
            Err(e) => {
                return Err(e);
            },
        }
        if !source_is_eligible(&o.sources, i) {
            return Err(
                ApiError::bad_request(
                    "The discovery source endpoint is not eligible for registration.",
                ),
            );
        }
        i = i + 1;
    }
    Ok(())
}

proof fn lemma_sources_clean(sources: Seq<DiscoveredSourceView>, from: int, i: int)
    requires
        0 <= from <= i < sources.len(),
        sources_failure(sources, from) is None,
    ensures
        eligible_source(sources, i),
    decreases i - from,
{
    if from < i {
        lemma_sources_clean(sources, from + 1, i);
    }
}

/// An observation that passes has only sources on the local network, under paths that cannot
/// leave their endpoint, with identifiers that differ.
pub proof fn law_registered_sources_are_local(o: DiscoveryObservationView, now_ms: i64)
    requires
        observation_failure(o, now_ms) is None,
    ensures
        forall|i: int|
            0 <= i < o.sources.len() ==> lan_address(
                (#[trigger] o.sources[i]).endpoint.source_address,
            ) && safe_endpoint_path(o.sources[i].endpoint.path),
        forall|i: int, j: int|
            0 <= j < i < o.sources.len() ==> (#[trigger] o.sources[j]).id != (
            #[trigger] o.sources[i]).id,
{
    assert forall|i: int| 0 <= i < o.sources.len() implies eligible_source(o.sources, i) by {
        lemma_sources_clean(o.sources, 0, i);
    }
    assert forall|i: int, j: int| 0 <= j < i < o.sources.len() implies (#[trigger] o.sources[j]).id
        != (#[trigger] o.sources[i]).id by {
        assert(eligible_source(o.sources, i));
    }
    assert forall|i: int| 0 <= i < o.sources.len() implies lan_address(
        (#[trigger] o.sources[i]).endpoint.source_address,
    ) && safe_endpoint_path(o.sources[i].endpoint.path) by {
        assert(eligible_source(o.sources, i));
    }
}

pub open spec fn all_distinct(ids: Seq<Seq<char>>) -> bool {
    forall|i: int, j: int| 0 <= i < j < ids.len() ==> #[trigger] ids[i] != #[trigger] ids[j]
}

pub fn are_distinct(ids: &Vec<String>) -> (r: bool)
    ensures
        r == all_distinct(table::views(ids@)),
{
    let ghost views = table::views(ids@);
    let mut i: usize = 0;
    while i < ids.len()
        invariant
            i <= ids@.len(),
            views == table::views(ids@),
            forall|p: int, q: int| 0 <= p < q < i ==> #[trigger] views[p] != #[trigger] views[q],
        decreases ids@.len() - i,
    {
        assert(views[i as int] == ids@[i as int]@);
        let mut j: usize = 0;
        while j < i
            invariant
                j <= i < ids@.len(),
                views == table::views(ids@),
                views[i as int] == ids@[i as int]@,
                forall|p: int| 0 <= p < j ==> #[trigger] views[p] != views[i as int],
            decreases i - j,
        {
            assert(views[j as int] == ids@[j as int]@);
            if text::same(ids[j].as_str(), ids[i].as_str()) {
                return false;
            }
            j = j + 1;
        }
        i = i + 1;
    }
    true
}

pub open spec fn all_safe(ids: Seq<Seq<char>>, max_len: usize) -> bool {
    forall|i: int| 0 <= i < ids.len() ==> safe_text(#[trigger] ids[i], max_len)
}

/// Why an approval is refused before anything is looked up.
pub open spec fn approval_input_failure(input: ApproveNetworkCandidateInputView) -> Option<
    ApiErrorView,
> {
    if text_failure("verificationToken"@, input.verification_token, 128) is Some {
        text_failure("verificationToken"@, input.verification_token, 128)
    } else if text_failure("projectId"@, input.project_id, 128) is Some {
        text_failure("projectId"@, input.project_id, 128)
    } else if text_failure("deviceName"@, input.device_name, MAX_DISPLAY_NAME_LEN) is Some {
        text_failure("deviceName"@, input.device_name, MAX_DISPLAY_NAME_LEN)
    } else if input.access_mode != AccessMode::Observe {
        Some(api::bad_request("Network candidates can only be linked with observe access."@))
    } else if input.visibility != DataVisibility::Operator {
        Some(api::bad_request("Network candidate data must initially use operator visibility."@))
    } else if input.selected_source_ids.len() == 0 {
        Some(api::bad_request("Select at least one verified, available data source."@))
    } else if input.selected_source_ids.len() > discovery::MAX_SOURCES_PER_CANDIDATE {
        Some(api::bad_request("Too many data sources were selected."@))
    } else if !all_distinct(input.selected_source_ids) || !all_safe(
        input.selected_source_ids,
        MAX_SOURCE_ID_LEN,
    ) {
        Some(api::bad_request("selectedSourceIds must contain unique, valid source IDs."@))
    } else {
        None
    }
}

fn are_safe(ids: &Vec<String>, max_len: usize) -> (r: bool)
    ensures
        r == all_safe(table::views(ids@), max_len),
{
    let ghost views = table::views(ids@);
    let mut i: usize = 0;
    while i < ids.len()
        invariant
            i <= ids@.len(),
            views == table::views(ids@),
            forall|j: int| 0 <= j < i ==> safe_text(#[trigger] views[j], max_len),
        decreases ids@.len() - i,
    {
        assert(views[i as int] == ids@[i as int]@);
        match validate_text("selectedSourceIds", ids[i].as_str(), max_len) {
            Ok(()) => {},
            Err(_) => {
                return false;
            },
        }
        i = i + 1;
    }
    true
}

pub fn validate_approval_input(input: &ApproveNetworkCandidateInput) -> (r: Result<(), ApiError>)
    ensures
        checked(r, approval_input_failure(input@)),
{
    match validate_text("verificationToken", input.verification_token.as_str(), 128) {
        Ok(()) => {},
        Err(e) => {
            return Err(e);
        },
    }
    match validate_text("projectId", input.project_id.as_str(), 128) {
        Ok(()) => {},
        Err(e) => {
            return Err(e);
        },
    }
    match validate_text("deviceName", input.device_name.as_str(), MAX_DISPLAY_NAME_LEN) {
        Ok(()) => {},
        Err(e) => {
            return Err(e);
        },
    }
    if input.access_mode != AccessMode::Observe {
        return Err(
            ApiError::bad_request("Network candidates can only be linked with observe access."),
        );
    }
    if input.visibility != DataVisibility::Operator {
        return Err(
            ApiError::bad_request("Network candidate data must initially use operator visibility."),
        );
    }
    if input.selected_source_ids.len() == 0 {
        return Err(ApiError::bad_request("Select at least one verified, available data source."));
    }
    if input.selected_source_ids.len() > discovery::MAX_SOURCES_PER_CANDIDATE {
        return Err(ApiError::bad_request("Too many data sources were selected."));
    }
    if !are_distinct(&input.selected_source_ids) || !are_safe(
        &input.selected_source_ids,
        MAX_SOURCE_ID_LEN,
    ) {
        return Err(
            ApiError::bad_request("selectedSourceIds must contain unique, valid source IDs."),
        );
    }
    Ok(())
}

/// The URL of an endpoint at the address that its packets came from.
pub open spec fn endpoint_url_text(e: PinnedDiscoveryEndpointView) -> Seq<char> {
    let host = match e.source_address {
        SourceAddress::V4 { .. } => e.address_text,
        SourceAddress::V6 { .. } => "["@ + e.address_text + "]"@,
    };
    e.scheme + "://"@ + host + ":"@ + text::decimal(e.port as nat) + e.path
}

pub fn endpoint_url(endpoint: &PinnedDiscoveryEndpoint) -> (r: String)
    ensures
        r@ == endpoint_url_text(endpoint@),
{
    let host = match endpoint.source_address {
        SourceAddress::V4 { .. } => endpoint.address_text.clone(),
        SourceAddress::V6 { .. } => text::line("[").add(endpoint.address_text.as_str()).add(
            "]",
        ).done(),
    };
    text::line(endpoint.scheme.as_str()).add("://").add(host.as_str()).add(":").num(
        endpoint.port as u64,
    ).add(endpoint.path.as_str()).done()
}

/// Why a signed identity may not be linked into an organization.
pub open spec fn edge_scope_failure(
    identity: Option<EdgeObservationIdentityView>,
    organization: Seq<char>,
) -> Option<ApiErrorView> {
    match identity {
        Some(i) => if i.organization_trusted && i.organization_id != Some(organization) {
            Some(api::conflict("The signed Edge identity belongs to another organization."@))
        } else {
            None
        },
        None => None,
    }
}

pub fn ensure_edge_organization_scope(o: &DiscoveryObservation, organization_id: &str) -> (r: Result<
    (),
    ApiError,
>)
    ensures
        checked(r, edge_scope_failure(o@.edge_identity, organization_id@)),
{
    match &o.edge_identity {
        Some(identity) => {
            if identity.organization_trusted && !table::is_text(
                &identity.organization_id,
                organization_id,
            ) {
                return Err(
                    ApiError::conflict("The signed Edge identity belongs to another organization."),
                );
            }
            Ok(())
        },
        None => Ok(()),
    }
}

/// An approval is well-formed exactly if its texts are safe, it asks for observation alone and
/// shows the data to operators, and it selects one to sixteen different sources.
pub proof fn law_approvals_ask_for_observation(input: ApproveNetworkCandidateInputView)
    ensures
        approval_input_failure(input) is None <==> {
            &&& safe_text(input.verification_token, 128)
            &&& safe_text(input.project_id, 128)
            &&& safe_text(input.device_name, MAX_DISPLAY_NAME_LEN)
            &&& input.access_mode == AccessMode::Observe
            &&& input.visibility == DataVisibility::Operator
            &&& 1 <= input.selected_source_ids.len() <= 16
            &&& input.selected_source_ids.no_duplicates()
            &&& forall|i: int|
                0 <= i < input.selected_source_ids.len() ==> safe_text(
                    #[trigger] input.selected_source_ids[i],
                    MAX_SOURCE_ID_LEN,
                )
        },
{
    let ids = input.selected_source_ids;
    if all_distinct(ids) {
        assert forall|i: int, j: int| 0 <= i < ids.len() && 0 <= j < ids.len() && i != j implies ids[i]
            != ids[j] by {
            if i < j {
                assert(ids[i] != ids[j]);
            } else {
                assert(ids[j] != ids[i]);
            }
        }
    }
}

/// A signed identity that an organization trusts is linked into that organization alone.
pub proof fn law_trusted_agents_stay_with_their_organization(
    identity: Option<EdgeObservationIdentityView>,
    organization: Seq<char>,
)
    ensures
        edge_scope_failure(identity, organization) is None <==> (identity is None
            || !identity->Some_0.organization_trusted || identity->Some_0.organization_id == Some(
            organization,
        )),
{
}

/// An address counts as local exactly if it is private or link-local.
pub proof fn law_local_addresses_are_private(a: u8, b: u8, c: u8, d: u8)
    ensures
        lan_address(SourceAddress::V4 { a, b, c, d }) ==> a == 10 || a == 172 || a == 192 || a
            == 169,
        a == 10 ==> lan_address(SourceAddress::V4 { a, b, c, d }),
        a == 192 ==> (lan_address(SourceAddress::V4 { a, b, c, d }) <==> b == 168),
        a == 169 ==> (lan_address(SourceAddress::V4 { a, b, c, d }) <==> b == 254),
        a == 172 ==> (lan_address(SourceAddress::V4 { a, b, c, d }) <==> b / 16 == 1),
        a == 127 || a == 0 || a >= 224 ==> !lan_address(SourceAddress::V4 { a, b, c, d }),
{
}

proof fn lemma_source_eligible(sources: Seq<DiscoveredSourceView>, i: int, k: int)
    requires
        0 <= i <= k < sources.len(),
        sources_failure(sources, i) is None,
    ensures
        safe_text(sources[k].id, MAX_SOURCE_ID_LEN),
        safe_text(sources[k].label, MAX_SOURCE_LABEL_LEN),
        eligible_source(sources, k),
    decreases k - i,
{
    if i < k {
        lemma_source_eligible(sources, i + 1, k);
    }
}

/// What may become a candidate has not expired, was not seen in the future, is of a known kind, is
/// signed where it says that it is an edge agent, and has at most sixteen sources, each under an
/// identifier of its own, at a port of a local address, over a known protocol, at a path that
/// starts at the root and never leads upwards.
pub proof fn law_candidates_are_fresh_and_known(o: DiscoveryObservationView, now_ms: i64, k: int)
    requires
        observation_failure(o, now_ms) is None,
        now_ms <= i64::MAX - 5_000,
    ensures
        o.expires_at_ms > now_ms,
        o.last_seen_at_ms <= now_ms + 5_000,
        o.sources.len() <= 16,
        text::trim(o.fingerprint).len() > 0,
        text::trim(o.display_name).len() > 0,
        o.integration_kind == "rms_edge"@ ==> o.edge_identity is Some,
        seq!["robot"@, "drone"@, "vehicle"@, "camera"@, "gateway"@].contains(
            o.suggested_device_kind,
        ),
        0 <= k < o.sources.len() ==> {
            let s = o.sources[k];
            &&& s.endpoint.port > 0
            &&& lan_address(s.endpoint.source_address)
            &&& seq!["rerun"@, "redap"@, "rtsp"@, "ros2"@, "mavlink"@, "onvif"@, "ssdp"@].contains(
                s.protocol,
            )
            &&& seq![
                "http"@,
                "https"@,
                "rtsp"@,
                "rerun+http"@,
                "rerun+https"@,
                "redap"@,
            ].contains(s.endpoint.scheme)
            &&& s.endpoint.path.len() > 0 && s.endpoint.path[0] == '/'
            &&& forall|i: int|
                0 <= i < s.endpoint.path.len() - 1 ==> !(#[trigger] s.endpoint.path[i] == '.'
                    && s.endpoint.path[i + 1] == '.')
            &&& forall|j: int| 0 <= j < k ==> (#[trigger] o.sources[j]).id != s.id
        },
{
    let kinds = seq!["robot"@, "drone"@, "vehicle"@, "camera"@, "gateway"@];
    assert(kinds[0] == "robot"@ && kinds[1] == "drone"@ && kinds[2] == "vehicle"@ && kinds[3]
        == "camera"@ && kinds[4] == "gateway"@);
    if 0 <= k < o.sources.len() {
        lemma_source_eligible(o.sources, 0, k);
        let s = o.sources[k];
        let protocols = seq![
            "rerun"@,
            "redap"@,
            "rtsp"@,
            "ros2"@,
            "mavlink"@,
            "onvif"@,
            "ssdp"@,
        ];
        assert(protocols[0] == "rerun"@ && protocols[1] == "redap"@ && protocols[2] == "rtsp"@
            && protocols[3] == "ros2"@ && protocols[4] == "mavlink"@ && protocols[5] == "onvif"@
            && protocols[6] == "ssdp"@);
        let schemes = seq![
            "http"@,
            "https"@,
            "rtsp"@,
            "rerun+http"@,
            "rerun+https"@,
            "redap"@,
        ];
        assert(schemes[0] == "http"@ && schemes[1] == "https"@ && schemes[2] == "rtsp"@
            && schemes[3] == "rerun+http"@ && schemes[4] == "rerun+https"@ && schemes[5]
            == "redap"@);
        let path = s.endpoint.path;
        reveal_strlit("/");
        reveal_strlit("..");
        assert(path.subrange(0, 1)[0] == '/');
        assert forall|i: int| 0 <= i < path.len() - 1 implies !(#[trigger] path[i] == '.' && path[i
            + 1] == '.') by {
            if path[i] == '.' && path[i + 1] == '.' {
                assert(path.subrange(i, i + 2) =~= ".."@);
                assert(text::occurs_at(path, ".."@, i));
            }
        }
    }
}

/// A change is asked for with two printable headers; its key is the first, trimmed.
pub proof fn law_mutations_bear_a_key(key: Option<Seq<u8>>, request: Option<Seq<u8>>)
    ensures
        mutation_key(key, request) matches Ok(k) ==> {
            &&& key matches Some(bytes) && k == text::trim(ascii_text(bytes))
            &&& 0 < k.len() && text::byte_len(k) <= 128
            &&& forall|i: int| 0 <= i < k.len() ==> !text::is_control(#[trigger] k[i])
            &&& request is Some
        },
{
}

} // verus!
