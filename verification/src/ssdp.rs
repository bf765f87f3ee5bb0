//! SSDP: the answers of UPnP devices.

use crate::advertisement;
use crate::advertisement::{PacketParseError, ParsedAdvertisement, ParsedAdvertisementView};
use crate::domain::{DiscoveryCandidateCategory, DiscoverySourceCategory};
use crate::search;
use crate::table;
use crate::table::Table;
use crate::text;
use vstd::prelude::*;
use vstd::string::*;
use vstd::utf8::*;

verus! {

pub const MAX_HTTP_HEADERS: usize = 64;
pub const MAX_HEADER_LINE_SIZE: usize = 1_024;
pub const MAX_ADVERTISED_VALUE_SIZE: usize = 512;
pub const MAX_ADVERTISED_URL_SIZE: usize = 2_048;

/// The query that every device answers.
pub fn ssdp_query() -> (r: &'static str)
    ensures
        r@
            == "M-SEARCH * HTTP/1.1\r\nHOST: 239.255.255.250:1900\r\nMAN: \"ssdp:discover\"\r\nMX: 1\r\nST: ssdp:all\r\nUSER-AGENT: Rerun-RMS/1.0 UPnP/1.1\r\n\r\n"@,
{
    "M-SEARCH * HTTP/1.1\r\nHOST: 239.255.255.250:1900\r\nMAN: \"ssdp:discover\"\r\nMX: 1\r\nST: ssdp:all\r\nUSER-AGENT: Rerun-RMS/1.0 UPnP/1.1\r\n\r\n"
}

/// Whether a character ends the host part of a URL.
pub open spec fn ends_authority(c: char) -> bool {
    c == '/' || c == '?' || c == '#'
}

/// Whether a character ends the path of a URL.
pub open spec fn ends_path(c: char) -> bool {
    c == '?' || c == '#'
}

/// The port that the host part of a URL names: the outer option is none where it is malformed,
/// the inner one where it names no port.
pub open spec fn explicit_port(authority: Seq<char>) -> Option<Option<u16>> {
    if authority.len() > 0 && authority[0] == '[' {
        let rest = authority.drop_first();
        let close = search::char_index(rest, ']', 0);
        if close >= rest.len() {
            None
        } else {
            let suffix = rest.skip(close + 1);
            if suffix.len() == 0 {
                Some(None)
            } else if suffix[0] != ':' {
                None
            } else {
                port_read(suffix.drop_first())
            }
        }
    } else {
        let at = search::last_index(authority, ':', authority.len() as int);
        if at < 0 {
            Some(None)
        } else {
            let host = authority.take(at);
            if host.len() == 0 || host.contains(':') {
                None
            } else {
                port_read(authority.skip(at + 1))
            }
        }
    }
}

pub open spec fn port_read(s: Seq<char>) -> Option<Option<u16>> {
    match text::number_read(s, 65_535) {
        Some(n) => Some(Some(n as u16)),
        None => None,
    }
}

fn read_port(s: &str) -> (r: Option<Option<u16>>)
    ensures
        r == port_read(s@),
{
    match text::parse_number(s, 65_535) {
        Some(n) => Some(Some(n as u16)),
        None => None,
    }
}

fn read_explicit_port(authority: &str) -> (r: Option<Option<u16>>)
    ensures
        r == explicit_port(authority@),
{
    let v = text::chars_of(authority);
    let n: usize = v.len();
    if n > 0 && v[0] == '[' {
        let rest = text::string_between(v.as_slice(), 1, n);
        assert(rest@ =~= authority@.drop_first());
        let w = text::chars_of(rest.as_str());
        let m: usize = w.len();
        let close: usize = search::find_char_from(w.as_slice(), ']', 0);
        if close >= m {
            return None;
        }
        let suffix = text::string_between(w.as_slice(), close + 1, m);
        assert(suffix@ =~= rest@.skip(close + 1));
        if suffix.as_str().is_empty() {
            return Some(None);
        }
        if w[close + 1] != ':' {
            return None;
        }
        let port = text::string_between(w.as_slice(), close + 2, m);
        assert(port@ =~= suffix@.drop_first());
        return read_port(port.as_str());
    }
    match search::find_last(v.as_slice(), ':') {
        None => Some(None),
        Some(at) => {
            let host = text::string_between(v.as_slice(), 0, at);
            assert(host@ =~= authority@.take(at as int));
            if host.as_str().is_empty() || crate::names::contains_char(host.as_str(), ':') {
                return None;
            }
            let port = text::string_between(v.as_slice(), at + 1, n);
            assert(port@ =~= authority@.skip(at + 1));
            read_port(port.as_str())
        },
    }
}

/// The port of a scheme.
pub open spec fn default_port(scheme: Seq<char>) -> u16 {
    if scheme == "https"@ {
        443
    } else if scheme == "rtsp"@ {
        554
    } else {
        80
    }
}

/// The schemes that an announced URL may have.
pub open spec fn scheme_allowed(scheme: Seq<char>, with_rtsp: bool) -> bool {
    scheme == "http"@ || scheme == "https"@ || (with_rtsp && scheme == "rtsp"@)
}

/// The scheme, port and path of an announced URL. Its host does not count.
pub open spec fn endpoint_of(value: Seq<char>, with_rtsp: bool) -> Option<
    (Seq<char>, u16, Seq<char>),
> {
    let url = text::trim(value);
    match search::text_index(url, "://"@, 0) {
        None => None,
        Some(at) => {
            let scheme = text::lowercase(url.take(at));
            let rest = url.skip(at + 3);
            let end = search::index_where(rest, |c: char| ends_authority(c), 0);
            let authority = rest.take(end);
            let tail = rest.skip(end);
            let port = explicit_port(authority);
            if text::byte_len(value) > MAX_ADVERTISED_URL_SIZE || text::any_control(value)
                || !scheme_allowed(scheme, with_rtsp) || authority.len() == 0
                || authority.contains('@') || !text::all_are(
                authority,
                |c: char| !text::is_space(c),
            ) || port is None {
                None
            } else {
                let number = match port->Some_0 {
                    Some(n) => n,
                    None => default_port(scheme),
                };
                if number == 0 {
                    None
                } else {
                    Some(
                        (
                            scheme,
                            number,
                            if tail.len() > 0 && tail[0] == '/' {
                                advertisement::clean_path(
                                    tail.take(
                                        search::index_where(tail, |c: char| ends_path(c), 0),
                                    ),
                                )
                            } else {
                                "/"@
                            },
                        ),
                    )
                }
            }
        },
    }
}

pub open spec fn endpoint_view(r: Option<(String, u16, String)>) -> Option<
    (Seq<char>, u16, Seq<char>),
> {
    match r {
        Some((scheme, port, path)) => Some((scheme@, port, path@)),
        None => None,
    }
}

/// Takes only the scheme, the port and the path from an announced URL. The host is left out on
/// purpose: the address that the packet came from is used in its place.
pub fn parse_advertised_endpoint(value: &str, with_rtsp: bool) -> (r: Option<(String, u16, String)>)
    ensures
        endpoint_view(r) == endpoint_of(value@, with_rtsp),
{
    if text::utf8_size(value) > MAX_ADVERTISED_URL_SIZE || text::has_control(value) {
        return None;
    }
    let url = text::trimmed(value);
    let v = text::chars_of(url.as_str());
    let n: usize = v.len();
    let mark = text::chars_of("://");
    proof {
        reveal_strlit("://");
    }
    let at: usize = match search::find_text(v.as_slice(), mark.as_slice(), 0) {
        Some(at) => at,
        None => {
            return None;
        },
    };
    let raw_scheme = text::string_between(v.as_slice(), 0, at);
    assert(raw_scheme@ =~= url@.take(at as int));
    let scheme = text::lowered(raw_scheme.as_str());
    if !(text::same(scheme.as_str(), "http") || text::same(scheme.as_str(), "https") || (with_rtsp
        && text::same(scheme.as_str(), "rtsp"))) {
        return None;
    }
    let rest = text::string_between(v.as_slice(), at + 3, n);
    assert(rest@ =~= url@.skip(at + 3));
    let w = text::chars_of(rest.as_str());
    let m: usize = w.len();
    let ends = |c: char| -> (b: bool)
        ensures
            b == ends_authority(c),
        { c == '/' || c == '?' || c == '#' };
    let end: usize = search::find_where(
        w.as_slice(),
        ends,
        0,
        Ghost(|c: char| ends_authority(c)),
    );
    let authority = text::string_between(w.as_slice(), 0, end);
    assert(authority@ =~= rest@.take(end as int));
    let tail = text::string_between(w.as_slice(), end, m);
    assert(tail@ =~= rest@.skip(end as int));
    let solid = |c: char| -> (b: bool)
        ensures
            b == !text::is_space(c),
        { !text::space_char(c) };
    if authority.as_str().is_empty() || crate::names::contains_char(authority.as_str(), '@')
        || !text::all_chars(authority.as_str(), solid, Ghost(|c: char| !text::is_space(c))) {
        return None;
    }
    let port: u16 = match read_explicit_port(authority.as_str()) {
        None => {
            return None;
        },
        Some(Some(n)) => n,
        Some(None) => {
            if text::same(scheme.as_str(), "https") {
                443
            } else if text::same(scheme.as_str(), "rtsp") {
                554
            } else {
                80
            }
        },
    };
    if port == 0 {
        return None;
    }
    let t = text::chars_of(tail.as_str());
    let path = if t.len() > 0 && t[0] == '/' {
        let stops = |c: char| -> (b: bool)
            ensures
                b == ends_path(c),
            { c == '?' || c == '#' };
        let stop: usize = search::find_where(
            t.as_slice(),
            stops,
            0,
            Ghost(|c: char| ends_path(c)),
        );
        let raw = text::string_between(t.as_slice(), 0, stop);
        assert(raw@ =~= tail@.take(stop as int));
        advertisement::safe_path(raw.as_str())
    } else {
        "/".to_owned()
    };
    Some((scheme, port, path))
}

/// An announced endpoint never has port zero, and its path is absolute, printable and short.
pub proof fn law_endpoints_are_clean(value: Seq<char>, with_rtsp: bool)
    requires
        endpoint_of(value, with_rtsp) is Some,
    ensures
        ({
            let (scheme, port, path) = endpoint_of(value, with_rtsp)->Some_0;
            &&& scheme_allowed(scheme, with_rtsp)
            &&& port != 0
            &&& path.len() > 0 && path[0] == '/'
            &&& path.len() <= 256
            &&& !text::any_control(path)
        }),
{
    reveal_strlit("/");
    let (scheme, port, path) = endpoint_of(value, with_rtsp)->Some_0;
    if path != "/"@ {
        let url = text::trim(value);
        let at = search::text_index(url, "://"@, 0)->Some_0;
        let rest = url.skip(at + 3);
        let end = search::index_where(rest, |c: char| ends_authority(c), 0);
        let tail = rest.skip(end);
        let raw = tail.take(search::index_where(tail, |c: char| ends_path(c), 0));
        assert(path == advertisement::clean_path(raw));
        assert(!text::any_control(raw));
        assert forall|i: int| 0 <= i < path.len() implies !text::is_control(#[trigger] path[i]) by {
            assert(path[i] == raw[i]);
        }
    }
}


pub open spec fn header_char(c: char) -> bool {
    text::is_alphanumeric(c) || c == '-'
}

/// A character that may not stand in a header line.
pub open spec fn breaks_line(c: char) -> bool {
    text::is_control(c) && c != '\t'
}

/// The headers of a response with one more line: the first of a name counts.
pub open spec fn with_header(m: Map<Seq<char>, Seq<char>>, line: Seq<char>) -> Option<
    Map<Seq<char>, Seq<char>>,
> {
    match text::cut(line, ':') {
        None => None,
        Some((raw_name, raw_value)) => {
            let name = text::trim(raw_name);
            if text::byte_len(line) > MAX_HEADER_LINE_SIZE || !text::all_are(
                line,
                |c: char| !breaks_line(c),
            ) || name.len() == 0 || !text::all_are(name, |c: char| header_char(c)) {
                None
            } else if m.contains_key(text::lowercase(name)) {
                Some(m)
            } else {
                Some(m.insert(text::lowercase(name), text::trim(raw_value)))
            }
        },
    }
}

fn add_header(m: &mut Table<String>, line: &str) -> (r: Result<(), PacketParseError>)
    ensures
        match with_header(old(m)@, line@) {
            Some(after) => r is Ok && final(m)@ == after,
            None => r is Err && final(m)@ == old(m)@,
        },
{
    let plain = |c: char| -> (b: bool)
        ensures
            b == !breaks_line(c),
        { !text::control_char(c) || c == '\t' };
    if text::utf8_size(line) > MAX_HEADER_LINE_SIZE || !text::all_chars(
        line,
        plain,
        Ghost(|c: char| !breaks_line(c)),
    ) {
        return Err(PacketParseError);
    }
    let (raw_name, raw_value) = match text::split_once(line, ':') {
        Some(pair) => pair,
        None => {
            return Err(PacketParseError);
        },
    };
    let name = text::trimmed(raw_name.as_str());
    let fits = |c: char| -> (b: bool)
        ensures
            b == header_char(c),
        { text::ascii_alphanumeric(c) || c == '-' };
    if name.as_str().is_empty() || !text::all_chars(
        name.as_str(),
        fits,
        Ghost(|c: char| header_char(c)),
    ) {
        return Err(PacketParseError);
    }
    let lower = text::lowered(name.as_str());
    if !m.contains(lower.as_str()) {
        let value = text::trimmed(raw_value.as_str());
        let _ = m.insert(lower, value);
    }
    Ok(())
}

/// The headers of the lines from `i` on, up to an empty one, after those read already.
pub open spec fn headers_from(lines: Seq<Seq<char>>, i: int, m: Map<Seq<char>, Seq<char>>) -> Option<
    Map<Seq<char>, Seq<char>>,
>
    decreases lines.len() - i,
{
    if i < 0 || i >= lines.len() {
        Some(m)
    } else if i > MAX_HTTP_HEADERS {
        None
    } else {
        let line = search::without_end(lines[i], '\r');
        if line.len() == 0 {
            Some(m)
        } else {
            match with_header(m, line) {
                Some(next) => headers_from(lines, i + 1, next),
                None => None,
            }
        }
    }
}

fn read_headers(lines: &Vec<String>) -> (r: Result<Table<String>, PacketParseError>)
    ensures
        advertisement::parsed_view(r) == headers_from(table::views(lines@), 1, Map::empty()),
{
    let ghost all = table::views(lines@);
    let mut m: Table<String> = Table::new();
    let mut i: usize = 1;
    while i < lines.len()
        invariant
            1 <= i,
            all == table::views(lines@),
            headers_from(all, 1, Map::empty()) == headers_from(all, i as int, m@),
        decreases lines@.len() - i,
    {
        assert(all[i as int] == lines@[i as int]@);
        if i > MAX_HTTP_HEADERS {
            return Err(PacketParseError);
        }
        let line = search::trim_end_char(lines[i].as_str(), '\r');
        if line.as_str().is_empty() {
            return Ok(m);
        }
        add_header(&mut m, line.as_str())?;
        i = i + 1;
    }
    Ok(m)
}

/// What the texts of a device say that it is.
pub struct SsdpClassification {
    pub category: DiscoveryCandidateCategory,
    pub suggested_device_kind: &'static str,
    pub integration_kind: &'static str,
    pub source_id: &'static str,
    pub source_label: &'static str,
    pub source_category: DiscoverySourceCategory,
}

/// The category that the texts of a device speak of.
pub open spec fn evident_category(evidence: Seq<char>) -> DiscoveryCandidateCategory {
    if text::contains_text(evidence, "camera"@) || text::contains_text(evidence, "onvif"@)
        || text::contains_text(evidence, "networkvideotransmitter"@) || text::contains_text(
        evidence,
        "videoencoder"@,
    ) {
        DiscoveryCandidateCategory::Camera
    } else if text::contains_text(evidence, "drone"@) || text::contains_text(evidence, "uav"@) {
        DiscoveryCandidateCategory::Drone
    } else if text::contains_text(evidence, "vehicle"@) {
        DiscoveryCandidateCategory::Vehicle
    } else {
        DiscoveryCandidateCategory::Gateway
    }
}

pub open spec fn category_kind(c: DiscoveryCandidateCategory) -> Seq<char> {
    match c {
        DiscoveryCandidateCategory::Camera => "camera"@,
        DiscoveryCandidateCategory::Drone => "drone"@,
        DiscoveryCandidateCategory::Vehicle => "vehicle"@,
        DiscoveryCandidateCategory::Robot => "robot"@,
        DiscoveryCandidateCategory::Gateway => "gateway"@,
    }
}

impl SsdpClassification {
    pub open spec fn fits(self, evidence: Seq<char>) -> bool {
        let camera = evident_category(evidence) == DiscoveryCandidateCategory::Camera;
        &&& self.category == evident_category(evidence)
        &&& self.suggested_device_kind@ == category_kind(self.category)
        &&& self.integration_kind@ == if camera {
            "rtsp"@
        } else {
            "rerun"@
        }
        &&& self.source_id@ == if camera {
            "camera"@
        } else {
            "state"@
        }
        &&& self.source_label@ == if camera {
            "카메라 영상"@
        } else {
            "장비 상태"@
        }
        &&& self.source_category == if camera {
            DiscoverySourceCategory::Camera
        } else {
            DiscoverySourceCategory::State
        }
    }
}

/// Tells from the texts of a device what it is.
pub fn classify_ssdp(evidence: &str) -> (r: SsdpClassification)
    ensures
        r.fits(evidence@),
{
    if text::contains(evidence, "camera") || text::contains(evidence, "onvif") || text::contains(
        evidence,
        "networkvideotransmitter",
    ) || text::contains(evidence, "videoencoder") {
        return SsdpClassification {
            category: DiscoveryCandidateCategory::Camera,
            suggested_device_kind: "camera",
            integration_kind: "rtsp",
            source_id: "camera",
            source_label: "카메라 영상",
            source_category: DiscoverySourceCategory::Camera,
        };
    }
    let (category, kind) = if text::contains(evidence, "drone") || text::contains(
        evidence,
        "uav",
    ) {
        (DiscoveryCandidateCategory::Drone, "drone")
    } else if text::contains(evidence, "vehicle") {
        (DiscoveryCandidateCategory::Vehicle, "vehicle")
    } else {
        (DiscoveryCandidateCategory::Gateway, "gateway")
    };
    SsdpClassification {
        category,
        suggested_device_kind: kind,
        integration_kind: "rerun",
        source_id: "state",
        source_label: "장비 상태",
        source_category: DiscoverySourceCategory::State,
    }
}

/// The lifetime that a directive gives, if it gives one.
pub open spec fn directive_age(directive: Seq<char>) -> Option<u64> {
    match text::cut(text::trim(directive), '=') {
        None => None,
        Some((name, value)) => if text::lowercase(text::trim(name)) == text::lowercase(
            "max-age"@,
        ) {
            let quoted = text::trim(value);
            match text::number_read(
                search::without_end(search::without_start(quoted, '"'), '"'),
                u64::MAX as nat,
            ) {
                Some(n) => Some(n as u64),
                None => None,
            }
        } else {
            None
        },
    }
}

fn read_age(directive: &str) -> (r: Option<u64>)
    ensures
        r == directive_age(directive@),
{
    let trimmed = text::trimmed(directive);
    match text::split_once(trimmed.as_str(), '=') {
        None => None,
        Some((name, value)) => {
            let plain = text::trimmed(name.as_str());
            if !text::same_ignoring_case(plain.as_str(), "max-age") {
                return None;
            }
            let quoted = text::trimmed(value.as_str());
            let front = search::trim_start_char(quoted.as_str(), '"');
            let digits = search::trim_end_char(front.as_str(), '"');
            text::parse_number(digits.as_str(), u64::MAX)
        },
    }
}

/// The first lifetime that the directives from `i` on give.
pub open spec fn first_age(directives: Seq<Seq<char>>, i: int) -> Option<u64>
    decreases directives.len() - i,
{
    if i < 0 || i >= directives.len() {
        None
    } else {
        match directive_age(directives[i]) {
            Some(n) => Some(n),
            None => first_age(directives, i + 1),
        }
    }
}

/// Reads the lifetime of a cache-control header.
pub fn parse_max_age(value: &str) -> (r: Option<u64>)
    ensures
        r == first_age(text::parts(value@, ','), 0),
{
    let directives = text::split_all(value, ',');
    let ghost all = table::views(directives@);
    let mut i: usize = 0;
    while i < directives.len()
        invariant
            i <= directives@.len(),
            all == table::views(directives@),
            all == text::parts(value@, ','),
            first_age(all, 0) == first_age(all, i as int),
        decreases directives@.len() - i,
    {
        assert(all[i as int] == directives@[i as int]@);
        match read_age(directives[i].as_str()) {
            Some(n) => {
                return Some(n);
            },
            None => {},
        }
        i = i + 1;
    }
    None
}

/// The part of a service name that identifies the device.
pub open spec fn device_part(usn: Seq<char>) -> Seq<char> {
    match search::text_index(usn, "::"@, 0) {
        Some(at) => text::trim(usn.take(at)),
        None => text::trim(usn),
    }
}

fn take_device_part(usn: &str) -> (r: String)
    ensures
        r@ == device_part(usn@),
{
    let v = text::chars_of(usn);
    let mark = text::chars_of("::");
    match search::find_text(v.as_slice(), mark.as_slice(), 0) {
        Some(at) => {
            let head = text::string_between(v.as_slice(), 0, at);
            assert(head@ =~= usn@.take(at as int));
            text::trimmed(head.as_str())
        },
        None => text::trimmed(usn),
    }
}

/// Whether a header value is present and short enough to use.
pub open spec fn usable(value: Seq<char>) -> bool {
    value.len() > 0 && text::byte_len(value) <= MAX_ADVERTISED_VALUE_SIZE
}

/// What the headers of a response announce.
pub open spec fn offered(m: Map<Seq<char>, Seq<char>>) -> Option<ParsedAdvertisementView> {
    let usn = m["usn"@];
    let target = if m.contains_key("st"@) {
        m["st"@]
    } else {
        m["nt"@]
    };
    let server = if m.contains_key("server"@) {
        m["server"@]
    } else {
        "UPnP device"@
    };
    let evidence = text::lowercase(usn + " "@ + target + " "@ + server);
    let category = evident_category(evidence);
    let camera = category == DiscoveryCandidateCategory::Camera;
    let endpoint = endpoint_of(m["location"@], true);
    let age = first_age(text::parts(m["cache-control"@], ','), 0);
    if !m.contains_key("usn"@) || !usable(usn) || !(m.contains_key("st"@) || m.contains_key("nt"@))
        || !usable(target) || !m.contains_key("location"@) || endpoint is None {
        None
    } else {
        Some(
            ParsedAdvertisementView {
                fingerprint_namespace: "ssdp"@,
                identity: device_part(usn),
                display_name: if text::trim(server).len() == 0 {
                    target
                } else {
                    server
                },
                category,
                suggested_device_kind: category_kind(category),
                integration_kind: if camera {
                    "rtsp"@
                } else {
                    "rerun"@
                },
                endpoint_label: "SSDP device endpoint"@,
                source_id: if camera {
                    "camera"@
                } else {
                    "state"@
                },
                source_label: if camera {
                    "카메라 영상"@
                } else {
                    "장비 상태"@
                },
                source_category: if camera {
                    DiscoverySourceCategory::Camera
                } else {
                    DiscoverySourceCategory::State
                },
                protocol: "ssdp"@,
                endpoint_scheme: endpoint->Some_0.0,
                endpoint_port: endpoint->Some_0.1,
                endpoint_path: endpoint->Some_0.2,
                ttl_seconds: if m.contains_key("cache-control"@) && age is Some {
                    age->Some_0
                } else {
                    30
                },
                additional_sources: Seq::empty(),
                edge_identity: None,
            },
        )
    }
}

fn offer(m: &Table<String>) -> (r: Option<ParsedAdvertisement>)
    ensures
        table::view_option(r) == offered(m@),
{
    let usn = match m.get("usn") {
        Some(s) => s,
        None => {
            return None;
        },
    };
    if usn.as_str().is_empty() || text::utf8_size(usn.as_str()) > MAX_ADVERTISED_VALUE_SIZE {
        return None;
    }
    let target = match m.get("st") {
        Some(s) => s,
        None => match m.get("nt") {
            Some(s) => s,
            None => {
                return None;
            },
        },
    };
    if target.as_str().is_empty() || text::utf8_size(target.as_str()) > MAX_ADVERTISED_VALUE_SIZE {
        return None;
    }
    let server = match m.get("server") {
        Some(s) => s.as_str(),
        None => "UPnP device",
    };
    let whole = text::line(usn.as_str()).add(" ").add(target.as_str()).add(" ").add(server).done();
    let evidence = text::lowered(whole.as_str());
    let kind = classify_ssdp(evidence.as_str());
    let endpoint = match m.get("location") {
        Some(location) => parse_advertised_endpoint(location.as_str(), true),
        None => None,
    };
    let (endpoint_scheme, endpoint_port, endpoint_path) = match endpoint {
        Some(e) => e,
        None => {
            return None;
        },
    };
    let age = match m.get("cache-control") {
        Some(value) => parse_max_age(value.as_str()),
        None => None,
    };
    let ttl_seconds: u64 = match age {
        Some(n) => n,
        None => 30,
    };
    let display_name = if text::is_blank(server) {
        target.clone()
    } else {
        server.to_owned()
    };
    let identity = take_device_part(usn.as_str());
    let r = ParsedAdvertisement {
        fingerprint_namespace: "ssdp",
        identity,
        display_name,
        category: kind.category,
        suggested_device_kind: kind.suggested_device_kind,
        integration_kind: kind.integration_kind,
        endpoint_label: "SSDP device endpoint".to_owned(),
        source_id: kind.source_id,
        source_label: kind.source_label.to_owned(),
        source_category: kind.source_category,
        protocol: "ssdp",
        endpoint_scheme,
        endpoint_port,
        endpoint_path,
        ttl_seconds,
        additional_sources: Vec::new(),
        edge_identity: None,
    };
    assert(r@.additional_sources =~= Seq::empty());
    Some(r)
}

/// Whether a text has the empty line that ends the headers, and no zero byte.
pub open spec fn is_message(s: Seq<char>) -> bool {
    !s.contains('\0') && (text::contains_text(s, "\r\n\r\n"@) || text::contains_text(s, "\n\n"@))
}

/// Whether the first line of a message says that the search succeeded.
pub open spec fn is_success(line: Seq<char>) -> bool {
    text::byte_len(line) <= MAX_HEADER_LINE_SIZE && text::starts_with(
        text::lowercase(line),
        text::lowercase("HTTP/1.1 200"@),
    )
}

/// What a response announces.
pub open spec fn response_announcements(packet: Seq<u8>) -> Option<Seq<ParsedAdvertisementView>> {
    if packet.len() > advertisement::MAX_PACKET_SIZE || !valid_utf8(packet) || !is_message(
        decode_utf8(packet),
    ) {
        None
    } else {
        let lines = text::lines(decode_utf8(packet));
        if lines.len() == 0 {
            None
        } else if !is_success(search::without_end(lines[0], '\r')) {
            Some(Seq::empty())
        } else {
            match headers_from(lines, 1, Map::empty()) {
                None => None,
                Some(m) => match offered(m) {
                    Some(a) => Some(seq![a]),
                    None => None,
                },
            }
        }
    }
}

/// Reads the answer of a device to a search.
pub fn parse_ssdp_packet(packet: &[u8]) -> (r: Result<Vec<ParsedAdvertisement>, PacketParseError>)
    ensures
        advertisement::parsed_views(r) == response_announcements(packet@),
{
    advertisement::ensure_packet_size(packet)?;
    let whole = match text::utf8_text(packet) {
        Ok(s) => s,
        Err(_) => {
            return Err(PacketParseError);
        },
    };
    if crate::names::contains_char(whole.as_str(), '\0') || !(text::contains(
        whole.as_str(),
        "\r\n\r\n",
    ) || text::contains(whole.as_str(), "\n\n")) {
        return Err(PacketParseError);
    }
    let lines = text::split_lines(whole.as_str());
    let ghost all = table::views(lines@);
    if lines.len() == 0 {
        return Err(PacketParseError);
    }
    assert(all[0] == lines@[0]@);
    let status = search::trim_end_char(lines[0].as_str(), '\r');
    let lower = text::lowered(status.as_str());
    let expected = text::lowered("HTTP/1.1 200");
    let mut r: Vec<ParsedAdvertisement> = Vec::new();
    if text::utf8_size(status.as_str()) > MAX_HEADER_LINE_SIZE || !text::has_prefix(
        lower.as_str(),
        expected.as_str(),
    ) {
        assert(table::views(r@) =~= Seq::<ParsedAdvertisementView>::empty());
        return Ok(r);
    }
    let m = read_headers(&lines)?;
    match offer(&m) {
        Some(a) => {
            let ghost one = a@;
            r.push(a);
            assert(table::views(r@) =~= seq![one]);
            Ok(r)
        },
        None => Err(PacketParseError),
    }
}

/// A port after the host is the port; a host alone, in brackets or not, names none.
pub proof fn law_named_ports_are_read(host: Seq<char>, port: Seq<char>)
    requires
        host.len() > 0,
        host[0] != '[',
        !host.contains(':'),
        !port.contains(':'),
    ensures
        explicit_port(host) == Some(None::<u16>),
        explicit_port(host + seq![':'] + port) == match text::number_read(port, 65_535) {
            Some(n) => Some(Some(n as u16)),
            None => None,
        },
{
    lemma_no_such_char(host, ':', host.len() as int);
    let all = host + seq![':'] + port;
    lemma_last_char(all, ':', host.len() as int, all.len() as int);
    assert(all.take(host.len() as int) =~= host);
    assert(all.skip(host.len() as int + 1) =~= port);
    assert(all[0] == host[0]);
}

proof fn lemma_no_such_char(s: Seq<char>, c: char, before: int)
    requires
        !s.contains(c),
    ensures
        search::last_index(s, c, before) == -1,
    decreases before,
{
    if 0 < before <= s.len() {
        assert(s.contains(s[before - 1]));
        lemma_no_such_char(s, c, before - 1);
    }
}

proof fn lemma_last_char(s: Seq<char>, c: char, at: int, before: int)
    requires
        0 <= at < before <= s.len(),
        s[at] == c,
        forall|i: int| at < i < s.len() ==> #[trigger] s[i] != c,
    ensures
        search::last_index(s, c, before) == at,
    decreases before,
{
    if before - 1 > at {
        lemma_last_char(s, c, at, before - 1);
    }
}

proof fn lemma_first_text(s: Seq<char>, needle: Seq<char>, from: int, at: int)
    requires
        0 <= from <= at,
        at + needle.len() <= s.len(),
        needle.len() > 0,
        text::occurs_at(s, needle, at),
        forall|i: int| 0 <= i < at ==> #[trigger] s[i] != needle[0],
    ensures
        search::text_index(s, needle, from) == Some(at),
    decreases at - from,
{
    if from < at {
        if text::occurs_at(s, needle, from) {
            assert(s.subrange(from, from + needle.len())[0] == s[from]);
        }
        lemma_first_text(s, needle, from + 1, at);
    }
}

proof fn lemma_first_where(s: Seq<char>, p: spec_fn(char) -> bool, from: int, at: int)
    requires
        0 <= from <= at <= s.len(),
        forall|i: int| 0 <= i < at ==> !p(#[trigger] s[i]),
        at < s.len() ==> p(s[at]),
    ensures
        search::index_where(s, p, from) == at,
    decreases at - from,
{
    if from < at {
        lemma_first_where(s, p, from + 1, at);
    }
}

proof fn lemma_schemes_are_small(scheme: Seq<char>)
    requires
        scheme == "http"@ || scheme == "https"@ || scheme == "rtsp"@,
    ensures
        text::lowercase(scheme) == scheme,
        !scheme.contains(':'),
{
    reveal_strlit("http");
    reveal_strlit("https");
    reveal_strlit("rtsp");
    assert(text::lowercase(scheme) =~= scheme);
}

/// An announced address is read as it is written: its scheme, its port or else that of the scheme,
/// and its path, cut off after 256 characters, or the root.
pub proof fn law_addresses_are_read_as_written(
    scheme: Seq<char>,
    host: Seq<char>,
    path: Seq<char>,
    with_rtsp: bool,
)
    requires
        scheme == "http"@ || scheme == "https"@ || (with_rtsp && scheme == "rtsp"@),
        host.len() > 0,
        forall|i: int|
            0 <= i < host.len() ==> #[trigger] host[i] != '/' && host[i] != '?' && host[i] != '#'
                && host[i] != '@' && !text::is_space(host[i]),
        path.len() > 0 ==> path[0] == '/',
        forall|i: int| 0 <= i < path.len() ==> #[trigger] path[i] != '?' && path[i] != '#',
        text::byte_len(scheme + "://"@ + host + path) <= 2_048,
        !text::any_control(scheme + "://"@ + host + path),
        text::trim(scheme + "://"@ + host + path) == scheme + "://"@ + host + path,
    ensures
        endpoint_of(scheme + "://"@ + host + path, with_rtsp) is Some <==> explicit_port(host)
            is Some && explicit_port(host)->Some_0 != Some(0u16),
        endpoint_of(scheme + "://"@ + host + path, with_rtsp) matches Some((s, port, p)) ==> {
            &&& s == scheme
            &&& match explicit_port(host)->Some_0 {
                Some(n) => port == n,
                None => {
                    &&& scheme == "http"@ ==> port == 80
                    &&& scheme == "https"@ ==> port == 443
                    &&& scheme == "rtsp"@ ==> port == 554
                },
            }
            &&& p == if path.len() == 0 {
                "/"@
            } else if path.len() > 256 {
                path.take(256)
            } else {
                path
            }
        },
{
    reveal_strlit("://");
    reveal_strlit("http");
    reveal_strlit("https");
    reveal_strlit("rtsp");
    assert("http"@.len() == 4 && "http"@[0] == 'h');
    assert("https"@.len() == 5);
    assert("rtsp"@.len() == 4 && "rtsp"@[0] == 'r');
    let url = scheme + "://"@ + host + path;
    let at = scheme.len() as int;
    lemma_schemes_are_small(scheme);
    assert(url.subrange(at, at + 3) =~= "://"@);
    assert forall|i: int| 0 <= i < at implies #[trigger] url[i] != "://"@[0] by {
        assert(scheme.contains(scheme[i]));
    }
    lemma_first_text(url, "://"@, 0, at);
    assert(url.take(at) =~= scheme);
    let rest = url.skip(at + 3);
    assert(rest =~= host + path);
    let ends = |c: char| ends_authority(c);
    lemma_first_where(rest, ends, 0, host.len() as int);
    assert(rest.take(host.len() as int) =~= host);
    let tail = rest.skip(host.len() as int);
    assert(tail =~= path);
    let stops = |c: char| ends_path(c);
    lemma_first_where(path, stops, 0, path.len() as int);
    assert(path.take(path.len() as int) =~= path);
    assert(!text::any_control(path)) by {
        if text::any_control(path) {
            let i = choose|i: int| 0 <= i < path.len() && text::is_control(#[trigger] path[i]);
            assert(url[at + 3 + host.len() + i] == path[i]);
        }
    }
    assert(!host.contains('@'));
}

/// A device is announced exactly if its answer gives a service name and a target that are neither
/// empty nor too long, and a location that can be read. It is announced at that location, under the
/// part of the service name that names the device, for as long as the answer says.
pub proof fn law_answers_offer_their_device(m: Map<Seq<char>, Seq<char>>)
    ensures
        offered(m) is Some <==> {
            let target = if m.contains_key("st"@) {
                m["st"@]
            } else {
                m["nt"@]
            };
            &&& m.contains_key("usn"@) && m["usn"@].len() > 0 && text::byte_len(m["usn"@]) <= 512
            &&& m.contains_key("st"@) || m.contains_key("nt"@)
            &&& target.len() > 0 && text::byte_len(target) <= 512
            &&& m.contains_key("location"@) && endpoint_of(m["location"@], true) is Some
        },
        offered(m) matches Some(a) ==> {
            &&& endpoint_of(m["location"@], true) == Some(
                (a.endpoint_scheme, a.endpoint_port, a.endpoint_path),
            )
            &&& a.identity == device_part(m["usn"@])
            &&& m.contains_key("server"@) && text::trim(m["server"@]).len() > 0 ==> a.display_name
                == m["server"@]
            &&& !m.contains_key("cache-control"@) ==> a.ttl_seconds == 30
            &&& a.protocol == "ssdp"@ && a.edge_identity is None && a.additional_sources.len() == 0
            &&& a.category == DiscoveryCandidateCategory::Camera <==> a.source_category
                == DiscoverySourceCategory::Camera
            &&& a.category == DiscoveryCandidateCategory::Camera <==> a.integration_kind == "rtsp"@
            &&& a.category == DiscoveryCandidateCategory::Camera <==> a.suggested_device_kind
                == "camera"@
            &&& a.category == DiscoveryCandidateCategory::Drone <==> a.suggested_device_kind
                == "drone"@
            &&& a.category == DiscoveryCandidateCategory::Vehicle <==> a.suggested_device_kind
                == "vehicle"@
            &&& a.category == DiscoveryCandidateCategory::Gateway <==> a.suggested_device_kind
                == "gateway"@
        },
{
    reveal_strlit("camera");
    reveal_strlit("drone");
    reveal_strlit("vehicle");
    reveal_strlit("robot");
    reveal_strlit("gateway");
    reveal_strlit("rtsp");
    reveal_strlit("rerun");
    assert("camera"@.len() == 6);
    assert("drone"@.len() == 5 && "drone"@[0] == 'd');
    assert("robot"@.len() == 5 && "robot"@[0] == 'r');
    assert("vehicle"@.len() == 7 && "vehicle"@[0] == 'v');
    assert("gateway"@.len() == 7 && "gateway"@[0] == 'g');
    assert("rtsp"@.len() == 4 && "rerun"@.len() == 5);
}

/// What a device is called tells its category: a camera, otherwise a drone, otherwise a vehicle,
/// otherwise a gateway.
pub proof fn law_evidence_tells_the_category(evidence: Seq<char>)
    ensures
        evident_category(evidence) == DiscoveryCandidateCategory::Camera <==> text::contains_text(
            evidence,
            "camera"@,
        ) || text::contains_text(evidence, "onvif"@) || text::contains_text(
            evidence,
            "networkvideotransmitter"@,
        ) || text::contains_text(evidence, "videoencoder"@),
        evident_category(evidence) == DiscoveryCandidateCategory::Drone ==> text::contains_text(
            evidence,
            "drone"@,
        ) || text::contains_text(evidence, "uav"@),
        evident_category(evidence) == DiscoveryCandidateCategory::Vehicle ==> text::contains_text(
            evidence,
            "vehicle"@,
        ) && !text::contains_text(evidence, "drone"@),
        evident_category(evidence) == DiscoveryCandidateCategory::Gateway <==> !(
        text::contains_text(evidence, "camera"@) || text::contains_text(evidence, "onvif"@)
            || text::contains_text(evidence, "networkvideotransmitter"@) || text::contains_text(
            evidence,
            "videoencoder"@,
        ) || text::contains_text(evidence, "drone"@) || text::contains_text(evidence, "uav"@)
            || text::contains_text(evidence, "vehicle"@)),
{
}

/// Whether a line is a header with a name and a value.
pub open spec fn states(line: Seq<char>, name: Seq<char>, value: Seq<char>) -> bool {
    exists|n: Seq<char>, v: Seq<char>|
        #![trigger text::trim(n), text::trim(v)]
        search::without_end(line, '\r') == n + seq![':'] + v && !n.contains(':')
            && text::lowercase(text::trim(n)) == name && text::trim(v) == value
}

proof fn lemma_cut(s: Seq<char>, c: char)
    ensures
        text::cut(s, c) matches Some((a, b)) ==> s == a + seq![c] + b && !a.contains(c),
{
    s.index_of_first_ensures(c);
    match text::cut(s, c) {
        Some((a, b)) => {
            assert(s =~= a + seq![c] + b);
            if a.contains(c) {
                let j = choose|j: int| 0 <= j < a.len() && a[j] == c;
                assert(s[j] == c);
            }
        },
        None => {},
    }
}

proof fn lemma_stated(
    lines: Seq<Seq<char>>,
    i: int,
    m: Map<Seq<char>, Seq<char>>,
    name: Seq<char>,
)
    requires
        0 <= i,
    ensures
        headers_from(lines, i, m) matches Some(all) ==> {
            &&& m.contains_key(name) ==> all.contains_pair(name, m[name])
            &&& all.contains_key(name) && !m.contains_key(name) ==> exists|k: int|
                i <= k < lines.len() && states(#[trigger] lines[k], name, all[name])
        },
    decreases lines.len() - i,
{
    if i < lines.len() && i <= MAX_HTTP_HEADERS {
        let line = search::without_end(lines[i], '\r');
        if line.len() > 0 && with_header(m, line) is Some {
            let next = with_header(m, line)->Some_0;
            lemma_stated(lines, i + 1, next, name);
            lemma_cut(line, ':');
            if headers_from(lines, i, m) is Some && !m.contains_key(name) && next.contains_key(
                name,
            ) {
                let (n, v) = text::cut(line, ':')->Some_0;
                assert(text::lowercase(text::trim(n)) == name && text::trim(v) == next[name]);
                assert(states(lines[i], name, next[name]));
            }
        }
    }
}

/// Every header of an answer is stated by one of its lines, with its name, whatever the case, and
/// its value.
pub proof fn law_headers_are_stated(lines: Seq<Seq<char>>, name: Seq<char>)
    ensures
        headers_from(lines, 1, Map::empty()) matches Some(all) ==> (all.contains_key(name)
            ==> exists|k: int|
            1 <= k < lines.len() && states(#[trigger] lines[k], name, all[name])),
{
    lemma_stated(lines, 1, Map::empty(), name);
}

} // verus!
