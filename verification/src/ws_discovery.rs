//! WS-Discovery: the probe for ONVIF cameras and the answers to it.

use crate::advertisement;
use crate::advertisement::{PacketParseError, ParsedAdvertisement, ParsedAdvertisementView};
use crate::crypto;
use crate::domain::{DiscoveryCandidateCategory, DiscoverySourceCategory};
use crate::search;
use crate::ssdp;
use crate::table;
use crate::text;
use vstd::prelude::*;
use vstd::string::*;
use vstd::utf8::*;

verus! {

pub const MAX_XML_VALUES: usize = 16;
pub const MAX_XML_TAG_SIZE: usize = 512;
pub const MAX_XML_VALUE_SIZE: usize = 2_048;
pub const MAX_DECODED_NAME_SIZE: usize = 256;

/// The probe for network video transmitters with a message identifier.
pub open spec fn probe(message_id: Seq<char>) -> Seq<char> {
    "<?xml version=\"1.0\" encoding=\"UTF-8\"?><e:Envelope xmlns:e=\"http://www.w3.org/2003/05/soap-envelope\" xmlns:w=\"http://schemas.xmlsoap.org/ws/2004/08/addressing\" xmlns:d=\"http://schemas.xmlsoap.org/ws/2005/04/discovery\" xmlns:dn=\"http://www.onvif.org/ver10/network/wsdl\"><e:Header><w:MessageID>uuid:"@
        + message_id
        + "</w:MessageID><w:To>urn:schemas-xmlsoap-org:ws:2005:04:discovery</w:To><w:Action>http://schemas.xmlsoap.org/ws/2005/04/discovery/Probe</w:Action></e:Header><e:Body><d:Probe><d:Types>dn:NetworkVideoTransmitter</d:Types></d:Probe></e:Body></e:Envelope>"@
}

/// The probe with a message identifier.
pub fn probe_with(message_id: &str) -> (r: String)
    ensures
        r@ == probe(message_id@),
{
    text::line(
        "<?xml version=\"1.0\" encoding=\"UTF-8\"?><e:Envelope xmlns:e=\"http://www.w3.org/2003/05/soap-envelope\" xmlns:w=\"http://schemas.xmlsoap.org/ws/2004/08/addressing\" xmlns:d=\"http://schemas.xmlsoap.org/ws/2005/04/discovery\" xmlns:dn=\"http://www.onvif.org/ver10/network/wsdl\"><e:Header><w:MessageID>uuid:",
    ).add(message_id).add(
        "</w:MessageID><w:To>urn:schemas-xmlsoap-org:ws:2005:04:discovery</w:To><w:Action>http://schemas.xmlsoap.org/ws/2005/04/discovery/Probe</w:Action></e:Header><e:Body><d:Probe><d:Types>dn:NetworkVideoTransmitter</d:Types></d:Probe></e:Body></e:Envelope>",
    ).done()
}

/// The probe with a new message identifier.
pub fn ws_discovery_query() -> (r: String)
    ensures
        exists|id: Seq<char>| crypto::is_hyphenated(id) && r@ == #[trigger] probe(id),
{
    let id = crypto::random_uuid();
    probe_with(id.as_str())
}

/// A tag of an XML text: where it begins and ends, and what it holds.
pub ghost struct Tag {
    pub start: int,
    pub end: int,
    pub inner: Seq<char>,
}

/// The next tag from a position on: the outer option is none where a tag is not closed or too
/// long, the inner one where there is no tag any more.
pub open spec fn next_tag(s: Seq<char>, from: int) -> Option<Option<Tag>> {
    let start = search::char_index(s, '<', from);
    if start >= s.len() {
        Some(None)
    } else {
        let end = search::char_index(s, '>', start + 1);
        if end >= s.len() || text::byte_len(s.subrange(start, end)) > MAX_XML_TAG_SIZE {
            None
        } else {
            Some(Some(Tag { start, end, inner: text::trim(s.subrange(start + 1, end)) }))
        }
    }
}

pub proof fn lemma_next_tag(s: Seq<char>, from: int)
    requires
        0 <= from <= s.len(),
    ensures
        next_tag(s, from) matches Some(Some(t)) ==> from <= t.start < t.end < s.len(),
{
    search::lemma_index_where(s, search::is_char('<'), from);
    let start = search::char_index(s, '<', from);
    if start < s.len() {
        search::lemma_index_where(s, search::is_char('>'), start + 1);
    }
}

/// Whether a tag opens no element: a closing tag, a declaration or an instruction.
pub open spec fn opens_nothing(inner: Seq<char>) -> bool {
    inner.len() > 0 && (inner[0] == '/' || inner[0] == '!' || inner[0] == '?')
}

/// The name of a tag with its prefix.
pub open spec fn qualified_name(inner: Seq<char>) -> Seq<char> {
    let w = search::words(inner);
    if w.len() == 0 {
        ""@
    } else {
        search::without_end(w[0], '/')
    }
}

/// Whether a tag has a local name, whatever its prefix and case.
pub open spec fn has_local_name(inner: Seq<char>, name: Seq<char>) -> bool {
    text::lowercase(search::after_last(qualified_name(inner), ':')) == text::lowercase(name)
}

/// Whether some element from a position on has a name; none where the text is malformed.
pub open spec fn has_element(s: Seq<char>, name: Seq<char>, from: int) -> Option<bool>
    decreases s.len() - from,
{
    if from < 0 || from > s.len() {
        Some(false)
    } else {
        proof {
            lemma_next_tag(s, from);
        }
        match next_tag(s, from) {
            None => None,
            Some(None) => Some(false),
            Some(Some(t)) => if !opens_nothing(t.inner) && has_local_name(t.inner, name) {
                Some(true)
            } else {
                has_element(s, name, t.end + 1)
            },
        }
    }
}

/// The next tag as positions and text.
struct FoundTag {
    end: usize,
    inner: String,
}

fn find_tag(v: &Vec<char>, from: usize) -> (r: Result<Option<FoundTag>, PacketParseError>)
    requires
        from <= v@.len(),
    ensures
        match r {
            Err(_) => next_tag(v@, from as int) is None,
            Ok(None) => next_tag(v@, from as int) == Some(None::<Tag>),
            Ok(Some(f)) => next_tag(v@, from as int) matches Some(Some(t)) && t.end == f.end
                && t.inner == f.inner@ && from < f.end < v@.len(),
        },
{
    let n: usize = v.len();
    let start: usize = search::find_char_from(v.as_slice(), '<', from);
    if start >= n {
        return Ok(None);
    }
    let end: usize = search::find_char_from(v.as_slice(), '>', start + 1);
    if end >= n {
        return Err(PacketParseError);
    }
    let whole = text::string_between(v.as_slice(), start, end);
    assert(whole@ =~= v@.subrange(start as int, end as int));
    if text::utf8_size(whole.as_str()) > MAX_XML_TAG_SIZE {
        return Err(PacketParseError);
    }
    let raw = text::string_between(v.as_slice(), start + 1, end);
    assert(raw@ =~= v@.subrange(start + 1, end as int));
    let inner = text::trimmed(raw.as_str());
    Ok(Some(FoundTag { end, inner }))
}

fn tag_opens_nothing(inner: &str) -> (r: bool)
    ensures
        r == opens_nothing(inner@),
{
    let v = text::chars_of(inner);
    v.len() > 0 && (v[0] == '/' || v[0] == '!' || v[0] == '?')
}

fn read_qualified_name(inner: &str) -> (r: String)
    ensures
        r@ == qualified_name(inner@),
{
    let w = search::split_words(inner);
    let ghost all = table::views(w@);
    if w.len() == 0 {
        return "".to_owned();
    }
    assert(all[0] == w@[0]@);
    search::trim_end_char(w[0].as_str(), '/')
}

fn name_matches(qualified: &str, name: &str) -> (r: bool)
    ensures
        r == (text::lowercase(search::after_last(qualified@, ':')) == text::lowercase(name@)),
{
    let local = search::take_after_last(qualified, ':');
    text::same_ignoring_case(local.as_str(), name)
}

/// Whether some element of a text has a local name.
pub fn has_xml_local_tag(s: &str, name: &str) -> (r: Result<bool, PacketParseError>)
    ensures
        advertisement::parsed(r) == has_element(s@, name@, 0),
{
    let v = text::chars_of(s);
    let n: usize = v.len();
    let mut from: usize = 0;
    loop
        invariant
            from <= n,
            n == v@.len(),
            v@ == s@,
            has_element(s@, name@, 0) == has_element(s@, name@, from as int),
        decreases n - from,
    {
        match find_tag(&v, from) {
            Err(e) => {
                return Err(e);
            },
            Ok(None) => {
                return Ok(false);
            },
            Ok(Some(t)) => {
                if !tag_opens_nothing(t.inner.as_str()) {
                    let qualified = read_qualified_name(t.inner.as_str());
                    if name_matches(qualified.as_str(), name) {
                        return Ok(true);
                    }
                }
                from = t.end + 1;
            },
        }
    }
}

/// The values of the elements with a name from a position on, after those read already; none
/// where the text is malformed.
pub open spec fn element_values(
    s: Seq<char>,
    name: Seq<char>,
    from: int,
    values: Seq<Seq<char>>,
) -> Option<Seq<Seq<char>>>
    decreases s.len() - from,
{
    if from < 0 || from >= s.len() || values.len() >= MAX_XML_VALUES {
        Some(values)
    } else {
        proof {
            lemma_next_tag(s, from);
        }
        match next_tag(s, from) {
            None => None,
            Some(None) => Some(values),
            Some(Some(t)) => if opens_nothing(t.inner) || !has_local_name(t.inner, name) || (
            t.inner.len() > 0 && t.inner.last() == '/') {
                element_values(s, name, t.end + 1, values)
            } else {
                let closing = "</"@ + qualified_name(t.inner);
                proof {
                    search::lemma_text_index(s, closing, t.end + 1);
                }
                match search::text_index(s, closing, t.end + 1) {
                    None => None,
                    Some(at) => {
                        let after = search::char_index(s, '>', at + closing.len());
                        let value = text::trim(s.subrange(t.end + 1, at));
                        proof {
                            search::lemma_index_where(
                                s,
                                search::is_char('>'),
                                at + closing.len(),
                            );
                        }
                        if after >= s.len() || value.contains('<') || text::byte_len(value)
                            > MAX_XML_VALUE_SIZE {
                            None
                        } else {
                            element_values(s, name, after + 1, values.push(value))
                        }
                    },
                }
            },
        }
    }
}

/// Reads the values of the elements with a local name, up to a number of them.
pub fn extract_xml_values(s: &str, name: &str) -> (r: Result<Vec<String>, PacketParseError>)
    ensures
        advertisement::parsed_views(r) == element_values(s@, name@, 0, Seq::empty()),
{
    let v = text::chars_of(s);
    let n: usize = v.len();
    let mut values: Vec<String> = Vec::new();
    let mut from: usize = 0;
    proof {
        assert(table::views(values@) =~= Seq::<Seq<char>>::empty());
    }
    while from < n && values.len() < MAX_XML_VALUES
        invariant
            from <= n,
            n == v@.len(),
            v@ == s@,
            element_values(s@, name@, 0, Seq::empty()) == element_values(
                s@,
                name@,
                from as int,
                table::views(values@),
            ),
        decreases n - from,
    {
        let t = match find_tag(&v, from) {
            Err(e) => {
                return Err(e);
            },
            Ok(None) => {
                return Ok(values);
            },
            Ok(Some(t)) => t,
        };
        let qualified = read_qualified_name(t.inner.as_str());
        let inner = text::chars_of(t.inner.as_str());
        let closed = inner.len() > 0 && inner[inner.len() - 1] == '/';
        if tag_opens_nothing(t.inner.as_str()) || !name_matches(qualified.as_str(), name)
            || closed {
            from = t.end + 1;
        } else {
            let closing = text::line("</").add(qualified.as_str()).done();
            let c = text::chars_of(closing.as_str());
            let k: usize = c.len();
            proof {
                search::lemma_text_index(s@, closing@, t.end + 1);
            }
            let at: usize = match search::find_text(v.as_slice(), c.as_slice(), t.end + 1) {
                Some(at) => at,
                None => {
                    return Err(PacketParseError);
                },
            };
            let after: usize = search::find_char_from(v.as_slice(), '>', at + k);
            if after >= n {
                return Err(PacketParseError);
            }
            let raw = text::string_between(v.as_slice(), t.end + 1, at);
            assert(raw@ =~= s@.subrange(t.end + 1, at as int));
            let value = text::trimmed(raw.as_str());
            if crate::names::contains_char(value.as_str(), '<') || text::utf8_size(value.as_str())
                > MAX_XML_VALUE_SIZE {
                return Err(PacketParseError);
            }
            proof {
                table::lemma_views_push(values@, value);
            }
            values.push(value);
            from = after + 1;
        }
    }
    Ok(values)
}

pub open spec fn hex_digit(b: u8) -> Option<u8> {
    if 48 <= b <= 57 {
        Some((b - 48) as u8)
    } else if 97 <= b <= 102 {
        Some((b - 87) as u8)
    } else if 65 <= b <= 70 {
        Some((b - 55) as u8)
    } else {
        None
    }
}

pub fn hex_value(b: u8) -> (r: Option<u8>)
    ensures
        r == hex_digit(b),
{
    if 48 <= b && b <= 57 {
        Some(b - 48)
    } else if 97 <= b && b <= 102 {
        Some(b - 87)
    } else if 65 <= b && b <= 70 {
        Some(b - 55)
    } else {
        None
    }
}

/// Whether a percent sign with two digits stands at a position.
pub open spec fn is_escape(s: Seq<u8>, at: int) -> bool {
    at + 2 < s.len() && s[at] == 37 && hex_digit(s[at + 1]) is Some && hex_digit(s[at + 2]) is Some
}

/// The bytes from a position on with their escapes read, after those read already and up to a
/// number of them.
pub open spec fn unescaped(s: Seq<u8>, at: int, done: Seq<u8>) -> Seq<u8>
    decreases s.len() - at,
{
    if at < 0 || at >= s.len() || done.len() >= MAX_DECODED_NAME_SIZE {
        done
    } else if is_escape(s, at) {
        unescaped(
            s,
            at + 3,
            done.push((16 * hex_digit(s[at + 1])->Some_0 + hex_digit(s[at + 2])->Some_0) as u8),
        )
    } else {
        unescaped(s, at + 1, done.push(s[at]))
    }
}

/// Reads the escapes of a part of a URL.
pub fn percent_decode_component(value: &str) -> (r: String)
    ensures
        r@ == search::lossy_text(unescaped(encode_utf8(value@), 0, Seq::empty())),
{
    let s = value.as_bytes();
    let n: usize = s.len();
    let mut done: Vec<u8> = Vec::new();
    let mut at: usize = 0;
    while at < n && done.len() < MAX_DECODED_NAME_SIZE
        invariant
            at <= n,
            n == s@.len(),
            s@ == encode_utf8(value@),
            unescaped(s@, 0, Seq::empty()) == unescaped(s@, at as int, done@),
        decreases n - at,
    {
        let mut escape: Option<u8> = None;
        if s[at] == 37 && n - at > 2 {
            match (hex_value(s[at + 1]), hex_value(s[at + 2])) {
                (Some(high), Some(low)) => {
                    escape = Some(16 * high + low);
                },
                _ => {},
            }
        }
        match escape {
            Some(b) => {
                done.push(b);
                at = at + 3;
            },
            None => {
                done.push(s[at]);
                at = at + 1;
            },
        }
    }
    search::read_lossy(done.as_slice())
}

/// The name that a scope gives, if it gives one.
pub open spec fn scope_name(scope: Seq<char>) -> Option<Seq<char>> {
    match search::text_index(text::lowercase(scope), "onvif://www.onvif.org/name/"@, 0) {
        Some(at) => Some(
            search::lossy_text(
                unescaped(
                    encode_utf8(scope.skip(at + "onvif://www.onvif.org/name/"@.len())),
                    0,
                    Seq::empty(),
                ),
            ),
        ),
        None => None,
    }
}

fn read_scope_name(scope: &str) -> (r: Option<String>)
    ensures
        table::view_option(r) == scope_name(scope@),
{
    let lower = text::lowered(scope);
    let v = text::chars_of(lower.as_str());
    let w = text::chars_of(scope);
    let mark = text::chars_of("onvif://www.onvif.org/name/");
    let k: usize = mark.len();
    match search::find_text(v.as_slice(), mark.as_slice(), 0) {
        Some(at) => {
            let n: usize = w.len();
            let rest = text::string_between(w.as_slice(), at + k, n);
            assert(rest@ =~= scope@.skip(at + k));
            Some(percent_decode_component(rest.as_str()))
        },
        None => None,
    }
}

/// The first name that the scopes from `i` on give.
pub open spec fn first_scope_name(scopes: Seq<Seq<char>>, i: int) -> Option<Seq<char>>
    decreases scopes.len() - i,
{
    if i < 0 || i >= scopes.len() {
        None
    } else {
        match scope_name(scopes[i]) {
            Some(n) => Some(n),
            None => first_scope_name(scopes, i + 1),
        }
    }
}

/// Reads the first name that a list of scopes gives.
pub fn onvif_scope_name(scopes: &str) -> (r: Option<String>)
    ensures
        table::view_option(r) == first_scope_name(search::words(scopes@), 0),
{
    let list = search::split_words(scopes);
    let ghost all = table::views(list@);
    let mut i: usize = 0;
    while i < list.len()
        invariant
            i <= list@.len(),
            all == table::views(list@),
            all == search::words(scopes@),
            first_scope_name(all, 0) == first_scope_name(all, i as int),
        decreases list@.len() - i,
    {
        assert(all[i as int] == list@[i as int]@);
        match read_scope_name(list[i].as_str()) {
            Some(n) => {
                return Some(n);
            },
            None => {},
        }
        i = i + 1;
    }
    None
}

/// The name that the scope lists from `i` on give.
pub open spec fn device_name(scopes: Seq<Seq<char>>, i: int) -> Seq<char>
    decreases scopes.len() - i,
{
    if i < 0 || i >= scopes.len() {
        "ONVIF camera"@
    } else {
        match first_scope_name(search::words(scopes[i]), 0) {
            Some(n) => n,
            None => device_name(scopes, i + 1),
        }
    }
}

fn read_device_name(scopes: &Vec<String>) -> (r: String)
    ensures
        r@ == device_name(table::views(scopes@), 0),
{
    let ghost all = table::views(scopes@);
    let mut i: usize = 0;
    while i < scopes.len()
        invariant
            i <= scopes@.len(),
            all == table::views(scopes@),
            device_name(all, 0) == device_name(all, i as int),
        decreases scopes@.len() - i,
    {
        assert(all[i as int] == scopes@[i as int]@);
        match onvif_scope_name(scopes[i].as_str()) {
            Some(n) => {
                return n;
            },
            None => {},
        }
        i = i + 1;
    }
    "ONVIF camera".to_owned()
}

/// The first address from `i` on that is an endpoint.
pub open spec fn word_endpoint(addresses: Seq<Seq<char>>, i: int) -> Option<
    (Seq<char>, u16, Seq<char>),
>
    decreases addresses.len() - i,
{
    if i < 0 || i >= addresses.len() {
        None
    } else {
        match ssdp::endpoint_of(addresses[i], false) {
            Some(e) => Some(e),
            None => word_endpoint(addresses, i + 1),
        }
    }
}

fn find_word_endpoint(value: &str) -> (r: Option<(String, u16, String)>)
    ensures
        ssdp::endpoint_view(r) == word_endpoint(search::words(value@), 0),
{
    let list = search::split_words(value);
    let ghost all = table::views(list@);
    let mut i: usize = 0;
    while i < list.len()
        invariant
            i <= list@.len(),
            all == table::views(list@),
            all == search::words(value@),
            word_endpoint(all, 0) == word_endpoint(all, i as int),
        decreases list@.len() - i,
    {
        assert(all[i as int] == list@[i as int]@);
        match ssdp::parse_advertised_endpoint(list[i].as_str(), false) {
            Some(e) => {
                return Some(e);
            },
            None => {},
        }
        i = i + 1;
    }
    None
}

/// The first endpoint that the address lists from `i` on give.
pub open spec fn listed_endpoint(values: Seq<Seq<char>>, i: int) -> Option<
    (Seq<char>, u16, Seq<char>),
>
    decreases values.len() - i,
{
    if i < 0 || i >= values.len() {
        None
    } else {
        match word_endpoint(search::words(values[i]), 0) {
            Some(e) => Some(e),
            None => listed_endpoint(values, i + 1),
        }
    }
}

fn find_listed_endpoint(values: &Vec<String>) -> (r: Option<(String, u16, String)>)
    ensures
        ssdp::endpoint_view(r) == listed_endpoint(table::views(values@), 0),
{
    let ghost all = table::views(values@);
    let mut i: usize = 0;
    while i < values.len()
        invariant
            i <= values@.len(),
            all == table::views(values@),
            listed_endpoint(all, 0) == listed_endpoint(all, i as int),
        decreases values@.len() - i,
    {
        assert(all[i as int] == values@[i as int]@);
        match find_word_endpoint(values[i].as_str()) {
            Some(e) => {
                return Some(e);
            },
            None => {},
        }
        i = i + 1;
    }
    None
}

/// The first usable address from `i` on.
pub open spec fn identity_from(values: Seq<Seq<char>>, i: int) -> Option<Seq<char>>
    decreases values.len() - i,
{
    if i < 0 || i >= values.len() {
        None
    } else if text::trim(values[i]).len() > 0 && text::byte_len(values[i])
        <= ssdp::MAX_ADVERTISED_VALUE_SIZE {
        Some(text::trim(values[i]))
    } else {
        identity_from(values, i + 1)
    }
}

fn find_identity(values: &Vec<String>) -> (r: Option<String>)
    ensures
        table::view_option(r) == identity_from(table::views(values@), 0),
{
    let ghost all = table::views(values@);
    let mut i: usize = 0;
    while i < values.len()
        invariant
            i <= values@.len(),
            all == table::views(values@),
            identity_from(all, 0) == identity_from(all, i as int),
        decreases values@.len() - i,
    {
        assert(all[i as int] == values@[i as int]@);
        if !text::is_blank(values[i].as_str()) && text::utf8_size(values[i].as_str())
            <= ssdp::MAX_ADVERTISED_VALUE_SIZE {
            return Some(text::trimmed(values[i].as_str()));
        }
        i = i + 1;
    }
    None
}

/// The camera at an endpoint.
pub open spec fn camera_offer(
    identity: Seq<char>,
    display_name: Seq<char>,
    endpoint: (Seq<char>, u16, Seq<char>),
) -> ParsedAdvertisementView {
    ParsedAdvertisementView {
        fingerprint_namespace: "onvif"@,
        identity,
        display_name,
        category: DiscoveryCandidateCategory::Camera,
        suggested_device_kind: "camera"@,
        integration_kind: "rtsp"@,
        endpoint_label: "ONVIF device service"@,
        source_id: "camera"@,
        source_label: "카메라 영상"@,
        source_category: DiscoverySourceCategory::Camera,
        protocol: "onvif"@,
        endpoint_scheme: endpoint.0,
        endpoint_port: endpoint.1,
        endpoint_path: endpoint.2,
        ttl_seconds: 30,
        additional_sources: Seq::empty(),
        edge_identity: None,
    }
}

/// What the elements of an answer announce.
pub open spec fn match_announcements(s: Seq<char>) -> Option<Seq<ParsedAdvertisementView>> {
    let types = element_values(s, "Types"@, 0, Seq::empty());
    let scopes = element_values(s, "Scopes"@, 0, Seq::empty());
    let addresses = element_values(s, "XAddrs"@, 0, Seq::empty());
    if types is None || scopes is None || addresses is None {
        None
    } else {
        let evidence = text::lowercase(
            text::joined(types->Some_0 + scopes->Some_0 + addresses->Some_0, " "@),
        );
        if !text::contains_text(evidence, "onvif"@) && !text::contains_text(
            evidence,
            "networkvideotransmitter"@,
        ) {
            Some(Seq::empty())
        } else {
            match element_values(s, "Address"@, 0, Seq::empty()) {
                None => None,
                Some(identities) => match (
                    identity_from(identities, 0),
                    listed_endpoint(addresses->Some_0, 0),
                ) {
                    (Some(identity), Some(endpoint)) => Some(
                        seq![camera_offer(identity, device_name(scopes->Some_0, 0), endpoint)],
                    ),
                    _ => None,
                },
            }
        }
    }
}

/// What an answer to the probe announces. Declarations of document types and entities are refused.
pub open spec fn probe_announcements(packet: Seq<u8>) -> Option<Seq<ParsedAdvertisementView>> {
    if packet.len() > advertisement::MAX_PACKET_SIZE || !valid_utf8(packet) {
        None
    } else {
        let s = decode_utf8(packet);
        let lower = text::lowercase(s);
        if text::contains_text(lower, "<!doctype"@) || text::contains_text(lower, "<!entity"@) {
            None
        } else {
            match has_element(s, "ProbeMatches"@, 0) {
                None => None,
                Some(false) => Some(Seq::empty()),
                Some(true) => match_announcements(s),
            }
        }
    }
}

fn extend_texts(whole: &mut Vec<String>, part: &Vec<String>)
    ensures
        table::views(final(whole)@) == table::views(old(whole)@) + table::views(part@),
{
    let ghost start = table::views(whole@);
    let ghost all = table::views(part@);
    let mut i: usize = 0;
    proof {
        assert(start + all.take(0) =~= start);
    }
    while i < part.len()
        invariant
            i <= part@.len(),
            all == table::views(part@),
            table::views(whole@) == start + all.take(i as int),
        decreases part@.len() - i,
    {
        let one = part[i].clone();
        proof {
            assert(all[i as int] == one@);
            table::lemma_views_push(whole@, one);
            assert(start + all.take(i + 1) =~= (start + all.take(i as int)).push(one@));
        }
        whole.push(one);
        i = i + 1;
    }
    assert(all.take(all.len() as int) =~= all);
}

fn read_matches(s: &str) -> (r: Result<Vec<ParsedAdvertisement>, PacketParseError>)
    ensures
        advertisement::parsed_views(r) == match_announcements(s@),
{
    let types = extract_xml_values(s, "Types")?;
    let scopes = extract_xml_values(s, "Scopes")?;
    let addresses = extract_xml_values(s, "XAddrs")?;
    let mut all: Vec<String> = Vec::new();
    extend_texts(&mut all, &types);
    extend_texts(&mut all, &scopes);
    extend_texts(&mut all, &addresses);
    proof {
        assert(table::views(all@) =~= table::views(types@) + table::views(scopes@) + table::views(
            addresses@,
        ));
    }
    let joined = text::join(&all, " ");
    let evidence = text::lowered(joined.as_str());
    let mut r: Vec<ParsedAdvertisement> = Vec::new();
    if !text::contains(evidence.as_str(), "onvif") && !text::contains(
        evidence.as_str(),
        "networkvideotransmitter",
    ) {
        assert(table::views(r@) =~= Seq::<ParsedAdvertisementView>::empty());
        return Ok(r);
    }
    let identities = extract_xml_values(s, "Address")?;
    let identity = match find_identity(&identities) {
        Some(x) => x,
        None => {
            return Err(PacketParseError);
        },
    };
    let (endpoint_scheme, endpoint_port, endpoint_path) = match find_listed_endpoint(&addresses) {
        Some(e) => e,
        None => {
            return Err(PacketParseError);
        },
    };
    let display_name = read_device_name(&scopes);
    let one = ParsedAdvertisement {
        fingerprint_namespace: "onvif",
        identity,
        display_name,
        category: DiscoveryCandidateCategory::Camera,
        suggested_device_kind: "camera",
        integration_kind: "rtsp",
        endpoint_label: "ONVIF device service".to_owned(),
        source_id: "camera",
        source_label: "카메라 영상".to_owned(),
        source_category: DiscoverySourceCategory::Camera,
        protocol: "onvif",
        endpoint_scheme,
        endpoint_port,
        endpoint_path,
        ttl_seconds: 30,
        additional_sources: Vec::new(),
        edge_identity: None,
    };
    assert(one@.additional_sources =~= Seq::empty());
    let ghost given = one@;
    r.push(one);
    assert(table::views(r@) =~= seq![given]);
    Ok(r)
}

/// Reads an answer to the probe.
pub fn parse_ws_discovery_packet(packet: &[u8]) -> (r: Result<
    Vec<ParsedAdvertisement>,
    PacketParseError,
>)
    ensures
        advertisement::parsed_views(r) == probe_announcements(packet@),
{
    advertisement::ensure_packet_size(packet)?;
    let whole = match text::utf8_text(packet) {
        Ok(s) => s,
        Err(_) => {
            return Err(PacketParseError);
        },
    };
    let lower = text::lowered(whole.as_str());
    if text::contains(lower.as_str(), "<!doctype") || text::contains(lower.as_str(), "<!entity") {
        return Err(PacketParseError);
    }
    if !has_xml_local_tag(whole.as_str(), "ProbeMatches")? {
        let none: Vec<ParsedAdvertisement> = Vec::new();
        assert(table::views(none@) =~= Seq::<ParsedAdvertisementView>::empty());
        return Ok(none);
    }
    read_matches(whole.as_str())
}

/// What an answer to the probe announces is one camera, found at an address that the answer gives
/// and under an identity that it gives. An answer that is too long, is no text, or declares a
/// document type or an entity announces nothing.
pub proof fn law_probes_find_one_camera(packet: Seq<u8>)
    ensures
        probe_announcements(packet) matches Some(list) ==> {
            &&& packet.len() <= 16_384 && valid_utf8(packet)
            &&& !text::contains_text(text::lowercase(decode_utf8(packet)), "<!doctype"@)
            &&& !text::contains_text(text::lowercase(decode_utf8(packet)), "<!entity"@)
            &&& list.len() <= 1
            &&& list.len() == 1 ==> {
                let a = list[0];
                let s = decode_utf8(packet);
                &&& a.category == DiscoveryCandidateCategory::Camera && a.suggested_device_kind
                    == "camera"@ && a.source_category == DiscoverySourceCategory::Camera
                    && a.protocol == "onvif"@ && a.integration_kind == "rtsp"@
                &&& a.ttl_seconds == 30 && a.edge_identity is None && a.additional_sources.len()
                    == 0
                &&& exists|k: int, j: int|
                    #![trigger search::words(element_values(s, "XAddrs"@, 0, Seq::empty())->Some_0[k])[j]]
                    0 <= k < element_values(s, "XAddrs"@, 0, Seq::empty())->Some_0.len() && 0 <= j
                        < search::words(
                        element_values(s, "XAddrs"@, 0, Seq::empty())->Some_0[k],
                    ).len() && ssdp::endpoint_of(
                        search::words(element_values(s, "XAddrs"@, 0, Seq::empty())->Some_0[k])[j],
                        false,
                    ) == Some((a.endpoint_scheme, a.endpoint_port, a.endpoint_path))
                &&& exists|k: int|
                    0 <= k < element_values(s, "Address"@, 0, Seq::empty())->Some_0.len()
                        && a.identity == text::trim(
                        #[trigger] element_values(s, "Address"@, 0, Seq::empty())->Some_0[k],
                    ) && a.identity.len() > 0
            }
        },
{
    let s = decode_utf8(packet);
    match probe_announcements(packet) {
        Some(list) => {
            if list.len() > 0 {
                let addresses = element_values(s, "XAddrs"@, 0, Seq::empty())->Some_0;
                let identities = element_values(s, "Address"@, 0, Seq::empty())->Some_0;
                let (k, j) = lemma_listed_endpoint(addresses, 0);
                assert(ssdp::endpoint_of(search::words(addresses[k])[j], false) is Some);
                let i = lemma_identity(identities, 0);
                assert(list[0].identity == text::trim(identities[i]));
            }
        },
        None => {},
    }
}

proof fn lemma_word_endpoint(addresses: Seq<Seq<char>>, i: int) -> (j: int)
    requires
        0 <= i,
        word_endpoint(addresses, i) is Some,
    ensures
        i <= j < addresses.len(),
        ssdp::endpoint_of(addresses[j], false) == word_endpoint(addresses, i),
    decreases addresses.len() - i,
{
    if ssdp::endpoint_of(addresses[i], false) is Some {
        i
    } else {
        lemma_word_endpoint(addresses, i + 1)
    }
}

proof fn lemma_listed_endpoint(values: Seq<Seq<char>>, i: int) -> (at: (int, int))
    requires
        0 <= i,
        listed_endpoint(values, i) is Some,
    ensures
        i <= at.0 < values.len(),
        0 <= at.1 < search::words(values[at.0]).len(),
        ssdp::endpoint_of(search::words(values[at.0])[at.1], false) == listed_endpoint(values, i),
    decreases values.len() - i,
{
    if word_endpoint(search::words(values[i]), 0) is Some {
        (i, lemma_word_endpoint(search::words(values[i]), 0))
    } else {
        lemma_listed_endpoint(values, i + 1)
    }
}

proof fn lemma_identity(values: Seq<Seq<char>>, i: int) -> (k: int)
    requires
        0 <= i,
        identity_from(values, i) is Some,
    ensures
        i <= k < values.len(),
        identity_from(values, i) == Some(text::trim(values[k])),
        text::trim(values[k]).len() > 0,
    decreases values.len() - i,
{
    if text::trim(values[i]).len() > 0 && text::byte_len(values[i])
        <= ssdp::MAX_ADVERTISED_VALUE_SIZE {
        i
    } else {
        lemma_identity(values, i + 1)
    }
}

/// Whether a value stands in a text between a tag's end and the start of a closing tag.
pub open spec fn stands_in(s: Seq<char>, value: Seq<char>) -> bool {
    exists|from: int, to: int|
        0 < from <= to && to + 1 < s.len() && s[from - 1] == '>' && s[to] == '<' && s[to + 1] == '/'
            && value == text::trim(#[trigger] s.subrange(from, to))
}

proof fn lemma_values_stand(s: Seq<char>, name: Seq<char>, from: int, values: Seq<Seq<char>>)
    requires
        0 <= from,
        values.len() <= 16,
        forall|k: int|
            0 <= k < values.len() ==> stands_in(s, #[trigger] values[k]) && !values[k].contains('<')
                && text::byte_len(values[k]) <= 2_048,
    ensures
        element_values(s, name, from, values) matches Some(all) ==> all.len() <= 16 && forall|k: int|
            0 <= k < all.len() ==> stands_in(s, #[trigger] all[k]) && !all[k].contains('<')
                && text::byte_len(all[k]) <= 2_048,
    decreases s.len() - from,
{
    if from < s.len() && values.len() < MAX_XML_VALUES {
        lemma_next_tag(s, from);
        match next_tag(s, from) {
            Some(Some(t)) => {
                if opens_nothing(t.inner) || !has_local_name(t.inner, name) || (t.inner.len() > 0
                    && t.inner.last() == '/') {
                    lemma_values_stand(s, name, t.end + 1, values);
                } else {
                    let closing = "</"@ + qualified_name(t.inner);
                    reveal_strlit("</");
                    search::lemma_text_index(s, closing, t.end + 1);
                    match search::text_index(s, closing, t.end + 1) {
                        Some(at) => {
                            let after = search::char_index(s, '>', at + closing.len());
                            let value = text::trim(s.subrange(t.end + 1, at));
                            search::lemma_index_where(
                                s,
                                search::is_char('>'),
                                at + closing.len(),
                            );
                            search::lemma_index_where(s, search::is_char('<'), from);
                            search::lemma_index_where(s, search::is_char('>'), t.start + 1);
                            if !(after >= s.len() || value.contains('<') || text::byte_len(value)
                                > MAX_XML_VALUE_SIZE) {
                                let found = s.subrange(at, at + closing.len());
                                assert(found == closing);
                                assert(found[0] == s[at] && found[1] == s[at + 1]);
                                assert(s[t.end] == '>');
                                assert(stands_in(s, value));
                                lemma_values_stand(s, name, after + 1, values.push(value));
                            }
                        },
                        None => {},
                    }
                }
            },
            _ => {},
        }
    }
}

/// The values of elements stand in the text between a tag and a closing tag, hold no tag themselves
/// and are neither too long nor too many.
pub proof fn law_values_stand_between_tags(s: Seq<char>, name: Seq<char>)
    ensures
        element_values(s, name, 0, Seq::empty()) matches Some(all) ==> all.len() <= 16 && forall|
            k: int,
        |
            0 <= k < all.len() ==> stands_in(s, #[trigger] all[k]) && !all[k].contains('<')
                && text::byte_len(all[k]) <= 2_048,
{
    lemma_values_stand(s, name, 0, Seq::empty());
}

/// Two hexadecimal digits after a percent sign stand for the byte with that number, and any other
/// byte for itself.
pub proof fn law_escapes_stand_for_their_byte(s: Seq<u8>, at: int, done: Seq<u8>, high: u8, low: u8)
    requires
        0 <= at < s.len(),
        done.len() < 256,
        high < 16,
        low < 16,
    ensures
        s[at] != 37 ==> unescaped(s, at, done) == unescaped(s, at + 1, done.push(s[at])),
        at + 2 < s.len() && s[at] == 37 && written_digit(s[at + 1], high) && written_digit(
            s[at + 2],
            low,
        ) ==> unescaped(s, at, done) == unescaped(s, at + 3, done.push((16 * high + low) as u8)),
{
}

/// Whether a byte is the hexadecimal digit of a number, in either case.
pub open spec fn written_digit(b: u8, n: u8) -> bool {
    if n < 10 {
        b == 48 + n
    } else {
        b == 87 + n || b == 55 + n
    }
}

/// A camera has the first name that its scopes give, and a name of its kind where they give none.
pub proof fn law_scopes_name_the_camera(scopes: Seq<Seq<char>>)
    ensures
        device_name(scopes, 0) == "ONVIF camera"@ || exists|k: int, j: int|
            #![trigger search::words(scopes[k])[j]]
            0 <= k < scopes.len() && 0 <= j < search::words(scopes[k]).len() && scope_name(
                search::words(scopes[k])[j],
            ) == Some(device_name(scopes, 0)),
{
    lemma_device_name(scopes, 0);
}

proof fn lemma_scope_name(scopes: Seq<Seq<char>>, i: int) -> (j: int)
    requires
        0 <= i,
        first_scope_name(scopes, i) is Some,
    ensures
        i <= j < scopes.len(),
        scope_name(scopes[j]) == first_scope_name(scopes, i),
    decreases scopes.len() - i,
{
    if scope_name(scopes[i]) is Some {
        i
    } else {
        lemma_scope_name(scopes, i + 1)
    }
}

proof fn lemma_device_name(scopes: Seq<Seq<char>>, i: int)
    requires
        0 <= i,
    ensures
        device_name(scopes, i) == "ONVIF camera"@ || exists|k: int, j: int|
            #![trigger search::words(scopes[k])[j]]
            i <= k < scopes.len() && 0 <= j < search::words(scopes[k]).len() && scope_name(
                search::words(scopes[k])[j],
            ) == Some(device_name(scopes, i)),
    decreases scopes.len() - i,
{
    if i < scopes.len() {
        if first_scope_name(search::words(scopes[i]), 0) is Some {
            let j = lemma_scope_name(search::words(scopes[i]), 0);
            assert(scope_name(search::words(scopes[i])[j]) == Some(device_name(scopes, i)));
        } else {
            lemma_device_name(scopes, i + 1);
        }
    }
}

} // verus!
