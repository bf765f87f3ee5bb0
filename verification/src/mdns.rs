//! Multicast DNS: the query for known services and the answers to it.

use crate::advertisement;
use crate::advertisement::{PacketParseError, ParsedAdvertisement, ParsedAdvertisementView};
use crate::bytes;
use crate::crypto;
use crate::domain::{DiscoveryCandidateCategory, DiscoverySourceCategory};
use crate::edge_advertisement;
use crate::edge_advertisement::EdgeOrganizationProof;
use crate::hashing;
use crate::search;
use crate::table;
use crate::table::Table;
use crate::text;
use vstd::prelude::*;
use vstd::string::*;
use vstd::utf8::*;

verus! {

pub const MAX_DNS_QUESTIONS: usize = 16;
pub const MAX_DNS_RECORDS: usize = 128;
pub const MAX_DNS_LABELS: usize = 32;
pub const MAX_DNS_POINTER_JUMPS: usize = 16;
pub const MAX_DNS_NAME_LENGTH: usize = 254;

/// A kind of service that is looked for.
#[derive(Clone, Copy, Debug, PartialEq, Eq, Structural)]
pub enum MdnsService {
    Rms,
    Rerun,
    Rtsp,
}

impl MdnsService {
    pub open spec fn name(self) -> Seq<char> {
        match self {
            MdnsService::Rms => "_rms._tcp.local"@,
            MdnsService::Rerun => "_rerun._tcp.local"@,
            MdnsService::Rtsp => "_rtsp._tcp.local"@,
        }
    }

    pub fn service_type(self) -> (r: &'static str)
        ensures
            r@ == self.name(),
    {
        match self {
            MdnsService::Rms => "_rms._tcp.local",
            MdnsService::Rerun => "_rerun._tcp.local",
            MdnsService::Rtsp => "_rtsp._tcp.local",
        }
    }
}

/// What is announced of a machine that offers a service.
pub open spec fn service_offer(
    s: MdnsService,
    instance: Seq<char>,
    display_name: Seq<char>,
    port: u16,
    path: Seq<char>,
    ttl_seconds: u64,
) -> ParsedAdvertisementView {
    let camera = s == MdnsService::Rtsp;
    ParsedAdvertisementView {
        fingerprint_namespace: "mdns"@,
        identity: s.name() + ":"@ + instance,
        display_name,
        category: if camera {
            DiscoveryCandidateCategory::Camera
        } else {
            DiscoveryCandidateCategory::Robot
        },
        suggested_device_kind: if camera {
            "camera"@
        } else {
            "robot"@
        },
        integration_kind: if camera {
            "rtsp"@
        } else {
            "rerun"@
        },
        endpoint_label: match s {
            MdnsService::Rms => "RMS endpoint"@,
            MdnsService::Rerun => "Rerun endpoint"@,
            MdnsService::Rtsp => "RTSP camera"@,
        },
        source_id: if camera {
            "camera"@
        } else {
            "telemetry"@
        },
        source_label: match s {
            MdnsService::Rms => "RMS 데이터"@,
            MdnsService::Rerun => "Rerun 데이터"@,
            MdnsService::Rtsp => "카메라 영상"@,
        },
        source_category: if camera {
            DiscoverySourceCategory::Camera
        } else {
            DiscoverySourceCategory::Telemetry
        },
        protocol: if camera {
            "rtsp"@
        } else {
            "rerun"@
        },
        endpoint_scheme: if camera {
            "rtsp"@
        } else {
            "rerun+http"@
        },
        endpoint_port: port,
        endpoint_path: path,
        ttl_seconds,
        additional_sources: Seq::empty(),
        edge_identity: None,
    }
}

fn offer_service(
    s: MdnsService,
    instance: &str,
    display_name: &str,
    port: u16,
    path: String,
    ttl_seconds: u64,
) -> (r: ParsedAdvertisement)
    ensures
        r@ == service_offer(s, instance@, display_name@, port, path@, ttl_seconds),
{
    let camera = s == MdnsService::Rtsp;
    let identity = text::line(s.service_type()).add(":").add(instance).done();
    let endpoint_label = match s {
        MdnsService::Rms => "RMS endpoint",
        MdnsService::Rerun => "Rerun endpoint",
        MdnsService::Rtsp => "RTSP camera",
    };
    let source_label = match s {
        MdnsService::Rms => "RMS 데이터",
        MdnsService::Rerun => "Rerun 데이터",
        MdnsService::Rtsp => "카메라 영상",
    };
    let r = ParsedAdvertisement {
        fingerprint_namespace: "mdns",
        identity,
        display_name: display_name.to_owned(),
        category: if camera {
            DiscoveryCandidateCategory::Camera
        } else {
            DiscoveryCandidateCategory::Robot
        },
        suggested_device_kind: if camera {
            "camera"
        } else {
            "robot"
        },
        integration_kind: if camera {
            "rtsp"
        } else {
            "rerun"
        },
        endpoint_label: endpoint_label.to_owned(),
        source_id: if camera {
            "camera"
        } else {
            "telemetry"
        },
        source_label: source_label.to_owned(),
        source_category: if camera {
            DiscoverySourceCategory::Camera
        } else {
            DiscoverySourceCategory::Telemetry
        },
        protocol: if camera {
            "rtsp"
        } else {
            "rerun"
        },
        endpoint_scheme: if camera {
            "rtsp".to_owned()
        } else {
            "rerun+http".to_owned()
        },
        endpoint_port: port,
        endpoint_path: path,
        ttl_seconds,
        additional_sources: Vec::new(),
        edge_identity: None,
    };
    assert(r@.additional_sources =~= Seq::empty());
    r
}

/// The labels from `i` on as a name holds them: each after its length.
pub open spec fn label_bytes(labels: Seq<Seq<char>>, i: int) -> Seq<u8>
    decreases labels.len() - i,
{
    if i < 0 || i >= labels.len() {
        Seq::empty()
    } else {
        seq![encode_utf8(labels[i]).len() as u8] + encode_utf8(labels[i]) + label_bytes(labels, i + 1)
    }
}

/// The question for the instances of a service, answered to the asker alone.
pub open spec fn question(service: Seq<char>) -> Seq<u8> {
    label_bytes(text::parts(service, '.'), 0) + seq![0u8, 0u8, 12u8, 128u8, 1u8]
}

/// The query for the known services.
pub open spec fn query_bytes() -> Seq<u8> {
    seq![0u8, 0u8, 0u8, 0u8, 0u8, 3u8, 0u8, 0u8, 0u8, 0u8, 0u8, 0u8] + question(
        MdnsService::Rms.name(),
    ) + question(MdnsService::Rerun.name()) + question(MdnsService::Rtsp.name())
}

fn push_question(packet: &mut Vec<u8>, service: &str)
    ensures
        final(packet)@ == old(packet)@ + question(service@),
{
    let ghost start = packet@;
    let labels = text::split_all(service, '.');
    let ghost all = table::views(labels@);
    let mut i: usize = 0;
    proof {
        assert(start + label_bytes(all, 0) =~= packet@ + label_bytes(all, 0));
    }
    while i < labels.len()
        invariant
            i <= labels@.len(),
            all == table::views(labels@),
            packet@ + label_bytes(all, i as int) == start + label_bytes(all, 0),
        decreases labels@.len() - i,
    {
        let label = labels[i].as_str();
        assert(all[i as int] == label@);
        let ghost before = packet@;
        let b = label.as_bytes();
        packet.push(b.len() as u8);
        hashing::extend(packet, b);
        proof {
            let rest = label_bytes(all, i + 1);
            let own = seq![encode_utf8(label@).len() as u8] + encode_utf8(label@);
            assert(packet@ =~= before + own);
            assert(before + (own + rest) =~= (before + own) + rest);
        }
        i = i + 1;
    }
    let ghost named = packet@;
    proof {
        assert(named =~= start + label_bytes(all, 0));
    }
    packet.push(0u8);
    packet.push(0u8);
    packet.push(12u8);
    packet.push(128u8);
    packet.push(1u8);
    proof {
        assert(packet@ =~= start + question(service@));
    }
}

/// The query for the known services.
pub fn mdns_query() -> (r: Vec<u8>)
    ensures
        r@ == query_bytes(),
{
    let mut packet: Vec<u8> = Vec::new();
    let header: [u8; 12] = [0, 0, 0, 0, 0, 3, 0, 0, 0, 0, 0, 0];
    hashing::extend(&mut packet, header.as_slice());
    push_question(&mut packet, "_rms._tcp.local");
    push_question(&mut packet, "_rerun._tcp.local");
    push_question(&mut packet, "_rtsp._tcp.local");
    proof {
        assert(packet@ =~= query_bytes());
    }
    packet
}

/// The labels of the name at a position, after those read already. A pointer leads to another
/// part of the packet, a limited number of times.
pub open spec fn name_labels(
    packet: Seq<u8>,
    position: int,
    labels: Seq<Seq<char>>,
    jumps: int,
    encoded: int,
) -> Option<Seq<Seq<char>>>
    decreases MAX_DNS_POINTER_JUMPS - jumps, packet.len() - position,
{
    if position < 0 || position >= packet.len() {
        None
    } else {
        let length = packet[position] as int;
        if length == 0 {
            Some(labels)
        } else if length >= 192 {
            if position + 1 >= packet.len() {
                None
            } else {
                let pointer = (length - 192) * 256 + packet[position + 1];
                if pointer >= packet.len() || jumps >= MAX_DNS_POINTER_JUMPS {
                    None
                } else {
                    name_labels(packet, pointer, labels, jumps + 1, encoded)
                }
            }
        } else if length >= 64 || labels.len() >= MAX_DNS_LABELS {
            None
        } else {
            let end = position + 1 + length;
            if end > packet.len() {
                None
            } else {
                let label = packet.subrange(position + 1, end);
                if !valid_utf8(label) || text::any_control(decode_utf8(label)) || encoded + length
                    + 1 > MAX_DNS_NAME_LENGTH {
                    None
                } else {
                    name_labels(
                        packet,
                        end,
                        labels.push(decode_utf8(label)),
                        jumps,
                        encoded + length + 1,
                    )
                }
            }
        }
    }
}

/// Where the name at a position ends: after its closing byte or its first pointer.
pub open spec fn name_end(packet: Seq<u8>, position: int) -> int
    decreases packet.len() - position,
{
    if position < 0 || position >= packet.len() {
        position
    } else {
        let length = packet[position] as int;
        if length == 0 {
            position + 1
        } else if length >= 192 {
            position + 2
        } else if position + 1 + length > packet.len() {
            position
        } else {
            name_end(packet, position + 1 + length)
        }
    }
}

/// The name at a position and where it ends.
pub open spec fn name_at(packet: Seq<u8>, position: int) -> Option<(Seq<char>, int)> {
    match name_labels(packet, position, Seq::empty(), 0, 0) {
        Some(labels) => Some((text::joined(labels, "."@), name_end(packet, position))),
        None => None,
    }
}

pub open spec fn read_name(r: Result<(String, usize), PacketParseError>) -> Option<(Seq<char>, int)> {
    match r {
        Ok((s, end)) => Some((s@, end as int)),
        Err(_) => None,
    }
}

/// Reads the name at a position, and where it ends.
pub fn read_dns_name(packet: &[u8], start: usize) -> (r: Result<(String, usize), PacketParseError>)
    ensures
        read_name(r) == name_at(packet@, start as int),
{
    let size: usize = packet.len();
    let mut labels: Vec<String> = Vec::new();
    let mut position: usize = start;
    let mut end: usize = start;
    let mut jumped = false;
    let mut jumps: usize = 0;
    let mut encoded: usize = 0;
    proof {
        assert(table::views(labels@) =~= Seq::<Seq<char>>::empty());
    }
    loop
        invariant
            size == packet@.len(),
            jumps <= MAX_DNS_POINTER_JUMPS,
            encoded <= MAX_DNS_NAME_LENGTH,
            name_labels(packet@, start as int, Seq::empty(), 0, 0) == name_labels(
                packet@,
                position as int,
                table::views(labels@),
                jumps as int,
                encoded as int,
            ),
            jumped ==> end == name_end(packet@, start as int),
            !jumped ==> name_end(packet@, start as int) == name_end(packet@, position as int),
        decreases MAX_DNS_POINTER_JUMPS - jumps, size - position,
    {
        if position >= size {
            return Err(PacketParseError);
        }
        let length: u8 = packet[position];
        if length == 0 {
            if !jumped {
                end = position + 1;
            }
            let name = text::join(&labels, ".");
            return Ok((name, end));
        }
        if length >= 192 {
            if position + 1 >= size {
                return Err(PacketParseError);
            }
            let low: u8 = packet[position + 1];
            let pointer: usize = (length - 192) as usize * 256 + low as usize;
            if pointer >= size || jumps >= MAX_DNS_POINTER_JUMPS {
                return Err(PacketParseError);
            }
            if !jumped {
                end = position + 2;
                jumped = true;
            }
            position = pointer;
            jumps = jumps + 1;
        } else {
            if length >= 64 || labels.len() >= MAX_DNS_LABELS {
                return Err(PacketParseError);
            }
            if length as usize > size - position - 1 {
                return Err(PacketParseError);
            }
            let label_end: usize = position + 1 + length as usize;
            let raw = bytes::slice_between(packet, position + 1, label_end);
            let label = match text::utf8_text(raw) {
                Ok(s) => s,
                Err(_) => {
                    return Err(PacketParseError);
                },
            };
            if text::has_control(label.as_str()) {
                return Err(PacketParseError);
            }
            if encoded + length as usize + 1 > MAX_DNS_NAME_LENGTH {
                return Err(PacketParseError);
            }
            encoded = encoded + length as usize + 1;
            proof {
                table::lemma_views_push(labels@, label);
            }
            labels.push(label);
            position = label_end;
        }
    }
}

pub open spec fn normal_name(s: Seq<char>) -> Seq<char> {
    text::lowercase(search::without_end(s, '.'))
}

pub fn normalize_dns_name(s: &str) -> (r: String)
    ensures
        r@ == normal_name(s@),
{
    let rest = search::trim_end_char(s, '.');
    text::lowered(rest.as_str())
}

pub open spec fn key_char(c: char) -> bool {
    text::is_alphanumeric(c) || c == '_'
}

pub open spec fn is_property_key(key: Seq<char>) -> bool {
    key.len() > 0 && text::byte_len(key) <= 64 && text::all_are(key, |c: char| key_char(c))
}

/// The properties with one more field: the first of a key counts, and a field that is no text or
/// has no proper key does not.
pub open spec fn with_property(m: Map<Seq<char>, Seq<char>>, field: Seq<u8>) -> Map<
    Seq<char>,
    Seq<char>,
> {
    if !valid_utf8(field) {
        m
    } else {
        let whole = decode_utf8(field);
        let (key, value) = match text::cut(whole, '=') {
            Some(pair) => pair,
            None => (whole, ""@),
        };
        if !is_property_key(key) || m.contains_key(text::lowercase(key)) {
            m
        } else {
            m.insert(text::lowercase(key), advertisement::shortened(value, 256))
        }
    }
}

fn add_property(m: &mut Table<String>, field: &[u8])
    ensures
        final(m)@ == with_property(old(m)@, field@),
{
    let whole = match text::utf8_text(field) {
        Ok(s) => s,
        Err(_) => {
            return;
        },
    };
    let (key, value) = match text::split_once(whole.as_str(), '=') {
        Some(pair) => pair,
        None => (whole, "".to_owned()),
    };
    let test = |c: char| -> (b: bool)
        ensures
            b == key_char(c),
        { text::ascii_alphanumeric(c) || c == '_' };
    if key.as_str().is_empty() || text::utf8_size(key.as_str()) > 64 || !text::all_chars(
        key.as_str(),
        test,
        Ghost(|c: char| key_char(c)),
    ) {
        return;
    }
    let lower = text::lowered(key.as_str());
    if m.contains(lower.as_str()) {
        return;
    }
    let short = advertisement::shorten(value.as_str(), 256);
    let _ = m.insert(lower, short);
}

/// The properties of the text record from `cursor` on, after those read already.
pub open spec fn properties_from(data: Seq<u8>, cursor: int, m: Map<Seq<char>, Seq<char>>) -> Option<
    Map<Seq<char>, Seq<char>>,
>
    decreases data.len() - cursor,
{
    if cursor < 0 || cursor >= data.len() {
        Some(m)
    } else {
        let end = cursor + 1 + data[cursor];
        if end > data.len() {
            None
        } else {
            properties_from(data, end, with_property(m, data.subrange(cursor + 1, end)))
        }
    }
}

/// Reads the properties of a text record.
pub fn parse_dns_txt(data: &[u8]) -> (r: Result<Table<String>, PacketParseError>)
    ensures
        advertisement::parsed_view(r) == properties_from(data@, 0, Map::empty()),
{
    let size: usize = data.len();
    let mut m: Table<String> = Table::new();
    let mut cursor: usize = 0;
    while cursor < size
        invariant
            cursor <= size,
            size == data@.len(),
            properties_from(data@, 0, Map::empty()) == properties_from(data@, cursor as int, m@),
        decreases size - cursor,
    {
        let length: usize = data[cursor] as usize;
        if length > size - cursor - 1 {
            return Err(PacketParseError);
        }
        let end: usize = cursor + 1 + length;
        let field = bytes::slice_between(data, cursor + 1, end);
        add_property(&mut m, field);
        cursor = end;
    }
    Ok(m)
}

/// What a record of an answer says.
#[derive(Debug)]
pub enum DnsRecordData {
    Ptr(String),
    Srv { port: u16 },
    Txt(Table<String>),
    Other,
}

pub enum DnsRecordDataView {
    Ptr(Seq<char>),
    Srv { port: u16 },
    Txt(Map<Seq<char>, Seq<char>>),
    Other,
}

impl View for DnsRecordData {
    type V = DnsRecordDataView;

    open spec fn view(&self) -> DnsRecordDataView {
        match self {
            DnsRecordData::Ptr(s) => DnsRecordDataView::Ptr(s@),
            DnsRecordData::Srv { port } => DnsRecordDataView::Srv { port: *port },
            DnsRecordData::Txt(m) => DnsRecordDataView::Txt(m@),
            DnsRecordData::Other => DnsRecordDataView::Other,
        }
    }
}

/// A record of an answer.
#[derive(Debug)]
pub struct DnsRecord {
    pub name: String,
    pub ttl_seconds: u64,
    pub data: DnsRecordData,
}

pub struct DnsRecordView {
    pub name: Seq<char>,
    pub ttl_seconds: u64,
    pub data: DnsRecordDataView,
}

impl View for DnsRecord {
    type V = DnsRecordView;

    open spec fn view(&self) -> DnsRecordView {
        DnsRecordView { name: self.name@, ttl_seconds: self.ttl_seconds, data: self.data@ }
    }
}

/// What the data of a record of a type says.
pub open spec fn data_at(packet: Seq<u8>, record_type: nat, start: int, end: int) -> Option<
    DnsRecordDataView,
> {
    if record_type == 12 {
        match name_at(packet, start) {
            Some((target, after)) => if after <= end {
                Some(DnsRecordDataView::Ptr(normal_name(target)))
            } else {
                None
            },
            None => None,
        }
    } else if record_type == 16 {
        match properties_from(packet.subrange(start, end), 0, Map::empty()) {
            Some(m) => Some(DnsRecordDataView::Txt(m)),
            None => None,
        }
    } else if record_type == 33 {
        if end - start < 7 {
            None
        } else {
            match name_at(packet, start + 6) {
                Some((_, after)) => if after <= end {
                    Some(
                        DnsRecordDataView::Srv { port: bytes::be_u16(packet, start + 4) as u16 },
                    )
                } else {
                    None
                },
                None => None,
            }
        }
    } else {
        Some(DnsRecordDataView::Other)
    }
}

fn read_data(packet: &[u8], record_type: u16, start: usize, end: usize) -> (r: Result<
    DnsRecordData,
    PacketParseError,
>)
    requires
        start <= end <= packet@.len(),
    ensures
        advertisement::parsed_view(r) == data_at(
            packet@,
            record_type as nat,
            start as int,
            end as int,
        ),
{
    if record_type == 12 {
        match read_dns_name(packet, start) {
            Ok((target, after)) => {
                if after > end {
                    return Err(PacketParseError);
                }
                Ok(DnsRecordData::Ptr(normalize_dns_name(target.as_str())))
            },
            Err(e) => Err(e),
        }
    } else if record_type == 16 {
        match parse_dns_txt(bytes::slice_between(packet, start, end)) {
            Ok(m) => Ok(DnsRecordData::Txt(m)),
            Err(e) => Err(e),
        }
    } else if record_type == 33 {
        if end - start < 7 {
            return Err(PacketParseError);
        }
        let port: u16 = bytes::read_be_u16(packet, start + 4);
        match read_dns_name(packet, start + 6) {
            Ok((_, after)) => {
                if after > end {
                    return Err(PacketParseError);
                }
                Ok(DnsRecordData::Srv { port })
            },
            Err(e) => Err(e),
        }
    } else {
        Ok(DnsRecordData::Other)
    }
}

/// The record at a position and where it ends.
pub open spec fn record_at(packet: Seq<u8>, cursor: int) -> Option<(DnsRecordView, int)> {
    match name_at(packet, cursor) {
        None => None,
        Some((name, after)) => if after + 10 > packet.len() {
            None
        } else {
            let start = after + 10;
            let end = start + bytes::be_u16(packet, after + 8);
            if end > packet.len() {
                None
            } else {
                match data_at(packet, bytes::be_u16(packet, after), start, end) {
                    None => None,
                    Some(data) => Some(
                        (
                            DnsRecordView {
                                name: normal_name(name),
                                ttl_seconds: bytes::be_u32(packet, after + 4) as u64,
                                data,
                            },
                            end,
                        ),
                    ),
                }
            }
        },
    }
}

pub open spec fn read_record_view(r: Result<(DnsRecord, usize), PacketParseError>) -> Option<
    (DnsRecordView, int),
> {
    match r {
        Ok((x, end)) => Some((x@, end as int)),
        Err(_) => None,
    }
}

fn read_record(packet: &[u8], cursor: usize) -> (r: Result<(DnsRecord, usize), PacketParseError>)
    ensures
        read_record_view(r) == record_at(packet@, cursor as int),
{
    let size: usize = packet.len();
    let (name, after) = match read_dns_name(packet, cursor) {
        Ok(x) => x,
        Err(e) => {
            return Err(e);
        },
    };
    if after > size || size - after < 10 {
        return Err(PacketParseError);
    }
    let record_type: u16 = bytes::read_be_u16(packet, after);
    let ttl: u32 = bytes::read_be_u32(packet, after + 4);
    let length: usize = bytes::read_be_u16(packet, after + 8) as usize;
    let start: usize = after + 10;
    if length > size - start {
        return Err(PacketParseError);
    }
    let end: usize = start + length;
    match read_data(packet, record_type, start, end) {
        Ok(data) => Ok(
            (
                DnsRecord {
                    name: normalize_dns_name(name.as_str()),
                    ttl_seconds: ttl as u64,
                    data,
                },
                end,
            ),
        ),
        Err(e) => Err(e),
    }
}

/// The records from `cursor` on, `count` of them, after those read already.
pub open spec fn records_from(
    packet: Seq<u8>,
    cursor: int,
    count: nat,
    records: Seq<DnsRecordView>,
) -> Option<Seq<DnsRecordView>>
    decreases count,
{
    if count == 0 {
        Some(records)
    } else {
        match record_at(packet, cursor) {
            None => None,
            Some((x, end)) => records_from(packet, end, (count - 1) as nat, records.push(x)),
        }
    }
}

/// Where the questions from `cursor` on, `count` of them, end.
pub open spec fn after_questions(packet: Seq<u8>, cursor: int, count: nat) -> Option<int>
    decreases count,
{
    if count == 0 {
        Some(cursor)
    } else {
        match name_at(packet, cursor) {
            None => None,
            Some((_, after)) => if after + 4 > packet.len() {
                None
            } else {
                after_questions(packet, after + 4, (count - 1) as nat)
            },
        }
    }
}

fn skip_questions(packet: &[u8], start: usize, count: usize) -> (r: Result<usize, PacketParseError>)
    ensures
        (match r {
            Ok(end) => Some(end as int),
            Err(_) => None,
        }) == after_questions(packet@, start as int, count as nat),
{
    let size: usize = packet.len();
    let mut cursor: usize = start;
    let mut left: usize = count;
    while left > 0
        invariant
            size == packet@.len(),
            after_questions(packet@, start as int, count as nat) == after_questions(
                packet@,
                cursor as int,
                left as nat,
            ),
        decreases left,
    {
        let (_, after) = match read_dns_name(packet, cursor) {
            Ok(x) => x,
            Err(e) => {
                return Err(e);
            },
        };
        if after > size || size - after < 4 {
            return Err(PacketParseError);
        }
        cursor = after + 4;
        left = left - 1;
    }
    Ok(cursor)
}

fn read_records(packet: &[u8], start: usize, count: usize) -> (r: Result<
    Vec<DnsRecord>,
    PacketParseError,
>)
    ensures
        advertisement::parsed_views(r) == records_from(
            packet@,
            start as int,
            count as nat,
            Seq::empty(),
        ),
{
    let mut cursor: usize = start;
    let mut left: usize = count;
    let mut records: Vec<DnsRecord> = Vec::new();
    proof {
        assert(table::views(records@) =~= Seq::<DnsRecordView>::empty());
    }
    while left > 0
        invariant
            records_from(packet@, start as int, count as nat, Seq::empty()) == records_from(
                packet@,
                cursor as int,
                left as nat,
                table::views(records@),
            ),
        decreases left,
    {
        let (one, end) = match read_record(packet, cursor) {
            Ok(x) => x,
            Err(e) => {
                return Err(e);
            },
        };
        proof {
            table::lemma_views_push(records@, one);
        }
        records.push(one);
        cursor = end;
        left = left - 1;
    }
    Ok(records)
}


/// The service of a name.
pub open spec fn named_service(name: Seq<char>) -> Option<MdnsService> {
    let lower = text::lowercase(name);
    if lower == text::lowercase(MdnsService::Rms.name()) {
        Some(MdnsService::Rms)
    } else if lower == text::lowercase(MdnsService::Rerun.name()) {
        Some(MdnsService::Rerun)
    } else if lower == text::lowercase(MdnsService::Rtsp.name()) {
        Some(MdnsService::Rtsp)
    } else {
        None
    }
}

pub fn mdns_profile_for_service(name: &str) -> (r: Option<MdnsService>)
    ensures
        r == named_service(name@),
{
    if text::same_ignoring_case(name, "_rms._tcp.local") {
        Some(MdnsService::Rms)
    } else if text::same_ignoring_case(name, "_rerun._tcp.local") {
        Some(MdnsService::Rerun)
    } else if text::same_ignoring_case(name, "_rtsp._tcp.local") {
        Some(MdnsService::Rtsp)
    } else {
        None
    }
}

/// Whether a name is that of an instance of a service.
pub open spec fn is_instance_of(instance: Seq<char>, s: MdnsService) -> bool {
    text::ends_with(text::lowercase(instance), text::lowercase("."@ + s.name()))
}

fn check_instance_of(instance: &str, s: MdnsService) -> (r: bool)
    ensures
        r == is_instance_of(instance@, s),
{
    let suffix = text::line(".").add(s.service_type()).done();
    let lower = text::lowered(instance);
    let lower_suffix = text::lowered(suffix.as_str());
    text::has_suffix(lower.as_str(), lower_suffix.as_str())
}

/// The service that a name is an instance of.
pub open spec fn instance_service(instance: Seq<char>) -> Option<MdnsService> {
    if is_instance_of(instance, MdnsService::Rms) {
        Some(MdnsService::Rms)
    } else if is_instance_of(instance, MdnsService::Rerun) {
        Some(MdnsService::Rerun)
    } else if is_instance_of(instance, MdnsService::Rtsp) {
        Some(MdnsService::Rtsp)
    } else {
        None
    }
}

pub fn mdns_profile_for_instance(instance: &str) -> (r: Option<MdnsService>)
    ensures
        r == instance_service(instance@),
{
    if check_instance_of(instance, MdnsService::Rms) {
        Some(MdnsService::Rms)
    } else if check_instance_of(instance, MdnsService::Rerun) {
        Some(MdnsService::Rerun)
    } else if check_instance_of(instance, MdnsService::Rtsp) {
        Some(MdnsService::Rtsp)
    } else {
        None
    }
}

/// The label of an instance: its name before the service's.
pub open spec fn instance_label(instance: Seq<char>, service: Seq<char>) -> Seq<char> {
    let n = instance.len() - service.len();
    if text::ends_with(instance, service) && n >= 2 && instance[n - 1] == '.' {
        instance.take(n - 1)
    } else {
        "LAN device"@
    }
}

pub fn mdns_instance_label(instance: &str, service: &str) -> (r: String)
    ensures
        r@ == instance_label(instance@, service@),
{
    let v = text::chars_of(instance);
    let k = text::chars_of(service).len();
    let size: usize = v.len();
    if text::has_suffix(instance, service) && size >= k && size - k >= 2 && v[size - k - 1] == '.' {
        let r = text::string_between(v.as_slice(), 0, size - k - 1);
        assert(r@ =~= instance@.take(size - k - 1));
        r
    } else {
        "LAN device".to_owned()
    }
}

/// The services that the pointer records from `i` on tell of instances, with their lifetimes.
pub open spec fn pointed(
    records: Seq<DnsRecordView>,
    i: int,
    m: Map<Seq<char>, (MdnsService, u64)>,
) -> Map<Seq<char>, (MdnsService, u64)>
    decreases records.len() - i,
{
    if i < 0 || i >= records.len() {
        m
    } else {
        let next = match records[i].data {
            DnsRecordDataView::Ptr(instance) => match named_service(records[i].name) {
                Some(s) => m.insert(instance, (s, records[i].ttl_seconds)),
                None => m,
            },
            _ => m,
        };
        pointed(records, i + 1, next)
    }
}

/// A service that a pointer record names, with its lifetime.
#[derive(Debug)]
struct PointedService {
    service: MdnsService,
    ttl_seconds: u64,
}

impl View for PointedService {
    type V = (MdnsService, u64);

    closed spec fn view(&self) -> (MdnsService, u64) {
        (self.service, self.ttl_seconds)
    }
}

fn collect_pointed(records: &Vec<DnsRecord>) -> (r: Table<PointedService>)
    ensures
        r@ == pointed(table::views(records@), 0, Map::empty()),
{
    let ghost all = table::views(records@);
    let mut m: Table<PointedService> = Table::new();
    let mut i: usize = 0;
    while i < records.len()
        invariant
            i <= records@.len(),
            all == table::views(records@),
            pointed(all, 0, Map::empty()) == pointed(all, i as int, m@),
        decreases records@.len() - i,
    {
        let x = &records[i];
        assert(all[i as int] == x@);
        match &x.data {
            DnsRecordData::Ptr(instance) => {
                match mdns_profile_for_service(x.name.as_str()) {
                    Some(service) => {
                        let _ = m.insert(
                            instance.clone(),
                            PointedService { service, ttl_seconds: x.ttl_seconds },
                        );
                    },
                    None => {},
                }
            },
            _ => {},
        }
        i = i + 1;
    }
    m
}

/// The properties of the first text record from `i` on with a name.
pub open spec fn properties_of(records: Seq<DnsRecordView>, name: Seq<char>, i: int) -> Option<
    Map<Seq<char>, Seq<char>>,
>
    decreases records.len() - i,
{
    if i < 0 || i >= records.len() {
        None
    } else if records[i].name == name && records[i].data is Txt {
        Some(records[i].data->Txt_0)
    } else {
        properties_of(records, name, i + 1)
    }
}

fn find_properties<'a>(records: &'a Vec<DnsRecord>, name: &str) -> (r: Option<&'a Table<String>>)
    ensures
        (match r {
            Some(m) => Some(m@),
            None => None,
        }) == properties_of(table::views(records@), name@, 0),
{
    let ghost all = table::views(records@);
    let mut i: usize = 0;
    while i < records.len()
        invariant
            i <= records@.len(),
            all == table::views(records@),
            properties_of(all, name@, 0) == properties_of(all, name@, i as int),
        decreases records@.len() - i,
    {
        assert(all[i as int] == records@[i as int]@);
        if text::same(records[i].name.as_str(), name) {
            match &records[i].data {
                DnsRecordData::Txt(m) => {
                    return Some(m);
                },
                _ => {},
            }
        }
        i = i + 1;
    }
    None
}

/// The name that properties give, if they do.
pub open spec fn friendly_name(m: Map<Seq<char>, Seq<char>>) -> Option<Seq<char>> {
    if m.contains_key("name"@) {
        Some(m["name"@])
    } else if m.contains_key("fn"@) {
        Some(m["fn"@])
    } else if m.contains_key("friendly_name"@) {
        Some(m["friendly_name"@])
    } else {
        None
    }
}

fn find_friendly_name(m: &Table<String>) -> (r: Option<String>)
    ensures
        table::view_option(r) == friendly_name(m@),
{
    match m.get("name") {
        Some(s) => Some(s.clone()),
        None => match m.get("fn") {
            Some(s) => Some(s.clone()),
            None => match m.get("friendly_name") {
                Some(s) => Some(s.clone()),
                None => None,
            },
        },
    }
}

/// Who an edge agent must prove to belong to.
pub type Configured = Option<(Seq<char>, Seq<char>, Seq<u8>)>;

/// What a service record announces.
pub open spec fn announced(
    records: Seq<DnsRecordView>,
    x: DnsRecordView,
    services: Map<Seq<char>, (MdnsService, u64)>,
    configured: Configured,
    now_seconds: i64,
) -> Option<ParsedAdvertisementView> {
    if x.data !is Srv || x.data->Srv_port == 0 {
        None
    } else {
        let port = x.data->Srv_port;
        let service = if services.contains_key(x.name) {
            Some(services[x.name])
        } else {
            match instance_service(x.name) {
                Some(s) => Some((s, 0u64)),
                None => None,
            }
        };
        match service {
            None => None,
            Some((s, pointer_ttl)) => {
                let ttl = advertisement::shorter_life(x.ttl_seconds, pointer_ttl);
                let properties = properties_of(records, x.name, 0);
                if s == MdnsService::Rms && properties is Some
                    && properties->Some_0.contains_key("v"@) {
                    match edge_advertisement::verified(
                        x.name,
                        port,
                        properties->Some_0,
                        now_seconds,
                        configured,
                    ) {
                        Some(v) => advertisement::edge_offer(v, port, ttl),
                        None => None,
                    }
                } else {
                    Some(plain_offer(s, x.name, port, ttl, properties))
                }
            },
        }
    }
}

/// What a service without a signature announces.
pub open spec fn plain_offer(
    s: MdnsService,
    instance: Seq<char>,
    port: u16,
    ttl_seconds: u64,
    properties: Option<Map<Seq<char>, Seq<char>>>,
) -> ParsedAdvertisementView {
    let name = match properties {
        Some(m) => friendly_name(m),
        None => None,
    };
    service_offer(
        s,
        instance,
        match name {
            Some(n) => n,
            None => instance_label(instance, s.name()),
        },
        port,
        if properties is Some && properties->Some_0.contains_key("path"@) {
            advertisement::clean_path(properties->Some_0["path"@])
        } else {
            "/"@
        },
        ttl_seconds,
    )
}

fn offer_plain(
    s: MdnsService,
    instance: &str,
    port: u16,
    ttl_seconds: u64,
    properties: Option<&Table<String>>,
) -> (r: ParsedAdvertisement)
    ensures
        r@ == plain_offer(
            s,
            instance@,
            port,
            ttl_seconds,
            match properties {
                Some(m) => Some(m@),
                None => None,
            },
        ),
{
    let name = match properties {
        Some(m) => find_friendly_name(m),
        None => None,
    };
    let display_name = match name {
        Some(n) => n,
        None => mdns_instance_label(instance, s.service_type()),
    };
    let path = match properties {
        Some(m) => match m.get("path") {
            Some(p) => advertisement::safe_path(p.as_str()),
            None => "/".to_owned(),
        },
        None => "/".to_owned(),
    };
    offer_service(s, instance, display_name.as_str(), port, path, ttl_seconds)
}

fn announce(
    records: &Vec<DnsRecord>,
    x: &DnsRecord,
    services: &Table<PointedService>,
    organization_proof: Option<EdgeOrganizationProof<'_>>,
    now_seconds: i64,
) -> (r: Option<ParsedAdvertisement>)
    requires
        organization_proof is Some ==> organization_proof->Some_0.secret@.len()
            <= crypto::MAX_KEY_BYTES,
    ensures
        table::view_option(r) == announced(
            table::views(records@),
            x@,
            services@,
            edge_advertisement::proof_view(organization_proof),
            now_seconds,
        ),
{
    let port: u16 = match &x.data {
        DnsRecordData::Srv { port } => *port,
        _ => {
            return None;
        },
    };
    if port == 0 {
        return None;
    }
    let (service, pointer_ttl): (MdnsService, u64) = match services.get(x.name.as_str()) {
        Some(p) => (p.service, p.ttl_seconds),
        None => match mdns_profile_for_instance(x.name.as_str()) {
            Some(s) => (s, 0),
            None => {
                return None;
            },
        },
    };
    let ttl: u64 = advertisement::nonzero_min(x.ttl_seconds, pointer_ttl);
    let properties = find_properties(records, x.name.as_str());
    match properties {
        Some(m) => {
            if service == MdnsService::Rms && m.contains("v") {
                return match edge_advertisement::verify(
                    x.name.as_str(),
                    port,
                    m,
                    now_seconds,
                    organization_proof,
                ) {
                    Ok(v) => advertisement::signed_edge_advertisement(v, port, ttl),
                    Err(_) => None,
                };
            }
        },
        None => {},
    }
    Some(offer_plain(service, x.name.as_str(), port, ttl, properties))
}

/// What the records from `i` on announce, after what is announced already.
pub open spec fn announcements(
    records: Seq<DnsRecordView>,
    services: Map<Seq<char>, (MdnsService, u64)>,
    configured: Configured,
    now_seconds: i64,
    i: int,
    done: Seq<ParsedAdvertisementView>,
) -> Seq<ParsedAdvertisementView>
    decreases records.len() - i,
{
    if i < 0 || i >= records.len() {
        done
    } else {
        let next = match announced(records, records[i], services, configured, now_seconds) {
            Some(a) => done.push(a),
            None => done,
        };
        announcements(records, services, configured, now_seconds, i + 1, next)
    }
}

fn collect_announcements(
    records: &Vec<DnsRecord>,
    organization_proof: Option<EdgeOrganizationProof<'_>>,
    now_seconds: i64,
) -> (r: Vec<ParsedAdvertisement>)
    requires
        organization_proof is Some ==> organization_proof->Some_0.secret@.len()
            <= crypto::MAX_KEY_BYTES,
    ensures
        table::views(r@) == announcements(
            table::views(records@),
            pointed(table::views(records@), 0, Map::empty()),
            edge_advertisement::proof_view(organization_proof),
            now_seconds,
            0,
            Seq::empty(),
        ),
{
    let services = collect_pointed(records);
    let ghost all = table::views(records@);
    let ghost configured = edge_advertisement::proof_view(organization_proof);
    let mut r: Vec<ParsedAdvertisement> = Vec::new();
    let mut i: usize = 0;
    proof {
        assert(table::views(r@) =~= Seq::<ParsedAdvertisementView>::empty());
    }
    while i < records.len()
        invariant
            organization_proof is Some ==> organization_proof->Some_0.secret@.len()
                <= crypto::MAX_KEY_BYTES,
            i <= records@.len(),
            all == table::views(records@),
            configured == edge_advertisement::proof_view(organization_proof),
            announcements(all, services@, configured, now_seconds, 0, Seq::empty())
                == announcements(
                all,
                services@,
                configured,
                now_seconds,
                i as int,
                table::views(r@),
            ),
        decreases records@.len() - i,
    {
        assert(all[i as int] == records@[i as int]@);
        match announce(records, &records[i], &services, organization_proof, now_seconds) {
            Some(a) => {
                proof {
                    table::lemma_views_push(r@, a);
                }
                r.push(a);
            },
            None => {},
        }
        i = i + 1;
    }
    r
}

/// What an answer announces.
pub open spec fn answer_announcements(packet: Seq<u8>, configured: Configured, now_seconds: i64) -> Option<
    Seq<ParsedAdvertisementView>,
> {
    if packet.len() > advertisement::MAX_PACKET_SIZE || packet.len() < 12 {
        None
    } else {
        let flags = bytes::be_u16(packet, 2) as u16;
        let questions = bytes::be_u16(packet, 4);
        let records = bytes::be_u16(packet, 6) + bytes::be_u16(packet, 8) + bytes::be_u16(
            packet,
            10,
        );
        if flags & 0x8000 == 0 {
            Some(Seq::empty())
        } else if flags & 0x780f != 0 || questions > MAX_DNS_QUESTIONS || records
            > MAX_DNS_RECORDS {
            None
        } else {
            match after_questions(packet, 12, questions) {
                None => None,
                Some(cursor) => match records_from(packet, cursor, records, Seq::empty()) {
                    None => None,
                    Some(list) => Some(
                        announcements(
                            list,
                            pointed(list, 0, Map::empty()),
                            configured,
                            now_seconds,
                            0,
                            Seq::empty(),
                        ),
                    ),
                },
            }
        }
    }
}

/// Reads an answer to the query for known services.
pub fn parse_mdns_packet(
    packet: &[u8],
    organization_proof: Option<EdgeOrganizationProof<'_>>,
    now_seconds: i64,
) -> (r: Result<Vec<ParsedAdvertisement>, PacketParseError>)
    requires
        organization_proof is Some ==> organization_proof->Some_0.secret@.len()
            <= crypto::MAX_KEY_BYTES,
    ensures
        advertisement::parsed_views(r) == answer_announcements(
            packet@,
            edge_advertisement::proof_view(organization_proof),
            now_seconds,
        ),
{
    advertisement::ensure_packet_size(packet)?;
    if packet.len() < 12 {
        return Err(PacketParseError);
    }
    let flags: u16 = bytes::read_be_u16(packet, 2);
    let questions: usize = bytes::read_be_u16(packet, 4) as usize;
    let answers: usize = bytes::read_be_u16(packet, 6) as usize;
    let authorities: usize = bytes::read_be_u16(packet, 8) as usize;
    let additional: usize = bytes::read_be_u16(packet, 10) as usize;
    if flags & 0x8000 == 0 {
        let none: Vec<ParsedAdvertisement> = Vec::new();
        assert(table::views(none@) =~= Seq::<ParsedAdvertisementView>::empty());
        return Ok(none);
    }
    if flags & 0x780f != 0 {
        return Err(PacketParseError);
    }
    let count: usize = answers + authorities + additional;
    if questions > MAX_DNS_QUESTIONS || count > MAX_DNS_RECORDS {
        return Err(PacketParseError);
    }
    let cursor: usize = skip_questions(packet, 12, questions)?;
    let records = read_records(packet, cursor, count)?;
    Ok(collect_announcements(&records, organization_proof, now_seconds))
}

proof fn lemma_announced_only_services(
    records: Seq<DnsRecordView>,
    services: Map<Seq<char>, (MdnsService, u64)>,
    configured: Configured,
    now_seconds: i64,
    i: int,
    done: Seq<ParsedAdvertisementView>,
)
    requires
        forall|k: int| 0 <= k < done.len() ==> is_known_service(#[trigger] done[k]),
    ensures
        ({
            let all = announcements(records, services, configured, now_seconds, i, done);
            forall|k: int| 0 <= k < all.len() ==> is_known_service(#[trigger] all[k])
        }),
    decreases records.len() - i,
{
    if 0 <= i < records.len() {
        let x = announced(records, records[i], services, configured, now_seconds);
        let next = match x {
            Some(a) => done.push(a),
            None => done,
        };
        assert(x is Some ==> is_known_service(x->Some_0)) by {
            reveal_strlit("rms_edge");
            reveal_strlit("rtsp");
            reveal_strlit("rerun");
            assert("rms_edge"@.len() != "rtsp"@.len() && "rms_edge"@.len() != "rerun"@.len());
            let port = records[i].data->Srv_port;
            let properties = properties_of(records, records[i].name, 0);
            if properties is Some {
                match edge_advertisement::verified(
                    records[i].name,
                    port,
                    properties->Some_0,
                    now_seconds,
                    configured,
                ) {
                    Some(v) => {
                        advertisement::lemma_sources_share_the_port(
                            v.capabilities,
                            v.path,
                            port,
                            v.capabilities.len() as int,
                        );
                    },
                    None => {},
                }
            }
        }
        lemma_announced_only_services(
            records,
            services,
            configured,
            now_seconds,
            i + 1,
            next,
        );
        assert(announcements(records, services, configured, now_seconds, i, done) == announcements(
            records,
            services,
            configured,
            now_seconds,
            i + 1,
            next,
        ));
    }
}

/// Whether an announcement is one that an answer may make: of an edge agent with its verified
/// identity, or of a known service without one; never at port zero.
pub open spec fn is_known_service(a: ParsedAdvertisementView) -> bool {
    a.endpoint_port != 0 && (a.integration_kind == "rms_edge"@ <==> a.edge_identity is Some)
}

/// Everything that an answer announces has a port, and whoever is announced as an edge agent
/// carries a verified identity.
pub proof fn law_answers_announce_known_services(
    packet: Seq<u8>,
    configured: Configured,
    now_seconds: i64,
)
    ensures
        answer_announcements(packet, configured, now_seconds) matches Some(list) ==> forall|k: int|
            0 <= k < list.len() ==> is_known_service(#[trigger] list[k]),
{
    let questions = bytes::be_u16(packet, 4);
    match after_questions(packet, 12, questions) {
        Some(cursor) => {
            let count = bytes::be_u16(packet, 6) + bytes::be_u16(packet, 8) + bytes::be_u16(
                packet,
                10,
            );
            match records_from(packet, cursor, count, Seq::empty()) {
                Some(list) => {
                    lemma_announced_only_services(
                        list,
                        pointed(list, 0, Map::empty()),
                        configured,
                        now_seconds,
                        0,
                        Seq::empty(),
                    );
                },
                None => {},
            }
        },
        None => {},
    }
}

/// A service that an answer tells of without a signature is announced at its port, for the shorter
/// of the lifetimes that its two records give; an RTSP service is a camera and any other a robot.
/// Without a port, and for a name that is no service, nothing is announced.
pub proof fn law_services_are_announced(
    records: Seq<DnsRecordView>,
    x: DnsRecordView,
    services: Map<Seq<char>, (MdnsService, u64)>,
    configured: Configured,
    now_seconds: i64,
)
    ensures
        ({
            let r = announced(records, x, services, configured, now_seconds);
            &&& x.data !is Srv ==> r is None
            &&& x.data is Srv && x.data->Srv_port == 0 ==> r is None
            &&& !services.contains_key(x.name) && instance_service(x.name) is None ==> r is None
            &&& x.data is Srv && x.data->Srv_port != 0 && services.contains_key(x.name) && (
            services[x.name].0 != MdnsService::Rms || properties_of(records, x.name, 0) is None
                || !properties_of(records, x.name, 0)->Some_0.contains_key("v"@)) ==> {
                let (s, ttl) = services[x.name];
                &&& r is Some
                &&& r->Some_0.endpoint_port == x.data->Srv_port
                &&& r->Some_0.edge_identity is None && r->Some_0.additional_sources.len() == 0
                &&& r->Some_0.category == DiscoveryCandidateCategory::Camera <==> s
                    == MdnsService::Rtsp
                &&& r->Some_0.category == DiscoveryCandidateCategory::Robot <==> s
                    != MdnsService::Rtsp
                &&& r->Some_0.protocol == if s == MdnsService::Rtsp {
                    "rtsp"@
                } else {
                    "rerun"@
                }
                &&& x.ttl_seconds > 0 && ttl > 0 ==> r->Some_0.ttl_seconds <= x.ttl_seconds
                    && r->Some_0.ttl_seconds <= ttl && (r->Some_0.ttl_seconds == x.ttl_seconds
                    || r->Some_0.ttl_seconds == ttl)
                &&& properties_of(records, x.name, 0) is None ==> r->Some_0.endpoint_path == "/"@
            }
            &&& x.data is Srv && services.contains_key(x.name) && services[x.name].0
                == MdnsService::Rms && properties_of(records, x.name, 0) is Some && properties_of(
                records,
                x.name,
                0,
            )->Some_0.contains_key("v"@) && r is Some ==> edge_advertisement::verified(
                x.name,
                x.data->Srv_port,
                properties_of(records, x.name, 0)->Some_0,
                now_seconds,
                configured,
            ) is Some
        }),
{
}

proof fn lemma_announcements_of(
    records: Seq<DnsRecordView>,
    services: Map<Seq<char>, (MdnsService, u64)>,
    configured: Configured,
    now_seconds: i64,
    i: int,
    done: Seq<ParsedAdvertisementView>,
)
    requires
        0 <= i <= records.len(),
    ensures
        ({
            let all = announcements(records, services, configured, now_seconds, i, done);
            &&& done.len() <= all.len()
            &&& all.take(done.len() as int) == done
            &&& forall|k: int|
                done.len() <= k < all.len() ==> exists|j: int|
                    i <= j < records.len() && announced(
                        records,
                        #[trigger] records[j],
                        services,
                        configured,
                        now_seconds,
                    ) == Some(#[trigger] all[k])
            &&& forall|j: int|
                i <= j < records.len() && announced(
                    records,
                    #[trigger] records[j],
                    services,
                    configured,
                    now_seconds,
                ) is Some ==> all.contains(
                    announced(records, records[j], services, configured, now_seconds)->Some_0,
                )
        }),
    decreases records.len() - i,
{
    let all = announcements(records, services, configured, now_seconds, i, done);
    if i < records.len() {
        let x = announced(records, records[i], services, configured, now_seconds);
        let next = match x {
            Some(a) => done.push(a),
            None => done,
        };
        lemma_announcements_of(records, services, configured, now_seconds, i + 1, next);
        assert(all.take(next.len() as int) == next);
        assert(all.take(done.len() as int) =~= next.take(done.len() as int));
        if x is Some {
            let at = done.len() as int;
            assert(all[at] == next[at]) by {
                assert(all.take(next.len() as int)[at] == all[at]);
            }
            assert(all.contains(x->Some_0));
        }
        assert forall|k: int| done.len() <= k < all.len() implies exists|j: int|
            i <= j < records.len() && announced(
                records,
                #[trigger] records[j],
                services,
                configured,
                now_seconds,
            ) == Some(#[trigger] all[k]) by {
            if k < next.len() {
                assert(all[k] == all.take(next.len() as int)[k]);
                assert(announced(records, records[i], services, configured, now_seconds) == Some(
                    all[k],
                ));
            }
        }
    } else {
        assert(all.take(done.len() as int) =~= done);
    }
}

/// An answer announces what its records announce: each announcement comes from a record, and no
/// record that announces something is left out.
pub proof fn law_answers_announce_their_records(
    records: Seq<DnsRecordView>,
    services: Map<Seq<char>, (MdnsService, u64)>,
    configured: Configured,
    now_seconds: i64,
    a: ParsedAdvertisementView,
)
    ensures
        announcements(records, services, configured, now_seconds, 0, Seq::empty()).contains(a)
            <==> exists|j: int|
            0 <= j < records.len() && announced(
                records,
                #[trigger] records[j],
                services,
                configured,
                now_seconds,
            ) == Some(a),
{
    let all = announcements(records, services, configured, now_seconds, 0, Seq::empty());
    lemma_announcements_of(records, services, configured, now_seconds, 0, Seq::empty());
    if all.contains(a) {
        let k = choose|k: int| 0 <= k < all.len() && all[k] == a;
        assert(all[k] == a);
    }
}

proof fn lemma_pointed(
    records: Seq<DnsRecordView>,
    i: int,
    m: Map<Seq<char>, (MdnsService, u64)>,
    instance: Seq<char>,
)
    requires
        0 <= i,
    ensures
        pointed(records, i, m).contains_key(instance) <==> m.contains_key(instance) || exists|
            j: int,
        |
            i <= j < records.len() && (#[trigger] records[j]).data == DnsRecordDataView::Ptr(
                instance,
            ) && named_service(records[j].name) is Some,
        pointed(records, i, m).contains_key(instance) ==> (m.contains_pair(
            instance,
            pointed(records, i, m)[instance],
        ) || exists|j: int|
            i <= j < records.len() && (#[trigger] records[j]).data == DnsRecordDataView::Ptr(
                instance,
            ) && named_service(records[j].name) == Some(pointed(records, i, m)[instance].0)
                && records[j].ttl_seconds == pointed(records, i, m)[instance].1),
    decreases records.len() - i,
{
    if i < records.len() {
        let next = match records[i].data {
            DnsRecordDataView::Ptr(other) => match named_service(records[i].name) {
                Some(s) => m.insert(other, (s, records[i].ttl_seconds)),
                None => m,
            },
            _ => m,
        };
        lemma_pointed(records, i + 1, next, instance);
        if next.contains_key(instance) && !m.contains_key(instance) {
            assert(records[i].data == DnsRecordDataView::Ptr(instance));
        }
        if records[i].data == DnsRecordDataView::Ptr(instance) && named_service(records[i].name)
            is Some {
            assert(next.contains_pair(
                instance,
                (named_service(records[i].name)->Some_0, records[i].ttl_seconds),
            ));
        } else {
            assert(next.contains_key(instance) == m.contains_key(instance));
            assert(m.contains_key(instance) ==> next[instance] == m[instance]);
        }
    }
}

/// An instance is one of a service exactly if a pointer of that service's name leads to it, and has
/// the lifetime of such a pointer.
pub proof fn law_pointers_lead_to_instances(records: Seq<DnsRecordView>, instance: Seq<char>)
    ensures
        pointed(records, 0, Map::empty()).contains_key(instance) <==> exists|j: int|
            0 <= j < records.len() && (#[trigger] records[j]).data == DnsRecordDataView::Ptr(
                instance,
            ) && named_service(records[j].name) is Some,
        pointed(records, 0, Map::empty()).contains_key(instance) ==> exists|j: int|
            0 <= j < records.len() && (#[trigger] records[j]).data == DnsRecordDataView::Ptr(
                instance,
            ) && named_service(records[j].name) == Some(
                pointed(records, 0, Map::empty())[instance].0,
            ) && records[j].ttl_seconds == pointed(records, 0, Map::empty())[instance].1,
{
    lemma_pointed(records, 0, Map::empty(), instance);
}

proof fn lemma_written_name(
    packet: Seq<u8>,
    position: int,
    labels: Seq<Seq<char>>,
    i: int,
    done: Seq<Seq<char>>,
    jumps: int,
    encoded: int,
)
    requires
        0 <= position,
        0 <= i <= labels.len(),
        position + label_bytes(labels, i).len() < packet.len(),
        packet.subrange(position, position + label_bytes(labels, i).len()) == label_bytes(
            labels,
            i,
        ),
        packet[position + label_bytes(labels, i).len()] == 0,
        forall|k: int|
            0 <= k < labels.len() ==> 0 < encode_utf8(#[trigger] labels[k]).len() < 64
                && !text::any_control(labels[k]),
        done.len() + (labels.len() - i) <= 32,
        encoded + label_bytes(labels, i).len() <= 254,
        0 <= jumps <= 16,
    ensures
        name_labels(packet, position, done, jumps, encoded) == Some(done + labels.skip(i)),
        name_end(packet, position) == position + label_bytes(labels, i).len() + 1,
    decreases labels.len() - i,
{
    let all = label_bytes(labels, i);
    if i == labels.len() {
        assert(labels.skip(i) =~= Seq::empty());
        assert(done + labels.skip(i) =~= done);
    } else {
        let bytes = encode_utf8(labels[i]);
        let rest = label_bytes(labels, i + 1);
        assert(all == seq![bytes.len() as u8] + bytes + rest);
        let part = packet.subrange(position, position + all.len());
        assert(part[0] == packet[position]);
        let end = position + 1 + bytes.len();
        assert(packet.subrange(position + 1, end) =~= bytes) by {
            assert(part.subrange(1, 1 + bytes.len() as int) =~= packet.subrange(position + 1, end));
            assert(all.subrange(1, 1 + bytes.len() as int) =~= bytes);
        }
        assert(packet.subrange(end, end + rest.len()) =~= rest) by {
            assert(part.skip(1 + bytes.len() as int) =~= packet.subrange(end, end + rest.len()));
            assert(all.skip(1 + bytes.len() as int) =~= rest);
        }
        encode_utf8_valid_utf8(labels[i]);
        encode_utf8_decode_utf8(labels[i]);
        lemma_written_name(
            packet,
            end,
            labels,
            i + 1,
            done.push(labels[i]),
            jumps,
            encoded + bytes.len() + 1,
        );
        assert(done.push(labels[i]) + labels.skip(i + 1) =~= done + labels.skip(i));
    }
}

/// A name that is written label by label, each after its length, and closed by a zero byte is read
/// as it was written, wherever it stands in a packet.
pub proof fn law_written_names_read_back(packet: Seq<u8>, position: int, labels: Seq<Seq<char>>)
    requires
        0 <= position,
        position + label_bytes(labels, 0).len() < packet.len(),
        packet.subrange(position, position + label_bytes(labels, 0).len()) == label_bytes(
            labels,
            0,
        ),
        packet[position + label_bytes(labels, 0).len()] == 0,
        forall|k: int|
            0 <= k < labels.len() ==> 0 < encode_utf8(#[trigger] labels[k]).len() < 64
                && !text::any_control(labels[k]),
        labels.len() <= 32,
        label_bytes(labels, 0).len() <= 254,
    ensures
        name_at(packet, position) == Some(
            (text::joined(labels, "."@), position + label_bytes(labels, 0).len() + 1),
        ),
{
    lemma_written_name(packet, position, labels, 0, Seq::empty(), 0, 0);
    assert(Seq::<Seq<char>>::empty() + labels.skip(0) =~= labels);
}

/// A service record gives the port that its data hold, a pointer the name, and every record the
/// lifetime, each in the order of network bytes.
pub proof fn law_records_are_read_as_written(packet: Seq<u8>, cursor: int)
    ensures
        record_at(packet, cursor) matches Some((x, end)) ==> {
            let after = name_at(packet, cursor)->Some_0.1;
            let record_type = 256 * packet[after] + packet[after + 1];
            &&& name_at(packet, cursor) is Some
            &&& end == after + 10 + 256 * packet[after + 8] + packet[after + 9] && end
                <= packet.len()
            &&& x.ttl_seconds == 16_777_216 * packet[after + 4] + 65_536 * packet[after + 5] + 256
                * packet[after + 6] + packet[after + 7]
            &&& record_type == 33 ==> x.data is Srv && x.data->Srv_port == 256 * packet[after + 14]
                + packet[after + 15]
            &&& record_type == 12 ==> x.data is Ptr && name_at(packet, after + 10) is Some
                && x.data->Ptr_0 == normal_name(name_at(packet, after + 10)->Some_0.0)
            &&& record_type == 16 ==> x.data is Txt
            &&& record_type != 33 && record_type != 12 && record_type != 16 ==> x.data is Other
        },
{
}

/// A property of a text record counts under its name in small letters, with at most 256 characters
/// of its value, unless the name was given before; other properties stay.
pub proof fn law_first_properties_count(
    m: Map<Seq<char>, Seq<char>>,
    key: Seq<char>,
    value: Seq<char>,
    other: Seq<char>,
)
    requires
        is_property_key(key),
        !key.contains('='),
    ensures
        ({
            let after = with_property(m, encode_utf8(key + seq!['='] + value));
            &&& !m.contains_key(text::lowercase(key)) ==> after.contains_pair(
                text::lowercase(key),
                if value.len() > 256 {
                    value.take(256)
                } else {
                    value
                },
            )
            &&& m.contains_key(text::lowercase(key)) ==> after == m
            &&& other != text::lowercase(key) ==> (after.contains_key(other) <==> m.contains_key(
                other,
            )) && (m.contains_key(other) ==> after[other] == m[other])
        }),
{
    let whole = key + seq!['='] + value;
    encode_utf8_valid_utf8(whole);
    encode_utf8_decode_utf8(whole);
    whole.index_of_first_ensures('=');
    assert(whole[key.len() as int] == '=');
    let at = whole.index_of_first('=')->Some_0;
    assert(at == key.len()) by {
        if at < key.len() {
            assert(key[at] == '=');
            assert(key.contains('='));
        }
    }
    assert(whole.take(at) =~= key);
    assert(whole.skip(at + 1) =~= value);
}

} // verus!
