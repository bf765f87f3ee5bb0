//! Who may talk to the local server: the hosts it answers for and the origins it serves.

use crate::discovery::SourceAddress;
use crate::discovery_rules;
use crate::table;
use crate::table::Table;
use crate::text;
use vstd::prelude::*;

verus! {

/// The host of a URI authority, if the text is one.
pub uninterp spec fn authority_host(s: Seq<char>) -> Option<Seq<char>>;

/// `axum::http::uri::Authority`: the host of the authority that a text parses as, or nothing if it
/// does not parse. What the host is follows from the text alone and is only named.
#[verifier::external_body]
fn parse_authority(s: &str) -> (r: Option<String>)
    ensures
        table::view_option(r) == authority_host(s@),
{
    let parsed = s.parse::<axum::http::uri::Authority>();
    match parsed {
        Ok(authority) => Some(authority.host().to_owned()),
        Err(_) => None,
    }
}

/// The entries of a comma separated list that are not blank, trimmed and in lower case, from an
/// index on.
pub open spec fn listed_from(entries: Seq<Seq<char>>, i: int) -> Seq<Seq<char>>
    decreases entries.len() - i,
{
    if i < 0 || i >= entries.len() {
        Seq::empty()
    } else {
        let entry = text::trim(entries[i]);
        let rest = listed_from(entries, i + 1);
        if entry.len() == 0 {
            rest
        } else {
            seq![text::lowercase(entry)] + rest
        }
    }
}

pub open spec fn listed(setting: Seq<char>) -> Seq<Seq<char>> {
    listed_from(text::parts(setting, ','), 0)
}

/// The values of a setting.
pub fn configured_values(setting: &str) -> (r: Vec<String>)
    ensures
        table::views(r@) == listed(setting@),
{
    let entries = text::split_all(setting, ',');
    let ghost all = table::views(entries@);
    let mut r: Vec<String> = Vec::new();
    let mut i: usize = 0;
    proof {
        assert(table::views(r@) + listed_from(all, 0) =~= listed_from(all, 0));
    }
    while i < entries.len()
        invariant
            i <= entries@.len(),
            all == table::views(entries@),
            table::views(r@) + listed_from(all, i as int) == listed_from(all, 0),
        decreases entries@.len() - i,
    {
        assert(all[i as int] == entries@[i as int]@);
        let entry = text::trimmed(entries[i].as_str());
        if !text::is_blank(entries[i].as_str()) {
            let one = text::lowered(entry.as_str());
            let ghost before = table::views(r@);
            proof {
                table::lemma_views_push(r@, one);
                assert(before + (seq![one@] + listed_from(all, i + 1)) =~= before.push(one@)
                    + listed_from(all, i + 1));
            }
            r.push(one);
        }
        i = i + 1;
    }
    proof {
        assert(table::views(r@) + Seq::<Seq<char>>::empty() =~= table::views(r@));
    }
    r
}

/// Whether a host of an authority names this machine.
pub open spec fn names_this_machine(host: Option<Seq<char>>) -> bool {
    host matches Some(h) && (h == "127.0.0.1"@ || h == "localhost"@ || h == "::1"@ || h
        == "[::1]"@)
}

pub fn is_this_machine(host: &Option<String>) -> (r: bool)
    ensures
        r == names_this_machine(table::view_option(*host)),
{
    match host {
        Some(h) => text::same(h.as_str(), "127.0.0.1") || text::same(h.as_str(), "localhost")
            || text::same(h.as_str(), "::1") || text::same(h.as_str(), "[::1]"),
        None => false,
    }
}

/// The host that a request names, as it is compared.
pub open spec fn named_host(raw: Option<Seq<u8>>) -> Option<Seq<char>> {
    match raw {
        Some(bytes) => if discovery_rules::all_visible(bytes) {
            Some(text::lowercase(text::trim(discovery_rules::ascii_text(bytes))))
        } else {
            None
        },
        None => None,
    }
}

/// Whether the server answers for the host that a request names.
pub open spec fn host_allowed(raw: Option<Seq<u8>>, setting: Seq<char>) -> bool {
    named_host(raw) matches Some(host) && (listed(setting).contains(host) || names_this_machine(
        authority_host(host),
    ))
}

/// Checks the host header; `setting` lists further hosts.
pub fn host_is_allowed(raw: &Option<Vec<u8>>, setting: &str) -> (r: bool)
    ensures
        r == host_allowed(discovery_rules::raw_view(*raw), setting@),
{
    let shown = match raw {
        Some(bytes) => match discovery_rules::visible_text(bytes.as_slice()) {
            Some(s) => s,
            None => {
                return false;
            },
        },
        None => {
            return false;
        },
    };
    let host = text::lowered(text::trimmed(shown.as_str()).as_str());
    if table::is_listed(&configured_values(setting), host.as_str()) {
        return true;
    }
    is_this_machine(&parse_authority(host.as_str()))
}

pub open spec fn is_default_origin(s: Seq<char>) -> bool {
    s == "http://127.0.0.1:4173"@ || s == "http://localhost:4173"@
}

/// The origin of a request that the server serves: none, or one that is listed.
pub open spec fn served_origin(raw: Option<Seq<u8>>, setting: Seq<char>) -> Result<
    Option<Seq<char>>,
    (),
> {
    match raw {
        None => Ok(None),
        Some(bytes) => if !discovery_rules::all_visible(bytes) {
            Err(())
        } else {
            let origin = discovery_rules::ascii_text(bytes);
            if is_default_origin(origin) || listed(setting).contains(origin) {
                Ok(Some(origin))
            } else {
                Err(())
            }
        },
    }
}

pub open spec fn origin_view(r: Result<Option<String>, ()>) -> Result<Option<Seq<char>>, ()> {
    match r {
        Ok(o) => Ok(table::view_option(o)),
        Err(e) => Err(e),
    }
}

/// Checks the origin header; `setting` lists further origins.
pub fn allowed_origin(raw: &Option<Vec<u8>>, setting: &str) -> (r: Result<Option<String>, ()>)
    ensures
        origin_view(r) == served_origin(discovery_rules::raw_view(*raw), setting@),
{
    let origin = match raw {
        Some(bytes) => match discovery_rules::visible_text(bytes.as_slice()) {
            Some(s) => s,
            None => {
                return Err(());
            },
        },
        None => {
            return Ok(None);
        },
    };
    if text::same(origin.as_str(), "http://127.0.0.1:4173") || text::same(
        origin.as_str(),
        "http://localhost:4173",
    ) || table::is_listed(&configured_values(setting), origin.as_str()) {
        Ok(Some(origin))
    } else {
        Err(())
    }
}

/// What the server does with a request.
#[derive(Debug)]
pub enum Gate {
    /// Refuse it, and say why.
    Forbidden(String),
    /// Answer that requests of an origin are allowed.
    Preflight(String),
    /// Pass it on; an origin is told that it may read the answer.
    Forward(Option<String>),
}

pub enum GateView {
    Forbidden(Seq<char>),
    Preflight(Seq<char>),
    Forward(Option<Seq<char>>),
}

impl View for Gate {
    type V = GateView;

    open spec fn view(&self) -> GateView {
        match self {
            Gate::Forbidden(s) => GateView::Forbidden(s@),
            Gate::Preflight(s) => GateView::Preflight(s@),
            Gate::Forward(o) => GateView::Forward(table::view_option(*o)),
        }
    }
}

/// What is known of a request before it is served.
#[derive(Debug)]
pub struct RequestHead {
    pub host: Option<Vec<u8>>,
    pub origin: Option<Vec<u8>>,
    /// Whether it asks for options on behalf of another method.
    pub is_preflight: bool,
}

pub open spec fn gate(q: RequestHead, hosts: Seq<char>, origins: Seq<char>) -> GateView {
    if !host_allowed(discovery_rules::raw_view(q.host), hosts) {
        GateView::Forbidden("The Host header is not allowed by the local RMS server."@)
    } else {
        match served_origin(discovery_rules::raw_view(q.origin), origins) {
            Err(_) => GateView::Forbidden(
                "The Origin header is not allowed by the local RMS server."@,
            ),
            Ok(origin) => if q.is_preflight {
                match origin {
                    None => GateView::Forbidden(
                        "CORS preflight requires an allowed Origin header."@,
                    ),
                    Some(o) => GateView::Preflight(o),
                }
            } else {
                GateView::Forward(origin)
            },
        }
    }
}

/// Decides on a request; the settings list further hosts and origins.
pub fn validate_request(request: &RequestHead, hosts: &str, origins: &str) -> (r: Gate)
    ensures
        r@ == gate(*request, hosts@, origins@),
{
    if !host_is_allowed(&request.host, hosts) {
        return Gate::Forbidden(
            "The Host header is not allowed by the local RMS server.".to_owned(),
        );
    }
    match allowed_origin(&request.origin, origins) {
        Err(_) => Gate::Forbidden(
            "The Origin header is not allowed by the local RMS server.".to_owned(),
        ),
        Ok(origin) => if request.is_preflight {
            match origin {
                None => Gate::Forbidden(
                    "CORS preflight requires an allowed Origin header.".to_owned(),
                ),
                Some(o) => Gate::Preflight(o),
            }
        } else {
            Gate::Forward(origin)
        },
    }
}

/// The headers that let an origin read an answer, added to others.
pub open spec fn with_cors(m: Map<Seq<char>, Seq<char>>, origin: Seq<char>) -> Map<
    Seq<char>,
    Seq<char>,
> {
    m.insert("access-control-allow-origin"@, origin).insert(
        "access-control-allow-credentials"@,
        "true"@,
    ).insert(
        "access-control-expose-headers"@,
        "Accept-Ranges, Content-Length, Content-Range, ETag"@,
    ).insert("vary"@, "Origin"@)
}

pub fn add_cors_headers(headers: &mut Table<String>, origin: &str)
    ensures
        final(headers)@ == with_cors(old(headers)@, origin@),
{
    let _ = headers.insert("access-control-allow-origin".to_owned(), origin.to_owned());
    let _ = headers.insert("access-control-allow-credentials".to_owned(), "true".to_owned());
    let _ = headers.insert(
        "access-control-expose-headers".to_owned(),
        "Accept-Ranges, Content-Length, Content-Range, ETag".to_owned(),
    );
    let _ = headers.insert("vary".to_owned(), "Origin".to_owned());
}

/// The headers of the answer that allows requests of an origin.
pub fn preflight_headers(origin: &str) -> (r: Table<String>)
    ensures
        r@ == with_cors(Map::empty(), origin@).insert(
            "access-control-allow-methods"@,
            "GET, POST, DELETE, OPTIONS"@,
        ).insert(
            "access-control-allow-headers"@,
            "Content-Type, Idempotency-Key, X-RMS-Request-ID"@,
        ).insert("access-control-max-age"@, "600"@),
{
    let mut r: Table<String> = Table::new();
    proof {
        assert(r@ =~= Map::<Seq<char>, Seq<char>>::empty());
    }
    add_cors_headers(&mut r, origin);
    let _ = r.insert(
        "access-control-allow-methods".to_owned(),
        "GET, POST, DELETE, OPTIONS".to_owned(),
    );
    let _ = r.insert(
        "access-control-allow-headers".to_owned(),
        "Content-Type, Idempotency-Key, X-RMS-Request-ID".to_owned(),
    );
    let _ = r.insert("access-control-max-age".to_owned(), "600".to_owned());
    r
}

/// Whether an address is one of this machine alone.
pub open spec fn is_loopback(address: SourceAddress) -> bool {
    match address {
        SourceAddress::V4 { a, .. } => a == 127,
        SourceAddress::V6 { high, low } => high == 0 && low == 1,
    }
}

/// Checks the address that the server is to listen on.
pub fn check_bind_address(address: SourceAddress) -> (r: Result<(), String>)
    ensures
        match r {
            Ok(()) => is_loopback(address),
            Err(e) => !is_loopback(address) && e@
                == "RMS_BIND_ADDR must use a loopback address; publish selected routes through an authenticated TLS gateway"@,
        },
{
    let local = match address {
        SourceAddress::V4 { a, .. } => a == 127,
        SourceAddress::V6 { high, low } => high == 0 && low == 1,
    };
    if local {
        Ok(())
    } else {
        Err(
            "RMS_BIND_ADDR must use a loopback address; publish selected routes through an authenticated TLS gateway".to_owned(),
        )
    }
}

/// Without settings a request passes only if it names this machine and comes from no origin, or
/// from one of the two default ones.
pub proof fn law_only_local_requests_pass(q: RequestHead)
    ensures
        gate(q, ""@, ""@) !is Forbidden ==> {
            &&& named_host(discovery_rules::raw_view(q.host)) is Some
            &&& names_this_machine(
                authority_host(named_host(discovery_rules::raw_view(q.host))->Some_0),
            )
            &&& q.origin matches Some(origin) ==> is_default_origin(
                discovery_rules::ascii_text(origin@),
            )
        },
{
    reveal_strlit("");
    lemma_nothing_listed(""@);
}

proof fn lemma_nothing_listed(setting: Seq<char>)
    requires
        setting.len() == 0,
    ensures
        listed(setting) == Seq::<Seq<char>>::empty(),
{
    setting.index_of_first_ensures(',');
    let entries = text::parts(setting, ',');
    assert(entries.len() == 1);
    assert(listed_from(entries, 1) =~= Seq::<Seq<char>>::empty());
    assert(text::trim(entries[0]).len() == 0);
}

proof fn lemma_listed_entry(entries: Seq<Seq<char>>, i: int, entry: Seq<char>)
    requires
        0 <= i,
    ensures
        listed_from(entries, i).contains(entry) <==> exists|k: int|
            i <= k < entries.len() && text::trim(#[trigger] entries[k]).len() > 0 && entry
                == text::lowercase(text::trim(entries[k])),
    decreases entries.len() - i,
{
    if i < entries.len() {
        lemma_listed_entry(entries, i + 1, entry);
        let rest = listed_from(entries, i + 1);
        let first = text::trim(entries[i]);
        if first.len() > 0 {
            let whole = seq![text::lowercase(first)] + rest;
            assert(listed_from(entries, i) == whole);
            if rest.contains(entry) {
                let j = choose|j: int| 0 <= j < rest.len() && rest[j] == entry;
                assert(whole[j + 1] == entry);
            }
            if entry == text::lowercase(first) {
                assert(whole[0] == entry);
            }
            if whole.contains(entry) {
                let j = choose|j: int| 0 <= j < whole.len() && whole[j] == entry;
                if j > 0 {
                    assert(rest[j - 1] == entry);
                } else {
                    assert(entry == text::lowercase(text::trim(entries[i])));
                }
            }
        }
    }
}

/// Every entry of a setting between commas that is not blank is listed, trimmed and in lower case,
/// and nothing else is.
pub proof fn law_settings_list_their_entries(setting: Seq<char>, entry: Seq<char>)
    ensures
        listed(setting).contains(entry) <==> exists|k: int|
            0 <= k < text::parts(setting, ',').len() && text::trim(
                #[trigger] text::parts(setting, ',')[k],
            ).len() > 0 && entry == text::lowercase(text::trim(text::parts(setting, ',')[k])),
{
    lemma_listed_entry(text::parts(setting, ','), 0, entry);
}

/// A request is refused exactly if its host is not visible text that is listed or names this
/// machine, if its origin is not visible text that is listed or one of the two default ones, or if
/// it asks for options and names no origin. Otherwise options are answered to the origin that asks,
/// and any other request is passed on with its origin.
pub proof fn law_requests_pass_for_known_hosts_and_origins(
    q: RequestHead,
    hosts: Seq<char>,
    origins: Seq<char>,
)
    ensures
        gate(q, hosts, origins) !is Forbidden <==> {
            &&& q.host is Some
            &&& forall|i: int|
                0 <= i < q.host->Some_0@.len() ==> #[trigger] q.host->Some_0@[i] == 9 || 32
                    <= q.host->Some_0@[i] < 127
            &&& {
                let host = text::lowercase(
                    text::trim(discovery_rules::ascii_text(q.host->Some_0@)),
                );
                let name = authority_host(host);
                listed(hosts).contains(host) || name == Some("127.0.0.1"@) || name == Some(
                    "localhost"@,
                ) || name == Some("::1"@) || name == Some("[::1]"@)
            }
            &&& q.origin is Some ==> {
                let origin = discovery_rules::ascii_text(q.origin->Some_0@);
                &&& forall|i: int|
                    0 <= i < q.origin->Some_0@.len() ==> #[trigger] q.origin->Some_0@[i] == 9 || 32
                        <= q.origin->Some_0@[i] < 127
                &&& listed(origins).contains(origin) || origin == "http://127.0.0.1:4173"@
                    || origin == "http://localhost:4173"@
            }
            &&& q.is_preflight ==> q.origin is Some
        },
        gate(q, hosts, origins) matches GateView::Preflight(o) ==> q.is_preflight && q.origin
            is Some && o == discovery_rules::ascii_text(q.origin->Some_0@),
        gate(q, hosts, origins) matches GateView::Forward(o) ==> !q.is_preflight && match q.origin {
            None => o is None,
            Some(origin) => o == Some(discovery_rules::ascii_text(origin@)),
        },
{
}

/// An answer to an origin names that origin, allows its credentials, and says that it varies with
/// the origin; the other headers stay.
pub proof fn law_answers_name_their_origin(
    m: Map<Seq<char>, Seq<char>>,
    origin: Seq<char>,
    key: Seq<char>,
)
    ensures
        with_cors(m, origin).contains_pair("access-control-allow-origin"@, origin),
        with_cors(m, origin).contains_pair("access-control-allow-credentials"@, "true"@),
        with_cors(m, origin).contains_pair("vary"@, "Origin"@),
        key != "access-control-allow-origin"@ && key != "access-control-allow-credentials"@ && key
            != "access-control-expose-headers"@ && key != "vary"@ ==> (with_cors(
            m,
            origin,
        ).contains_key(key) <==> m.contains_key(key)) && (m.contains_key(key) ==> with_cors(
            m,
            origin,
        )[key] == m[key]),
{
    reveal_strlit("access-control-allow-origin");
    reveal_strlit("access-control-allow-credentials");
    reveal_strlit("access-control-expose-headers");
    reveal_strlit("vary");
    assert("access-control-allow-origin"@.len() == 27);
    assert("access-control-allow-credentials"@.len() == 32);
    assert("access-control-expose-headers"@.len() == 29);
    assert("vary"@.len() == 4);
}

} // verus!
