//! The signed announcement that an edge agent makes of itself on the local network.

use crate::crypto;
use crate::encoding;
use crate::table;
use crate::table::Table;
use crate::text;
use vstd::prelude::*;
use vstd::string::*;
use vstd::utf8::*;

verus! {

pub const MAX_CLOCK_SKEW_SECONDS: u64 = 120;
pub const MAX_NAME_LEN: usize = 64;
pub const MAX_PATH_LEN: usize = 256;
pub const MAX_ORG_KEY_ID_LEN: usize = 32;
pub const MAX_ORGANIZATION_ID_LEN: usize = 64;
pub const MAX_CAPABILITIES_LEN: usize = 64;
pub const MIN_SECRET_LEN: usize = 32;

/// A kind of data that an edge agent can bring in.
#[derive(Clone, Copy, Debug, PartialEq, Eq, PartialOrd, Ord, Structural)]
pub enum EdgeCapability {
    Mavlink,
    Ros2Dds,
    Status,
}

impl EdgeCapability {
    pub open spec fn read(value: Seq<char>) -> Option<EdgeCapability> {
        if value == "mavlink"@ {
            Some(EdgeCapability::Mavlink)
        } else if value == "ros2_dds"@ {
            Some(EdgeCapability::Ros2Dds)
        } else if value == "status"@ {
            Some(EdgeCapability::Status)
        } else {
            None
        }
    }

    pub fn parse(value: &str) -> (r: Option<EdgeCapability>)
        ensures
            r == EdgeCapability::read(value@),
    {
        if text::same(value, "mavlink") {
            Some(EdgeCapability::Mavlink)
        } else if text::same(value, "ros2_dds") {
            Some(EdgeCapability::Ros2Dds)
        } else if text::same(value, "status") {
            Some(EdgeCapability::Status)
        } else {
            None
        }
    }
}

/// The secret that this service shares with the agents of its organization.
#[derive(Clone, Copy, Debug, PartialEq, Eq)]
pub struct EdgeOrganizationProof<'a> {
    pub organization_id: &'a str,
    pub key_id: &'a str,
    pub secret: &'a [u8],
}

/// What an accepted announcement says.
#[derive(Clone, Debug, PartialEq, Eq)]
pub struct VerifiedEdgeAdvertisement {
    pub device_id: String,
    pub public_key: [u8; 32],
    pub nonce: [u8; 16],
    pub timestamp_seconds: i64,
    pub display_name: String,
    pub device_kind: &'static str,
    pub capabilities: Vec<EdgeCapability>,
    pub path: String,
    pub organization_id: Option<String>,
    pub organization_trusted: bool,
}

#[verifier::ext_equal]
pub struct VerifiedEdgeAdvertisementView {
    pub device_id: Seq<char>,
    pub public_key: Seq<u8>,
    pub nonce: Seq<u8>,
    pub timestamp_seconds: i64,
    pub display_name: Seq<char>,
    pub device_kind: Seq<char>,
    pub capabilities: Seq<EdgeCapability>,
    pub path: Seq<char>,
    pub organization_id: Option<Seq<char>>,
    pub organization_trusted: bool,
}

impl View for VerifiedEdgeAdvertisement {
    type V = VerifiedEdgeAdvertisementView;

    open spec fn view(&self) -> VerifiedEdgeAdvertisementView {
        VerifiedEdgeAdvertisementView {
            device_id: self.device_id@,
            public_key: self.public_key@,
            nonce: self.nonce@,
            timestamp_seconds: self.timestamp_seconds,
            display_name: self.display_name@,
            device_kind: self.device_kind@,
            capabilities: self.capabilities@,
            path: self.path@,
            organization_id: table::view_option(self.organization_id),
            organization_trusted: self.organization_trusted,
        }
    }
}

/// An announcement that is not accepted.
#[derive(Clone, Copy, Debug, PartialEq, Eq, Structural)]
pub struct InvalidEdgeAdvertisement;

pub open spec fn is_required(field: Seq<char>) -> bool {
    field == "caps"@ || field == "id"@ || field == "kind"@ || field == "name"@ || field == "nonce"@
        || field == "path"@ || field == "pk"@ || field == "sig"@ || field == "ts"@ || field == "v"@
}

pub open spec fn is_optional(field: Seq<char>) -> bool {
    field == "org"@ || field == "org_kid"@ || field == "org_proof"@
}

fn known_field(field: &str) -> (r: bool)
    ensures
        r == (is_required(field@) || is_optional(field@)),
{
    text::same(field, "caps") || text::same(field, "id") || text::same(field, "kind")
        || text::same(field, "name") || text::same(field, "nonce") || text::same(field, "path")
        || text::same(field, "pk") || text::same(field, "sig") || text::same(field, "ts")
        || text::same(field, "v") || text::same(field, "org") || text::same(field, "org_kid")
        || text::same(field, "org_proof")
}

/// Whether the fields of an announcement are all known, and none that is required is missing.
pub open spec fn fields_fit(properties: Map<Seq<char>, Seq<char>>) -> bool {
    &&& properties.len() <= 13
    &&& forall|k: Seq<char>| #[trigger]
        properties.contains_key(k) ==> is_required(k) || is_optional(k)
    &&& forall|k: Seq<char>| #[trigger] is_required(k) ==> properties.contains_key(k)
}

fn check_fields(properties: &Table<String>) -> (r: bool)
    ensures
        r == fields_fit(properties@),
{
    let n: usize = properties.len();
    if n > 13 {
        return false;
    }
    let mut i: usize = 0;
    while i < n
        invariant
            i <= n,
            n == properties.items().len(),
            table::keys_ascend(properties.items()),
            forall|j: int|
                0 <= j < i ==> is_required((#[trigger] properties.items()[j]).0) || is_optional(
                    properties.items()[j].0,
                ),
        decreases n - i,
    {
        let key = properties.key_at(i);
        if !known_field(key.as_str()) {
            assert(properties@.contains_key(key@));
            return false;
        }
        i = i + 1;
    }
    proof {
        table::lemma_items_all(properties.items());
        assert forall|k: Seq<char>| #[trigger] properties@.contains_key(k) implies is_required(k)
            || is_optional(k) by {
            let j = table::key_index(properties.items(), k);
            assert(properties.items()[j].0 == k);
        }
    }
    let all = properties.contains("caps") && properties.contains("id") && properties.contains(
        "kind",
    ) && properties.contains("name") && properties.contains("nonce") && properties.contains("path")
        && properties.contains("pk") && properties.contains("sig") && properties.contains("ts")
        && properties.contains("v");
    proof {
        if !all {
            assert(is_required("caps"@) && is_required("id"@) && is_required("kind"@)
                && is_required("name"@) && is_required("nonce"@) && is_required("path"@)
                && is_required("pk"@) && is_required("sig"@) && is_required("ts"@) && is_required(
                "v"@,
            ));
        }
    }
    all
}

/// The value of a field, if it is there and not empty.
pub open spec fn field_of(properties: Map<Seq<char>, Seq<char>>, field: Seq<char>) -> Option<
    Seq<char>,
> {
    if properties.contains_key(field) && properties[field].len() > 0 {
        Some(properties[field])
    } else {
        None
    }
}

fn required<'a>(properties: &'a Table<String>, field: &str) -> (r: Result<
    &'a str,
    InvalidEdgeAdvertisement,
>)
    ensures
        match r {
            Ok(s) => field_of(properties@, field@) == Some(s@),
            Err(_) => field_of(properties@, field@) is None,
        },
{
    match properties.get(field) {
        Some(s) => {
            if s.as_str().is_empty() {
                Err(InvalidEdgeAdvertisement)
            } else {
                Ok(s.as_str())
            }
        },
        None => Err(InvalidEdgeAdvertisement),
    }
}

pub open spec fn token_char(c: char) -> bool {
    text::is_alphanumeric(c) || c == '-' || c == '_' || c == '.'
}

pub open spec fn organization_token(value: Seq<char>, maximum: usize) -> bool {
    value.len() > 0 && text::byte_len(value) <= maximum && text::all_are(
        value,
        |c: char| token_char(c),
    )
}

pub fn valid_organization_token(value: &str, maximum: usize) -> (r: bool)
    ensures
        r == organization_token(value@, maximum),
{
    let test = |c: char| -> (b: bool)
        ensures
            b == token_char(c),
        { text::ascii_alphanumeric(c) || c == '-' || c == '_' || c == '.' };
    !value.is_empty() && text::utf8_size(value) <= maximum && text::all_chars(
        value,
        test,
        Ghost(|c: char| token_char(c)),
    )
}

/// Whether texts stand in strictly ascending order.
pub open spec fn ascending(texts: Seq<Seq<char>>) -> bool {
    forall|i: int, j: int|
        0 <= i < j < texts.len() ==> text::less(#[trigger] texts[i], #[trigger] texts[j])
}

/// The capabilities that a text lists: known ones, in order and once each.
pub open spec fn capabilities_of(value: Seq<char>) -> Option<Seq<EdgeCapability>> {
    let names = text::parts(value, ',');
    if value.len() > 0 && text::byte_len(value) <= MAX_CAPABILITIES_LEN && ascending(names) && (
    forall|i: int| 0 <= i < names.len() ==> EdgeCapability::read(#[trigger] names[i]) is Some) {
        Some(Seq::new(names.len(), |i: int| EdgeCapability::read(names[i])->Some_0))
    } else {
        None
    }
}

pub open spec fn listed(r: Result<Vec<EdgeCapability>, InvalidEdgeAdvertisement>) -> Option<
    Seq<EdgeCapability>,
> {
    match r {
        Ok(v) => Some(v@),
        Err(_) => None,
    }
}

pub fn parse_capabilities(value: &str) -> (r: Result<Vec<EdgeCapability>, InvalidEdgeAdvertisement>)
    ensures
        listed(r) == capabilities_of(value@),
{
    if value.is_empty() || text::utf8_size(value) > MAX_CAPABILITIES_LEN {
        return Err(InvalidEdgeAdvertisement);
    }
    let names = text::split_all(value, ',');
    let ghost views = table::views(names@);
    let mut r: Vec<EdgeCapability> = Vec::new();
    let mut i: usize = 0;
    while i < names.len()
        invariant
            i <= names@.len(),
            views == table::views(names@),
            views == text::parts(value@, ','),
            r@.len() == i,
            ascending(views.take(i as int)),
            forall|j: int|
                0 <= j < i ==> EdgeCapability::read(#[trigger] views[j]) == Some(r@[j]),
        decreases names@.len() - i,
    {
        assert(views[i as int] == names@[i as int]@);
        if i > 0 {
            assert(views[i - 1] == names@[i - 1]@);
            if !text::is_less(names[i - 1].as_str(), names[i].as_str()) {
                return Err(InvalidEdgeAdvertisement);
            }
        }
        match EdgeCapability::parse(names[i].as_str()) {
            Some(c) => {
                r.push(c);
            },
            None => {
                return Err(InvalidEdgeAdvertisement);
            },
        }
        proof {
            let next = views.take(i + 1);
            assert forall|a: int, b: int| 0 <= a < b < next.len() implies text::less(
                #[trigger] next[a],
                #[trigger] next[b],
            ) by {
                let before = views.take(i as int);
                if b < i {
                    assert(text::less(before[a], before[b]));
                } else if a < i - 1 {
                    assert(text::less(before[a], before[i - 1]));
                    text::lemma_less_transitive(next[a], next[i - 1], next[b]);
                }
            }
        }
        i = i + 1;
    }
    proof {
        assert(views.take(names@.len() as int) =~= views);
        assert(r@ =~= Seq::new(views.len(), |i: int| EdgeCapability::read(views[i])->Some_0));
    }
    Ok(r)
}

pub open spec fn known_kind(value: Seq<char>) -> bool {
    value == "robot"@ || value == "drone"@ || value == "vehicle"@ || value == "camera"@ || value
        == "gateway"@
}

pub fn parse_device_kind(value: &str) -> (r: Result<&'static str, InvalidEdgeAdvertisement>)
    ensures
        match r {
            Ok(kind) => known_kind(value@) && kind@ == value@,
            Err(_) => !known_kind(value@),
        },
{
    if text::same(value, "robot") {
        Ok("robot")
    } else if text::same(value, "drone") {
        Ok("drone")
    } else if text::same(value, "vehicle") {
        Ok("vehicle")
    } else if text::same(value, "camera") {
        Ok("camera")
    } else if text::same(value, "gateway") {
        Ok("gateway")
    } else {
        Err(InvalidEdgeAdvertisement)
    }
}

pub open spec fn path_char(c: char) -> bool {
    text::is_alphanumeric(c) || c == '/' || c == '-' || c == '_' || c == '.' || c == '~'
}

/// Whether a text is an absolute path of plain characters that never climbs.
pub open spec fn plain_path(path: Seq<char>) -> bool {
    path.len() > 0 && path[0] == '/' && text::byte_len(path) <= MAX_PATH_LEN
        && !text::contains_text(path, ".."@) && text::all_are(path, |c: char| path_char(c))
}

pub fn validate_path(path: &str) -> (r: Result<(), InvalidEdgeAdvertisement>)
    ensures
        r is Ok <==> plain_path(path@),
{
    let test = |c: char| -> (b: bool)
        ensures
            b == path_char(c),
        {
            text::ascii_alphanumeric(c) || c == '/' || c == '-' || c == '_' || c == '.' || c == '~'
        };
    if path.is_empty() || text::utf8_size(path) > MAX_PATH_LEN || text::chars_of(path)[0] != '/'
        || text::contains(path, "..") || !text::all_chars(
        path,
        test,
        Ghost(|c: char| path_char(c)),
    ) {
        return Err(InvalidEdgeAdvertisement);
    }
    Ok(())
}

/// The text that an announcement signs.
pub open spec fn canonical(
    instance: Seq<char>,
    device_id: Seq<char>,
    nonce: Seq<char>,
    timestamp_seconds: i64,
    port: u16,
    path: Seq<char>,
    device_kind: Seq<char>,
    capabilities: Seq<char>,
    display_name: Seq<char>,
) -> Seq<char> {
    "rms-advertisement-v1\nservice=_rms._tcp.local\ninstance="@ + instance + "\nid="@ + device_id
        + "\nnonce="@ + nonce + "\nts="@ + text::signed(timestamp_seconds as int) + "\nport="@
        + text::decimal(port as nat) + "\npath="@ + path + "\nkind="@ + device_kind + "\ncaps="@
        + capabilities + "\nname="@ + display_name
}

/// The text that an announcement signs.
pub fn canonical_bytes(
    instance: &str,
    device_id: &str,
    nonce: &str,
    timestamp_seconds: i64,
    port: u16,
    path: &str,
    device_kind: &str,
    capabilities: &str,
    display_name: &str,
) -> (r: String)
    ensures
        r@ == canonical(
            instance@,
            device_id@,
            nonce@,
            timestamp_seconds,
            port,
            path@,
            device_kind@,
            capabilities@,
            display_name@,
        ),
{
    text::line("rms-advertisement-v1\nservice=_rms._tcp.local\ninstance=").add(instance).add(
        "\nid=",
    ).add(device_id).add("\nnonce=").add(nonce).add("\nts=").signed(timestamp_seconds).add(
        "\nport=",
    ).num(port as u64).add("\npath=").add(path).add("\nkind=").add(device_kind).add("\ncaps=").add(
        capabilities,
    ).add("\nname=").add(display_name).done()
}

/// The organization that an announcement claims, and whether the claim is proven. A claim is all
/// three of its fields; one that contradicts the configured secret is no announcement at all.
pub open spec fn proven_organization(
    properties: Map<Seq<char>, Seq<char>>,
    signed: Seq<char>,
    configured: Option<(Seq<char>, Seq<char>, Seq<u8>)>,
) -> Option<(Option<Seq<char>>, bool)> {
    let org = properties.contains_key("org"@);
    let kid = properties.contains_key("org_kid"@);
    let proof_given = properties.contains_key("org_proof"@);
    if !org && !kid && !proof_given {
        Some((None, false))
    } else if !(org && kid && proof_given) {
        None
    } else {
        let organization = properties["org"@];
        let key_id = properties["org_kid"@];
        if !organization_token(organization, MAX_ORGANIZATION_ID_LEN) || !organization_token(
            key_id,
            MAX_ORG_KEY_ID_LEN,
        ) {
            None
        } else {
            match configured {
                None => Some((Some(organization), false)),
                Some((own, own_key, secret)) => {
                    let code = encoding::exact_bytes(properties["org_proof"@], 32);
                    let message = encode_utf8(
                        signed + "\norg="@ + organization + "\norg_kid="@ + key_id,
                    );
                    if own == organization && own_key == key_id && secret.len() >= MIN_SECRET_LEN
                        && code is Some && crypto::hmac_accepts(secret, message, code->Some_0) {
                        Some((Some(organization), true))
                    } else {
                        None
                    }
                },
            }
        }
    }
}

pub open spec fn proof_view(configured: Option<EdgeOrganizationProof>) -> Option<
    (Seq<char>, Seq<char>, Seq<u8>),
> {
    match configured {
        Some(p) => Some((p.organization_id@, p.key_id@, p.secret@)),
        None => None,
    }
}

pub open spec fn organization_view(
    r: Result<(Option<String>, bool), InvalidEdgeAdvertisement>,
) -> Option<(Option<Seq<char>>, bool)> {
    match r {
        Ok((o, trusted)) => Some((table::view_option(o), trusted)),
        Err(_) => None,
    }
}

fn verify_organization_proof(
    properties: &Table<String>,
    signed: &str,
    configured: Option<EdgeOrganizationProof<'_>>,
) -> (r: Result<(Option<String>, bool), InvalidEdgeAdvertisement>)
    requires
        configured is Some ==> configured->Some_0.secret@.len() <= crypto::MAX_KEY_BYTES,
    ensures
        organization_view(r) == proven_organization(properties@, signed@, proof_view(configured)),
{
    match (properties.get("org"), properties.get("org_kid"), properties.get("org_proof")) {
        (None, None, None) => Ok((None, false)),
        (Some(organization), Some(key_id), Some(code)) => {
            if !valid_organization_token(organization.as_str(), MAX_ORGANIZATION_ID_LEN)
                || !valid_organization_token(key_id.as_str(), MAX_ORG_KEY_ID_LEN) {
                return Err(InvalidEdgeAdvertisement);
            }
            match configured {
                None => Ok((Some(organization.clone()), false)),
                Some(own) => {
                    if !text::same(own.organization_id, organization.as_str()) || !text::same(
                        own.key_id,
                        key_id.as_str(),
                    ) || own.secret.len() < MIN_SECRET_LEN {
                        return Err(InvalidEdgeAdvertisement);
                    }
                    match encoding::decode_exact(code.as_str(), 32) {
                        None => Err(InvalidEdgeAdvertisement),
                        Some(code) => {
                            let message = text::line(signed).add("\norg=").add(
                                organization.as_str(),
                            ).add("\norg_kid=").add(key_id.as_str()).done();
                            if crypto::hmac_verify(
                                own.secret,
                                message.as_str().as_bytes(),
                                code.as_slice(),
                            ) {
                                Ok((Some(organization.clone()), true))
                            } else {
                                Err(InvalidEdgeAdvertisement)
                            }
                        },
                    }
                },
            }
        },
        _ => Err(InvalidEdgeAdvertisement),
    }
}

/// How far apart two instants are.
pub open spec fn distance(a: i64, b: i64) -> int {
    if a <= b {
        b - a
    } else {
        a - b
    }
}

/// Whether two instants are at most `limit` apart.
pub fn is_within(a: i64, b: i64, limit: u64) -> (r: bool)
    ensures
        r == (distance(a, b) <= limit),
{
    let d: i128 = if a <= b {
        b as i128 - a as i128
    } else {
        a as i128 - b as i128
    };
    d <= limit as i128
}

/// What an announcement says before its organization is looked at.
pub open spec fn signed_part(
    instance: Seq<char>,
    port: u16,
    p: Map<Seq<char>, Seq<char>>,
    now_seconds: i64,
) -> Option<(VerifiedEdgeAdvertisementView, Seq<char>)> {
    let id = field_of(p, "id"@);
    let key = field_of(p, "pk"@);
    let nonce = field_of(p, "nonce"@);
    let ts = field_of(p, "ts"@);
    let name = field_of(p, "name"@);
    let kind = field_of(p, "kind"@);
    let caps = field_of(p, "caps"@);
    let path = field_of(p, "path"@);
    let sig = field_of(p, "sig"@);
    if port == 0 || !fields_fit(p) || p["v"@] != "1"@ || id is None || key is None || nonce is None
        || ts is None || name is None || kind is None || caps is None || path is None || sig is None {
        None
    } else {
        let public_key = encoding::exact_bytes(key->Some_0, 32);
        let nonce_bytes = encoding::exact_bytes(nonce->Some_0, 16);
        let time = text::signed_read(ts->Some_0);
        let capabilities = capabilities_of(caps->Some_0);
        let signature = encoding::exact_bytes(sig->Some_0, 64);
        if public_key is None || nonce_bytes is None || time is None || capabilities is None
            || signature is None {
            None
        } else {
            let seconds = time->Some_0 as i64;
            let signed = canonical(
                instance,
                id->Some_0,
                nonce->Some_0,
                seconds,
                port,
                path->Some_0,
                kind->Some_0,
                caps->Some_0,
                name->Some_0,
            );
            if crypto::device_id_of_key(public_key->Some_0) == id->Some_0 && instance
                == id->Some_0 + "._rms._tcp.local"@ && distance(seconds, now_seconds)
                <= MAX_CLOCK_SKEW_SECONDS && name->Some_0.len() <= MAX_NAME_LEN
                && !text::any_control(name->Some_0) && known_kind(kind->Some_0) && (
            capabilities->Some_0.contains(EdgeCapability::Mavlink) || capabilities->Some_0.contains(
                EdgeCapability::Ros2Dds,
            )) && plain_path(path->Some_0) && crypto::ed25519_accepts(
                public_key->Some_0,
                encode_utf8(signed),
                signature->Some_0,
            ) {
                Some(
                    (
                        VerifiedEdgeAdvertisementView {
                            device_id: id->Some_0,
                            public_key: public_key->Some_0,
                            nonce: nonce_bytes->Some_0,
                            timestamp_seconds: seconds,
                            display_name: name->Some_0,
                            device_kind: kind->Some_0,
                            capabilities: capabilities->Some_0,
                            path: path->Some_0,
                            organization_id: None,
                            organization_trusted: false,
                        },
                        signed,
                    ),
                )
            } else {
                None
            }
        }
    }
}

/// What an accepted announcement says.
pub open spec fn verified(
    instance: Seq<char>,
    port: u16,
    p: Map<Seq<char>, Seq<char>>,
    now_seconds: i64,
    configured: Option<(Seq<char>, Seq<char>, Seq<u8>)>,
) -> Option<VerifiedEdgeAdvertisementView> {
    match signed_part(instance, port, p, now_seconds) {
        None => None,
        Some((v, signed)) => match proven_organization(p, signed, configured) {
            None => None,
            Some((organization_id, organization_trusted)) => Some(
                VerifiedEdgeAdvertisementView { organization_id, organization_trusted, ..v },
            ),
        },
    }
}

pub open spec fn accepted(r: Result<VerifiedEdgeAdvertisement, InvalidEdgeAdvertisement>) -> Option<
    VerifiedEdgeAdvertisementView,
> {
    match r {
        Ok(v) => Some(v@),
        Err(_) => None,
    }
}

fn brings_data(capabilities: &Vec<EdgeCapability>) -> (r: bool)
    ensures
        r == (capabilities@.contains(EdgeCapability::Mavlink) || capabilities@.contains(
            EdgeCapability::Ros2Dds,
        )),
{
    let mut i: usize = 0;
    while i < capabilities.len()
        invariant
            i <= capabilities@.len(),
            forall|j: int|
                0 <= j < i ==> (#[trigger] capabilities@[j]) != EdgeCapability::Mavlink
                    && capabilities@[j] != EdgeCapability::Ros2Dds,
        decreases capabilities@.len() - i,
    {
        let c = capabilities[i];
        if c == EdgeCapability::Mavlink || c == EdgeCapability::Ros2Dds {
            assert(capabilities@[i as int] == c);
            return true;
        }
        i = i + 1;
    }
    false
}

/// Checks the announcement of a service instance: its fields, the key behind its identity, its
/// time, its signature and, where one is claimed, its organization.
pub fn verify(
    instance: &str,
    port: u16,
    properties: &Table<String>,
    now_seconds: i64,
    organization_proof: Option<EdgeOrganizationProof<'_>>,
) -> (r: Result<VerifiedEdgeAdvertisement, InvalidEdgeAdvertisement>)
    requires
        organization_proof is Some ==> organization_proof->Some_0.secret@.len()
            <= crypto::MAX_KEY_BYTES,
    ensures
        accepted(r) == verified(
            instance@,
            port,
            properties@,
            now_seconds,
            proof_view(organization_proof),
        ),
{
    if port == 0 || !check_fields(properties) {
        return Err(InvalidEdgeAdvertisement);
    }
    proof {
        assert(is_required("v"@));
    }
    match properties.get("v") {
        Some(version) => {
            if !text::same(version.as_str(), "1") {
                return Err(InvalidEdgeAdvertisement);
            }
        },
        None => {
            return Err(InvalidEdgeAdvertisement);
        },
    }
    let device_id = required(properties, "id")?;
    let key_text = required(properties, "pk")?;
    let nonce_text = required(properties, "nonce")?;
    let time_text = required(properties, "ts")?;
    let display_name = required(properties, "name")?;
    let kind_text = required(properties, "kind")?;
    let capability_text = required(properties, "caps")?;
    let path = required(properties, "path")?;
    let signature_text = required(properties, "sig")?;
    let public_key = match encoding::decode_exact(key_text, 32) {
        Some(v) => v,
        None => {
            return Err(InvalidEdgeAdvertisement);
        },
    };
    let derived = crypto::derive_device_id(public_key.as_slice());
    if !text::same(derived.as_str(), device_id) {
        return Err(InvalidEdgeAdvertisement);
    }
    let expected = text::line(device_id).add("._rms._tcp.local").done();
    if !text::same(instance, expected.as_str()) {
        return Err(InvalidEdgeAdvertisement);
    }
    let nonce = match encoding::decode_exact(nonce_text, 16) {
        Some(v) => v,
        None => {
            return Err(InvalidEdgeAdvertisement);
        },
    };
    let timestamp_seconds: i64 = match text::parse_signed(time_text) {
        Some(n) => n,
        None => {
            return Err(InvalidEdgeAdvertisement);
        },
    };
    if !is_within(timestamp_seconds, now_seconds, MAX_CLOCK_SKEW_SECONDS) {
        return Err(InvalidEdgeAdvertisement);
    }
    let name_chars = text::chars_of(display_name);
    if name_chars.len() > MAX_NAME_LEN || text::has_control(display_name) {
        return Err(InvalidEdgeAdvertisement);
    }
    let device_kind = parse_device_kind(kind_text)?;
    let capabilities = parse_capabilities(capability_text)?;
    if !brings_data(&capabilities) {
        return Err(InvalidEdgeAdvertisement);
    }
    validate_path(path)?;
    let signed = canonical_bytes(
        instance,
        device_id,
        nonce_text,
        timestamp_seconds,
        port,
        path,
        device_kind,
        capability_text,
        display_name,
    );
    let signature = match encoding::decode_exact(signature_text, 64) {
        Some(v) => v,
        None => {
            return Err(InvalidEdgeAdvertisement);
        },
    };
    if !crypto::ed25519_verify(
        public_key.as_slice(),
        signed.as_str().as_bytes(),
        signature.as_slice(),
    ) {
        return Err(InvalidEdgeAdvertisement);
    }
    let (organization_id, organization_trusted) = verify_organization_proof(
        properties,
        signed.as_str(),
        organization_proof,
    )?;
    Ok(
        VerifiedEdgeAdvertisement {
            device_id: device_id.to_owned(),
            public_key: crypto::array_of::<32>(&public_key),
            nonce: crypto::array_of::<16>(&nonce),
            timestamp_seconds,
            display_name: display_name.to_owned(),
            device_kind,
            capabilities,
            path: path.to_owned(),
            organization_id,
            organization_trusted,
        },
    )
}

/// An accepted announcement carries the identity of its key, names that identity as its
/// instance, is of now, and its signature covers the port and the path that it offers.
pub proof fn law_accepted_advertisements_are_signed_and_fresh(
    instance: Seq<char>,
    port: u16,
    p: Map<Seq<char>, Seq<char>>,
    now_seconds: i64,
    configured: Option<(Seq<char>, Seq<char>, Seq<u8>)>,
)
    requires
        verified(instance, port, p, now_seconds, configured) is Some,
    ensures
        ({
            let v = verified(instance, port, p, now_seconds, configured)->Some_0;
            &&& v.device_id == crypto::device_id_of_key(v.public_key)
            &&& instance == v.device_id + "._rms._tcp.local"@
            &&& distance(v.timestamp_seconds, now_seconds) <= MAX_CLOCK_SKEW_SECONDS
            &&& encoding::exact_bytes(p["sig"@], 64) matches Some(signature)
                && crypto::ed25519_accepts(
                v.public_key,
                encode_utf8(
                    canonical(
                        instance,
                        v.device_id,
                        p["nonce"@],
                        v.timestamp_seconds,
                        port,
                        v.path,
                        v.device_kind,
                        p["caps"@],
                        v.display_name,
                    ),
                ),
                signature,
            )
        }),
{
}

/// An announcement is trusted only if it names the configured organization and key, and its code
/// over the signed text is the one that the shared secret gives.
pub proof fn law_trusted_advertisements_hold_the_secret(
    instance: Seq<char>,
    port: u16,
    p: Map<Seq<char>, Seq<char>>,
    now_seconds: i64,
    configured: Option<(Seq<char>, Seq<char>, Seq<u8>)>,
)
    requires
        verified(instance, port, p, now_seconds, configured) is Some,
        verified(instance, port, p, now_seconds, configured)->Some_0.organization_trusted,
    ensures
        configured is Some,
        verified(instance, port, p, now_seconds, configured)->Some_0.organization_id == Some(
            configured->Some_0.0,
        ),
        p["org_kid"@] == configured->Some_0.1,
        configured->Some_0.2.len() >= MIN_SECRET_LEN,
        ({
            let v = verified(instance, port, p, now_seconds, configured)->Some_0;
            let signed = canonical(
                instance,
                v.device_id,
                p["nonce"@],
                v.timestamp_seconds,
                port,
                v.path,
                v.device_kind,
                p["caps"@],
                v.display_name,
            );
            encoding::exact_bytes(p["org_proof"@], 32) matches Some(code) && crypto::hmac_accepts(
                configured->Some_0.2,
                encode_utf8(signed + "\norg="@ + p["org"@] + "\norg_kid="@ + p["org_kid"@]),
                code,
            )
        }),
{
}

/// A list of capabilities is read exactly if it is short, each name is a known one and the names
/// stand in strictly ascending order; it is then read name by name.
pub proof fn law_capabilities_are_known_and_in_order(value: Seq<char>, i: int)
    ensures
        ({
            let names = text::parts(value, ',');
            &&& capabilities_of(value) is Some <==> {
                &&& value.len() > 0 && text::byte_len(value) <= 64
                &&& forall|k: int|
                    0 <= k < names.len() ==> #[trigger] names[k] == "mavlink"@ || names[k]
                        == "ros2_dds"@ || names[k] == "status"@
                &&& forall|a: int, b: int|
                    0 <= a < b < names.len() ==> text::less(
                        #[trigger] names[a],
                        #[trigger] names[b],
                    )
            }
            &&& capabilities_of(value) matches Some(list) ==> list.len() == names.len() && (0 <= i
                < list.len() ==> {
                &&& list[i] == EdgeCapability::Mavlink <==> names[i] == "mavlink"@
                &&& list[i] == EdgeCapability::Ros2Dds <==> names[i] == "ros2_dds"@
                &&& list[i] == EdgeCapability::Status <==> names[i] == "status"@
            })
        }),
{
    reveal_strlit("mavlink");
    reveal_strlit("ros2_dds");
    reveal_strlit("status");
    assert("mavlink"@.len() == 7 && "ros2_dds"@.len() == 8 && "status"@.len() == 6);
    let names = text::parts(value, ',');
    assert forall|k: int| 0 <= k < names.len() implies (EdgeCapability::read(#[trigger] names[k])
        is Some <==> names[k] == "mavlink"@ || names[k] == "ros2_dds"@ || names[k] == "status"@) by {
    }
}

/// Whether the organization that an announcement claims is in order: it claims none, or it names an
/// organization and a key by plain characters and, where a secret is configured, for these very
/// names with a code that the secret accepts.
pub open spec fn claim_is_sound(
    p: Map<Seq<char>, Seq<char>>,
    signed: Seq<char>,
    configured: Option<(Seq<char>, Seq<char>, Seq<u8>)>,
) -> bool {
    let claims = p.contains_key("org"@) || p.contains_key("org_kid"@) || p.contains_key(
        "org_proof"@,
    );
    !claims || {
        &&& p.contains_key("org"@) && p.contains_key("org_kid"@) && p.contains_key("org_proof"@)
        &&& organization_token(p["org"@], 64) && organization_token(p["org_kid"@], 32)
        &&& configured is Some ==> {
            &&& configured->Some_0.0 == p["org"@] && configured->Some_0.1 == p["org_kid"@]
            &&& configured->Some_0.2.len() >= 32
            &&& encoding::base64_bytes(p["org_proof"@]) is Some
            &&& encoding::base64_bytes(p["org_proof"@])->Some_0.len() == 32
            &&& crypto::hmac_accepts(
                configured->Some_0.2,
                encode_utf8(signed + "\norg="@ + p["org"@] + "\norg_kid="@ + p["org_kid"@]),
                encoding::base64_bytes(p["org_proof"@])->Some_0,
            )
        }
    }
}

/// An organization's claim is accepted exactly if it is sound, and trusted exactly if there is one
/// and a secret to check it by.
pub proof fn law_claims_are_accepted_if_sound(
    p: Map<Seq<char>, Seq<char>>,
    signed: Seq<char>,
    configured: Option<(Seq<char>, Seq<char>, Seq<u8>)>,
)
    ensures
        proven_organization(p, signed, configured) is Some <==> claim_is_sound(
            p,
            signed,
            configured,
        ),
        proven_organization(p, signed, configured) matches Some((organization, trusted)) ==> {
            &&& organization == if p.contains_key("org"@) {
                Some(p["org"@])
            } else {
                None
            }
            &&& trusted <==> p.contains_key("org"@) && configured is Some
        },
{
}

/// An announcement is accepted exactly if it has the fields of the first version and no others,
/// it names the instance and key of its device, was signed at most two minutes before or after now
/// by that key over the very values that it announces, names itself printably in at most 64
/// characters, is of a known kind, offers data at a plain path, and claims no organization
/// unsoundly. It then says what its fields say.
pub proof fn law_announcements_are_accepted_if_signed(
    instance: Seq<char>,
    port: u16,
    p: Map<Seq<char>, Seq<char>>,
    now_seconds: i64,
    configured: Option<(Seq<char>, Seq<char>, Seq<u8>)>,
)
    ensures
        ({
            let key = encoding::base64_bytes(p["pk"@]);
            let nonce = encoding::base64_bytes(p["nonce"@]);
            let sig = encoding::base64_bytes(p["sig"@]);
            let time = text::signed_read(p["ts"@]);
            let capabilities = capabilities_of(p["caps"@]);
            let signed = canonical(
                instance,
                p["id"@],
                p["nonce"@],
                time->Some_0 as i64,
                port,
                p["path"@],
                p["kind"@],
                p["caps"@],
                p["name"@],
            );
            &&& verified(instance, port, p, now_seconds, configured) is Some <==> {
                &&& port != 0 && fields_fit(p) && p["v"@] == "1"@
                &&& p["id"@].len() > 0 && p["pk"@].len() > 0 && p["nonce"@].len() > 0
                    && p["ts"@].len() > 0 && p["name"@].len() > 0 && p["kind"@].len() > 0
                    && p["caps"@].len() > 0 && p["path"@].len() > 0 && p["sig"@].len() > 0
                &&& key is Some && key->Some_0.len() == 32
                &&& nonce is Some && nonce->Some_0.len() == 16
                &&& sig is Some && sig->Some_0.len() == 64
                &&& time is Some && capabilities is Some
                &&& crypto::device_id_of_key(key->Some_0) == p["id"@]
                &&& instance == p["id"@] + "._rms._tcp.local"@
                &&& -120 <= (time->Some_0 as i64) - now_seconds <= 120
                &&& p["name"@].len() <= 64 && !text::any_control(p["name"@])
                &&& p["kind"@] == "robot"@ || p["kind"@] == "drone"@ || p["kind"@] == "vehicle"@
                    || p["kind"@] == "camera"@ || p["kind"@] == "gateway"@
                &&& capabilities->Some_0.contains(EdgeCapability::Mavlink)
                    || capabilities->Some_0.contains(EdgeCapability::Ros2Dds)
                &&& plain_path(p["path"@])
                &&& crypto::ed25519_accepts(key->Some_0, encode_utf8(signed), sig->Some_0)
                &&& claim_is_sound(p, signed, configured)
            }
            &&& verified(instance, port, p, now_seconds, configured) matches Some(v) ==> {
                &&& v.device_id == p["id"@] && v.public_key == key->Some_0 && v.nonce
                    == nonce->Some_0 && v.timestamp_seconds == time->Some_0 as i64
                    && v.display_name == p["name"@] && v.device_kind == p["kind"@]
                    && v.capabilities == capabilities->Some_0 && v.path == p["path"@]
                &&& v.organization_id == if p.contains_key("org"@) {
                    Some(p["org"@])
                } else {
                    None
                }
                &&& v.organization_trusted <==> p.contains_key("org"@) && configured is Some
            }
        }),
{
    assert(is_required("id"@) && is_required("pk"@) && is_required("nonce"@) && is_required("ts"@)
        && is_required("name"@) && is_required("kind"@) && is_required("caps"@) && is_required(
        "path"@,
    ) && is_required("sig"@));
    match signed_part(instance, port, p, now_seconds) {
        Some((_, signed)) => law_claims_are_accepted_if_sound(p, signed, configured),
        None => {},
    }
}

/// A path is plain exactly if it is absolute, short, never leads upwards and is written in letters,
/// digits and five other characters.
pub proof fn law_plain_paths_stay_below_the_root(path: Seq<char>)
    ensures
        plain_path(path) ==> {
            &&& path[0] == '/' && text::byte_len(path) <= 256
            &&& forall|i: int|
                0 <= i < path.len() - 1 ==> !(#[trigger] path[i] == '.' && path[i + 1] == '.')
            &&& forall|i: int|
                0 <= i < path.len() ==> #[trigger] path[i] != '?' && path[i] != '#' && path[i] != '%'
                    && path[i] != '\\' && path[i] != ' '
        },
{
    if plain_path(path) {
        reveal_strlit("..");
        assert forall|i: int| 0 <= i < path.len() - 1 implies !(#[trigger] path[i] == '.' && path[i
            + 1] == '.') by {
            if path[i] == '.' && path[i + 1] == '.' {
                assert(path.subrange(i, i + 2) =~= ".."@);
                assert(text::occurs_at(path, ".."@, i));
            }
        }
    }
}

} // verus!
