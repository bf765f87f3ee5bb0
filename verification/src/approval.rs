//! Linking a verified network candidate into a project.

use crate::api;
use crate::api::{ApiError, ApiErrorView};
use crate::catalog;
use crate::catalog::{Catalog, CatalogView};
use crate::discovery;
use crate::discovery::{
    DiscoveredSource, DiscoveredSourceView, DiscoveryObservation, DiscoveryObservationView,
    EdgeObservationIdentityView, NetworkDiscoveryStore, NetworkDiscoveryStoreView, StoredApproval,
    StoredApprovalView, StoredCandidateView,
};
use crate::discovery_flow;
use crate::discovery_rules;
use crate::domain::{
    AccessMode, ApproveNetworkCandidateInput, ApproveNetworkCandidateInputView,
    CandidateVerificationStatus, DataAssignment, DataAssignmentView, DataSource, DataSourceView,
    DataVisibility, Device, DeviceAssignment, DeviceAssignmentView, DeviceView,
    DiscoveryCandidateStatus, DiscoverySourceStatus, EdgeEnrollment, EdgeEnrollmentView,
    Integration, IntegrationView, NetworkLinkReceipt, NetworkLinkReceiptView, TopicList, TopicView,
};
use crate::encoding;
use crate::hashing;
use crate::table;
use crate::table::{Copied, Table};
use crate::text;
use crate::time;
use vstd::prelude::*;
use vstd::string::*;
use vstd::utf8::*;

verus! {

/// The first `n` texts as JSON strings, with commas between them.
pub open spec fn json_items(texts: Seq<Seq<char>>, n: int) -> Seq<char>
    decreases n,
{
    if n <= 0 {
        Seq::empty()
    } else if n == 1 {
        encoding::json_string(texts[0])
    } else {
        json_items(texts, n - 1) + ","@ + encoding::json_string(texts[n - 1])
    }
}

pub open spec fn access_name(mode: AccessMode) -> Seq<char> {
    match mode {
        AccessMode::Control => "control"@,
        AccessMode::Observe => "observe"@,
    }
}

pub open spec fn visibility_name(visibility: DataVisibility) -> Seq<char> {
    match visibility {
        DataVisibility::Operator => "operator"@,
        DataVisibility::Analyst => "analyst"@,
        DataVisibility::Restricted => "restricted"@,
    }
}

/// The settings of an approval as a JSON object.
pub open spec fn input_json(v: ApproveNetworkCandidateInputView) -> Seq<char> {
    "{\"verificationToken\":"@ + encoding::json_string(v.verification_token)
        + ",\"projectId\":"@ + encoding::json_string(v.project_id)
        + ",\"expectedWorkspaceVersion\":"@ + text::decimal(v.expected_workspace_version as nat)
        + ",\"deviceName\":"@ + encoding::json_string(v.device_name)
        + ",\"selectedSourceIds\":["@ + json_items(
        v.selected_source_ids,
        v.selected_source_ids.len() as int,
    ) + "],\"accessMode\":\""@ + access_name(v.access_mode) + "\",\"visibility\":\""@
        + visibility_name(v.visibility) + "\"}"@
}

/// The fingerprint of an approval: the digest of its settings.
pub open spec fn input_fingerprint(v: ApproveNetworkCandidateInputView) -> Seq<char> {
    hashing::sha256_hex(encode_utf8(input_json(v)))
}

fn write_items(texts: &Vec<String>) -> (r: String)
    ensures
        r@ == json_items(table::views(texts@), texts@.len() as int),
{
    let ghost views = table::views(texts@);
    let mut line = text::line("");
    let mut i: usize = 0;
    proof {
        reveal_strlit("");
        assert(line@ =~= Seq::<char>::empty());
    }
    while i < texts.len()
        invariant
            i <= texts@.len(),
            views == table::views(texts@),
            line@ == json_items(views, i as int),
        decreases texts@.len() - i,
    {
        assert(views[i as int] == texts@[i as int]@);
        let item = encoding::json_text(texts[i].as_str());
        if i > 0 {
            line = line.add(",");
        }
        line = line.add(item.as_str());
        i = i + 1;
        proof {
            assert(line@ =~= json_items(views, i as int));
        }
    }
    line.done()
}

/// The fingerprint of an approval, by which its repetition is told.
pub fn approval_input_fingerprint(input: &ApproveNetworkCandidateInput) -> (r: String)
    ensures
        r@ == input_fingerprint(input@),
{
    let token = encoding::json_text(input.verification_token.as_str());
    let project = encoding::json_text(input.project_id.as_str());
    let name = encoding::json_text(input.device_name.as_str());
    let sources = write_items(&input.selected_source_ids);
    let access = match input.access_mode {
        AccessMode::Control => "control",
        AccessMode::Observe => "observe",
    };
    let visibility = match input.visibility {
        DataVisibility::Operator => "operator",
        DataVisibility::Analyst => "analyst",
        DataVisibility::Restricted => "restricted",
    };
    let encoded = text::line("{\"verificationToken\":").add(token.as_str()).add(
        ",\"projectId\":",
    ).add(project.as_str()).add(",\"expectedWorkspaceVersion\":").num(
        input.expected_workspace_version,
    ).add(",\"deviceName\":").add(name.as_str()).add(",\"selectedSourceIds\":[").add(
        sources.as_str(),
    ).add("],\"accessMode\":\"").add(access).add("\",\"visibility\":\"").add(visibility).add(
        "\"}",
    ).done();
    assert(encoded@ == input_json(input@));
    hashing::hex_sha256(encoded.as_str().as_bytes())
}

/// What an approval finds: its earlier answer, or what has to be linked.
pub enum ApprovalStart {
    Repeated(NetworkLinkReceipt),
    Proceed {
        organization_id: String,
        observation: DiscoveryObservation,
        selected_sources: Vec<DiscoveredSource>,
    },
}

pub enum ApprovalStartView {
    Repeated(NetworkLinkReceiptView),
    Proceed {
        organization_id: Seq<char>,
        observation: DiscoveryObservationView,
        selected_sources: Seq<DiscoveredSourceView>,
    },
}

impl View for ApprovalStart {
    type V = ApprovalStartView;

    open spec fn view(&self) -> ApprovalStartView {
        match self {
            ApprovalStart::Repeated(receipt) => ApprovalStartView::Repeated(receipt@),
            ApprovalStart::Proceed { organization_id, observation, selected_sources } => ApprovalStartView::Proceed {
                organization_id: organization_id@,
                observation: observation@,
                selected_sources: table::views(selected_sources@),
            },
        }
    }
}

/// The sources whose identifiers were selected, in the order of the observation.
pub open spec fn chosen_sources(
    sources: Seq<DiscoveredSourceView>,
    ids: Seq<Seq<char>>,
) -> Seq<DiscoveredSourceView> {
    sources.filter(|s: DiscoveredSourceView| ids.contains(s.id))
}

pub open spec fn all_ready(sources: Seq<DiscoveredSourceView>) -> bool {
    forall|i: int|
        0 <= i < sources.len() ==> (#[trigger] sources[i]).status == DiscoverySourceStatus::Ready
}

/// The store and the answer when a candidate is to be approved.
pub open spec fn approval_outcome(
    store: NetworkDiscoveryStoreView,
    session_id: Seq<char>,
    candidate_id: Seq<char>,
    input: ApproveNetworkCandidateInputView,
    now_ms: i64,
) -> (NetworkDiscoveryStoreView, Result<ApprovalStartView, ApiErrorView>) {
    match discovery_flow::candidate_lookup(store, session_id, candidate_id, now_ms) {
        Err(e) => (store, Err(e)),
        Ok(c) => if c.approval is Some {
            if c.approval->Some_0.input_fingerprint == input_fingerprint(input) {
                (store, Ok(ApprovalStartView::Repeated(c.approval->Some_0.receipt)))
            } else {
                (
                    store,
                    Err(
                        api::conflict(
                            "The network candidate was already approved with different settings."@,
                        ),
                    ),
                )
            }
        } else if c.verification is None {
            (store, Err(api::conflict("Verify the network candidate before approval."@)))
        } else {
            let v = c.verification->Some_0;
            let selected = chosen_sources(c.observation.sources, input.selected_source_ids);
            if v.expires_at_ms <= now_ms {
                (
                    discovery_flow::with_candidate(
                        store,
                        session_id,
                        candidate_id,
                        discovery_flow::with_candidate_status(
                            c,
                            DiscoveryCandidateStatus::Unavailable,
                        ),
                    ),
                    Err(api::gone("The candidate verification has expired."@)),
                )
            } else if v.dto.verification_token != input.verification_token || v.fingerprint
                != c.observation.fingerprint {
                (
                    store,
                    Err(
                        api::conflict(
                            "The candidate verification token does not match this identity."@,
                        ),
                    ),
                )
            } else if v.dto.status != CandidateVerificationStatus::Verified {
                (store, Err(api::conflict("Only a verified network candidate can be approved."@)))
            } else if selected.len() != input.selected_source_ids.len() || !all_ready(selected) {
                (
                    store,
                    Err(
                        api::bad_request(
                            "selectedSourceIds must contain verified, available sources only."@,
                        ),
                    ),
                )
            } else {
                (
                    store,
                    Ok(
                        ApprovalStartView::Proceed {
                            organization_id: store.sessions[session_id].organization_id,
                            observation: c.observation,
                            selected_sources: selected,
                        },
                    ),
                )
            }
        },
    }
}

fn choose_sources(sources: &Vec<DiscoveredSource>, ids: &Vec<String>) -> (r: Vec<DiscoveredSource>)
    ensures
        table::views(r@) == chosen_sources(table::views(sources@), table::views(ids@)),
{
    let ghost views = table::views(sources@);
    let ghost wanted = table::views(ids@);
    let ghost p = |s: DiscoveredSourceView| wanted.contains(s.id);
    let mut r: Vec<DiscoveredSource> = Vec::new();
    let mut i: usize = 0;
    proof {
        reveal(Seq::filter);
        assert(views.take(0).filter(p) =~= Seq::empty());
        assert(table::views(r@) =~= Seq::empty());
    }
    while i < sources.len()
        invariant
            i <= sources@.len(),
            views == table::views(sources@),
            wanted == table::views(ids@),
            p == (|s: DiscoveredSourceView| wanted.contains(s.id)),
            table::views(r@) == views.take(i as int).filter(p),
        decreases sources@.len() - i,
    {
        let s = &sources[i];
        proof {
            reveal(Seq::filter);
            assert(views.take(i + 1).drop_last() =~= views.take(i as int));
            assert(views.take(i + 1).last() == s@);
        }
        if table::is_listed(ids, s.id.as_str()) {
            let copy = s.copied();
            proof {
                table::lemma_views_push(r@, copy);
            }
            r.push(copy);
        }
        i = i + 1;
    }
    proof {
        assert(views.take(views.len() as int) =~= views);
    }
    r
}

fn are_ready(sources: &Vec<DiscoveredSource>) -> (r: bool)
    ensures
        r == all_ready(table::views(sources@)),
{
    let ghost views = table::views(sources@);
    let mut i: usize = 0;
    while i < sources.len()
        invariant
            i <= sources@.len(),
            views == table::views(sources@),
            forall|j: int|
                0 <= j < i ==> (#[trigger] views[j]).status == DiscoverySourceStatus::Ready,
        decreases sources@.len() - i,
    {
        assert(views[i as int] == sources@[i as int]@);
        if sources[i].status != DiscoverySourceStatus::Ready {
            return false;
        }
        i = i + 1;
    }
    true
}

/// Checks an approval against the candidate and its verification.
pub fn begin_approval(
    store: &mut NetworkDiscoveryStore,
    session_id: &str,
    candidate_id: &str,
    input: &ApproveNetworkCandidateInput,
    now_ms: i64,
) -> (r: Result<ApprovalStart, ApiError>)
    ensures
        match discovery_rules::approval_input_failure(input@) {
            Some(e) => final(store)@ == old(store)@ && (r matches Err(found) && found@ == e),
            None => (final(store)@, api::answer_view(r)) == approval_outcome(
                discovery::aged(old(store)@, now_ms),
                session_id@,
                candidate_id@,
                input@,
                now_ms,
            ),
        },
{
    match discovery_rules::validate_approval_input(input) {
        Ok(()) => {},
        Err(e) => {
            return Err(e);
        },
    }
    store.expire_and_purge(now_ms);
    let mut c = match discovery_flow::find_candidate(store, session_id, candidate_id, now_ms) {
        Ok(c) => c,
        Err(e) => {
            return Err(e);
        },
    };
    match &c.approval {
        Some(approval) => {
            let fingerprint = approval_input_fingerprint(input);
            if text::same(approval.input_fingerprint.as_str(), fingerprint.as_str()) {
                return Ok(ApprovalStart::Repeated(approval.receipt.copied()));
            }
            return Err(
                ApiError::conflict(
                    "The network candidate was already approved with different settings.",
                ),
            );
        },
        None => {},
    }
    let (expired, matching, verified) = match &c.verification {
        None => {
            return Err(ApiError::conflict("Verify the network candidate before approval."));
        },
        Some(v) => (
            v.expires_at_ms <= now_ms,
            text::same(v.dto.verification_token.as_str(), input.verification_token.as_str())
                && text::same(v.fingerprint.as_str(), c.observation.fingerprint.as_str()),
            v.dto.status == CandidateVerificationStatus::Verified,
        ),
    };
    if expired {
        c.dto.status = DiscoveryCandidateStatus::Unavailable;
        discovery_flow::put_candidate(store, session_id, candidate_id, c);
        return Err(ApiError::gone("The candidate verification has expired."));
    }
    if !matching {
        return Err(
            ApiError::conflict("The candidate verification token does not match this identity."),
        );
    }
    if !verified {
        return Err(ApiError::conflict("Only a verified network candidate can be approved."));
    }
    let selected_sources = choose_sources(&c.observation.sources, &input.selected_source_ids);
    if selected_sources.len() != input.selected_source_ids.len() || !are_ready(&selected_sources) {
        return Err(
            ApiError::bad_request(
                "selectedSourceIds must contain verified, available sources only.",
            ),
        );
    }
    let organization_id = match store.sessions.get(session_id) {
        Some(s) => s.organization_id.clone(),
        None => String::new(),
    };
    Ok(ApprovalStart::Proceed { organization_id, observation: c.observation, selected_sources })
}

pub open spec fn integration_id_of(o: DiscoveryObservationView) -> Seq<char> {
    hashing::asset_id("integration-network"@, o.fingerprint)
}

pub open spec fn device_id_of(o: DiscoveryObservationView) -> Seq<char> {
    hashing::asset_id("device-network"@, o.fingerprint)
}

pub open spec fn source_id_of(o: DiscoveryObservationView, source: Seq<char>) -> Seq<char> {
    hashing::asset_id("data-source-network"@, o.fingerprint + "\0"@ + source)
}

pub open spec fn source_ids_of(
    o: DiscoveryObservationView,
    sources: Seq<DiscoveredSourceView>,
) -> Seq<Seq<char>> {
    sources.map_values(|s: DiscoveredSourceView| source_id_of(o, s.id))
}

pub open spec fn is_trusted(identity: Option<EdgeObservationIdentityView>) -> bool {
    identity is Some && identity->Some_0.organization_trusted
}

/// The catalog with the integration of an observation.
pub open spec fn linked_integration(
    c: CatalogView,
    o: DiscoveryObservationView,
    organization: Seq<char>,
    now: Seq<char>,
) -> Result<CatalogView, ApiErrorView> {
    let id = integration_id_of(o);
    let version = catalog::next_version(c.snapshot_version);
    if c.integrations.contains_key(id) {
        if c.integrations[id].organization_id != organization {
            Err(
                api::conflict(
                    "The discovered Integration identity belongs to another organization."@,
                ),
            )
        } else if is_trusted(o.edge_identity) {
            Ok(
                CatalogView {
                    integrations: c.integrations.insert(
                        id,
                        IntegrationView {
                            status: "connected"@,
                            resource_version: version,
                            ..c.integrations[id]
                        },
                    ),
                    ..c
                },
            )
        } else {
            Ok(c)
        }
    } else {
        Ok(
            CatalogView {
                integrations: c.integrations.insert(
                    id,
                    IntegrationView {
                        id,
                        organization_id: organization,
                        name: o.display_name + " 연결"@,
                        kind: o.integration_kind,
                        status: if is_trusted(o.edge_identity) {
                            "connected"@
                        } else {
                            "testing"@
                        },
                        endpoint_label: o.endpoint_label,
                        last_health_at: time::iso(o.last_seen_at_ms),
                        created_at: now,
                        resource_version: version,
                    },
                ),
                ..c
            },
        )
    }
}

fn link_integration(
    c: &mut Catalog,
    o: &DiscoveryObservation,
    organization: &str,
    now: &str,
) -> (r: Result<(), ApiError>)
    ensures
        match r {
            Ok(()) => linked_integration(old(c)@, o@, organization@, now@) == Ok::<
                CatalogView,
                ApiErrorView,
            >(final(c)@),
            Err(e) => linked_integration(old(c)@, o@, organization@, now@) == Err::<
                CatalogView,
                ApiErrorView,
            >(e@),
        },
{
    let id = hashing::stable_asset_id("integration-network", o.fingerprint.as_str());
    let version: u64 = catalog::version_after(c.snapshot_version);
    let trusted = match &o.edge_identity {
        Some(identity) => identity.organization_trusted,
        None => false,
    };
    let found = match c.integrations.get(id.as_str()) {
        Some(i) => Some(i.copied()),
        None => None,
    };
    match found {
        Some(mut i) => {
            if !text::same(i.organization_id.as_str(), organization) {
                return Err(
                    ApiError::conflict(
                        "The discovered Integration identity belongs to another organization.",
                    ),
                );
            }
            if trusted {
                i.status = "connected".to_owned();
                i.resource_version = version;
                let _ = c.integrations.insert(id, i);
            }
        },
        None => {
            let status = if trusted {
                "connected".to_owned()
            } else {
                "testing".to_owned()
            };
            let integration = Integration {
                id: id.clone(),
                organization_id: organization.to_owned(),
                name: text::line(o.display_name.as_str()).add(" 연결").done(),
                kind: o.integration_kind.clone(),
                status,
                endpoint_label: o.endpoint_label.clone(),
                last_health_at: time::iso_from_millis(o.last_seen_at_ms),
                created_at: now.to_owned(),
                resource_version: version,
            };
            let _ = c.integrations.insert(id, integration);
        },
    }
    Ok(())
}

/// The catalog with the device of an observation.
pub open spec fn linked_device(
    c: CatalogView,
    o: DiscoveryObservationView,
    organization: Seq<char>,
    device_name: Seq<char>,
) -> Result<CatalogView, ApiErrorView> {
    let id = device_id_of(o);
    if c.devices.contains_key(id) {
        if c.devices[id].organization_id != organization || c.devices[id].integration_id
            != integration_id_of(o) {
            Err(api::conflict("The discovered Device identity conflicts with the catalog."@))
        } else {
            Ok(c)
        }
    } else {
        Ok(
            CatalogView {
                devices: c.devices.insert(
                    id,
                    DeviceView {
                        id,
                        organization_id: organization,
                        integration_id: integration_id_of(o),
                        name: device_name,
                        kind: o.suggested_device_kind,
                        status: "offline"@,
                        health: "unknown"@,
                        operation_mode: Seq::empty(),
                        battery_percent: None,
                        task_name: Seq::empty(),
                        task_progress: 0,
                        last_seen_at: time::iso(o.last_seen_at_ms),
                        state_version: 1,
                    },
                ),
                ..c
            },
        )
    }
}

fn link_device(
    c: &mut Catalog,
    o: &DiscoveryObservation,
    organization: &str,
    device_name: &str,
) -> (r: Result<(), ApiError>)
    ensures
        match r {
            Ok(()) => linked_device(old(c)@, o@, organization@, device_name@) == Ok::<
                CatalogView,
                ApiErrorView,
            >(final(c)@),
            Err(e) => linked_device(old(c)@, o@, organization@, device_name@) == Err::<
                CatalogView,
                ApiErrorView,
            >(e@),
        },
{
    let id = hashing::stable_asset_id("device-network", o.fingerprint.as_str());
    let integration_id = hashing::stable_asset_id("integration-network", o.fingerprint.as_str());
    match c.devices.get(id.as_str()) {
        Some(d) => {
            if !text::same(d.organization_id.as_str(), organization) || !text::same(
                d.integration_id.as_str(),
                integration_id.as_str(),
            ) {
                return Err(
                    ApiError::conflict(
                        "The discovered Device identity conflicts with the catalog.",
                    ),
                );
            }
            return Ok(());
        },
        None => {},
    }
    let device = Device {
        id: id.clone(),
        organization_id: organization.to_owned(),
        integration_id,
        name: device_name.to_owned(),
        kind: o.suggested_device_kind.clone(),
        status: "offline".to_owned(),
        health: "unknown".to_owned(),
        operation_mode: String::new(),
        battery_percent: None,
        task_name: String::new(),
        task_progress: 0,
        last_seen_at: time::iso_from_millis(o.last_seen_at_ms),
        state_version: 1,
    };
    let _ = c.devices.insert(id, device);
    Ok(())
}

/// The data source that stands for a discovered source.
pub open spec fn source_record(o: DiscoveryObservationView, s: DiscoveredSourceView) -> DataSourceView {
    DataSourceView {
        id: source_id_of(o, s.id),
        integration_id: integration_id_of(o),
        device_id: device_id_of(o),
        name: s.label,
        protocol: s.protocol,
        status: "pending"@,
        live_url: discovery_rules::endpoint_url_text(s.endpoint),
        topic_ids: Seq::empty(),
        mapping_version: 1,
        last_data_at: time::iso(o.last_seen_at_ms),
    }
}

/// The catalog with the data sources of the selected sources from `i` on.
pub open spec fn linked_sources(
    c: CatalogView,
    o: DiscoveryObservationView,
    sources: Seq<DiscoveredSourceView>,
    i: int,
) -> Result<CatalogView, ApiErrorView>
    decreases sources.len() - i,
{
    if i < 0 || i >= sources.len() {
        Ok(c)
    } else {
        let id = source_id_of(o, sources[i].id);
        if c.data_sources.contains_key(id) {
            if c.data_sources[id].device_id != device_id_of(o) || c.data_sources[id].integration_id
                != integration_id_of(o) {
                Err(
                    api::conflict("The discovered DataSource identity conflicts with the catalog."@),
                )
            } else {
                linked_sources(c, o, sources, i + 1)
            }
        } else {
            linked_sources(
                CatalogView {
                    data_sources: c.data_sources.insert(id, source_record(o, sources[i])),
                    topics_by_data_source: c.topics_by_data_source.insert(id, Seq::empty()),
                    ..c
                },
                o,
                sources,
                i + 1,
            )
        }
    }
}

fn asset_source_id(o: &DiscoveryObservation, source: &str) -> (r: String)
    ensures
        r@ == source_id_of(o@, source@),
{
    let identity = text::line(o.fingerprint.as_str()).add("\0").add(source).done();
    hashing::stable_asset_id("data-source-network", identity.as_str())
}

fn link_source(
    c: &mut Catalog,
    o: &DiscoveryObservation,
    s: &DiscoveredSource,
    sources: Ghost<Seq<DiscoveredSourceView>>,
    i: Ghost<int>,
) -> (r: Result<(), ApiError>)
    requires
        0 <= i@ < sources@.len(),
        sources@[i@] == s@,
    ensures
        match r {
            Ok(()) => linked_sources(old(c)@, o@, sources@, i@) == linked_sources(
                final(c)@,
                o@,
                sources@,
                i@ + 1,
            ),
            Err(e) => linked_sources(old(c)@, o@, sources@, i@) == Err::<CatalogView, ApiErrorView>(
                e@,
            ),
        },
        final(c)@.snapshot_version == old(c)@.snapshot_version,
{
    let id = asset_source_id(o, s.id.as_str());
    let device_id = hashing::stable_asset_id("device-network", o.fingerprint.as_str());
    let integration_id = hashing::stable_asset_id("integration-network", o.fingerprint.as_str());
    match c.data_sources.get(id.as_str()) {
        Some(existing) => {
            if !text::same(existing.device_id.as_str(), device_id.as_str()) || !text::same(
                existing.integration_id.as_str(),
                integration_id.as_str(),
            ) {
                return Err(
                    ApiError::conflict(
                        "The discovered DataSource identity conflicts with the catalog.",
                    ),
                );
            }
            return Ok(());
        },
        None => {},
    }
    let topic_ids: Vec<String> = Vec::new();
    let source = DataSource {
        id: id.clone(),
        integration_id,
        device_id,
        name: s.label.clone(),
        protocol: s.protocol.clone(),
        status: "pending".to_owned(),
        live_url: discovery_rules::endpoint_url(&s.endpoint),
        topic_ids,
        mapping_version: 1,
        last_data_at: time::iso_from_millis(o.last_seen_at_ms),
    };
    let topics = TopicList { topics: Vec::new() };
    proof {
        assert(source@.topic_ids =~= Seq::<Seq<char>>::empty());
        assert(source@ =~= source_record(o@, s@));
        assert(topics@ =~= Seq::<TopicView>::empty());
    }
    let _ = c.data_sources.insert(id.clone(), source);
    let _ = c.topics_by_data_source.insert(id, topics);
    Ok(())
}

/// The bindings of the selected sources to their data sources.
pub open spec fn source_bindings(
    o: DiscoveryObservationView,
    sources: Seq<DiscoveredSourceView>,
    i: int,
) -> Map<Seq<char>, Seq<char>>
    decreases i,
{
    if i <= 0 {
        Map::empty()
    } else {
        source_bindings(o, sources, i - 1).insert(
            sources[i - 1].id,
            source_id_of(o, sources[i - 1].id),
        )
    }
}

/// Whether two binding tables disagree on a source.
pub open spec fn bindings_conflict(
    old_ids: Map<Seq<char>, Seq<char>>,
    new_ids: Map<Seq<char>, Seq<char>>,
) -> bool {
    exists|k: Seq<char>| #[trigger]
        new_ids.contains_key(k) && old_ids.contains_key(k) && old_ids[k] != new_ids[k]
}

/// The catalog with the enrollment of a signed edge identity.
pub open spec fn linked_enrollment(
    c: CatalogView,
    o: DiscoveryObservationView,
    sources: Seq<DiscoveredSourceView>,
    organization: Seq<char>,
    now: Seq<char>,
) -> Result<CatalogView, ApiErrorView> {
    match o.edge_identity {
        None => Ok(c),
        Some(identity) => {
            let ids = source_bindings(o, sources, sources.len() as int);
            let key = encoding::base64_text(identity.public_key);
            if c.edge_enrollments.contains_key(identity.device_id) {
                let e = c.edge_enrollments[identity.device_id];
                if e.public_key != key || e.organization_id != organization || e.integration_id
                    != integration_id_of(o) || e.device_id != device_id_of(o) {
                    Err(
                        api::conflict(
                            "The signed Edge identity conflicts with an existing enrollment."@,
                        ),
                    )
                } else if bindings_conflict(e.source_ids, ids) {
                    Err(
                        api::conflict(
                            "The signed Edge source conflicts with an existing enrollment."@,
                        ),
                    )
                } else {
                    Ok(
                        CatalogView {
                            edge_enrollments: c.edge_enrollments.insert(
                                identity.device_id,
                                EdgeEnrollmentView {
                                    source_ids: e.source_ids.union_prefer_right(ids),
                                    organization_trusted: e.organization_trusted
                                        || identity.organization_trusted,
                                    ..e
                                },
                            ),
                            ..c
                        },
                    )
                }
            } else {
                Ok(
                    CatalogView {
                        edge_enrollments: c.edge_enrollments.insert(
                            identity.device_id,
                            EdgeEnrollmentView {
                                edge_device_id: identity.device_id,
                                public_key: key,
                                organization_id: organization,
                                integration_id: integration_id_of(o),
                                device_id: device_id_of(o),
                                source_ids: ids,
                                organization_trusted: identity.organization_trusted,
                                created_at: now,
                            },
                        ),
                        ..c
                    },
                )
            }
        },
    }
}

fn bind_sources(o: &DiscoveryObservation, sources: &Vec<DiscoveredSource>) -> (r: Table<String>)
    ensures
        r@ == source_bindings(o@, table::views(sources@), sources@.len() as int),
{
    let ghost views = table::views(sources@);
    let mut r: Table<String> = Table::new();
    let mut i: usize = 0;
    while i < sources.len()
        invariant
            i <= sources@.len(),
            views == table::views(sources@),
            r@ == source_bindings(o@, views, i as int),
        decreases sources@.len() - i,
    {
        assert(views[i as int] == sources@[i as int]@);
        let id = asset_source_id(o, sources[i].id.as_str());
        let _ = r.insert(sources[i].id.clone(), id);
        i = i + 1;
    }
    r
}

/// Adds the bindings of `ids` to `existing`; nothing comes back where they disagree.
fn merge_bindings(existing: Table<String>, ids: &Table<String>) -> (r: Option<Table<String>>)
    ensures
        match r {
            Some(all) => !bindings_conflict(existing@, ids@) && all@
                == existing@.union_prefer_right(ids@),
            None => bindings_conflict(existing@, ids@),
        },
{
    let ghost before = existing@;
    let n: usize = ids.len();
    let ghost items = ids.items();
    let mut all: Table<String> = existing;
    let mut i: usize = 0;
    proof {
        table::lemma_items_all(items);
    }
    while i < n
        invariant
            i <= n,
            n == items.len(),
            items == ids.items(),
            table::keys_ascend(items),
            before == existing@,
            forall|k: Seq<char>| #[trigger]
                all@.contains_key(k) <==> before.contains_key(k) || exists|j: int|
                    0 <= j < i && (#[trigger] items[j]).0 == k,
            forall|k: Seq<char>| #[trigger]
                before.contains_key(k) ==> all@[k] == before[k],
            forall|j: int| 0 <= j < i ==> all@[(#[trigger] items[j]).0] == items[j].1,
            forall|j: int|
                0 <= j < i ==> (before.contains_key((#[trigger] items[j]).0)
                    ==> before[items[j].0] == items[j].1),
        decreases n - i,
    {
        let key = ids.key_at(i);
        let value = ids.value_at(i);
        proof {
            table::lemma_items_all(items);
            assert forall|j: int| 0 <= j < i implies (#[trigger] items[j]).0 != key@ by {
                assert(text::less(items[j].0, items[i as int].0));
                text::lemma_less_irreflexive(key@);
            }
        }
        let previous = all.insert(key.clone(), value.clone());
        match previous {
            Some(p) => {
                if !text::same(p.as_str(), value.as_str()) {
                    proof {
                        assert(ids@.contains_key(key@));
                        assert(before.contains_key(key@));
                    }
                    return None;
                }
            },
            None => {},
        }
        i = i + 1;
    }
    proof {
        table::lemma_items_all(items);
        assert forall|k: Seq<char>| #[trigger]
            ids@.contains_key(k) && before.contains_key(k) implies before[k] == ids@[k] by {
            let j = table::key_index(items, k);
            assert(items[j].0 == k);
        }
        assert(all@ =~= before.union_prefer_right(ids@)) by {
            assert forall|k: Seq<char>| ids@.contains_key(k) implies all@.contains_key(k) && all@[k]
                == ids@[k] by {
                let j = table::key_index(items, k);
                assert(items[j].0 == k);
            }
        }
    }
    Some(all)
}

fn link_enrollment(
    c: &mut Catalog,
    o: &DiscoveryObservation,
    sources: &Vec<DiscoveredSource>,
    organization: &str,
    now: &str,
) -> (r: Result<(), ApiError>)
    ensures
        match r {
            Ok(()) => linked_enrollment(
                old(c)@,
                o@,
                table::views(sources@),
                organization@,
                now@,
            ) == Ok::<CatalogView, ApiErrorView>(final(c)@),
            Err(e) => linked_enrollment(
                old(c)@,
                o@,
                table::views(sources@),
                organization@,
                now@,
            ) == Err::<CatalogView, ApiErrorView>(e@),
        },
{
    let identity = match &o.edge_identity {
        None => {
            return Ok(());
        },
        Some(identity) => identity,
    };
    let ids = bind_sources(o, sources);
    let public_key = encoding::encode_base64(identity.public_key.as_slice());
    let device_id = hashing::stable_asset_id("device-network", o.fingerprint.as_str());
    let integration_id = hashing::stable_asset_id("integration-network", o.fingerprint.as_str());
    let found = match c.edge_enrollments.get(identity.device_id.as_str()) {
        Some(e) => Some(e.copied()),
        None => None,
    };
    match found {
        None => {
            let enrollment = EdgeEnrollment {
                edge_device_id: identity.device_id.clone(),
                public_key,
                organization_id: organization.to_owned(),
                integration_id,
                device_id,
                source_ids: ids,
                organization_trusted: identity.organization_trusted,
                created_at: now.to_owned(),
            };
            let _ = c.edge_enrollments.insert(identity.device_id.clone(), enrollment);
        },
        Some(e) => {
            if !text::same(e.public_key.as_str(), public_key.as_str()) || !text::same(
                e.organization_id.as_str(),
                organization,
            ) || !text::same(e.integration_id.as_str(), integration_id.as_str()) || !text::same(
                e.device_id.as_str(),
                device_id.as_str(),
            ) {
                return Err(
                    ApiError::conflict(
                        "The signed Edge identity conflicts with an existing enrollment.",
                    ),
                );
            }
            let trusted = e.organization_trusted || identity.organization_trusted;
            match merge_bindings(e.source_ids, &ids) {
                None => {
                    return Err(
                        ApiError::conflict(
                            "The signed Edge source conflicts with an existing enrollment.",
                        ),
                    );
                },
                Some(all) => {
                    let enrollment = EdgeEnrollment {
                        edge_device_id: e.edge_device_id,
                        public_key: e.public_key,
                        organization_id: e.organization_id,
                        integration_id: e.integration_id,
                        device_id: e.device_id,
                        source_ids: all,
                        organization_trusted: trusted,
                        created_at: e.created_at,
                    };
                    let _ = c.edge_enrollments.insert(identity.device_id.clone(), enrollment);
                },
            }
        },
    }
    Ok(())
}

/// The catalog with an assignment of the device to the project, if it had none.
pub open spec fn linked_device_assignment(
    c: CatalogView,
    project: Seq<char>,
    device: Seq<char>,
    id: Seq<char>,
    now: Seq<char>,
) -> CatalogView {
    if catalog::device_is_assigned(c.device_assignments, project, device) {
        c
    } else {
        CatalogView {
            device_assignments: c.device_assignments.insert(
                id,
                DeviceAssignmentView {
                    id,
                    project_id: project,
                    device_id: device,
                    access_mode: AccessMode::Observe,
                    valid_from: now,
                    valid_to: None,
                    resource_version: catalog::next_version(c.snapshot_version),
                },
            ),
            ..c
        }
    }
}

fn link_device_assignment(c: &mut Catalog, project: &str, device: &str, id: &str, now: &str)
    ensures
        final(c)@ == linked_device_assignment(old(c)@, project@, device@, id@, now@),
{
    match catalog::find_device_assignment(&c.device_assignments, project, device) {
        Some(_) => {},
        None => {
            let version: u64 = catalog::version_after(c.snapshot_version);
            let assignment = DeviceAssignment {
                id: id.to_owned(),
                project_id: project.to_owned(),
                device_id: device.to_owned(),
                access_mode: AccessMode::Observe,
                valid_from: now.to_owned(),
                valid_to: None,
                resource_version: version,
            };
            let _ = c.device_assignments.insert(id.to_owned(), assignment);
        },
    }
}

/// The catalog with assignments of the data sources from `i` on, where they had none.
pub open spec fn linked_data_assignments(
    c: CatalogView,
    project: Seq<char>,
    sources: Seq<Seq<char>>,
    ids: Seq<Seq<char>>,
    i: int,
    now: Seq<char>,
) -> CatalogView
    decreases sources.len() - i,
{
    if i < 0 || i >= sources.len() {
        c
    } else if catalog::source_is_assigned(c.data_assignments, project, sources[i]) {
        linked_data_assignments(c, project, sources, ids, i + 1, now)
    } else {
        linked_data_assignments(
            CatalogView {
                data_assignments: c.data_assignments.insert(
                    ids[i],
                    DataAssignmentView {
                        id: ids[i],
                        project_id: project,
                        data_source_id: sources[i],
                        visibility: DataVisibility::Operator,
                        valid_from: now,
                        valid_to: None,
                        resource_version: catalog::next_version(c.snapshot_version),
                    },
                ),
                ..c
            },
            project,
            sources,
            ids,
            i + 1,
            now,
        )
    }
}

fn link_data_assignments(
    c: &mut Catalog,
    project: &str,
    sources: &Vec<String>,
    ids: &Vec<String>,
    now: &str,
)
    requires
        sources@.len() <= ids@.len(),
    ensures
        final(c)@ == linked_data_assignments(
            old(c)@,
            project@,
            table::views(sources@),
            table::views(ids@),
            0,
            now@,
        ),
{
    let ghost wanted = table::views(sources@);
    let ghost names = table::views(ids@);
    let ghost before = c@;
    let mut i: usize = 0;
    while i < sources.len()
        invariant
            i <= sources@.len() <= ids@.len(),
            wanted == table::views(sources@),
            names == table::views(ids@),
            linked_data_assignments(before, project@, wanted, names, 0, now@)
                == linked_data_assignments(c@, project@, wanted, names, i as int, now@),
        decreases sources@.len() - i,
    {
        assert(wanted[i as int] == sources@[i as int]@);
        assert(names[i as int] == ids@[i as int]@);
        match catalog::find_source_assignment(&c.data_assignments, project, sources[i].as_str()) {
            Some(_) => {},
            None => {
                let version: u64 = catalog::version_after(c.snapshot_version);
                let assignment = DataAssignment {
                    id: ids[i].clone(),
                    project_id: project.to_owned(),
                    data_source_id: sources[i].clone(),
                    visibility: DataVisibility::Operator,
                    valid_from: now.to_owned(),
                    valid_to: None,
                    resource_version: version,
                };
                let _ = c.data_assignments.insert(ids[i].clone(), assignment);
            },
        }
        i = i + 1;
    }
}

/// Whether the project of an approval can take the candidate.
pub open spec fn project_failure(
    c: CatalogView,
    input: ApproveNetworkCandidateInputView,
    organization: Seq<char>,
) -> Option<ApiErrorView> {
    if c.snapshot_version != input.expected_workspace_version {
        Some(
            api::conflict(
                "The Project workspace changed. Refresh it before linking the candidate."@,
            ),
        )
    } else if !c.projects.contains_key(input.project_id) {
        Some(api::not_found("Project"@, input.project_id))
    } else if c.projects[input.project_id].organization_id != organization {
        Some(
            api::conflict(
                "The Project and discovery session must belong to the same organization."@,
            ),
        )
    } else {
        None
    }
}

/// The catalog once integration, device, sources and enrollment of a candidate are in it.
pub open spec fn linked_assets(
    c: CatalogView,
    o: DiscoveryObservationView,
    sources: Seq<DiscoveredSourceView>,
    organization: Seq<char>,
    device_name: Seq<char>,
    now: Seq<char>,
) -> Result<CatalogView, ApiErrorView> {
    match linked_integration(c, o, organization, now) {
        Err(e) => Err(e),
        Ok(c) => match linked_device(c, o, organization, device_name) {
            Err(e) => Err(e),
            Ok(c) => match linked_sources(c, o, sources, 0) {
                Err(e) => Err(e),
                Ok(c) => linked_enrollment(c, o, sources, organization, now),
            },
        },
    }
}

/// The catalog and the receipt of an approval, or why it is refused.
pub open spec fn link_outcome(
    c: CatalogView,
    o: DiscoveryObservationView,
    sources: Seq<DiscoveredSourceView>,
    organization: Seq<char>,
    input: ApproveNetworkCandidateInputView,
    device_assignment_id: Seq<char>,
    data_assignment_ids: Seq<Seq<char>>,
    now: Seq<char>,
) -> Result<(CatalogView, NetworkLinkReceiptView), ApiErrorView> {
    if discovery_rules::edge_scope_failure(o.edge_identity, organization) is Some {
        Err(discovery_rules::edge_scope_failure(o.edge_identity, organization)->Some_0)
    } else if project_failure(c, input, organization) is Some {
        Err(project_failure(c, input, organization)->Some_0)
    } else {
        match linked_assets(c, o, sources, organization, input.device_name, now) {
            Err(e) => Err(e),
            Ok(c) => {
                let c = linked_device_assignment(
                    c,
                    input.project_id,
                    device_id_of(o),
                    device_assignment_id,
                    now,
                );
                let c = linked_data_assignments(
                    c,
                    input.project_id,
                    source_ids_of(o, sources),
                    data_assignment_ids,
                    0,
                    now,
                );
                let c = catalog::bumped(catalog::with_counts(c, input.project_id));
                Ok(
                    (
                        c,
                        NetworkLinkReceiptView {
                            status: "linked"@,
                            project_id: input.project_id,
                            integration_id: integration_id_of(o),
                            device_id: device_id_of(o),
                            data_source_ids: source_ids_of(o, sources),
                            workspace_version: c.snapshot_version,
                        },
                    ),
                )
            },
        }
    }
}

fn asset_source_ids(o: &DiscoveryObservation, sources: &Vec<DiscoveredSource>) -> (r: Vec<String>)
    ensures
        table::views(r@) == source_ids_of(o@, table::views(sources@)),
        r@.len() == sources@.len(),
{
    let mut r: Vec<String> = Vec::new();
    let mut i: usize = 0;
    while i < sources.len()
        invariant
            i <= sources@.len(),
            r@.len() == i,
            forall|j: int|
                0 <= j < i ==> (#[trigger] r@[j])@ == source_ids_of(
                    o@,
                    table::views(sources@),
                )[j],
        decreases sources@.len() - i,
    {
        r.push(asset_source_id(o, sources[i].id.as_str()));
        i = i + 1;
    }
    proof {
        assert(table::views(r@) =~= source_ids_of(o@, table::views(sources@)));
    }
    r
}

fn check_project(c: &Catalog, input: &ApproveNetworkCandidateInput, organization: &str) -> (r: Result<
    (),
    ApiError,
>)
    ensures
        discovery_rules::checked(r, project_failure(c@, input@, organization@)),
{
    if c.snapshot_version != input.expected_workspace_version {
        return Err(
            ApiError::conflict(
                "The Project workspace changed. Refresh it before linking the candidate.",
            ),
        );
    }
    match c.projects.get(input.project_id.as_str()) {
        None => Err(ApiError::not_found("Project", input.project_id.as_str())),
        Some(p) => {
            if !text::same(p.organization_id.as_str(), organization) {
                return Err(
                    ApiError::conflict(
                        "The Project and discovery session must belong to the same organization.",
                    ),
                );
            }
            Ok(())
        },
    }
}

fn link_sources(c: &mut Catalog, o: &DiscoveryObservation, sources: &Vec<DiscoveredSource>) -> (r: Result<
    (),
    ApiError,
>)
    ensures
        match r {
            Ok(()) => linked_sources(old(c)@, o@, table::views(sources@), 0) == Ok::<
                CatalogView,
                ApiErrorView,
            >(final(c)@),
            Err(e) => linked_sources(old(c)@, o@, table::views(sources@), 0) == Err::<
                CatalogView,
                ApiErrorView,
            >(e@),
        },
{
    let ghost views = table::views(sources@);
    let ghost before = c@;
    let mut i: usize = 0;
    while i < sources.len()
        invariant
            i <= sources@.len(),
            views == table::views(sources@),
            before == old(c)@,
            linked_sources(before, o@, views, 0) == linked_sources(c@, o@, views, i as int),
        decreases sources@.len() - i,
    {
        assert(views[i as int] == sources@[i as int]@);
        match link_source(c, o, &sources[i], Ghost(views), Ghost(i as int)) {
            Ok(()) => {},
            Err(e) => {
                return Err(e);
            },
        }
        i = i + 1;
    }
    Ok(())
}

/// Links a candidate into its project: a copy of the catalog goes in, and the changed catalog
/// comes back only if every step of the link succeeded.
pub fn link_candidate(
    catalog: Catalog,
    o: &DiscoveryObservation,
    sources: &Vec<DiscoveredSource>,
    organization: &str,
    input: &ApproveNetworkCandidateInput,
    device_assignment_id: &str,
    data_assignment_ids: &Vec<String>,
    now: &str,
) -> (r: Result<(Catalog, NetworkLinkReceipt), ApiError>)
    requires
        sources@.len() <= data_assignment_ids@.len(),
    ensures
        match r {
            Ok((after, receipt)) => link_outcome(
                catalog@,
                o@,
                table::views(sources@),
                organization@,
                input@,
                device_assignment_id@,
                table::views(data_assignment_ids@),
                now@,
            ) == Ok::<(CatalogView, NetworkLinkReceiptView), ApiErrorView>((after@, receipt@)),
            Err(e) => link_outcome(
                catalog@,
                o@,
                table::views(sources@),
                organization@,
                input@,
                device_assignment_id@,
                table::views(data_assignment_ids@),
                now@,
            ) == Err::<(CatalogView, NetworkLinkReceiptView), ApiErrorView>(e@),
        },
{
    match discovery_rules::ensure_edge_organization_scope(o, organization) {
        Ok(()) => {},
        Err(e) => {
            return Err(e);
        },
    }
    match check_project(&catalog, input, organization) {
        Ok(()) => {},
        Err(e) => {
            return Err(e);
        },
    }
    let mut c = catalog;
    match link_integration(&mut c, o, organization, now) {
        Ok(()) => {},
        Err(e) => {
            return Err(e);
        },
    }
    match link_device(&mut c, o, organization, input.device_name.as_str()) {
        Ok(()) => {},
        Err(e) => {
            return Err(e);
        },
    }
    match link_sources(&mut c, o, sources) {
        Ok(()) => {},
        Err(e) => {
            return Err(e);
        },
    }
    match link_enrollment(&mut c, o, sources, organization, now) {
        Ok(()) => {},
        Err(e) => {
            return Err(e);
        },
    }
    let project = input.project_id.as_str();
    let device_id = hashing::stable_asset_id("device-network", o.fingerprint.as_str());
    let integration_id = hashing::stable_asset_id("integration-network", o.fingerprint.as_str());
    let data_source_ids = asset_source_ids(o, sources);
    link_device_assignment(&mut c, project, device_id.as_str(), device_assignment_id, now);
    link_data_assignments(&mut c, project, &data_source_ids, data_assignment_ids, now);
    c.refresh_project_counts(project);
    let workspace_version: u64 = c.bump_version();
    let receipt = NetworkLinkReceipt {
        status: "linked".to_owned(),
        project_id: input.project_id.clone(),
        integration_id,
        device_id,
        data_source_ids,
        workspace_version,
    };
    Ok((c, receipt))
}

/// The store once an approval was carried out.
pub open spec fn recorded_approval(
    store: NetworkDiscoveryStoreView,
    session_id: Seq<char>,
    candidate_id: Seq<char>,
    input: ApproveNetworkCandidateInputView,
    receipt: NetworkLinkReceiptView,
) -> NetworkDiscoveryStoreView {
    if store.sessions.contains_key(session_id) && store.sessions[session_id].candidates.contains_key(
        candidate_id,
    ) {
        let c = store.sessions[session_id].candidates[candidate_id];
        discovery_flow::with_candidate(
            store,
            session_id,
            candidate_id,
            StoredCandidateView {
                approval: Some(
                    StoredApprovalView { input_fingerprint: input_fingerprint(input), receipt },
                ),
                ..discovery_flow::with_candidate_status(c, DiscoveryCandidateStatus::AlreadyLinked)
            },
        )
    } else {
        store
    }
}

/// Remembers the answer to an approval for its repetition.
pub fn record_approval(
    store: &mut NetworkDiscoveryStore,
    session_id: &str,
    candidate_id: &str,
    input: &ApproveNetworkCandidateInput,
    receipt: &NetworkLinkReceipt,
    now_ms: i64,
)
    ensures
        final(store)@ == recorded_approval(
            discovery::aged(old(store)@, now_ms),
            session_id@,
            candidate_id@,
            input@,
            receipt@,
        ),
{
    store.expire_and_purge(now_ms);
    let found = match store.sessions.get(session_id) {
        None => None,
        Some(session) => match session.candidates.get(candidate_id) {
            None => None,
            Some(c) => Some(c.copied()),
        },
    };
    match found {
        None => {},
        Some(mut c) => {
            c.dto.status = DiscoveryCandidateStatus::AlreadyLinked;
            c.approval = Some(
                StoredApproval {
                    input_fingerprint: approval_input_fingerprint(input),
                    receipt: receipt.copied(),
                },
            );
            discovery_flow::put_candidate(store, session_id, candidate_id, c);
        },
    }
}

/// The parts of a catalog that let somebody watch, replay or command a device.
pub open spec fn same_operation_state(a: CatalogView, b: CatalogView) -> bool {
    &&& a.live_sessions == b.live_sessions
    &&& a.live_session_shutdown == b.live_session_shutdown
    &&& a.replay_sessions == b.replay_sessions
    &&& a.leases == b.leases
    &&& a.lease_epochs == b.lease_epochs
    &&& a.command_receipts == b.command_receipts
}

proof fn lemma_linked_sources_frame(
    c: CatalogView,
    o: DiscoveryObservationView,
    sources: Seq<DiscoveredSourceView>,
    i: int,
)
    ensures
        linked_sources(c, o, sources, i) matches Ok(after) ==> same_operation_state(after, c)
            && after.device_assignments == c.device_assignments && after.edge_enrollments
            == c.edge_enrollments && after.snapshot_version == c.snapshot_version
            && after.projects == c.projects,
    decreases sources.len() - i,
{
    if 0 <= i < sources.len() {
        let id = source_id_of(o, sources[i].id);
        if c.data_sources.contains_key(id) {
            lemma_linked_sources_frame(c, o, sources, i + 1);
        } else {
            lemma_linked_sources_frame(
                CatalogView {
                    data_sources: c.data_sources.insert(id, source_record(o, sources[i])),
                    topics_by_data_source: c.topics_by_data_source.insert(id, Seq::empty()),
                    ..c
                },
                o,
                sources,
                i + 1,
            );
        }
    }
}

proof fn lemma_data_assignments_frame(
    c: CatalogView,
    project: Seq<char>,
    sources: Seq<Seq<char>>,
    ids: Seq<Seq<char>>,
    i: int,
    now: Seq<char>,
)
    ensures
        ({
            let after = linked_data_assignments(c, project, sources, ids, i, now);
            same_operation_state(after, c) && after.device_assignments == c.device_assignments
                && after.edge_enrollments == c.edge_enrollments && after.snapshot_version
                == c.snapshot_version
        }),
    decreases sources.len() - i,
{
    if 0 <= i < sources.len() {
        if catalog::source_is_assigned(c.data_assignments, project, sources[i]) {
            lemma_data_assignments_frame(c, project, sources, ids, i + 1, now);
        } else {
            lemma_data_assignments_frame(
                CatalogView {
                    data_assignments: c.data_assignments.insert(
                        ids[i],
                        DataAssignmentView {
                            id: ids[i],
                            project_id: project,
                            data_source_id: sources[i],
                            visibility: DataVisibility::Operator,
                            valid_from: now,
                            valid_to: None,
                            resource_version: catalog::next_version(c.snapshot_version),
                        },
                    ),
                    ..c
                },
                project,
                sources,
                ids,
                i + 1,
                now,
            );
        }
    }
}

/// An approval opens no session, grants no lease and sends no command; the only assignment of a
/// device that it adds is one for observation; and it moves the catalog one version on.
pub proof fn law_approval_creates_no_control_state(
    c: CatalogView,
    o: DiscoveryObservationView,
    sources: Seq<DiscoveredSourceView>,
    organization: Seq<char>,
    input: ApproveNetworkCandidateInputView,
    device_assignment_id: Seq<char>,
    data_assignment_ids: Seq<Seq<char>>,
    now: Seq<char>,
)
    ensures
        link_outcome(
            c,
            o,
            sources,
            organization,
            input,
            device_assignment_id,
            data_assignment_ids,
            now,
        ) matches Ok((after, receipt)) ==> same_operation_state(after, c) && (forall|
            k: Seq<char>,
        |
            after.device_assignments.contains_key(k) ==> (c.device_assignments.contains_key(k)
                && after.device_assignments[k] == c.device_assignments[k])
                || #[trigger] after.device_assignments[k].access_mode == AccessMode::Observe)
            && after.snapshot_version == catalog::next_version(c.snapshot_version)
            && receipt.workspace_version == after.snapshot_version,
{
    if discovery_rules::edge_scope_failure(o.edge_identity, organization) is None
        && project_failure(c, input, organization) is None {
        match linked_integration(c, o, organization, now) {
            Err(_) => {},
            Ok(c1) => match linked_device(c1, o, organization, input.device_name) {
                Err(_) => {},
                Ok(c2) => {
                    lemma_linked_sources_frame(c2, o, sources, 0);
                    match linked_sources(c2, o, sources, 0) {
                        Err(_) => {},
                        Ok(c3) => match linked_enrollment(c3, o, sources, organization, now) {
                            Err(_) => {},
                            Ok(c4) => {
                                let c5 = linked_device_assignment(
                                    c4,
                                    input.project_id,
                                    device_id_of(o),
                                    device_assignment_id,
                                    now,
                                );
                                lemma_data_assignments_frame(
                                    c5,
                                    input.project_id,
                                    source_ids_of(o, sources),
                                    data_assignment_ids,
                                    0,
                                    now,
                                );
                            },
                        },
                    }
                },
            },
        }
    }
}

/// An approval enrolls nobody but the signed identity of the candidate, and that one under its
/// public key, for the organization of the session and for the assets that were linked.
pub proof fn law_enrollments_come_from_signed_candidates(
    c: CatalogView,
    o: DiscoveryObservationView,
    sources: Seq<DiscoveredSourceView>,
    organization: Seq<char>,
    input: ApproveNetworkCandidateInputView,
    device_assignment_id: Seq<char>,
    data_assignment_ids: Seq<Seq<char>>,
    now: Seq<char>,
)
    ensures
        link_outcome(
            c,
            o,
            sources,
            organization,
            input,
            device_assignment_id,
            data_assignment_ids,
            now,
        ) matches Ok((after, receipt)) ==> match o.edge_identity {
            None => after.edge_enrollments == c.edge_enrollments,
            Some(identity) => after.edge_enrollments.remove(identity.device_id)
                == c.edge_enrollments.remove(identity.device_id)
                && after.edge_enrollments.contains_key(identity.device_id) && {
                let e = after.edge_enrollments[identity.device_id];
                &&& e.public_key == encoding::base64_text(identity.public_key)
                &&& e.organization_id == organization
                &&& e.integration_id == receipt.integration_id
                &&& e.device_id == receipt.device_id
            },
        },
{
    if discovery_rules::edge_scope_failure(o.edge_identity, organization) is None
        && project_failure(c, input, organization) is None {
        match linked_integration(c, o, organization, now) {
            Err(_) => {},
            Ok(c1) => match linked_device(c1, o, organization, input.device_name) {
                Err(_) => {},
                Ok(c2) => {
                    lemma_linked_sources_frame(c2, o, sources, 0);
                    match linked_sources(c2, o, sources, 0) {
                        Err(_) => {},
                        Ok(c3) => match linked_enrollment(c3, o, sources, organization, now) {
                            Err(_) => {},
                            Ok(c4) => {
                                let c5 = linked_device_assignment(
                                    c4,
                                    input.project_id,
                                    device_id_of(o),
                                    device_assignment_id,
                                    now,
                                );
                                lemma_data_assignments_frame(
                                    c5,
                                    input.project_id,
                                    source_ids_of(o, sources),
                                    data_assignment_ids,
                                    0,
                                    now,
                                );
                                if o.edge_identity is Some {
                                    let id = o.edge_identity->Some_0.device_id;
                                    assert(c4.edge_enrollments.remove(id)
                                        =~= c.edge_enrollments.remove(id));
                                }
                            },
                        },
                    }
                },
            },
        }
    }
}

/// Only the sources that were selected, all of them and all ready, are linked.
pub proof fn law_approval_links_ready_selected_sources(
    store: NetworkDiscoveryStoreView,
    session_id: Seq<char>,
    candidate_id: Seq<char>,
    input: ApproveNetworkCandidateInputView,
    now_ms: i64,
)
    ensures
        approval_outcome(
            store,
            session_id,
            candidate_id,
            input,
            now_ms,
        ).1 matches Ok(
            ApprovalStartView::Proceed { organization_id, observation, selected_sources },
        ) ==> all_ready(selected_sources) && selected_sources.len()
            == input.selected_source_ids.len() && forall|i: int|
            0 <= i < selected_sources.len() ==> input.selected_source_ids.contains(
                (#[trigger] selected_sources[i]).id,
            ),
{
    match approval_outcome(store, session_id, candidate_id, input, now_ms).1 {
        Ok(ApprovalStartView::Proceed { organization_id, observation, selected_sources }) => {
            let p = |s: DiscoveredSourceView| input.selected_source_ids.contains(s.id);
            assert forall|i: int| 0 <= i < selected_sources.len() implies p(
                #[trigger] selected_sources[i],
            ) by {
                observation.sources.lemma_filter_pred(p, i);
            }
        },
        _ => {},
    }
}

/// What an approval does to the store and the catalog, and what it is answered. The time passes
/// from `now_ms` to `done_ms` while the catalog is changed.
pub open spec fn candidate_approved(
    store: NetworkDiscoveryStoreView,
    c: CatalogView,
    session_id: Seq<char>,
    candidate_id: Seq<char>,
    input: ApproveNetworkCandidateInputView,
    device_assignment_id: Seq<char>,
    data_assignment_ids: Seq<Seq<char>>,
    now_ms: i64,
    done_ms: i64,
    now: Seq<char>,
) -> (NetworkDiscoveryStoreView, CatalogView, Result<NetworkLinkReceiptView, ApiErrorView>) {
    if discovery_rules::approval_input_failure(input) is Some {
        (store, c, Err(discovery_rules::approval_input_failure(input)->Some_0))
    } else {
        let (begun, answer) = approval_outcome(
            discovery::aged(store, now_ms),
            session_id,
            candidate_id,
            input,
            now_ms,
        );
        match answer {
            Err(e) => (begun, c, Err(e)),
            Ok(ApprovalStartView::Repeated(receipt)) => (begun, c, Ok(receipt)),
            Ok(
                ApprovalStartView::Proceed { organization_id, observation, selected_sources },
            ) => match link_outcome(
                c,
                observation,
                selected_sources,
                organization_id,
                input,
                device_assignment_id,
                data_assignment_ids,
                now,
            ) {
                Err(e) => (begun, c, Err(e)),
                Ok((after, receipt)) => (
                    recorded_approval(
                        discovery::aged(begun, done_ms),
                        session_id,
                        candidate_id,
                        input,
                        receipt,
                    ),
                    after,
                    Ok(receipt),
                ),
            },
        }
    }
}

/// Approves a verified candidate: its machine and the selected sources become part of a project,
/// which observes them. An approval that is repeated is answered as before.
pub fn approve_candidate(
    store: &mut NetworkDiscoveryStore,
    c: &mut Catalog,
    session_id: &str,
    candidate_id: &str,
    input: &ApproveNetworkCandidateInput,
    device_assignment_id: &str,
    data_assignment_ids: &Vec<String>,
    now_ms: i64,
    done_ms: i64,
    now: &str,
) -> (r: Result<NetworkLinkReceipt, ApiError>)
    requires
        input.selected_source_ids@.len() <= data_assignment_ids@.len(),
    ensures
        (final(store)@, final(c)@, api::answer_view(r)) == candidate_approved(
            old(store)@,
            old(c)@,
            session_id@,
            candidate_id@,
            input@,
            device_assignment_id@,
            table::views(data_assignment_ids@),
            now_ms,
            done_ms,
            now@,
        ),
{
    let start = begin_approval(store, session_id, candidate_id, input, now_ms);
    proof {
        law_approval_links_ready_selected_sources(
            discovery::aged(old(store)@, now_ms),
            session_id@,
            candidate_id@,
            input@,
            now_ms,
        );
    }
    match start {
        Err(e) => Err(e),
        Ok(ApprovalStart::Repeated(receipt)) => Ok(receipt),
        Ok(ApprovalStart::Proceed { organization_id, observation, selected_sources }) => {
            assert(table::views(selected_sources@).len() == selected_sources@.len());
            match link_candidate(
                c.copied(),
                &observation,
                &selected_sources,
                organization_id.as_str(),
                input,
                device_assignment_id,
                data_assignment_ids,
                now,
            ) {
                Err(e) => Err(e),
                Ok((after, receipt)) => {
                    *c = after;
                    record_approval(
                        store,
                        session_id,
                        candidate_id,
                        input,
                        &receipt,
                        done_ms,
                    );
                    Ok(receipt)
                },
            }
        },
    }
}

/// A candidate that was approved is not approved again: while its session can still be worked
/// with, the same settings get the same receipt, settings with another fingerprint get a
/// conflict, and the catalog stays as it is either way.
pub proof fn law_repeated_approval_returns_the_receipt(
    store: NetworkDiscoveryStoreView,
    c: CatalogView,
    session_id: Seq<char>,
    candidate_id: Seq<char>,
    input: ApproveNetworkCandidateInputView,
    device_assignment_id: Seq<char>,
    data_assignment_ids: Seq<Seq<char>>,
    now_ms: i64,
    done_ms: i64,
    now: Seq<char>,
    again: ApproveNetworkCandidateInputView,
    other_assignment_id: Seq<char>,
    other_assignment_ids: Seq<Seq<char>>,
    later_ms: i64,
    later_done_ms: i64,
    later: Seq<char>,
)
    requires
        candidate_approved(
            store,
            c,
            session_id,
            candidate_id,
            input,
            device_assignment_id,
            data_assignment_ids,
            now_ms,
            done_ms,
            now,
        ) matches (approved, _, Ok(_)) && discovery_flow::candidate_lookup(
            discovery::aged(approved, later_ms),
            session_id,
            candidate_id,
            later_ms,
        ) is Ok,
        discovery_rules::approval_input_failure(again) is None,
    ensures
        ({
            let (approved, linked, answer) = candidate_approved(
                store,
                c,
                session_id,
                candidate_id,
                input,
                device_assignment_id,
                data_assignment_ids,
                now_ms,
                done_ms,
                now,
            );
            let (_, after, repeated) = candidate_approved(
                approved,
                linked,
                session_id,
                candidate_id,
                again,
                other_assignment_id,
                other_assignment_ids,
                later_ms,
                later_done_ms,
                later,
            );
            &&& after == linked
            &&& again == input ==> repeated == answer
            &&& input_fingerprint(again) == input_fingerprint(input) ==> repeated == answer
            &&& input_fingerprint(again) != input_fingerprint(input) ==> repeated == Err::<
                NetworkLinkReceiptView,
                ApiErrorView,
            >(
                api::conflict(
                    "The network candidate was already approved with different settings."@,
                ),
            )
        }),
{
    let approved = candidate_approved(
        store,
        c,
        session_id,
        candidate_id,
        input,
        device_assignment_id,
        data_assignment_ids,
        now_ms,
        done_ms,
        now,
    ).0;
    let found = discovery_flow::candidate_lookup(
        discovery::aged(approved, later_ms),
        session_id,
        candidate_id,
        later_ms,
    )->Ok_0;
    assert(approved.sessions[session_id].candidates.contains_key(candidate_id));
    assert(found == approved.sessions[session_id].candidates[candidate_id]);
    assert(found.approval is Some);
}

/// An approval is carried out exactly if the search of the candidate has ended well and is still
/// kept, the candidate has not been approved, its verification says that it was verified, still
/// holds and is of what was observed last, the token is that of the verification, and each of the
/// selected sources is one of the candidate's, and ready.
pub proof fn law_approvals_need_a_current_verification(
    store: NetworkDiscoveryStoreView,
    session_id: Seq<char>,
    candidate_id: Seq<char>,
    input: ApproveNetworkCandidateInputView,
    now_ms: i64,
)
    ensures
        ({
            let (after, answer) = approval_outcome(store, session_id, candidate_id, input, now_ms);
            let s = store.sessions[session_id];
            let c = s.candidates[candidate_id];
            let v = c.verification->Some_0;
            let selected = c.observation.sources.filter(
                |x: DiscoveredSourceView| input.selected_source_ids.contains(x.id),
            );
            &&& (answer matches Ok(ApprovalStartView::Proceed { .. })) <==> {
                &&& store.sessions.contains_key(session_id)
                &&& s.expires_at_ms > now_ms
                &&& s.dto.status == crate::domain::DiscoverySessionStatus::Ready
                &&& s.candidates.contains_key(candidate_id)
                &&& c.approval is None
                &&& c.verification is Some
                &&& v.expires_at_ms > now_ms
                &&& v.dto.verification_token == input.verification_token
                &&& v.fingerprint == c.observation.fingerprint
                &&& v.dto.status == CandidateVerificationStatus::Verified
                &&& selected.len() == input.selected_source_ids.len()
                &&& forall|i: int|
                    0 <= i < selected.len() ==> (#[trigger] selected[i]).status
                        == DiscoverySourceStatus::Ready
            }
            &&& answer matches Ok(
                ApprovalStartView::Proceed { organization_id, observation, selected_sources },
            ) ==> organization_id == s.organization_id && observation == c.observation
                && selected_sources == selected && after == store
        }),
{
}

proof fn lemma_linked_sources(
    c: CatalogView,
    o: DiscoveryObservationView,
    sources: Seq<DiscoveredSourceView>,
    i: int,
    k: int,
)
    requires
        0 <= i <= sources.len(),
        linked_sources(c, o, sources, i) is Ok,
    ensures
        ({
            let after = linked_sources(c, o, sources, i)->Ok_0;
            &&& after.integrations == c.integrations
            &&& after.devices == c.devices
            &&& after.projects == c.projects
            &&& after.edge_enrollments == c.edge_enrollments
            &&& after.device_assignments == c.device_assignments
            &&& after.data_assignments == c.data_assignments
            &&& forall|id: Seq<char>| #[trigger]
                c.data_sources.contains_key(id) ==> after.data_sources.contains_key(id)
                    && after.data_sources[id] == c.data_sources[id]
            &&& i <= k < sources.len() ==> after.data_sources.contains_key(
                source_id_of(o, sources[k].id),
            ) && after.data_sources[source_id_of(o, sources[k].id)].device_id == device_id_of(o)
                && after.data_sources[source_id_of(o, sources[k].id)].integration_id
                == integration_id_of(o)
        }),
    decreases sources.len() - i,
{
    if i < sources.len() {
        let id = source_id_of(o, sources[i].id);
        if c.data_sources.contains_key(id) {
            lemma_linked_sources(c, o, sources, i + 1, k);
        } else {
            let next = CatalogView {
                data_sources: c.data_sources.insert(id, source_record(o, sources[i])),
                topics_by_data_source: c.topics_by_data_source.insert(id, Seq::empty()),
                ..c
            };
            lemma_linked_sources(next, o, sources, i + 1, k);
            let after = linked_sources(c, o, sources, i)->Ok_0;
            assert(next.data_sources.contains_key(id));
            assert forall|j: Seq<char>| #[trigger]
                c.data_sources.contains_key(j) implies after.data_sources.contains_key(j)
                && after.data_sources[j] == c.data_sources[j] by {
                assert(next.data_sources.contains_key(j));
            }
        }
    }
}

/// Whether a project has a data source at present.
pub open spec fn sees_source(c: CatalogView, project: Seq<char>, source: Seq<char>) -> bool {
    exists|j: Seq<char>| #[trigger]
        c.data_assignments.contains_key(j) && c.data_assignments[j].project_id == project
            && c.data_assignments[j].data_source_id == source && c.data_assignments[j].valid_to is None
}

proof fn lemma_data_assignments(
    c: CatalogView,
    project: Seq<char>,
    sources: Seq<Seq<char>>,
    ids: Seq<Seq<char>>,
    i: int,
    now: Seq<char>,
    k: int,
)
    requires
        0 <= i <= sources.len(),
        ids.len() == sources.len(),
        ids.no_duplicates(),
        forall|x: int| i <= x < ids.len() ==> !c.data_assignments.contains_key(#[trigger] ids[x]),
    ensures
        ({
            let after = linked_data_assignments(c, project, sources, ids, i, now);
            &&& after.integrations == c.integrations
            &&& after.devices == c.devices
            &&& after.data_sources == c.data_sources
            &&& after.projects == c.projects
            &&& after.edge_enrollments == c.edge_enrollments
            &&& after.device_assignments == c.device_assignments
            &&& forall|j: Seq<char>| #[trigger]
                c.data_assignments.contains_key(j) ==> after.data_assignments.contains_key(j)
                    && after.data_assignments[j] == c.data_assignments[j]
            &&& i <= k < sources.len() ==> sees_source(after, project, sources[k])
        }),
    decreases sources.len() - i,
{
    if i < sources.len() {
        let after = linked_data_assignments(c, project, sources, ids, i, now);
        assert(catalog::source_is_assigned(c.data_assignments, project, sources[i]) == sees_source(
            c,
            project,
            sources[i],
        ));
        if catalog::source_is_assigned(c.data_assignments, project, sources[i]) {
            lemma_data_assignments(c, project, sources, ids, i + 1, now, k);
            let j = choose|j: Seq<char>| #[trigger]
                c.data_assignments.contains_key(j) && c.data_assignments[j].project_id == project
                    && c.data_assignments[j].data_source_id == sources[i]
                    && c.data_assignments[j].valid_to is None;
            assert(after.data_assignments.contains_key(j));
        } else {
            let next = CatalogView {
                data_assignments: c.data_assignments.insert(
                    ids[i],
                    DataAssignmentView {
                        id: ids[i],
                        project_id: project,
                        data_source_id: sources[i],
                        visibility: DataVisibility::Operator,
                        valid_from: now,
                        valid_to: None,
                        resource_version: catalog::next_version(c.snapshot_version),
                    },
                ),
                ..c
            };
            assert forall|x: int| i + 1 <= x < ids.len() implies !next.data_assignments.contains_key(
                #[trigger] ids[x],
            ) by {
                assert(ids[x] != ids[i]);
            }
            lemma_data_assignments(next, project, sources, ids, i + 1, now, k);
            assert(next.data_assignments.contains_key(ids[i]));
            assert(after.data_assignments.contains_key(ids[i]));
            assert forall|j: Seq<char>| #[trigger]
                c.data_assignments.contains_key(j) implies after.data_assignments.contains_key(j)
                && after.data_assignments[j] == c.data_assignments[j] by {
                assert(j != ids[i]);
                assert(next.data_assignments.contains_key(j));
            }
        }
    }
}

/// An approval that is carried out puts the candidate into the catalog: its integration, its
/// device under the name that was given, and each of the selected sources, all of the session's
/// organization and of each other; the project has the device and sees each source. The receipt
/// names them.
pub proof fn law_approved_candidates_are_linked(
    c: CatalogView,
    o: DiscoveryObservationView,
    sources: Seq<DiscoveredSourceView>,
    organization: Seq<char>,
    input: ApproveNetworkCandidateInputView,
    device_assignment_id: Seq<char>,
    data_assignment_ids: Seq<Seq<char>>,
    now: Seq<char>,
    k: int,
)
    requires
        data_assignment_ids.len() == sources.len(),
        data_assignment_ids.no_duplicates(),
        forall|x: int|
            0 <= x < data_assignment_ids.len() ==> !c.data_assignments.contains_key(
                #[trigger] data_assignment_ids[x],
            ),
        0 <= k < sources.len(),
        link_outcome(
            c,
            o,
            sources,
            organization,
            input,
            device_assignment_id,
            data_assignment_ids,
            now,
        ) is Ok,
    ensures
        ({
            let (after, receipt) = link_outcome(
                c,
                o,
                sources,
                organization,
                input,
                device_assignment_id,
                data_assignment_ids,
                now,
            )->Ok_0;
            let integration = after.integrations[receipt.integration_id];
            let device = after.devices[receipt.device_id];
            let source = receipt.data_source_ids[k];
            &&& c.snapshot_version == input.expected_workspace_version
            &&& c.projects.contains_key(input.project_id)
            &&& c.projects[input.project_id].organization_id == organization
            &&& receipt.project_id == input.project_id
            &&& receipt.status == "linked"@
            &&& receipt.data_source_ids.len() == sources.len()
            &&& after.integrations.contains_key(receipt.integration_id)
            &&& integration.organization_id == organization
            &&& o.edge_identity is Some && o.edge_identity->Some_0.organization_trusted
                ==> integration.status == "connected"@
            &&& !c.integrations.contains_key(receipt.integration_id) ==> integration.kind
                == o.integration_kind && integration.endpoint_label == o.endpoint_label
            &&& after.devices.contains_key(receipt.device_id)
            &&& device.organization_id == organization
            &&& device.integration_id == receipt.integration_id
            &&& !c.devices.contains_key(receipt.device_id) ==> device.name == input.device_name
                && device.kind == o.suggested_device_kind && device.status == "offline"@
                && device.health == "unknown"@
            &&& after.data_sources.contains_key(source)
            &&& after.data_sources[source].device_id == receipt.device_id
            &&& after.data_sources[source].integration_id == receipt.integration_id
            &&& exists|j: Seq<char>| #[trigger]
                after.device_assignments.contains_key(j) && after.device_assignments[j].project_id
                    == input.project_id && after.device_assignments[j].device_id
                    == receipt.device_id && after.device_assignments[j].valid_to is None
            &&& sees_source(after, input.project_id, source)
        }),
{
    let c1 = linked_integration(c, o, organization, now)->Ok_0;
    let c2 = linked_device(c1, o, organization, input.device_name)->Ok_0;
    let c3 = linked_sources(c2, o, sources, 0)->Ok_0;
    lemma_linked_sources(c2, o, sources, 0, k);
    let c4 = linked_enrollment(c3, o, sources, organization, now)->Ok_0;
    let device = device_id_of(o);
    let c5 = linked_device_assignment(c4, input.project_id, device, device_assignment_id, now);
    let ids = source_ids_of(o, sources);
    lemma_data_assignments(c5, input.project_id, ids, data_assignment_ids, 0, now, k);
    let c6 = linked_data_assignments(c5, input.project_id, ids, data_assignment_ids, 0, now);
    assert(catalog::device_is_assigned(c4.device_assignments, input.project_id, device) == exists|
        j: Seq<char>,
    | #[trigger]
        c4.device_assignments.contains_key(j) && c4.device_assignments[j].project_id
            == input.project_id && c4.device_assignments[j].device_id == device
            && c4.device_assignments[j].valid_to is None);
    if !catalog::device_is_assigned(c4.device_assignments, input.project_id, device) {
        assert(c5.device_assignments.contains_key(device_assignment_id));
    }
    let after = catalog::bumped(catalog::with_counts(c6, input.project_id));
    assert(after.device_assignments == c5.device_assignments);
    assert(after.data_assignments == c6.data_assignments);
    let j = choose|j: Seq<char>| #[trigger]
        c6.data_assignments.contains_key(j) && c6.data_assignments[j].project_id
            == input.project_id && c6.data_assignments[j].data_source_id == ids[k]
            && c6.data_assignments[j].valid_to is None;
    assert(after.data_assignments.contains_key(j));
}

/// A source that is linked for the first time is called, reached and spoken to as it was found,
/// and counts as pending until it is heard of.
pub proof fn law_linked_sources_hold_what_was_found(o: DiscoveryObservationView, s: DiscoveredSourceView)
    ensures
        ({
            let r = source_record(o, s);
            &&& r.name == s.label
            &&& r.protocol == s.protocol
            &&& r.status == "pending"@
            &&& r.live_url == discovery_rules::endpoint_url_text(s.endpoint)
            &&& r.topic_ids.len() == 0
            &&& r.mapping_version == 1
            &&& r.last_data_at == time::iso(o.last_seen_at_ms)
        }),
{
}

/// Two choices of access, or of visibility, are never written down alike.
pub proof fn law_choices_are_written_apart(a: AccessMode, b: AccessMode, v: DataVisibility, w: DataVisibility)
    ensures
        access_name(a) == access_name(b) ==> a == b,
        visibility_name(v) == visibility_name(w) ==> v == w,
{
    reveal_strlit("control");
    reveal_strlit("observe");
    reveal_strlit("operator");
    reveal_strlit("analyst");
    reveal_strlit("restricted");
    assert("control"@[0] == 'c' && "observe"@[0] == 'o');
    assert("operator"@.len() == 8 && "analyst"@.len() == 7 && "restricted"@.len() == 10);
}

} // verus!
