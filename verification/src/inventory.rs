//! The integrations, devices and data sources that the service knows.

use crate::api;
use crate::api::{ApiError, ApiErrorView};
use crate::catalog;
use crate::catalog::{Catalog, CatalogView};
use crate::discovery_rules;
use crate::domain::{
    CreateDataSourceRequest, CreateDataSourceRequestView, CreateDeviceRequest,
    CreateDeviceRequestView, CreateIntegrationRequest, CreateIntegrationRequestView, DataSource,
    DataSourceView, Device, DeviceView, Integration, IntegrationView, Topic, TopicList, TopicView,
};
use crate::imports;
use crate::projects;
use crate::table;
use crate::table::{copy_all, Copied};
use crate::text;
use crate::topics;
use vstd::prelude::*;

verus! {

/// Why a field that must be filled is refused.
pub open spec fn blank_failure(field: Seq<char>, value: Seq<char>) -> Option<ApiErrorView> {
    if text::trim(value).len() == 0 {
        Some(api::bad_request(field + " is required."@))
    } else {
        None
    }
}

pub fn validate_required(field: &str, value: &str) -> (r: Result<(), ApiError>)
    ensures
        discovery_rules::checked(r, blank_failure(field@, value@)),
{
    if text::is_blank(value) {
        let message = text::line(field).add(" is required.").done();
        return Err(ApiError::bad_request(message.as_str()));
    }
    Ok(())
}

/// The first failure, if any.
pub open spec fn either_failure(a: Option<ApiErrorView>, b: Option<ApiErrorView>) -> Option<
    ApiErrorView,
> {
    if a is Some {
        a
    } else {
        b
    }
}

pub fn list_integrations(c: &Catalog) -> (r: Vec<Integration>)
    ensures
        table::views(r@) == table::values_where(c@.integrations, |x: IntegrationView| true),
{
    let test = |x: &Integration| -> (b: bool)
        ensures
            b,
        { true };
    c.integrations.select(test, Ghost(|x: IntegrationView| true))
}

pub fn list_devices(c: &Catalog) -> (r: Vec<Device>)
    ensures
        table::views(r@) == table::values_where(c@.devices, |x: DeviceView| true),
{
    let test = |x: &Device| -> (b: bool)
        ensures
            b,
        { true };
    c.devices.select(test, Ghost(|x: DeviceView| true))
}

pub open spec fn belongs_to(device: Option<Seq<char>>) -> spec_fn(DataSourceView) -> bool {
    |s: DataSourceView| device matches Some(d) ==> s.device_id == d
}

/// The data sources, or those of one device.
pub fn list_data_sources(c: &Catalog, device_id: &Option<String>) -> (r: Vec<DataSource>)
    ensures
        table::views(r@) == table::values_where(
            c@.data_sources,
            belongs_to(table::view_option(*device_id)),
        ),
{
    let ghost p = belongs_to(table::view_option(*device_id));
    let test = |s: &DataSource| -> (b: bool)
        ensures
            b == p(s@),
        {
            match device_id {
                Some(d) => text::same(s.device_id.as_str(), d.as_str()),
                None => true,
            }
        };
    c.data_sources.select(test, Ghost(p))
}

/// The topics of a data source.
pub fn list_topics(c: &Catalog, data_source_id: &str) -> (r: Result<Vec<Topic>, ApiError>)
    ensures
        projects::list_view(r) == if !c@.data_sources.contains_key(data_source_id@) {
            Err::<Seq<TopicView>, ApiErrorView>(api::not_found("DataSource"@, data_source_id@))
        } else if c@.topics_by_data_source.contains_key(data_source_id@) {
            Ok(c@.topics_by_data_source[data_source_id@])
        } else {
            Ok(Seq::empty())
        },
{
    if !c.data_sources.contains(data_source_id) {
        return Err(ApiError::not_found("DataSource", data_source_id));
    }
    match c.topics_by_data_source.get(data_source_id) {
        Some(list) => Ok(copy_all(&list.topics)),
        None => {
            let empty: Vec<Topic> = Vec::new();
            assert(table::views(empty@) =~= Seq::<TopicView>::empty());
            Ok(empty)
        },
    }
}

pub open spec fn integration_failure(q: CreateIntegrationRequestView) -> Option<ApiErrorView> {
    either_failure(
        blank_failure("organizationId"@, q.organization_id),
        either_failure(
            blank_failure("name"@, q.name),
            either_failure(
                blank_failure("kind"@, q.kind),
                blank_failure("endpointLabel"@, q.endpoint_label),
            ),
        ),
    )
}

pub open spec fn new_integration(
    c: CatalogView,
    q: CreateIntegrationRequestView,
    id: Seq<char>,
    now: Seq<char>,
) -> IntegrationView {
    IntegrationView {
        id,
        organization_id: q.organization_id,
        name: q.name,
        kind: q.kind,
        status: "testing"@,
        endpoint_label: q.endpoint_label,
        last_health_at: now,
        created_at: now,
        resource_version: catalog::next_version(c.snapshot_version),
    }
}

/// Registers an integration.
pub fn create_integration(
    c: &mut Catalog,
    request: &CreateIntegrationRequest,
    integration_id: &str,
    now: &str,
) -> (r: Result<Integration, ApiError>)
    ensures
        match integration_failure(request@) {
            Some(x) => r matches Err(e) && e@ == x && final(c)@ == old(c)@,
            None => ({
                let v = new_integration(old(c)@, request@, integration_id@, now@);
                r matches Ok(i) && i@ == v && final(c)@ == catalog::bumped(
                    CatalogView {
                        integrations: old(c)@.integrations.insert(integration_id@, v),
                        ..old(c)@
                    },
                )
            }),
        },
{
    match validate_required("organizationId", request.organization_id.as_str()) {
        Ok(()) => {},
        Err(e) => {
            return Err(e);
        },
    }
    match validate_required("name", request.name.as_str()) {
        Ok(()) => {},
        Err(e) => {
            return Err(e);
        },
    }
    match validate_required("kind", request.kind.as_str()) {
        Ok(()) => {},
        Err(e) => {
            return Err(e);
        },
    }
    match validate_required("endpointLabel", request.endpoint_label.as_str()) {
        Ok(()) => {},
        Err(e) => {
            return Err(e);
        },
    }
    let resource_version: u64 = c.bump_version();
    let integration = Integration {
        id: integration_id.to_owned(),
        organization_id: request.organization_id.clone(),
        name: request.name.clone(),
        kind: request.kind.clone(),
        status: "testing".to_owned(),
        endpoint_label: request.endpoint_label.clone(),
        last_health_at: now.to_owned(),
        created_at: now.to_owned(),
        resource_version,
    };
    let _ = c.integrations.insert(integration_id.to_owned(), integration.copied());
    Ok(integration)
}

/// The value, or another in its place.
pub open spec fn given_or(o: Option<Seq<char>>, other: Seq<char>) -> Seq<char> {
    match o {
        Some(s) => s,
        None => other,
    }
}

fn text_or(o: &Option<String>, other: &str) -> (r: String)
    ensures
        r@ == given_or(table::view_option(*o), other@),
{
    match o {
        Some(s) => s.clone(),
        None => other.to_owned(),
    }
}

pub open spec fn device_failure(c: CatalogView, q: CreateDeviceRequestView, id: Seq<char>) -> Option<
    ApiErrorView,
> {
    let blank = either_failure(
        blank_failure("organizationId"@, q.organization_id),
        either_failure(
            blank_failure("integrationId"@, q.integration_id),
            either_failure(blank_failure("name"@, q.name), blank_failure("kind"@, q.kind)),
        ),
    );
    if blank is Some {
        blank
    } else if !c.integrations.contains_key(q.integration_id) {
        Some(api::not_found("Integration"@, q.integration_id))
    } else if c.integrations[q.integration_id].organization_id != q.organization_id {
        Some(api::conflict("Integration and Device must belong to the same organization."@))
    } else if c.devices.contains_key(id) {
        Some(api::conflict("Device ID is already registered."@))
    } else {
        None
    }
}

pub open spec fn new_device(q: CreateDeviceRequestView, id: Seq<char>, now: Seq<char>) -> DeviceView {
    DeviceView {
        id,
        organization_id: q.organization_id,
        integration_id: q.integration_id,
        name: q.name,
        kind: q.kind,
        status: q.status,
        health: q.health,
        operation_mode: q.operation_mode,
        battery_percent: q.battery_percent,
        task_name: q.task_name,
        task_progress: q.task_progress,
        last_seen_at: given_or(q.last_seen_at, now),
        state_version: 1,
    }
}

/// Registers a device under the requested identifier, or under `new_id`.
pub fn create_device(
    c: &mut Catalog,
    request: &CreateDeviceRequest,
    new_id: &str,
    now: &str,
) -> (r: Result<Device, ApiError>)
    ensures
        ({
            let id = given_or(request@.id, new_id@);
            let v = new_device(request@, id, now@);
            match device_failure(old(c)@, request@, id) {
                Some(x) => r matches Err(e) && e@ == x && final(c)@ == old(c)@,
                None => r matches Ok(d) && d@ == v && final(c)@ == catalog::bumped(
                    CatalogView { devices: old(c)@.devices.insert(id, v), ..old(c)@ },
                ),
            }
        }),
{
    match validate_required("organizationId", request.organization_id.as_str()) {
        Ok(()) => {},
        Err(e) => {
            return Err(e);
        },
    }
    match validate_required("integrationId", request.integration_id.as_str()) {
        Ok(()) => {},
        Err(e) => {
            return Err(e);
        },
    }
    match validate_required("name", request.name.as_str()) {
        Ok(()) => {},
        Err(e) => {
            return Err(e);
        },
    }
    match validate_required("kind", request.kind.as_str()) {
        Ok(()) => {},
        Err(e) => {
            return Err(e);
        },
    }
    match c.integrations.get(request.integration_id.as_str()) {
        Some(i) => {
            if !text::same(i.organization_id.as_str(), request.organization_id.as_str()) {
                return Err(
                    ApiError::conflict(
                        "Integration and Device must belong to the same organization.",
                    ),
                );
            }
        },
        None => {
            return Err(ApiError::not_found("Integration", request.integration_id.as_str()));
        },
    }
    let device_id = text_or(&request.id, new_id);
    if c.devices.contains(device_id.as_str()) {
        return Err(ApiError::conflict("Device ID is already registered."));
    }
    let device = Device {
        id: device_id.clone(),
        organization_id: request.organization_id.clone(),
        integration_id: request.integration_id.clone(),
        name: request.name.clone(),
        kind: request.kind.clone(),
        status: request.status.clone(),
        health: request.health.clone(),
        operation_mode: request.operation_mode.clone(),
        battery_percent: request.battery_percent,
        task_name: request.task_name.clone(),
        task_progress: request.task_progress,
        last_seen_at: text_or(&request.last_seen_at, now),
        state_version: 1,
    };
    let _ = c.devices.insert(device_id, device.copied());
    let _ = c.bump_version();
    Ok(device)
}

pub open spec fn data_source_failure(
    c: CatalogView,
    q: CreateDataSourceRequestView,
    id: Seq<char>,
) -> Option<ApiErrorView> {
    let blank = either_failure(
        blank_failure("name"@, q.name),
        either_failure(
            blank_failure("protocol"@, q.protocol),
            blank_failure("liveUrl"@, q.live_url),
        ),
    );
    if blank is Some {
        blank
    } else if !c.integrations.contains_key(q.integration_id) {
        Some(api::not_found("Integration"@, q.integration_id))
    } else if !c.devices.contains_key(q.device_id) {
        Some(api::not_found("Device"@, q.device_id))
    } else if c.devices[q.device_id].integration_id != c.integrations[q.integration_id].id {
        Some(api::conflict("Device and DataSource must use the same Integration."@))
    } else if c.data_sources.contains_key(id) {
        Some(api::conflict("DataSource ID is already registered."@))
    } else {
        None
    }
}

/// The topics of a data source that is registered as requested.
pub open spec fn requested_topics(
    q: CreateDataSourceRequestView,
    id: Seq<char>,
    now: Seq<char>,
) -> Seq<TopicView> {
    topics::source_topics(id, q.device_id, q.topic_ids, now)
}

pub open spec fn new_data_source(
    q: CreateDataSourceRequestView,
    id: Seq<char>,
    now: Seq<char>,
) -> DataSourceView {
    DataSourceView {
        id,
        integration_id: q.integration_id,
        device_id: q.device_id,
        name: q.name,
        protocol: q.protocol,
        status: q.status,
        live_url: q.live_url,
        topic_ids: imports::topic_ids(requested_topics(q, id, now)),
        mapping_version: 1,
        last_data_at: given_or(q.last_data_at, now),
    }
}

/// Registers a data source, and a topic for each of its paths, under the requested identifier or under `new_id`.
pub fn create_data_source(
    c: &mut Catalog,
    request: &CreateDataSourceRequest,
    new_id: &str,
    now: &str,
) -> (r: Result<DataSource, ApiError>)
    ensures
        ({
            let id = given_or(request@.id, new_id@);
            let v = new_data_source(request@, id, now@);
            match data_source_failure(old(c)@, request@, id) {
                Some(x) => r matches Err(e) && e@ == x && final(c)@ == old(c)@,
                None => r matches Ok(d) && d@ == v && final(c)@ == catalog::bumped(
                    CatalogView {
                        topics_by_data_source: old(c)@.topics_by_data_source.insert(
                            id,
                            requested_topics(request@, id, now@),
                        ),
                        data_sources: old(c)@.data_sources.insert(id, v),
                        ..old(c)@
                    },
                ),
            }
        }),
{
    match validate_required("name", request.name.as_str()) {
        Ok(()) => {},
        Err(e) => {
            return Err(e);
        },
    }
    match validate_required("protocol", request.protocol.as_str()) {
        Ok(()) => {},
        Err(e) => {
            return Err(e);
        },
    }
    match validate_required("liveUrl", request.live_url.as_str()) {
        Ok(()) => {},
        Err(e) => {
            return Err(e);
        },
    }
    let integration = match c.integrations.get(request.integration_id.as_str()) {
        Some(i) => i,
        None => {
            return Err(ApiError::not_found("Integration", request.integration_id.as_str()));
        },
    };
    match c.devices.get(request.device_id.as_str()) {
        Some(d) => {
            if !text::same(d.integration_id.as_str(), integration.id.as_str()) {
                return Err(
                    ApiError::conflict("Device and DataSource must use the same Integration."),
                );
            }
        },
        None => {
            return Err(ApiError::not_found("Device", request.device_id.as_str()));
        },
    }
    let source_id = text_or(&request.id, new_id);
    if c.data_sources.contains(source_id.as_str()) {
        return Err(ApiError::conflict("DataSource ID is already registered."));
    }
    let topics = topics::topics_for_source(
        source_id.as_str(),
        request.device_id.as_str(),
        &request.topic_ids,
        now,
    );
    let source = DataSource {
        id: source_id.clone(),
        integration_id: request.integration_id.clone(),
        device_id: request.device_id.clone(),
        name: request.name.clone(),
        protocol: request.protocol.clone(),
        status: request.status.clone(),
        live_url: request.live_url.clone(),
        topic_ids: imports::ids_of(&topics),
        mapping_version: 1,
        last_data_at: text_or(&request.last_data_at, now),
    };
    let _ = c.topics_by_data_source.insert(source_id.clone(), TopicList { topics });
    let _ = c.data_sources.insert(source_id, source.copied());
    let _ = c.bump_version();
    Ok(source)
}

/// Identifiers are never taken over: what is registered under one keeps it.
pub proof fn law_registered_identifiers_are_kept(
    c: CatalogView,
    d: CreateDeviceRequestView,
    s: CreateDataSourceRequestView,
    id: Seq<char>,
)
    ensures
        c.devices.contains_key(id) ==> device_failure(c, d, id) is Some,
        c.data_sources.contains_key(id) ==> data_source_failure(c, s, id) is Some,
{
}

/// An integration is registered exactly if its organization, name, kind and endpoint are filled
/// in. It is under test until it was heard of.
pub proof fn law_integrations_start_under_test(
    c: CatalogView,
    q: CreateIntegrationRequestView,
    id: Seq<char>,
    now: Seq<char>,
)
    ensures
        integration_failure(q) is None <==> text::trim(q.organization_id).len() > 0 && text::trim(
            q.name,
        ).len() > 0 && text::trim(q.kind).len() > 0 && text::trim(q.endpoint_label).len() > 0,
        ({
            let i = new_integration(c, q, id, now);
            &&& i.id == id
            &&& i.organization_id == q.organization_id
            &&& i.name == q.name
            &&& i.kind == q.kind
            &&& i.endpoint_label == q.endpoint_label
            &&& i.status == "testing"@
            &&& i.created_at == now
        }),
{
}

/// A device is registered exactly if its fields are filled in, its integration exists in its
/// organization, and its identifier is free. It holds what was asked, in its first state.
pub proof fn law_devices_need_an_integration(
    c: CatalogView,
    q: CreateDeviceRequestView,
    id: Seq<char>,
    now: Seq<char>,
)
    ensures
        device_failure(c, q, id) is None <==> {
            &&& text::trim(q.organization_id).len() > 0
            &&& text::trim(q.integration_id).len() > 0
            &&& text::trim(q.name).len() > 0
            &&& text::trim(q.kind).len() > 0
            &&& c.integrations.contains_key(q.integration_id)
            &&& c.integrations[q.integration_id].organization_id == q.organization_id
            &&& !c.devices.contains_key(id)
        },
        ({
            let d = new_device(q, id, now);
            &&& d.id == id
            &&& d.organization_id == q.organization_id
            &&& d.integration_id == q.integration_id
            &&& d.name == q.name
            &&& d.kind == q.kind
            &&& d.status == q.status
            &&& d.health == q.health
            &&& d.operation_mode == q.operation_mode
            &&& d.battery_percent == q.battery_percent
            &&& d.task_name == q.task_name
            &&& d.task_progress == q.task_progress
            &&& d.state_version == 1
            &&& q.last_seen_at is None ==> d.last_seen_at == now
            &&& q.last_seen_at is Some ==> Some(d.last_seen_at) == q.last_seen_at
        }),
{
}

/// A data source is registered exactly if its fields are filled in, its device and integration
/// exist and belong together, and its identifier is free. It holds what was asked, with one topic
/// for each that was listed.
pub proof fn law_sources_need_their_device(
    c: CatalogView,
    q: CreateDataSourceRequestView,
    id: Seq<char>,
    now: Seq<char>,
)
    ensures
        data_source_failure(c, q, id) is None <==> {
            &&& text::trim(q.name).len() > 0
            &&& text::trim(q.protocol).len() > 0
            &&& text::trim(q.live_url).len() > 0
            &&& c.integrations.contains_key(q.integration_id)
            &&& c.devices.contains_key(q.device_id)
            &&& c.devices[q.device_id].integration_id == c.integrations[q.integration_id].id
            &&& !c.data_sources.contains_key(id)
        },
        ({
            let s = new_data_source(q, id, now);
            let topics = requested_topics(q, id, now);
            &&& s.id == id
            &&& s.integration_id == q.integration_id
            &&& s.device_id == q.device_id
            &&& s.name == q.name
            &&& s.protocol == q.protocol
            &&& s.status == q.status
            &&& s.live_url == q.live_url
            &&& s.mapping_version == 1
            &&& s.topic_ids.len() == q.topic_ids.len()
            &&& topics.len() == q.topic_ids.len()
            &&& forall|i: int|
                0 <= i < q.topic_ids.len() ==> (#[trigger] topics[i]).path == q.topic_ids[i]
                    && topics[i].id == s.topic_ids[i] && topics[i].data_source_id == id
            &&& q.last_data_at is None ==> s.last_data_at == now
            &&& q.last_data_at is Some ==> Some(s.last_data_at) == q.last_data_at
        }),
{
}

} // verus!
