//! Projects, and the devices and data sources that are assigned to them.

use crate::api;
use crate::api::{ApiError, ApiErrorView};
use crate::catalog;
use crate::catalog::{Catalog, CatalogView};
use crate::discovery_rules;
use crate::domain::{
    AccessMode, CreateDataAssignmentRequest, CreateDeviceAssignmentRequest, CreateProjectRequest,
    CreateProjectRequestView, DataAssignment, DataAssignmentView, DataSource, DataSourceView,
    DataVisibility, DeviceAssignment, DeviceAssignmentView, LiveSession, LiveSessionView, Project,
    ProjectView, ProjectWorkspace, ProjectWorkspaceView, Recording, RecordingImport,
    RecordingImportView, RecordingView,
};
use crate::imports;
use crate::rrd_manifest;
use crate::rrd_verify;
use crate::table;
use crate::table::Copied;
use crate::text;
use vstd::prelude::*;

verus! {

/// The controlling assignments of a device, but for those of one project.
pub open spec fn rival(device: Seq<char>, project: Option<Seq<char>>) -> spec_fn(
    DeviceAssignmentView,
) -> bool {
    |a: DeviceAssignmentView|
        a.device_id == device && a.access_mode == AccessMode::Control && (project matches Some(
            p,
        ) ==> a.project_id != p)
}

/// Why a device may not be controlled from one more project.
pub open spec fn control_failure(
    c: CatalogView,
    device: Seq<char>,
    project: Option<Seq<char>>,
) -> Option<ApiErrorView> {
    if table::any_value(c.device_assignments, rival(device, project)) {
        Some(api::conflict("Device already has a control assignment in another Project."@))
    } else {
        None
    }
}

pub open spec fn opt_view(o: Option<&str>) -> Option<Seq<char>> {
    match o {
        Some(s) => Some(s@),
        None => None,
    }
}

pub fn ensure_control_assignment_available(
    c: &Catalog,
    device_id: &str,
    current_project_id: Option<&str>,
) -> (r: Result<(), ApiError>)
    ensures
        discovery_rules::checked(r, control_failure(c@, device_id@, opt_view(current_project_id))),
{
    let ghost p = rival(device_id@, opt_view(current_project_id));
    let test = |a: &DeviceAssignment| -> (b: bool)
        ensures
            b == p(a@),
        {
            text::same(a.device_id.as_str(), device_id) && a.access_mode == AccessMode::Control
                && match current_project_id {
                Some(project) => !text::same(a.project_id.as_str(), project),
                None => true,
            }
        };
    if c.device_assignments.find(test, Ghost(p)).is_some() {
        return Err(
            ApiError::conflict("Device already has a control assignment in another Project."),
        );
    }
    Ok(())
}

/// Why a new project of an organization may not have a device.
pub open spec fn device_failure(c: CatalogView, organization: Seq<char>, id: Seq<char>) -> Option<
    ApiErrorView,
> {
    if !c.devices.contains_key(id) {
        Some(api::not_found("Device"@, id))
    } else if c.devices[id].organization_id != organization {
        Some(
            api::conflict("Project and assigned Device must belong to the same organization."@),
        )
    } else {
        control_failure(c, id, None)
    }
}

/// Why a new project of an organization may not have a data source.
pub open spec fn source_failure(c: CatalogView, organization: Seq<char>, id: Seq<char>) -> Option<
    ApiErrorView,
> {
    if !c.data_sources.contains_key(id) {
        Some(api::not_found("DataSource"@, id))
    } else {
        let device = c.data_sources[id].device_id;
        if !c.devices.contains_key(device) {
            Some(api::not_found("Device"@, device))
        } else if c.devices[device].organization_id != organization {
            Some(
                api::conflict(
                    "Project and assigned DataSource must belong to the same organization."@,
                ),
            )
        } else {
            None
        }
    }
}

/// The first failure of a list, from an index on.
pub open spec fn first_failure(
    ids: Seq<Seq<char>>,
    f: spec_fn(Seq<char>) -> Option<ApiErrorView>,
    i: int,
) -> Option<ApiErrorView>
    decreases ids.len() - i,
{
    if i < 0 || i >= ids.len() {
        None
    } else if f(ids[i]) is Some {
        f(ids[i])
    } else {
        first_failure(ids, f, i + 1)
    }
}

/// Why a new project of an organization may not have its devices and data sources.
pub open spec fn resources_failure(
    c: CatalogView,
    organization: Seq<char>,
    devices: Seq<Seq<char>>,
    sources: Seq<Seq<char>>,
) -> Option<ApiErrorView> {
    let fault = first_failure(devices, |id: Seq<char>| device_failure(c, organization, id), 0);
    if fault is Some {
        fault
    } else {
        first_failure(sources, |id: Seq<char>| source_failure(c, organization, id), 0)
    }
}

fn check_device(c: &Catalog, organization_id: &str, id: &str) -> (r: Result<(), ApiError>)
    ensures
        discovery_rules::checked(r, device_failure(c@, organization_id@, id@)),
{
    match c.devices.get(id) {
        Some(d) => {
            if !text::same(d.organization_id.as_str(), organization_id) {
                return Err(
                    ApiError::conflict(
                        "Project and assigned Device must belong to the same organization.",
                    ),
                );
            }
        },
        None => {
            return Err(ApiError::not_found("Device", id));
        },
    }
    ensure_control_assignment_available(c, id, None)
}

fn check_source(c: &Catalog, organization_id: &str, id: &str) -> (r: Result<(), ApiError>)
    ensures
        discovery_rules::checked(r, source_failure(c@, organization_id@, id@)),
{
    let source = match c.data_sources.get(id) {
        Some(s) => s,
        None => {
            return Err(ApiError::not_found("DataSource", id));
        },
    };
    match c.devices.get(source.device_id.as_str()) {
        Some(d) => if text::same(d.organization_id.as_str(), organization_id) {
            Ok(())
        } else {
            Err(
                ApiError::conflict(
                    "Project and assigned DataSource must belong to the same organization.",
                ),
            )
        },
        None => Err(ApiError::not_found("Device", source.device_id.as_str())),
    }
}

/// Checks the devices and data sources of a new project, in the order of their lists.
pub fn validate_project_resources(
    c: &Catalog,
    organization_id: &str,
    device_ids: &Vec<String>,
    data_source_ids: &Vec<String>,
) -> (r: Result<(), ApiError>)
    ensures
        discovery_rules::checked(
            r,
            resources_failure(
                c@,
                organization_id@,
                table::views(device_ids@),
                table::views(data_source_ids@),
            ),
        ),
{
    let ghost devices = table::views(device_ids@);
    let ghost sources = table::views(data_source_ids@);
    let ghost f = |id: Seq<char>| device_failure(c@, organization_id@, id);
    let ghost g = |id: Seq<char>| source_failure(c@, organization_id@, id);
    let mut i: usize = 0;
    while i < device_ids.len()
        invariant
            i <= device_ids@.len(),
            devices == table::views(device_ids@),
            f == (|id: Seq<char>| device_failure(c@, organization_id@, id)),
            first_failure(devices, f, 0) == first_failure(devices, f, i as int),
            sources == table::views(data_source_ids@),
        decreases device_ids@.len() - i,
    {
        assert(devices[i as int] == device_ids@[i as int]@);
        match check_device(c, organization_id, device_ids[i].as_str()) {
            Ok(()) => {},
            Err(e) => {
                return Err(e);
            },
        }
        i = i + 1;
    }
    let mut j: usize = 0;
    while j < data_source_ids.len()
        invariant
            j <= data_source_ids@.len(),
            devices == table::views(device_ids@),
            sources == table::views(data_source_ids@),
            f == (|id: Seq<char>| device_failure(c@, organization_id@, id)),
            g == (|id: Seq<char>| source_failure(c@, organization_id@, id)),
            first_failure(devices, f, 0) is None,
            first_failure(sources, g, 0) == first_failure(sources, g, j as int),
        decreases data_source_ids@.len() - j,
    {
        assert(sources[j as int] == data_source_ids@[j as int]@);
        match check_source(c, organization_id, data_source_ids[j].as_str()) {
            Ok(()) => {},
            Err(e) => {
                return Err(e);
            },
        }
        j = j + 1;
    }
    Ok(())
}

pub open spec fn of_device(project: Seq<char>, device: Seq<char>) -> spec_fn(
    DeviceAssignmentView,
) -> bool {
    |a: DeviceAssignmentView| a.project_id == project && a.device_id == device
}

pub open spec fn of_source(project: Seq<char>, source: Seq<char>) -> spec_fn(
    DataAssignmentView,
) -> bool {
    |a: DataAssignmentView| a.project_id == project && a.data_source_id == source
}

/// A new assignment of a device, and the catalog with it.
pub open spec fn device_linked(
    c: CatalogView,
    project: Seq<char>,
    device: Seq<char>,
    mode: AccessMode,
    id: Seq<char>,
    now: Seq<char>,
) -> Result<(CatalogView, DeviceAssignmentView), ApiErrorView> {
    if table::any_value(c.device_assignments, of_device(project, device)) {
        Err(api::conflict("Device is already assigned to this Project."@))
    } else if mode == AccessMode::Control && control_failure(c, device, Some(project)) is Some {
        Err(control_failure(c, device, Some(project))->Some_0)
    } else {
        let a = DeviceAssignmentView {
            id,
            project_id: project,
            device_id: device,
            access_mode: mode,
            valid_from: now,
            valid_to: None,
            resource_version: catalog::next_version(c.snapshot_version),
        };
        Ok((CatalogView { device_assignments: c.device_assignments.insert(id, a), ..c }, a))
    }
}

pub fn insert_device_assignment(
    c: &mut Catalog,
    project_id: &str,
    device_id: &str,
    access_mode: AccessMode,
    assignment_id: &str,
    now: &str,
) -> (r: Result<DeviceAssignment, ApiError>)
    ensures
        match device_linked(
            old(c)@,
            project_id@,
            device_id@,
            access_mode,
            assignment_id@,
            now@,
        ) {
            Ok((after, a)) => r matches Ok(v) && v@ == a && final(c)@ == after,
            Err(x) => r matches Err(e) && e@ == x && final(c)@ == old(c)@,
        },
{
    let test = |a: &DeviceAssignment| -> (b: bool)
        ensures
            b == (a@.project_id == project_id@ && a@.device_id == device_id@),
        {
            text::same(a.project_id.as_str(), project_id) && text::same(
                a.device_id.as_str(),
                device_id,
            )
        };
    if c.device_assignments.find(test, Ghost(of_device(project_id@, device_id@))).is_some() {
        return Err(ApiError::conflict("Device is already assigned to this Project."));
    }
    if access_mode == AccessMode::Control {
        match ensure_control_assignment_available(c, device_id, Some(project_id)) {
            Ok(()) => {},
            Err(e) => {
                return Err(e);
            },
        }
    }
    let assignment = DeviceAssignment {
        id: assignment_id.to_owned(),
        project_id: project_id.to_owned(),
        device_id: device_id.to_owned(),
        access_mode,
        valid_from: now.to_owned(),
        valid_to: None,
        resource_version: catalog::version_after(c.snapshot_version),
    };
    let _ = c.device_assignments.insert(assignment_id.to_owned(), assignment.copied());
    Ok(assignment)
}

/// A new assignment of a data source, and the catalog with it.
pub open spec fn source_linked(
    c: CatalogView,
    project: Seq<char>,
    source: Seq<char>,
    visibility: DataVisibility,
    id: Seq<char>,
    now: Seq<char>,
) -> Result<(CatalogView, DataAssignmentView), ApiErrorView> {
    if table::any_value(c.data_assignments, of_source(project, source)) {
        Err(api::conflict("DataSource is already assigned to this Project."@))
    } else {
        let a = DataAssignmentView {
            id,
            project_id: project,
            data_source_id: source,
            visibility,
            valid_from: now,
            valid_to: None,
            resource_version: catalog::next_version(c.snapshot_version),
        };
        Ok((CatalogView { data_assignments: c.data_assignments.insert(id, a), ..c }, a))
    }
}

pub fn insert_data_assignment(
    c: &mut Catalog,
    project_id: &str,
    data_source_id: &str,
    visibility: DataVisibility,
    assignment_id: &str,
    now: &str,
) -> (r: Result<DataAssignment, ApiError>)
    ensures
        match source_linked(
            old(c)@,
            project_id@,
            data_source_id@,
            visibility,
            assignment_id@,
            now@,
        ) {
            Ok((after, a)) => r matches Ok(v) && v@ == a && final(c)@ == after,
            Err(x) => r matches Err(e) && e@ == x && final(c)@ == old(c)@,
        },
{
    let test = |a: &DataAssignment| -> (b: bool)
        ensures
            b == (a@.project_id == project_id@ && a@.data_source_id == data_source_id@),
        {
            text::same(a.project_id.as_str(), project_id) && text::same(
                a.data_source_id.as_str(),
                data_source_id,
            )
        };
    if c.data_assignments.find(test, Ghost(of_source(project_id@, data_source_id@))).is_some() {
        return Err(ApiError::conflict("DataSource is already assigned to this Project."));
    }
    let assignment = DataAssignment {
        id: assignment_id.to_owned(),
        project_id: project_id.to_owned(),
        data_source_id: data_source_id.to_owned(),
        visibility,
        valid_from: now.to_owned(),
        valid_to: None,
        resource_version: catalog::version_after(c.snapshot_version),
    };
    let _ = c.data_assignments.insert(assignment_id.to_owned(), assignment.copied());
    Ok(assignment)
}

/// The catalog once a project controls the listed devices, from an index on.
pub open spec fn devices_linked(
    c: CatalogView,
    project: Seq<char>,
    devices: Seq<Seq<char>>,
    ids: Seq<Seq<char>>,
    now: Seq<char>,
    i: int,
) -> Result<CatalogView, ApiErrorView>
    decreases devices.len() - i,
{
    if i < 0 || i >= devices.len() {
        Ok(c)
    } else {
        match device_linked(c, project, devices[i], AccessMode::Control, ids[i], now) {
            Ok((next, _)) => devices_linked(next, project, devices, ids, now, i + 1),
            Err(e) => Err(e),
        }
    }
}

/// The catalog once the operators of a project see the listed data sources, from an index on.
pub open spec fn sources_linked(
    c: CatalogView,
    project: Seq<char>,
    sources: Seq<Seq<char>>,
    ids: Seq<Seq<char>>,
    now: Seq<char>,
    i: int,
) -> Result<CatalogView, ApiErrorView>
    decreases sources.len() - i,
{
    if i < 0 || i >= sources.len() {
        Ok(c)
    } else {
        match source_linked(c, project, sources[i], DataVisibility::Operator, ids[i], now) {
            Ok((next, _)) => sources_linked(next, project, sources, ids, now, i + 1),
            Err(e) => Err(e),
        }
    }
}

fn link_devices(
    c: &mut Catalog,
    project_id: &str,
    devices: &Vec<String>,
    ids: &Vec<String>,
    now: &str,
) -> (r: Result<(), ApiError>)
    requires
        devices@.len() <= ids@.len(),
    ensures
        match devices_linked(
            old(c)@,
            project_id@,
            table::views(devices@),
            table::views(ids@),
            now@,
            0,
        ) {
            Ok(after) => r is Ok && final(c)@ == after,
            Err(x) => r matches Err(e) && e@ == x,
        },
{
    let ghost all = table::views(devices@);
    let ghost names = table::views(ids@);
    let ghost start = c@;
    let mut i: usize = 0;
    while i < devices.len()
        invariant
            i <= devices@.len(),
            devices@.len() <= ids@.len(),
            all == table::views(devices@),
            names == table::views(ids@),
            start == old(c)@,
            devices_linked(start, project_id@, all, names, now@, 0) == devices_linked(
                c@,
                project_id@,
                all,
                names,
                now@,
                i as int,
            ),
        decreases devices@.len() - i,
    {
        assert(all[i as int] == devices@[i as int]@);
        assert(names[i as int] == ids@[i as int]@);
        match insert_device_assignment(
            c,
            project_id,
            devices[i].as_str(),
            AccessMode::Control,
            ids[i].as_str(),
            now,
        ) {
            Ok(_) => {},
            Err(e) => {
                return Err(e);
            },
        }
        i = i + 1;
    }
    Ok(())
}

fn link_sources(
    c: &mut Catalog,
    project_id: &str,
    sources: &Vec<String>,
    ids: &Vec<String>,
    now: &str,
) -> (r: Result<(), ApiError>)
    requires
        sources@.len() <= ids@.len(),
    ensures
        match sources_linked(
            old(c)@,
            project_id@,
            table::views(sources@),
            table::views(ids@),
            now@,
            0,
        ) {
            Ok(after) => r is Ok && final(c)@ == after,
            Err(x) => r matches Err(e) && e@ == x,
        },
{
    let ghost all = table::views(sources@);
    let ghost names = table::views(ids@);
    let ghost start = c@;
    let mut i: usize = 0;
    while i < sources.len()
        invariant
            i <= sources@.len(),
            sources@.len() <= ids@.len(),
            all == table::views(sources@),
            names == table::views(ids@),
            start == old(c)@,
            sources_linked(start, project_id@, all, names, now@, 0) == sources_linked(
                c@,
                project_id@,
                all,
                names,
                now@,
                i as int,
            ),
        decreases sources@.len() - i,
    {
        assert(all[i as int] == sources@[i as int]@);
        assert(names[i as int] == ids@[i as int]@);
        match insert_data_assignment(
            c,
            project_id,
            sources[i].as_str(),
            DataVisibility::Operator,
            ids[i].as_str(),
            now,
        ) {
            Ok(_) => {},
            Err(e) => {
                return Err(e);
            },
        }
        i = i + 1;
    }
    Ok(())
}

/// The identifiers of a list, in ascending order and once each.
pub open spec fn distinct_ids(ids: Seq<Seq<char>>) -> Seq<Seq<char>> {
    rrd_verify::keys_of(rrd_manifest::name_set(ids))
}

/// A list without its repetitions is no longer than the list.
pub proof fn lemma_distinct_ids(ids: Seq<Seq<char>>)
    ensures
        distinct_ids(ids).len() <= ids.len(),
        distinct_ids(ids).no_duplicates(),
        forall|k: Seq<char>| distinct_ids(ids).contains(k) <==> ids.contains(k),
{
    let m = rrd_manifest::name_set(ids);
    let keys = distinct_ids(ids);
    assert(m.dom() =~= ids.to_set());
    table::lemma_items_exist(m);
    let items = table::items_of(m);
    table::lemma_items_all(items);
    assert forall|i: int, j: int| 0 <= i < j < keys.len() implies keys[i] != keys[j] by {
        text::lemma_less_irreflexive(items[i].0);
        assert(text::less(items[i].0, items[j].0));
    }
    assert forall|k: Seq<char>| keys.contains(k) <==> ids.contains(k) by {
        if keys.contains(k) {
            let i = choose|i: int| 0 <= i < keys.len() && keys[i] == k;
            table::lemma_items_lookup(items, i);
            assert(m.contains_key(k));
        }
        if ids.contains(k) {
            assert(m.contains_key(k));
            let i = table::key_index(items, k);
            assert(keys[i] == k);
        }
    }
    keys.unique_seq_to_set();
    assert(keys.to_set() =~= ids.to_set());
    ids.lemma_cardinality_of_set();
}

/// A new project without devices.
pub open spec fn new_project(
    c: CatalogView,
    q: CreateProjectRequestView,
    id: Seq<char>,
    now: Seq<char>,
) -> ProjectView {
    ProjectView {
        id,
        organization_id: q.organization_id,
        name: q.name,
        description: q.description,
        status: q.status,
        device_count: 0,
        online_device_count: 0,
        created_at: now,
        resource_version: catalog::next_version(c.snapshot_version),
    }
}

/// The catalog with a new project and all its assignments, before the counts are taken.
pub open spec fn project_linked(
    c: CatalogView,
    q: CreateProjectRequestView,
    id: Seq<char>,
    device_assignment_ids: Seq<Seq<char>>,
    data_assignment_ids: Seq<Seq<char>>,
    now: Seq<char>,
) -> Result<CatalogView, ApiErrorView> {
    let devices = distinct_ids(q.device_ids);
    let sources = distinct_ids(q.data_source_ids);
    let fault = resources_failure(c, q.organization_id, devices, sources);
    if fault is Some {
        Err(fault->Some_0)
    } else {
        let first = CatalogView {
            projects: c.projects.insert(id, new_project(c, q, id, now)),
            ..c
        };
        match devices_linked(first, id, devices, device_assignment_ids, now, 0) {
            Ok(second) => sources_linked(second, id, sources, data_assignment_ids, now, 0),
            Err(e) => Err(e),
        }
    }
}

/// The catalog with a new project, and the project. All of it is added, or nothing.
pub open spec fn project_created(
    c: CatalogView,
    q: CreateProjectRequestView,
    id: Seq<char>,
    device_assignment_ids: Seq<Seq<char>>,
    data_assignment_ids: Seq<Seq<char>>,
    now: Seq<char>,
) -> Result<(CatalogView, ProjectView), ApiErrorView> {
    if text::trim(q.organization_id).len() == 0 || text::trim(q.name).len() == 0 {
        Err(api::bad_request("organizationId and name are required."@))
    } else {
        match project_linked(c, q, id, device_assignment_ids, data_assignment_ids, now) {
            Ok(linked) => {
                let after = catalog::bumped(catalog::with_counts(linked, id));
                Ok((after, after.projects[id]))
            },
            Err(e) => Err(e),
        }
    }
}

fn link_project(
    c: &mut Catalog,
    request: &CreateProjectRequest,
    project_id: &str,
    device_assignment_ids: &Vec<String>,
    data_assignment_ids: &Vec<String>,
    now: &str,
) -> (r: Result<(), ApiError>)
    requires
        request.device_ids@.len() <= device_assignment_ids@.len(),
        request.data_source_ids@.len() <= data_assignment_ids@.len(),
    ensures
        match project_linked(
            old(c)@,
            request@,
            project_id@,
            table::views(device_assignment_ids@),
            table::views(data_assignment_ids@),
            now@,
        ) {
            Ok(after) => r is Ok && final(c)@ == after,
            Err(x) => r matches Err(e) && e@ == x,
        },
{
    let devices = rrd_verify::list_keys(&rrd_manifest::set_of_names(&request.device_ids));
    let sources = rrd_verify::list_keys(&rrd_manifest::set_of_names(&request.data_source_ids));
    proof {
        lemma_distinct_ids(request@.device_ids);
        lemma_distinct_ids(request@.data_source_ids);
        assert(table::views(devices@).len() == devices@.len());
        assert(table::views(sources@).len() == sources@.len());
    }
    match validate_project_resources(c, request.organization_id.as_str(), &devices, &sources) {
        Ok(()) => {},
        Err(e) => {
            return Err(e);
        },
    }
    let project = Project {
        id: project_id.to_owned(),
        organization_id: request.organization_id.clone(),
        name: request.name.clone(),
        description: request.description.clone(),
        status: request.status.clone(),
        device_count: 0,
        online_device_count: 0,
        created_at: now.to_owned(),
        resource_version: catalog::version_after(c.snapshot_version),
    };
    let _ = c.projects.insert(project_id.to_owned(), project);
    match link_devices(c, project_id, &devices, device_assignment_ids, now) {
        Ok(()) => {},
        Err(e) => {
            return Err(e);
        },
    }
    link_sources(c, project_id, &sources, data_assignment_ids, now)
}

proof fn lemma_links_keep_projects(
    c: CatalogView,
    project: Seq<char>,
    list: Seq<Seq<char>>,
    ids: Seq<Seq<char>>,
    now: Seq<char>,
    i: int,
)
    ensures
        devices_linked(c, project, list, ids, now, i) matches Ok(after) ==> after.projects
            == c.projects && after.data_assignments == c.data_assignments,
        sources_linked(c, project, list, ids, now, i) matches Ok(after) ==> after.projects
            == c.projects && after.device_assignments == c.device_assignments,
    decreases list.len() - i,
{
    if 0 <= i < list.len() {
        match device_linked(c, project, list[i], AccessMode::Control, ids[i], now) {
            Ok((next, _)) => lemma_links_keep_projects(next, project, list, ids, now, i + 1),
            Err(_) => {},
        }
        match source_linked(c, project, list[i], DataVisibility::Operator, ids[i], now) {
            Ok((next, _)) => lemma_links_keep_projects(next, project, list, ids, now, i + 1),
            Err(_) => {},
        }
    }
}

proof fn lemma_linked_project_exists(
    c: CatalogView,
    q: CreateProjectRequestView,
    id: Seq<char>,
    device_assignment_ids: Seq<Seq<char>>,
    data_assignment_ids: Seq<Seq<char>>,
    now: Seq<char>,
)
    ensures
        project_linked(c, q, id, device_assignment_ids, data_assignment_ids, now) matches Ok(
            after,
        ) ==> after.projects == c.projects.insert(id, new_project(c, q, id, now)),
{
    let devices = distinct_ids(q.device_ids);
    let sources = distinct_ids(q.data_source_ids);
    let first = CatalogView { projects: c.projects.insert(id, new_project(c, q, id, now)), ..c };
    lemma_links_keep_projects(first, id, devices, device_assignment_ids, now, 0);
    match devices_linked(first, id, devices, device_assignment_ids, now, 0) {
        Ok(second) => lemma_links_keep_projects(second, id, sources, data_assignment_ids, now, 0),
        Err(_) => {},
    }
}

/// Creates a project that controls the devices and sees the data sources of the request.
pub fn create_project(
    c: &mut Catalog,
    request: &CreateProjectRequest,
    project_id: &str,
    device_assignment_ids: &Vec<String>,
    data_assignment_ids: &Vec<String>,
    now: &str,
) -> (r: Result<Project, ApiError>)
    requires
        request.device_ids@.len() <= device_assignment_ids@.len(),
        request.data_source_ids@.len() <= data_assignment_ids@.len(),
    ensures
        match project_created(
            old(c)@,
            request@,
            project_id@,
            table::views(device_assignment_ids@),
            table::views(data_assignment_ids@),
            now@,
        ) {
            Ok((after, p)) => r matches Ok(v) && v@ == p && final(c)@ == after,
            Err(x) => r matches Err(e) && e@ == x && final(c)@ == old(c)@,
        },
{
    if text::is_blank(request.organization_id.as_str()) || text::is_blank(request.name.as_str()) {
        return Err(ApiError::bad_request("organizationId and name are required."));
    }
    let ghost start = c@;
    let mut next = c.copied();
    match link_project(
        &mut next,
        request,
        project_id,
        device_assignment_ids,
        data_assignment_ids,
        now,
    ) {
        Ok(()) => {},
        Err(e) => {
            return Err(e);
        },
    }
    proof {
        lemma_linked_project_exists(
            start,
            request@,
            project_id@,
            table::views(device_assignment_ids@),
            table::views(data_assignment_ids@),
            now@,
        );
    }
    next.refresh_project_counts(project_id);
    let _ = next.bump_version();
    let project = match next.projects.get(project_id) {
        Some(p) => p.copied(),
        None => {
            return Err(ApiError::not_found("Project", project_id));
        },
    };
    *c = next;
    Ok(project)
}

pub fn list_projects(c: &Catalog) -> (r: Vec<Project>)
    ensures
        table::views(r@) == table::values_where(c@.projects, |p: ProjectView| true),
{
    let test = |p: &Project| -> (b: bool)
        ensures
            b,
        { true };
    c.projects.select(test, Ghost(|p: ProjectView| true))
}

pub open spec fn recorded_for(project: Seq<char>) -> spec_fn(RecordingView) -> bool {
    |r: RecordingView| r.project_id == project
}

fn recordings_of(c: &Catalog, project_id: &str) -> (r: Vec<Recording>)
    ensures
        table::views(r@) == table::values_where(c@.recordings, recorded_for(project_id@)),
{
    let test = |v: &Recording| -> (b: bool)
        ensures
            b == (v@.project_id == project_id@),
        { text::same(v.project_id.as_str(), project_id) };
    c.recordings.select(test, Ghost(recorded_for(project_id@)))
}

/// What a request for a list was answered.
pub open spec fn list_view<T: View>(r: Result<Vec<T>, ApiError>) -> Result<
    Seq<T::V>,
    ApiErrorView,
> {
    match r {
        Ok(v) => Ok(table::views(v@)),
        Err(e) => Err(e@),
    }
}

/// The recordings of a project.
pub fn list_recordings(c: &Catalog, project_id: &str) -> (r: Result<Vec<Recording>, ApiError>)
    ensures
        list_view(r) == if c@.projects.contains_key(project_id@) {
            Ok::<Seq<RecordingView>, ApiErrorView>(
                table::values_where(c@.recordings, recorded_for(project_id@)),
            )
        } else {
            Err(api::not_found("Project"@, project_id@))
        },
{
    if !c.projects.contains(project_id) {
        return Err(ApiError::not_found("Project", project_id));
    }
    Ok(recordings_of(c, project_id))
}

pub open spec fn active_devices(project: Seq<char>) -> spec_fn(DeviceAssignmentView) -> bool {
    |a: DeviceAssignmentView| a.project_id == project && a.valid_to is None
}

pub open spec fn active_sources(project: Seq<char>) -> spec_fn(DataAssignmentView) -> bool {
    |a: DataAssignmentView| a.project_id == project && a.valid_to is None
}

/// Everything of a project.
pub open spec fn workspace(c: CatalogView, project: Seq<char>, now: Seq<char>) -> Result<
    ProjectWorkspaceView,
    ApiErrorView,
> {
    if !c.projects.contains_key(project) {
        Err(api::not_found("Project"@, project))
    } else {
        let device_assignments = table::values_where(
            c.device_assignments,
            active_devices(project),
        );
        let data_assignments = table::values_where(c.data_assignments, active_sources(project));
        let data_sources = table::found(
            c.data_sources,
            data_assignments.map_values(|a: DataAssignmentView| a.data_source_id),
        );
        let recordings = table::values_where(c.recordings, recorded_for(project));
        Ok(
            ProjectWorkspaceView {
                snapshot_version: c.snapshot_version,
                captured_at: now,
                project: c.projects[project],
                device_assignments,
                data_assignments,
                devices: table::found(
                    c.devices,
                    device_assignments.map_values(|a: DeviceAssignmentView| a.device_id),
                ),
                data_sources,
                recordings,
                topics_by_recording: table::only(
                    c.topics_by_recording,
                    table::named(recordings.map_values(|r: RecordingView| r.id)),
                ),
                topics_by_data_source: table::only(
                    c.topics_by_data_source,
                    table::named(data_sources.map_values(|s: DataSourceView| s.id)),
                ),
            },
        )
    }
}

/// Everything of a project.
pub fn get_workspace(c: &Catalog, project_id: &str, now: &str) -> (r: Result<
    ProjectWorkspace,
    ApiError,
>)
    ensures
        api::answer_view(r) == workspace(c@, project_id@, now@),
{
    let project = match c.projects.get(project_id) {
        Some(p) => p.copied(),
        None => {
            return Err(ApiError::not_found("Project", project_id));
        },
    };
    let holds_device = |a: &DeviceAssignment| -> (b: bool)
        ensures
            b == (a@.project_id == project_id@ && a@.valid_to is None),
        { text::same(a.project_id.as_str(), project_id) && a.valid_to.is_none() };
    let device_assignments = c.device_assignments.select(
        holds_device,
        Ghost(active_devices(project_id@)),
    );
    let holds_source = |a: &DataAssignment| -> (b: bool)
        ensures
            b == (a@.project_id == project_id@ && a@.valid_to is None),
        { text::same(a.project_id.as_str(), project_id) && a.valid_to.is_none() };
    let data_assignments = c.data_assignments.select(
        holds_source,
        Ghost(active_sources(project_id@)),
    );
    let device_of = |a: &DeviceAssignment| -> (s: String)
        ensures
            s@ == a@.device_id,
        { a.device_id.clone() };
    let devices = c.devices.find_all(
        &table::texts_of(
            &device_assignments,
            device_of,
            Ghost(|a: DeviceAssignmentView| a.device_id),
        ),
    );
    let source_of = |a: &DataAssignment| -> (s: String)
        ensures
            s@ == a@.data_source_id,
        { a.data_source_id.clone() };
    let data_sources = c.data_sources.find_all(
        &table::texts_of(
            &data_assignments,
            source_of,
            Ghost(|a: DataAssignmentView| a.data_source_id),
        ),
    );
    let recordings = recordings_of(c, project_id);
    let source_id = |s: &DataSource| -> (t: String)
        ensures
            t@ == s@.id,
        { s.id.clone() };
    let topics_by_data_source = c.topics_by_data_source.part(
        &table::texts_of(&data_sources, source_id, Ghost(|s: DataSourceView| s.id)),
    );
    let recording_id = |v: &Recording| -> (t: String)
        ensures
            t@ == v@.id,
        { v.id.clone() };
    let topics_by_recording = c.topics_by_recording.part(
        &table::texts_of(&recordings, recording_id, Ghost(|v: RecordingView| v.id)),
    );
    Ok(
        ProjectWorkspace {
            snapshot_version: c.snapshot_version,
            captured_at: now.to_owned(),
            project,
            device_assignments,
            data_assignments,
            devices,
            data_sources,
            recordings,
            topics_by_recording,
            topics_by_data_source,
        },
    )
}

/// The identifier of the event that tells of a version of a project's workspace.
pub fn workspace_event_id(project_id: &str, snapshot_version: u64) -> (r: String)
    ensures
        r@ == "workspace-event-"@ + project_id@ + "-"@ + text::decimal(snapshot_version as nat),
{
    text::line("workspace-event-").add(project_id).add("-").num(snapshot_version).done()
}

/// Why a project may not have a device.
pub open spec fn pair_failure(c: CatalogView, project: Seq<char>, device: Seq<char>) -> Option<
    ApiErrorView,
> {
    if !c.projects.contains_key(project) {
        Some(api::not_found("Project"@, project))
    } else if !c.devices.contains_key(device) {
        Some(api::not_found("Device"@, device))
    } else if c.projects[project].organization_id != c.devices[device].organization_id {
        Some(api::conflict("Project and Device must belong to the same organization."@))
    } else {
        None
    }
}

pub fn validate_assignment_project_and_device(
    c: &Catalog,
    project_id: &str,
    device_id: &str,
) -> (r: Result<(), ApiError>)
    ensures
        discovery_rules::checked(r, pair_failure(c@, project_id@, device_id@)),
{
    let project = match c.projects.get(project_id) {
        Some(p) => p,
        None => {
            return Err(ApiError::not_found("Project", project_id));
        },
    };
    match c.devices.get(device_id) {
        Some(d) => if text::same(project.organization_id.as_str(), d.organization_id.as_str()) {
            Ok(())
        } else {
            Err(ApiError::conflict("Project and Device must belong to the same organization."))
        },
        None => Err(ApiError::not_found("Device", device_id)),
    }
}

/// Why a project may not have a data source.
pub open spec fn source_pair_failure(
    c: CatalogView,
    project: Seq<char>,
    source: Seq<char>,
) -> Option<ApiErrorView> {
    if !c.projects.contains_key(project) {
        Some(api::not_found("Project"@, project))
    } else if !c.data_sources.contains_key(source) {
        Some(api::not_found("DataSource"@, source))
    } else {
        let device = c.data_sources[source].device_id;
        if !c.devices.contains_key(device) {
            Some(api::not_found("Device"@, device))
        } else if c.projects[project].organization_id != c.devices[device].organization_id {
            Some(
                api::conflict("Project and DataSource must belong to the same organization."@),
            )
        } else {
            None
        }
    }
}

pub fn validate_assignment_project_and_source(
    c: &Catalog,
    project_id: &str,
    source_id: &str,
) -> (r: Result<(), ApiError>)
    ensures
        discovery_rules::checked(r, source_pair_failure(c@, project_id@, source_id@)),
{
    let project = match c.projects.get(project_id) {
        Some(p) => p,
        None => {
            return Err(ApiError::not_found("Project", project_id));
        },
    };
    let source = match c.data_sources.get(source_id) {
        Some(s) => s,
        None => {
            return Err(ApiError::not_found("DataSource", source_id));
        },
    };
    match c.devices.get(source.device_id.as_str()) {
        Some(d) => if text::same(project.organization_id.as_str(), d.organization_id.as_str()) {
            Ok(())
        } else {
            Err(
                ApiError::conflict(
                    "Project and DataSource must belong to the same organization.",
                ),
            )
        },
        None => Err(ApiError::not_found("Device", source.device_id.as_str())),
    }
}

/// The catalog after a device was assigned, and the assignment.
pub open spec fn device_assigned(
    c: CatalogView,
    project: Seq<char>,
    device: Seq<char>,
    mode: AccessMode,
    id: Seq<char>,
    now: Seq<char>,
) -> Result<(CatalogView, DeviceAssignmentView), ApiErrorView> {
    if pair_failure(c, project, device) is Some {
        Err(pair_failure(c, project, device)->Some_0)
    } else {
        match device_linked(c, project, device, mode, id, now) {
            Ok((after, a)) => Ok((catalog::bumped(catalog::with_counts(after, project)), a)),
            Err(e) => Err(e),
        }
    }
}

/// Assigns a device to a project.
pub fn create_device_assignment(
    c: &mut Catalog,
    project_id: &str,
    request: &CreateDeviceAssignmentRequest,
    assignment_id: &str,
    now: &str,
) -> (r: Result<DeviceAssignment, ApiError>)
    ensures
        match device_assigned(
            old(c)@,
            project_id@,
            request@.device_id,
            request@.access_mode,
            assignment_id@,
            now@,
        ) {
            Ok((after, a)) => r matches Ok(v) && v@ == a && final(c)@ == after,
            Err(x) => r matches Err(e) && e@ == x && final(c)@ == old(c)@,
        },
{
    match validate_assignment_project_and_device(c, project_id, request.device_id.as_str()) {
        Ok(()) => {},
        Err(e) => {
            return Err(e);
        },
    }
    match insert_device_assignment(
        c,
        project_id,
        request.device_id.as_str(),
        request.access_mode,
        assignment_id,
        now,
    ) {
        Ok(a) => {
            c.refresh_project_counts(project_id);
            let _ = c.bump_version();
            Ok(a)
        },
        Err(e) => Err(e),
    }
}

pub open spec fn follows_device(project: Seq<char>, device: Seq<char>) -> spec_fn(
    LiveSessionView,
) -> bool {
    |s: LiveSessionView| s.status == "open"@ && s.project_id == project && s.device_id == device
}

pub open spec fn imports_for_device(project: Seq<char>, device: Seq<char>) -> spec_fn(
    RecordingImportView,
) -> bool {
    |i: RecordingImportView|
        imports::is_running(i.status) && i.project_id == project && i.device_id == device
}

/// The catalog after the assignment of a device was taken back.
pub open spec fn device_unassigned(c: CatalogView, project: Seq<char>, id: Seq<char>) -> Result<
    CatalogView,
    ApiErrorView,
> {
    if !c.device_assignments.contains_key(id) || c.device_assignments[id].project_id != project {
        Err(api::not_found("DeviceAssignment"@, id))
    } else {
        let device = c.device_assignments[id].device_id;
        if table::any_value(c.live_sessions, follows_device(project, device)) {
            Err(
                api::conflict(
                    "Close the active LiveSession before deleting its DeviceAssignment."@,
                ),
            )
        } else if table::any_value(c.recording_imports, imports_for_device(project, device)) {
            Err(
                api::conflict(
                    "Cancel or finish the active RecordingImport before deleting its DeviceAssignment."@,
                ),
            )
        } else {
            Ok(
                catalog::bumped(
                    catalog::with_counts(
                        CatalogView {
                            device_assignments: c.device_assignments.remove(id),
                            ..c
                        },
                        project,
                    ),
                ),
            )
        }
    }
}

/// Takes back the assignment of a device that is not in use.
pub fn delete_device_assignment(c: &mut Catalog, project_id: &str, assignment_id: &str) -> (r: Result<
    (),
    ApiError,
>)
    ensures
        match device_unassigned(old(c)@, project_id@, assignment_id@) {
            Ok(after) => r is Ok && final(c)@ == after,
            Err(x) => r matches Err(e) && e@ == x && final(c)@ == old(c)@,
        },
{
    let assignment = match c.device_assignments.get(assignment_id) {
        Some(a) => a.copied(),
        None => {
            return Err(ApiError::not_found("DeviceAssignment", assignment_id));
        },
    };
    if !text::same(assignment.project_id.as_str(), project_id) {
        return Err(ApiError::not_found("DeviceAssignment", assignment_id));
    }
    let ghost device = assignment@.device_id;
    let follows = |s: &LiveSession| -> (b: bool)
        ensures
            b == (s@.status == "open"@ && s@.project_id == project_id@ && s@.device_id
                == assignment@.device_id),
        {
            text::same(s.status.as_str(), "open") && text::same(s.project_id.as_str(), project_id)
                && text::same(s.device_id.as_str(), assignment.device_id.as_str())
        };
    if c.live_sessions.find(follows, Ghost(follows_device(project_id@, device))).is_some() {
        return Err(
            ApiError::conflict(
                "Close the active LiveSession before deleting its DeviceAssignment.",
            ),
        );
    }
    let ghost q = imports_for_device(project_id@, device);
    let feeds = |i: &RecordingImport| -> (b: bool)
        ensures
            b == q(i@),
        {
            (text::same(i.status.as_str(), "uploading") || text::same(
                i.status.as_str(),
                "processing",
            )) && text::same(i.project_id.as_str(), project_id) && text::same(
                i.device_id.as_str(),
                assignment.device_id.as_str(),
            )
        };
    if c.recording_imports.find(feeds, Ghost(q)).is_some() {
        return Err(
            ApiError::conflict(
                "Cancel or finish the active RecordingImport before deleting its DeviceAssignment.",
            ),
        );
    }
    let _ = c.device_assignments.remove(assignment_id);
    c.refresh_project_counts(project_id);
    let _ = c.bump_version();
    Ok(())
}

/// The catalog after a data source was assigned, and the assignment.
pub open spec fn source_assigned(
    c: CatalogView,
    project: Seq<char>,
    source: Seq<char>,
    visibility: DataVisibility,
    id: Seq<char>,
    now: Seq<char>,
) -> Result<(CatalogView, DataAssignmentView), ApiErrorView> {
    if source_pair_failure(c, project, source) is Some {
        Err(source_pair_failure(c, project, source)->Some_0)
    } else if !catalog::device_is_assigned(
        c.device_assignments,
        project,
        c.data_sources[source].device_id,
    ) {
        Err(api::conflict("Assign the DataSource Device to the Project first."@))
    } else {
        match source_linked(c, project, source, visibility, id, now) {
            Ok((after, a)) => Ok((catalog::bumped(after), a)),
            Err(e) => Err(e),
        }
    }
}

/// Assigns a data source to a project that has its device.
pub fn create_data_assignment(
    c: &mut Catalog,
    project_id: &str,
    request: &CreateDataAssignmentRequest,
    assignment_id: &str,
    now: &str,
) -> (r: Result<DataAssignment, ApiError>)
    ensures
        match source_assigned(
            old(c)@,
            project_id@,
            request@.data_source_id,
            request@.visibility,
            assignment_id@,
            now@,
        ) {
            Ok((after, a)) => r matches Ok(v) && v@ == a && final(c)@ == after,
            Err(x) => r matches Err(e) && e@ == x && final(c)@ == old(c)@,
        },
{
    match validate_assignment_project_and_source(
        c,
        project_id,
        request.data_source_id.as_str(),
    ) {
        Ok(()) => {},
        Err(e) => {
            return Err(e);
        },
    }
    let assigned = match c.data_sources.get(request.data_source_id.as_str()) {
        Some(s) => catalog::find_device_assignment(
            &c.device_assignments,
            project_id,
            s.device_id.as_str(),
        ).is_some(),
        None => {
            return Err(ApiError::not_found("DataSource", request.data_source_id.as_str()));
        },
    };
    if !assigned {
        return Err(ApiError::conflict("Assign the DataSource Device to the Project first."));
    }
    match insert_data_assignment(
        c,
        project_id,
        request.data_source_id.as_str(),
        request.visibility,
        assignment_id,
        now,
    ) {
        Ok(a) => {
            let _ = c.bump_version();
            Ok(a)
        },
        Err(e) => Err(e),
    }
}

pub open spec fn follows_source(project: Seq<char>, source: Seq<char>) -> spec_fn(
    LiveSessionView,
) -> bool {
    |s: LiveSessionView|
        s.status == "open"@ && s.project_id == project && s.data_source_id == source
}

pub open spec fn imports_for_source(project: Seq<char>, source: Seq<char>) -> spec_fn(
    RecordingImportView,
) -> bool {
    |i: RecordingImportView|
        imports::is_running(i.status) && i.project_id == project && i.data_source_id == source
}

/// The catalog after the assignment of a data source was taken back.
pub open spec fn source_unassigned(c: CatalogView, project: Seq<char>, id: Seq<char>) -> Result<
    CatalogView,
    ApiErrorView,
> {
    if !c.data_assignments.contains_key(id) || c.data_assignments[id].project_id != project {
        Err(api::not_found("DataAssignment"@, id))
    } else {
        let source = c.data_assignments[id].data_source_id;
        if table::any_value(c.live_sessions, follows_source(project, source)) {
            Err(
                api::conflict(
                    "Close the active LiveSession before deleting its DataAssignment."@,
                ),
            )
        } else if table::any_value(c.recording_imports, imports_for_source(project, source)) {
            Err(
                api::conflict(
                    "Cancel or finish the active RecordingImport before deleting its DataAssignment."@,
                ),
            )
        } else {
            Ok(
                catalog::bumped(
                    CatalogView { data_assignments: c.data_assignments.remove(id), ..c },
                ),
            )
        }
    }
}

/// Takes back the assignment of a data source that is not in use.
pub fn delete_data_assignment(c: &mut Catalog, project_id: &str, assignment_id: &str) -> (r: Result<
    (),
    ApiError,
>)
    ensures
        match source_unassigned(old(c)@, project_id@, assignment_id@) {
            Ok(after) => r is Ok && final(c)@ == after,
            Err(x) => r matches Err(e) && e@ == x && final(c)@ == old(c)@,
        },
{
    let assignment = match c.data_assignments.get(assignment_id) {
        Some(a) => a.copied(),
        None => {
            return Err(ApiError::not_found("DataAssignment", assignment_id));
        },
    };
    if !text::same(assignment.project_id.as_str(), project_id) {
        return Err(ApiError::not_found("DataAssignment", assignment_id));
    }
    let ghost source = assignment@.data_source_id;
    let follows = |s: &LiveSession| -> (b: bool)
        ensures
            b == (s@.status == "open"@ && s@.project_id == project_id@ && s@.data_source_id
                == assignment@.data_source_id),
        {
            text::same(s.status.as_str(), "open") && text::same(s.project_id.as_str(), project_id)
                && text::same(s.data_source_id.as_str(), assignment.data_source_id.as_str())
        };
    if c.live_sessions.find(follows, Ghost(follows_source(project_id@, source))).is_some() {
        return Err(
            ApiError::conflict("Close the active LiveSession before deleting its DataAssignment."),
        );
    }
    let ghost q = imports_for_source(project_id@, source);
    let feeds = |i: &RecordingImport| -> (b: bool)
        ensures
            b == q(i@),
        {
            (text::same(i.status.as_str(), "uploading") || text::same(
                i.status.as_str(),
                "processing",
            )) && text::same(i.project_id.as_str(), project_id) && text::same(
                i.data_source_id.as_str(),
                assignment.data_source_id.as_str(),
            )
        };
    if c.recording_imports.find(feeds, Ghost(q)).is_some() {
        return Err(
            ApiError::conflict(
                "Cancel or finish the active RecordingImport before deleting its DataAssignment.",
            ),
        );
    }
    let _ = c.data_assignments.remove(assignment_id);
    let _ = c.bump_version();
    Ok(())
}

/// Whether every device has at most one controlling assignment.
pub open spec fn control_is_exclusive(m: Map<Seq<char>, DeviceAssignmentView>) -> bool {
    forall|j: Seq<char>, k: Seq<char>|
        #[trigger] m.contains_key(j) && #[trigger] m.contains_key(k) && m[j].device_id
            == m[k].device_id && m[j].access_mode == AccessMode::Control && m[k].access_mode
            == AccessMode::Control ==> j == k
}

proof fn lemma_link_keeps_control_exclusive(
    c: CatalogView,
    project: Seq<char>,
    device: Seq<char>,
    mode: AccessMode,
    id: Seq<char>,
    now: Seq<char>,
)
    requires
        control_is_exclusive(c.device_assignments),
    ensures
        device_linked(c, project, device, mode, id, now) matches Ok((after, _))
            ==> control_is_exclusive(after.device_assignments),
{
    match device_linked(c, project, device, mode, id, now) {
        Ok((after, a)) => {
            let m = after.device_assignments;
            let before = c.device_assignments;
            assert forall|j: Seq<char>, k: Seq<char>|
                #[trigger] m.contains_key(j) && #[trigger] m.contains_key(k) && m[j].device_id
                    == m[k].device_id && m[j].access_mode == AccessMode::Control
                    && m[k].access_mode == AccessMode::Control implies j == k by {
                if j != k && j == id {
                    assert(before.contains_key(k) && before[k] == m[k]);
                    assert(!of_device(project, device)(before[k]));
                    assert(!rival(device, Some(project))(before[k]));
                }
                if j != k && k == id {
                    assert(before.contains_key(j) && before[j] == m[j]);
                    assert(!of_device(project, device)(before[j]));
                    assert(!rival(device, Some(project))(before[j]));
                }
                if j != id && k != id {
                    assert(before.contains_key(j) && before.contains_key(k));
                }
            }
        },
        Err(_) => {},
    }
}

proof fn lemma_links_keep_control_exclusive(
    c: CatalogView,
    project: Seq<char>,
    devices: Seq<Seq<char>>,
    ids: Seq<Seq<char>>,
    now: Seq<char>,
    i: int,
)
    requires
        control_is_exclusive(c.device_assignments),
    ensures
        devices_linked(c, project, devices, ids, now, i) matches Ok(after)
            ==> control_is_exclusive(after.device_assignments),
    decreases devices.len() - i,
{
    if 0 <= i < devices.len() {
        lemma_link_keeps_control_exclusive(
            c,
            project,
            devices[i],
            AccessMode::Control,
            ids[i],
            now,
        );
        match device_linked(c, project, devices[i], AccessMode::Control, ids[i], now) {
            Ok((next, _)) => lemma_links_keep_control_exclusive(
                next,
                project,
                devices,
                ids,
                now,
                i + 1,
            ),
            Err(_) => {},
        }
    }
}

/// Neither an assignment of a device nor its removal gives a device a second controlling
/// assignment.
pub proof fn law_assignments_keep_control_exclusive(
    c: CatalogView,
    project: Seq<char>,
    device: Seq<char>,
    mode: AccessMode,
    id: Seq<char>,
    now: Seq<char>,
)
    requires
        control_is_exclusive(c.device_assignments),
    ensures
        device_assigned(c, project, device, mode, id, now) matches Ok((after, _))
            ==> control_is_exclusive(after.device_assignments),
        device_unassigned(c, project, id) matches Ok(after) ==> control_is_exclusive(
            after.device_assignments,
        ),
{
    lemma_link_keeps_control_exclusive(c, project, device, mode, id, now);
    match device_unassigned(c, project, id) {
        Ok(after) => {
            let m = after.device_assignments;
            assert forall|k: Seq<char>| #[trigger] m.contains_key(k) implies
                c.device_assignments.contains_key(k) && m[k] == c.device_assignments[k] by {}
        },
        Err(_) => {},
    }
}

/// A new project takes control of no device that is controlled already, opens no session, grants
/// no lease and moves the catalog one version on.
pub proof fn law_new_projects_keep_control_exclusive(
    c: CatalogView,
    q: CreateProjectRequestView,
    id: Seq<char>,
    device_assignment_ids: Seq<Seq<char>>,
    data_assignment_ids: Seq<Seq<char>>,
    now: Seq<char>,
)
    requires
        control_is_exclusive(c.device_assignments),
    ensures
        project_created(c, q, id, device_assignment_ids, data_assignment_ids, now) matches Ok(
            (after, p),
        ) ==> {
            &&& control_is_exclusive(after.device_assignments)
            &&& p.id == id
            &&& after.leases == c.leases
            &&& after.live_sessions == c.live_sessions
            &&& after.snapshot_version == catalog::next_version(c.snapshot_version)
        },
{
    let devices = distinct_ids(q.device_ids);
    let sources = distinct_ids(q.data_source_ids);
    let first = CatalogView { projects: c.projects.insert(id, new_project(c, q, id, now)), ..c };
    lemma_links_keep_control_exclusive(first, id, devices, device_assignment_ids, now, 0);
    lemma_links_keep_the_rest(first, id, devices, device_assignment_ids, now, 0);
    lemma_linked_project_exists(c, q, id, device_assignment_ids, data_assignment_ids, now);
    match devices_linked(first, id, devices, device_assignment_ids, now, 0) {
        Ok(second) => {
            lemma_links_keep_projects(second, id, sources, data_assignment_ids, now, 0);
            lemma_links_keep_the_rest(second, id, sources, data_assignment_ids, now, 0);
        },
        Err(_) => {},
    }
}

proof fn lemma_links_keep_the_rest(
    c: CatalogView,
    project: Seq<char>,
    list: Seq<Seq<char>>,
    ids: Seq<Seq<char>>,
    now: Seq<char>,
    i: int,
)
    ensures
        devices_linked(c, project, list, ids, now, i) matches Ok(after) ==> after.leases
            == c.leases && after.live_sessions == c.live_sessions && after.snapshot_version
            == c.snapshot_version,
        sources_linked(c, project, list, ids, now, i) matches Ok(after) ==> after.leases
            == c.leases && after.live_sessions == c.live_sessions && after.snapshot_version
            == c.snapshot_version,
    decreases list.len() - i,
{
    if 0 <= i < list.len() {
        match device_linked(c, project, list[i], AccessMode::Control, ids[i], now) {
            Ok((next, _)) => lemma_links_keep_the_rest(next, project, list, ids, now, i + 1),
            Err(_) => {},
        }
        match source_linked(c, project, list[i], DataVisibility::Operator, ids[i], now) {
            Ok((next, _)) => lemma_links_keep_the_rest(next, project, list, ids, now, i + 1),
            Err(_) => {},
        }
    }
}

/// While a live session of a project is open, the assignments that it was opened under cannot be
/// taken back.
pub proof fn law_open_sessions_keep_their_assignments(
    c: CatalogView,
    session: Seq<char>,
    device_assignment: Seq<char>,
    data_assignment: Seq<char>,
)
    requires
        c.live_sessions.contains_key(session),
        c.live_sessions[session].status == "open"@,
        c.device_assignments.contains_key(device_assignment),
        c.device_assignments[device_assignment].device_id == c.live_sessions[session].device_id,
        c.data_assignments.contains_key(data_assignment),
        c.data_assignments[data_assignment].data_source_id
            == c.live_sessions[session].data_source_id,
    ensures
        device_unassigned(c, c.live_sessions[session].project_id, device_assignment) is Err,
        source_unassigned(c, c.live_sessions[session].project_id, data_assignment) is Err,
{
    let s = c.live_sessions[session];
    assert(follows_device(s.project_id, s.device_id)(s));
    assert(follows_source(s.project_id, s.data_source_id)(s));
}

/// A project is given a device exactly if both exist in one organization, it does not have the
/// device, and, where it is to control it, no other project does. The assignment holds what was
/// asked, the counts of the project follow, and no other assignment changes.
pub proof fn law_devices_are_assigned_once(
    c: CatalogView,
    project: Seq<char>,
    device: Seq<char>,
    mode: AccessMode,
    id: Seq<char>,
    now: Seq<char>,
    k: Seq<char>,
)
    ensures
        device_assigned(c, project, device, mode, id, now) is Ok <==> {
            &&& c.projects.contains_key(project)
            &&& c.devices.contains_key(device)
            &&& c.projects[project].organization_id == c.devices[device].organization_id
            &&& forall|j: Seq<char>| #[trigger]
                c.device_assignments.contains_key(j) && c.device_assignments[j].device_id == device
                    ==> c.device_assignments[j].project_id != project && (mode
                    == AccessMode::Control ==> c.device_assignments[j].access_mode
                    != AccessMode::Control)
        },
        device_assigned(c, project, device, mode, id, now) matches Ok((after, a)) ==> {
            &&& a.id == id
            &&& a.project_id == project
            &&& a.device_id == device
            &&& a.access_mode == mode
            &&& a.valid_from == now
            &&& a.valid_to is None
            &&& after.device_assignments.contains_key(id) && after.device_assignments[id] == a
            &&& k != id ==> after.device_assignments.contains_key(k)
                == c.device_assignments.contains_key(k)
            &&& k != id && c.device_assignments.contains_key(k) ==> after.device_assignments[k]
                == c.device_assignments[k]
            &&& k != project && c.projects.contains_key(k) ==> after.projects[k] == c.projects[k]
            &&& after.projects[project].name == c.projects[project].name
            &&& counts_are_true(after, project)
            &&& after.data_assignments == c.data_assignments
            &&& after.leases == c.leases
            &&& after.devices == c.devices
            &&& c.snapshot_version < u64::MAX ==> after.snapshot_version == c.snapshot_version + 1
        },
{
    lemma_rivals(c, device, project);
    if device_assigned(c, project, device, mode, id, now) is Ok {
        let after = device_assigned(c, project, device, mode, id, now)->Ok_0.0;
        let linked = device_linked(c, project, device, mode, id, now)->Ok_0.0;
        lemma_counts(linked, project);
        assert(after.projects == catalog::with_counts(linked, project).projects);
    }
}

proof fn lemma_rivals(c: CatalogView, device: Seq<char>, project: Seq<char>)
    ensures
        table::any_value(c.device_assignments, of_device(project, device)) <==> exists|
            j: Seq<char>,
        | #[trigger]
            c.device_assignments.contains_key(j) && c.device_assignments[j].device_id == device
                && c.device_assignments[j].project_id == project,
        control_failure(c, device, Some(project)) is Some <==> exists|j: Seq<char>| #[trigger]
            c.device_assignments.contains_key(j) && c.device_assignments[j].device_id == device
                && c.device_assignments[j].project_id != project
                && c.device_assignments[j].access_mode == AccessMode::Control,
{
    let m = c.device_assignments;
    if table::any_value(m, of_device(project, device)) {
        let j = choose|j: Seq<char>| #[trigger]
            m.contains_key(j) && of_device(project, device)(m[j]);
        assert(m.contains_key(j) && m[j].device_id == device && m[j].project_id == project);
    }
    if exists|j: Seq<char>| #[trigger]
        m.contains_key(j) && m[j].device_id == device && m[j].project_id == project {
        let j = choose|j: Seq<char>| #[trigger]
            m.contains_key(j) && m[j].device_id == device && m[j].project_id == project;
        assert(of_device(project, device)(m[j]));
    }
    if table::any_value(m, rival(device, Some(project))) {
        let j = choose|j: Seq<char>| #[trigger]
            m.contains_key(j) && rival(device, Some(project))(m[j]);
        assert(m.contains_key(j) && m[j].access_mode == AccessMode::Control);
    }
    if exists|j: Seq<char>| #[trigger]
        m.contains_key(j) && m[j].device_id == device && m[j].project_id != project
            && m[j].access_mode == AccessMode::Control {
        let j = choose|j: Seq<char>| #[trigger]
            m.contains_key(j) && m[j].device_id == device && m[j].project_id != project
                && m[j].access_mode == AccessMode::Control;
        assert(rival(device, Some(project))(m[j]));
    }
}

/// Whether a project counts its current assignments, and those among them whose device is online.
pub open spec fn counts_are_true(c: CatalogView, project: Seq<char>) -> bool {
    let current = Set::new(
        |k: Seq<char>|
            c.device_assignments.contains_key(k) && c.device_assignments[k].project_id == project
                && c.device_assignments[k].valid_to is None,
    );
    let online = Set::new(
        |k: Seq<char>|
            current.contains(k) && c.devices.contains_key(c.device_assignments[k].device_id)
                && c.devices[c.device_assignments[k].device_id].status == "online"@,
    );
    &&& c.projects.contains_key(project)
    &&& c.projects[project].device_count == current.len() as usize
    &&& c.projects[project].online_device_count == online.len() as usize
}

proof fn lemma_counts(c: CatalogView, project: Seq<char>)
    requires
        c.projects.contains_key(project),
    ensures
        counts_are_true(catalog::with_counts(c, project), project),
        counts_are_true(catalog::bumped(catalog::with_counts(c, project)), project),
{
    let current = Set::new(
        |k: Seq<char>|
            c.device_assignments.contains_key(k) && c.device_assignments[k].project_id == project
                && c.device_assignments[k].valid_to is None,
    );
    let online = Set::new(
        |k: Seq<char>|
            current.contains(k) && c.devices.contains_key(c.device_assignments[k].device_id)
                && c.devices[c.device_assignments[k].device_id].status == "online"@,
    );
    assert(catalog::project_assignments(c.device_assignments, project) =~= current);
    assert(catalog::online_assignments(c, project) =~= online);
    let with = catalog::with_counts(c, project);
    let bumped = catalog::bumped(with);
    assert(with.device_assignments == c.device_assignments && with.devices == c.devices);
    assert(bumped.device_assignments == c.device_assignments && bumped.devices == c.devices);
}

/// The assignment of a device is taken back exactly if it is the project's own and neither an open
/// live session nor a running import of the project uses the device. Nothing else goes.
pub proof fn law_idle_devices_can_be_taken_back(
    c: CatalogView,
    project: Seq<char>,
    id: Seq<char>,
    k: Seq<char>,
)
    ensures
        device_unassigned(c, project, id) is Ok <==> {
            let device = c.device_assignments[id].device_id;
            &&& c.device_assignments.contains_key(id)
            &&& c.device_assignments[id].project_id == project
            &&& forall|j: Seq<char>| #[trigger]
                c.live_sessions.contains_key(j) && c.live_sessions[j].project_id == project
                    && c.live_sessions[j].device_id == device ==> c.live_sessions[j].status
                    != "open"@
            &&& forall|j: Seq<char>| #[trigger]
                c.recording_imports.contains_key(j) && c.recording_imports[j].project_id == project
                    && c.recording_imports[j].device_id == device ==> c.recording_imports[j].status
                    != "uploading"@ && c.recording_imports[j].status != "processing"@
        },
        device_unassigned(c, project, id) matches Ok(after) ==> {
            &&& !after.device_assignments.contains_key(id)
            &&& k != id ==> after.device_assignments.contains_key(k)
                == c.device_assignments.contains_key(k)
            &&& k != id && c.device_assignments.contains_key(k) ==> after.device_assignments[k]
                == c.device_assignments[k]
            &&& c.projects.contains_key(project) ==> counts_are_true(after, project)
            &&& k != project && c.projects.contains_key(k) ==> after.projects[k] == c.projects[k]
            &&& after.data_assignments == c.data_assignments
            &&& after.recordings == c.recordings
            &&& c.snapshot_version < u64::MAX ==> after.snapshot_version == c.snapshot_version + 1
        },
{
    let device = c.device_assignments[id].device_id;
    let sessions = follows_device(project, device);
    let running = imports_for_device(project, device);
    assert(table::any_value(c.live_sessions, sessions) <==> !(forall|j: Seq<char>| #[trigger]
        c.live_sessions.contains_key(j) && c.live_sessions[j].project_id == project
            && c.live_sessions[j].device_id == device ==> c.live_sessions[j].status != "open"@)) by {
        if table::any_value(c.live_sessions, sessions) {
            let j = choose|j: Seq<char>| #[trigger]
                c.live_sessions.contains_key(j) && sessions(c.live_sessions[j]);
            assert(c.live_sessions.contains_key(j));
        } else {
            assert forall|j: Seq<char>| #[trigger]
                c.live_sessions.contains_key(j) && c.live_sessions[j].project_id == project
                    && c.live_sessions[j].device_id == device implies c.live_sessions[j].status
                != "open"@ by {
                assert(!sessions(c.live_sessions[j]));
            }
        }
    }
    assert(table::any_value(c.recording_imports, running) <==> !(forall|j: Seq<char>| #[trigger]
        c.recording_imports.contains_key(j) && c.recording_imports[j].project_id == project
            && c.recording_imports[j].device_id == device ==> c.recording_imports[j].status
            != "uploading"@ && c.recording_imports[j].status != "processing"@)) by {
        if table::any_value(c.recording_imports, running) {
            let j = choose|j: Seq<char>| #[trigger]
                c.recording_imports.contains_key(j) && running(c.recording_imports[j]);
            assert(c.recording_imports.contains_key(j));
        } else {
            assert forall|j: Seq<char>| #[trigger]
                c.recording_imports.contains_key(j) && c.recording_imports[j].project_id == project
                    && c.recording_imports[j].device_id == device implies c.recording_imports[j].status
                != "uploading"@ && c.recording_imports[j].status != "processing"@ by {
                assert(!running(c.recording_imports[j]));
            }
        }
    }
    if device_unassigned(c, project, id) is Ok && c.projects.contains_key(project) {
        lemma_counts(
            CatalogView { device_assignments: c.device_assignments.remove(id), ..c },
            project,
        );
    }
}

/// A project is given a data source exactly if the device of the source is in its organization
/// and assigned to it at present, and it does not have the source. The assignment holds what was
/// asked, and no other changes.
pub proof fn law_sources_follow_their_device(
    c: CatalogView,
    project: Seq<char>,
    source: Seq<char>,
    visibility: DataVisibility,
    id: Seq<char>,
    now: Seq<char>,
    k: Seq<char>,
)
    ensures
        source_assigned(c, project, source, visibility, id, now) is Ok <==> {
            let device = c.data_sources[source].device_id;
            &&& c.projects.contains_key(project)
            &&& c.data_sources.contains_key(source)
            &&& c.devices.contains_key(device)
            &&& c.projects[project].organization_id == c.devices[device].organization_id
            &&& exists|j: Seq<char>| #[trigger]
                c.device_assignments.contains_key(j) && c.device_assignments[j].project_id
                    == project && c.device_assignments[j].device_id == device
                    && c.device_assignments[j].valid_to is None
            &&& forall|j: Seq<char>| #[trigger]
                c.data_assignments.contains_key(j) && c.data_assignments[j].project_id == project
                    ==> c.data_assignments[j].data_source_id != source
        },
        source_assigned(c, project, source, visibility, id, now) matches Ok((after, a)) ==> {
            &&& a.id == id
            &&& a.project_id == project
            &&& a.data_source_id == source
            &&& a.visibility == visibility
            &&& a.valid_from == now
            &&& a.valid_to is None
            &&& after.data_assignments.contains_key(id) && after.data_assignments[id] == a
            &&& k != id ==> after.data_assignments.contains_key(k)
                == c.data_assignments.contains_key(k)
            &&& k != id && c.data_assignments.contains_key(k) ==> after.data_assignments[k]
                == c.data_assignments[k]
            &&& after.device_assignments == c.device_assignments
            &&& after.projects == c.projects
            &&& c.snapshot_version < u64::MAX ==> after.snapshot_version == c.snapshot_version + 1
        },
{
    let device = c.data_sources[source].device_id;
    assert(catalog::device_is_assigned(c.device_assignments, project, device) == exists|
        j: Seq<char>,
    | #[trigger]
        c.device_assignments.contains_key(j) && c.device_assignments[j].project_id == project
            && c.device_assignments[j].device_id == device
            && c.device_assignments[j].valid_to is None);
    let m = c.data_assignments;
    let taken = of_source(project, source);
    if table::any_value(m, taken) {
        let j = choose|j: Seq<char>| #[trigger] m.contains_key(j) && taken(m[j]);
        assert(m.contains_key(j) && m[j].project_id == project);
    } else {
        assert forall|j: Seq<char>| #[trigger]
            m.contains_key(j) && m[j].project_id == project implies m[j].data_source_id != source by {
            assert(!taken(m[j]));
        }
    }
}

/// The assignment of a data source is taken back exactly if it is the project's own and neither an
/// open live session nor a running import of the project uses the source. Nothing else goes.
pub proof fn law_idle_sources_can_be_taken_back(
    c: CatalogView,
    project: Seq<char>,
    id: Seq<char>,
    k: Seq<char>,
)
    ensures
        source_unassigned(c, project, id) is Ok <==> {
            let source = c.data_assignments[id].data_source_id;
            &&& c.data_assignments.contains_key(id)
            &&& c.data_assignments[id].project_id == project
            &&& forall|j: Seq<char>| #[trigger]
                c.live_sessions.contains_key(j) && c.live_sessions[j].project_id == project
                    && c.live_sessions[j].data_source_id == source ==> c.live_sessions[j].status
                    != "open"@
            &&& forall|j: Seq<char>| #[trigger]
                c.recording_imports.contains_key(j) && c.recording_imports[j].project_id == project
                    && c.recording_imports[j].data_source_id == source
                    ==> c.recording_imports[j].status != "uploading"@
                    && c.recording_imports[j].status != "processing"@
        },
        source_unassigned(c, project, id) matches Ok(after) ==> {
            &&& !after.data_assignments.contains_key(id)
            &&& k != id ==> after.data_assignments.contains_key(k)
                == c.data_assignments.contains_key(k)
            &&& k != id && c.data_assignments.contains_key(k) ==> after.data_assignments[k]
                == c.data_assignments[k]
            &&& after.device_assignments == c.device_assignments
            &&& after.projects == c.projects
            &&& after.recordings == c.recordings
        },
{
    let source = c.data_assignments[id].data_source_id;
    let sessions = follows_source(project, source);
    let running = imports_for_source(project, source);
    if table::any_value(c.live_sessions, sessions) {
        let j = choose|j: Seq<char>| #[trigger]
            c.live_sessions.contains_key(j) && sessions(c.live_sessions[j]);
        assert(c.live_sessions.contains_key(j) && c.live_sessions[j].status == "open"@);
    } else {
        assert forall|j: Seq<char>| #[trigger]
            c.live_sessions.contains_key(j) && c.live_sessions[j].project_id == project
                && c.live_sessions[j].data_source_id == source implies c.live_sessions[j].status
            != "open"@ by {
            assert(!sessions(c.live_sessions[j]));
        }
    }
    if table::any_value(c.recording_imports, running) {
        let j = choose|j: Seq<char>| #[trigger]
            c.recording_imports.contains_key(j) && running(c.recording_imports[j]);
        assert(c.recording_imports.contains_key(j) && c.recording_imports[j].project_id == project);
    } else {
        assert forall|j: Seq<char>| #[trigger]
            c.recording_imports.contains_key(j) && c.recording_imports[j].project_id == project
                && c.recording_imports[j].data_source_id == source implies
            c.recording_imports[j].status != "uploading"@ && c.recording_imports[j].status
            != "processing"@ by {
            assert(!running(c.recording_imports[j]));
        }
    }
}

proof fn lemma_devices_linked(
    c: CatalogView,
    project: Seq<char>,
    devices: Seq<Seq<char>>,
    ids: Seq<Seq<char>>,
    now: Seq<char>,
    i: int,
    k: int,
)
    requires
        0 <= i <= devices.len(),
        ids.len() == devices.len(),
        ids.no_duplicates(),
        devices_linked(c, project, devices, ids, now, i) is Ok,
    ensures
        ({
            let after = devices_linked(c, project, devices, ids, now, i)->Ok_0;
            &&& after.data_assignments == c.data_assignments
            &&& after.devices == c.devices
            &&& after.data_sources == c.data_sources
            &&& after.projects == c.projects
            &&& i <= k < devices.len() ==> after.device_assignments.contains_key(ids[k])
                && after.device_assignments[ids[k]].device_id == devices[k]
                && after.device_assignments[ids[k]].project_id == project
                && after.device_assignments[ids[k]].access_mode == AccessMode::Control
                && after.device_assignments[ids[k]].valid_to is None
            &&& forall|j: Seq<char>| #[trigger]
                c.device_assignments.contains_key(j) && (forall|x: int|
                    i <= x < ids.len() ==> #[trigger] ids[x] != j)
                    ==> after.device_assignments.contains_key(j) && after.device_assignments[j]
                    == c.device_assignments[j]
        }),
    decreases devices.len() - i,
{
    if i < devices.len() {
        let next = device_linked(c, project, devices[i], AccessMode::Control, ids[i], now)->Ok_0.0;
        lemma_devices_linked(next, project, devices, ids, now, i + 1, k);
        let after = devices_linked(c, project, devices, ids, now, i)->Ok_0;
        assert(after == devices_linked(next, project, devices, ids, now, i + 1)->Ok_0);
        if k == i {
            assert(next.device_assignments.contains_key(ids[i]));
            assert(forall|x: int| i + 1 <= x < ids.len() ==> #[trigger] ids[x] != ids[i]);
        }
        assert forall|j: Seq<char>| #[trigger]
            c.device_assignments.contains_key(j) && (forall|x: int|
                i <= x < ids.len() ==> #[trigger] ids[x] != j) implies after.device_assignments.contains_key(
            j,
        ) && after.device_assignments[j] == c.device_assignments[j] by {
            assert(ids[i] != j);
            assert(next.device_assignments.contains_key(j));
        }
    }
}

proof fn lemma_sources_linked(
    c: CatalogView,
    project: Seq<char>,
    sources: Seq<Seq<char>>,
    ids: Seq<Seq<char>>,
    now: Seq<char>,
    i: int,
    k: int,
)
    requires
        0 <= i <= sources.len(),
        ids.len() == sources.len(),
        ids.no_duplicates(),
        sources_linked(c, project, sources, ids, now, i) is Ok,
    ensures
        ({
            let after = sources_linked(c, project, sources, ids, now, i)->Ok_0;
            &&& after.device_assignments == c.device_assignments
            &&& after.projects == c.projects
            &&& i <= k < sources.len() ==> after.data_assignments.contains_key(ids[k])
                && after.data_assignments[ids[k]].data_source_id == sources[k]
                && after.data_assignments[ids[k]].project_id == project
                && after.data_assignments[ids[k]].visibility == DataVisibility::Operator
                && after.data_assignments[ids[k]].valid_to is None
            &&& forall|j: Seq<char>| #[trigger]
                c.data_assignments.contains_key(j) && (forall|x: int|
                    i <= x < ids.len() ==> #[trigger] ids[x] != j)
                    ==> after.data_assignments.contains_key(j) && after.data_assignments[j]
                    == c.data_assignments[j]
        }),
    decreases sources.len() - i,
{
    if i < sources.len() {
        let next = source_linked(
            c,
            project,
            sources[i],
            DataVisibility::Operator,
            ids[i],
            now,
        )->Ok_0.0;
        lemma_sources_linked(next, project, sources, ids, now, i + 1, k);
        let after = sources_linked(c, project, sources, ids, now, i)->Ok_0;
        assert(after == sources_linked(next, project, sources, ids, now, i + 1)->Ok_0);
        if k == i {
            assert(next.data_assignments.contains_key(ids[i]));
            assert(forall|x: int| i + 1 <= x < ids.len() ==> #[trigger] ids[x] != ids[i]);
        }
        assert forall|j: Seq<char>| #[trigger]
            c.data_assignments.contains_key(j) && (forall|x: int|
                i <= x < ids.len() ==> #[trigger] ids[x] != j) implies after.data_assignments.contains_key(
            j,
        ) && after.data_assignments[j] == c.data_assignments[j] by {
            assert(ids[i] != j);
            assert(next.data_assignments.contains_key(j));
        }
    }
}

proof fn lemma_no_failure(
    ids: Seq<Seq<char>>,
    f: spec_fn(Seq<char>) -> Option<ApiErrorView>,
    i: int,
    k: int,
)
    requires
        0 <= i <= k < ids.len(),
        first_failure(ids, f, i) is None,
    ensures
        f(ids[k]) is None,
    decreases k - i,
{
    if i < k {
        lemma_no_failure(ids, f, i + 1, k);
    }
}

proof fn lemma_kept_id(ids: Seq<Seq<char>>, id: Seq<char>)
    requires
        ids.contains(id),
    ensures
        distinct_ids(ids).contains(id),
{
    let m = rrd_manifest::name_set(ids);
    assert(m.dom() =~= ids.to_set());
    vstd::seq_lib::seq_to_set_is_finite(ids);
    table::lemma_items_exist(m);
    let items = table::items_of(m);
    table::lemma_items_all(items);
    assert(m.contains_key(id));
    let i = table::key_index(items, id);
    assert(distinct_ids(ids)[i] == id);
}

/// A new project holds what was asked for, controls each of the listed devices and lets its
/// operators see each of the listed sources; all of them are of its organization, and it counts
/// its devices truly.
pub proof fn law_new_projects_hold_what_was_asked(
    c: CatalogView,
    q: CreateProjectRequestView,
    id: Seq<char>,
    device_assignment_ids: Seq<Seq<char>>,
    data_assignment_ids: Seq<Seq<char>>,
    now: Seq<char>,
    d: int,
    s: int,
)
    requires
        project_created(c, q, id, device_assignment_ids, data_assignment_ids, now) is Ok,
        device_assignment_ids.len() == distinct_ids(q.device_ids).len(),
        device_assignment_ids.no_duplicates(),
        data_assignment_ids.len() == distinct_ids(q.data_source_ids).len(),
        data_assignment_ids.no_duplicates(),
    ensures
        ({
            let (after, p) = project_created(
                c,
                q,
                id,
                device_assignment_ids,
                data_assignment_ids,
                now,
            )->Ok_0;
            &&& text::trim(q.name).len() > 0
            &&& text::trim(q.organization_id).len() > 0
            &&& p.id == id
            &&& p.name == q.name
            &&& p.organization_id == q.organization_id
            &&& p.description == q.description
            &&& p.status == q.status
            &&& p.created_at == now
            &&& after.projects.contains_key(id) && after.projects[id] == p
            &&& counts_are_true(after, id)
            &&& 0 <= d < q.device_ids.len() ==> {
                &&& c.devices.contains_key(q.device_ids[d])
                &&& c.devices[q.device_ids[d]].organization_id == q.organization_id
                &&& exists|k: Seq<char>| #[trigger]
                    after.device_assignments.contains_key(k) && after.device_assignments[k].device_id
                        == q.device_ids[d] && after.device_assignments[k].project_id == id
                        && after.device_assignments[k].access_mode == AccessMode::Control
                        && after.device_assignments[k].valid_to is None
            }
            &&& 0 <= s < q.data_source_ids.len() ==> {
                &&& c.data_sources.contains_key(q.data_source_ids[s])
                &&& exists|k: Seq<char>| #[trigger]
                    after.data_assignments.contains_key(k)
                        && after.data_assignments[k].data_source_id == q.data_source_ids[s]
                        && after.data_assignments[k].project_id == id
                        && after.data_assignments[k].visibility == DataVisibility::Operator
                        && after.data_assignments[k].valid_to is None
            }
        }),
{
    let devices = distinct_ids(q.device_ids);
    let sources = distinct_ids(q.data_source_ids);
    let first = CatalogView { projects: c.projects.insert(id, new_project(c, q, id, now)), ..c };
    let second = devices_linked(first, id, devices, device_assignment_ids, now, 0)->Ok_0;
    let third = sources_linked(second, id, sources, data_assignment_ids, now, 0)->Ok_0;
    lemma_devices_linked(first, id, devices, device_assignment_ids, now, 0, 0);
    lemma_sources_linked(second, id, sources, data_assignment_ids, now, 0, 0);
    lemma_counts(third, id);
    let after = project_created(
        c,
        q,
        id,
        device_assignment_ids,
        data_assignment_ids,
        now,
    )->Ok_0.0;
    assert(project_linked(c, q, id, device_assignment_ids, data_assignment_ids, now) == Ok::<
        CatalogView,
        ApiErrorView,
    >(third));
    assert(after == catalog::bumped(catalog::with_counts(third, id)));
    assert(resources_failure(c, q.organization_id, devices, sources) is None);
    let f = |x: Seq<char>| device_failure(c, q.organization_id, x);
    let g = |x: Seq<char>| source_failure(c, q.organization_id, x);
    if 0 <= d < q.device_ids.len() {
        lemma_kept_id(q.device_ids, q.device_ids[d]);
        let at = choose|at: int| 0 <= at < devices.len() && devices[at] == q.device_ids[d];
        lemma_no_failure(devices, f, 0, at);
        lemma_devices_linked(first, id, devices, device_assignment_ids, now, 0, at);
        assert(after.device_assignments.contains_key(device_assignment_ids[at]));
    }
    if 0 <= s < q.data_source_ids.len() {
        lemma_kept_id(q.data_source_ids, q.data_source_ids[s]);
        let at = choose|at: int| 0 <= at < sources.len() && sources[at] == q.data_source_ids[s];
        lemma_no_failure(sources, g, 0, at);
        lemma_sources_linked(second, id, sources, data_assignment_ids, now, 0, at);
        assert(after.data_assignments.contains_key(data_assignment_ids[at]));
    }
}

proof fn lemma_values_where<W>(m: Map<Seq<char>, W>, p: spec_fn(W) -> bool, w: W)
    requires
        m.dom().finite(),
    ensures
        table::values_where(m, p).contains(w) <==> p(w) && exists|k: Seq<char>| #[trigger]
            m.contains_key(k) && m[k] == w,
{
    table::lemma_items_exist(m);
    let items = table::items_of(m);
    table::lemma_items_all(items);
    let keep = |e: (Seq<char>, W)| p(e.1);
    let kept = items.filter(keep);
    broadcast use vstd::seq_lib::group_filter_ensures;

    let values = table::values_where(m, p);
    if values.contains(w) {
        let i = choose|i: int| 0 <= i < values.len() && values[i] == w;
        assert(kept[i].1 == w);
        assert(keep(kept[i]));
        table::lemma_filter_within(items, keep);
        assert(kept.contains(kept[i]));
        let j = choose|j: int| 0 <= j < items.len() && items[j] == kept[i];
        assert(m.contains_key(items[j].0));
    }
    if p(w) && exists|k: Seq<char>| #[trigger] m.contains_key(k) && m[k] == w {
        let k = choose|k: Seq<char>| #[trigger] m.contains_key(k) && m[k] == w;
        let j = table::key_index(items, k);
        assert(items[j].1 == w);
        assert(keep(items[j]));
        assert(kept.contains(items[j]));
        let i = choose|i: int| 0 <= i < kept.len() && kept[i] == items[j];
        assert(values[i] == w);
    }
}

/// The workspace of a project shows its current assignments of devices and sources and all its
/// recordings, and none of another project.
pub proof fn law_workspaces_show_their_project(
    c: CatalogView,
    project: Seq<char>,
    now: Seq<char>,
    a: DeviceAssignmentView,
    b: DataAssignmentView,
    r: RecordingView,
)
    requires
        c.device_assignments.dom().finite(),
        c.data_assignments.dom().finite(),
        c.recordings.dom().finite(),
    ensures
        workspace(c, project, now) is Ok <==> c.projects.contains_key(project),
        workspace(c, project, now) matches Ok(w) ==> {
            &&& w.project == c.projects[project]
            &&& w.snapshot_version == c.snapshot_version
            &&& w.captured_at == now
            &&& w.device_assignments.contains(a) <==> a.project_id == project && a.valid_to is None
                && exists|k: Seq<char>| #[trigger]
                c.device_assignments.contains_key(k) && c.device_assignments[k] == a
            &&& w.data_assignments.contains(b) <==> b.project_id == project && b.valid_to is None
                && exists|k: Seq<char>| #[trigger]
                c.data_assignments.contains_key(k) && c.data_assignments[k] == b
            &&& w.recordings.contains(r) <==> r.project_id == project && exists|k: Seq<char>|
                #[trigger] c.recordings.contains_key(k) && c.recordings[k] == r
        },
{
    lemma_values_where(c.device_assignments, active_devices(project), a);
    lemma_values_where(c.data_assignments, active_sources(project), b);
    lemma_values_where(c.recordings, recorded_for(project), r);
}

} // verus!
