//! The catalog of the service and the questions that its rules ask.

use crate::domain::{
    CommandReceipt, ControlLease, DataAssignment, DataAssignmentView, DataSource, DataSourceView,
    Device, DeviceAssignment, DeviceAssignmentView, DeviceView, EdgeEnrollment, EdgeEnrollmentView,
    Integration, IntegrationView, LiveSession, LiveSessionView, Project, ProjectView, Recording,
    RecordingImport, RecordingImportView, RecordingProjectSnapshot, RecordingProjectSnapshotView,
    RecordingView, ReplaySession, ReplaySessionView, SendCommandRequest, SendCommandRequestView,
    TopicList, TopicView, CommandReceiptView, ControlLeaseView,
};
use crate::table;
use crate::table::{copy_all, copy_option, Copied, Table};
use crate::text;
use vstd::prelude::*;

verus! {

/// A member of a set of identifiers.
#[derive(Debug)]
pub struct Marker {}

impl View for Marker {
    type V = ();

    open spec fn view(&self) -> () {
        ()
    }
}

impl Copied for Marker {
    fn copied(&self) -> (r: Self) {
        Marker {  }
    }
}

/// A counter.
#[derive(Debug)]
pub struct Epoch {
    pub value: u64,
}

impl View for Epoch {
    type V = u64;

    open spec fn view(&self) -> u64 {
        self.value
    }
}

impl Copied for Epoch {
    fn copied(&self) -> (r: Self) {
        Epoch { value: self.value }
    }
}

/// Where the files of an import are kept and what they were captured for.
#[derive(Clone, Debug)]
pub struct StoredImportArtifact {
    pub source_relative_path: String,
    pub rrd_relative_path: Option<String>,
    pub source_content_type: String,
    pub internal_detail: Option<String>,
    pub organization_id: String,
    pub project_snapshot: RecordingProjectSnapshot,
    pub topic_ids: Vec<String>,
    pub mapping_version: u64,
}

#[verifier::ext_equal]
pub struct StoredImportArtifactView {
    pub source_relative_path: Seq<char>,
    pub rrd_relative_path: Option<Seq<char>>,
    pub source_content_type: Seq<char>,
    pub internal_detail: Option<Seq<char>>,
    pub organization_id: Seq<char>,
    pub project_snapshot: RecordingProjectSnapshotView,
    pub topic_ids: Seq<Seq<char>>,
    pub mapping_version: u64,
}

impl View for StoredImportArtifact {
    type V = StoredImportArtifactView;

    open spec fn view(&self) -> StoredImportArtifactView {
        StoredImportArtifactView {
            source_relative_path: self.source_relative_path@,
            rrd_relative_path: table::view_option(self.rrd_relative_path),
            source_content_type: self.source_content_type@,
            internal_detail: table::view_option(self.internal_detail),
            organization_id: self.organization_id@,
            project_snapshot: self.project_snapshot@,
            topic_ids: table::views(self.topic_ids@),
            mapping_version: self.mapping_version,
        }
    }
}

impl Copied for StoredImportArtifact {
    fn copied(&self) -> (r: Self) {
        StoredImportArtifact {
            source_relative_path: self.source_relative_path.copied(),
            rrd_relative_path: copy_option(&self.rrd_relative_path),
            source_content_type: self.source_content_type.copied(),
            internal_detail: copy_option(&self.internal_detail),
            organization_id: self.organization_id.copied(),
            project_snapshot: self.project_snapshot.copied(),
            topic_ids: copy_all(&self.topic_ids),
            mapping_version: self.mapping_version,
        }
    }
}

/// The import that an idempotency key was used for.
#[derive(Clone, Debug)]
pub struct StoredImportReceipt {
    pub fingerprint: String,
    pub import_id: String,
}

#[verifier::ext_equal]
pub struct StoredImportReceiptView {
    pub fingerprint: Seq<char>,
    pub import_id: Seq<char>,
}

impl View for StoredImportReceipt {
    type V = StoredImportReceiptView;

    open spec fn view(&self) -> StoredImportReceiptView {
        StoredImportReceiptView {
            fingerprint: self.fingerprint@,
            import_id: self.import_id@,
        }
    }
}

impl Copied for StoredImportReceipt {
    fn copied(&self) -> (r: Self) {
        StoredImportReceipt {
            fingerprint: self.fingerprint.copied(),
            import_id: self.import_id.copied(),
        }
    }
}

/// The command that an idempotency key was used for, and its answer.
#[derive(Debug)]
pub struct StoredCommand {
    pub request: SendCommandRequest,
    pub receipt: CommandReceipt,
}

#[verifier::ext_equal]
pub struct StoredCommandView {
    pub request: SendCommandRequestView,
    pub receipt: CommandReceiptView,
}

impl View for StoredCommand {
    type V = StoredCommandView;

    open spec fn view(&self) -> StoredCommandView {
        StoredCommandView {
            request: self.request@,
            receipt: self.receipt@,
        }
    }
}

impl Copied for StoredCommand {
    fn copied(&self) -> (r: Self) {
        StoredCommand {
            request: self.request.copied(),
            receipt: self.receipt.copied(),
        }
    }
}

/// Everything that the service knows, by identifier.
#[derive(Debug)]
pub struct Catalog {
    pub integrations: Table<Integration>,
    pub devices: Table<Device>,
    pub data_sources: Table<DataSource>,
    pub topics_by_data_source: Table<TopicList>,
    pub projects: Table<Project>,
    pub device_assignments: Table<DeviceAssignment>,
    pub data_assignments: Table<DataAssignment>,
    pub recordings: Table<Recording>,
    pub topics_by_recording: Table<TopicList>,
    /// The path of each recording's file below the storage root.
    pub recording_artifacts: Table<String>,
    pub recording_imports: Table<RecordingImport>,
    pub import_artifacts: Table<StoredImportArtifact>,
    /// The imports whose worker still runs.
    pub import_cancellations: Table<Marker>,
    pub import_receipts: Table<StoredImportReceipt>,
    pub live_sessions: Table<LiveSession>,
    /// The live sessions whose event streams still run.
    pub live_session_shutdown: Table<Marker>,
    pub replay_sessions: Table<ReplaySession>,
    pub leases: Table<ControlLease>,
    /// How many leases each device has had.
    pub lease_epochs: Table<Epoch>,
    pub command_receipts: Table<StoredCommand>,
    pub edge_enrollments: Table<EdgeEnrollment>,
    /// Grows with every change of the catalog.
    pub snapshot_version: u64,
}

#[verifier::ext_equal]
pub struct CatalogView {
    pub integrations: Map<Seq<char>, IntegrationView>,
    pub devices: Map<Seq<char>, DeviceView>,
    pub data_sources: Map<Seq<char>, DataSourceView>,
    pub topics_by_data_source: Map<Seq<char>, Seq<TopicView>>,
    pub projects: Map<Seq<char>, ProjectView>,
    pub device_assignments: Map<Seq<char>, DeviceAssignmentView>,
    pub data_assignments: Map<Seq<char>, DataAssignmentView>,
    pub recordings: Map<Seq<char>, RecordingView>,
    pub topics_by_recording: Map<Seq<char>, Seq<TopicView>>,
    pub recording_artifacts: Map<Seq<char>, Seq<char>>,
    pub recording_imports: Map<Seq<char>, RecordingImportView>,
    pub import_artifacts: Map<Seq<char>, StoredImportArtifactView>,
    pub import_cancellations: Map<Seq<char>, ()>,
    pub import_receipts: Map<Seq<char>, StoredImportReceiptView>,
    pub live_sessions: Map<Seq<char>, LiveSessionView>,
    pub live_session_shutdown: Map<Seq<char>, ()>,
    pub replay_sessions: Map<Seq<char>, ReplaySessionView>,
    pub leases: Map<Seq<char>, ControlLeaseView>,
    pub lease_epochs: Map<Seq<char>, u64>,
    pub command_receipts: Map<Seq<char>, StoredCommandView>,
    pub edge_enrollments: Map<Seq<char>, EdgeEnrollmentView>,
    pub snapshot_version: u64,
}

impl View for Catalog {
    type V = CatalogView;

    open spec fn view(&self) -> CatalogView {
        CatalogView {
            integrations: self.integrations@,
            devices: self.devices@,
            data_sources: self.data_sources@,
            topics_by_data_source: self.topics_by_data_source@,
            projects: self.projects@,
            device_assignments: self.device_assignments@,
            data_assignments: self.data_assignments@,
            recordings: self.recordings@,
            topics_by_recording: self.topics_by_recording@,
            recording_artifacts: self.recording_artifacts@,
            recording_imports: self.recording_imports@,
            import_artifacts: self.import_artifacts@,
            import_cancellations: self.import_cancellations@,
            import_receipts: self.import_receipts@,
            live_sessions: self.live_sessions@,
            live_session_shutdown: self.live_session_shutdown@,
            replay_sessions: self.replay_sessions@,
            leases: self.leases@,
            lease_epochs: self.lease_epochs@,
            command_receipts: self.command_receipts@,
            edge_enrollments: self.edge_enrollments@,
            snapshot_version: self.snapshot_version,
        }
    }
}

impl Copied for Catalog {
    fn copied(&self) -> (r: Self) {
        Catalog {
            integrations: self.integrations.copied(),
            devices: self.devices.copied(),
            data_sources: self.data_sources.copied(),
            topics_by_data_source: self.topics_by_data_source.copied(),
            projects: self.projects.copied(),
            device_assignments: self.device_assignments.copied(),
            data_assignments: self.data_assignments.copied(),
            recordings: self.recordings.copied(),
            topics_by_recording: self.topics_by_recording.copied(),
            recording_artifacts: self.recording_artifacts.copied(),
            recording_imports: self.recording_imports.copied(),
            import_artifacts: self.import_artifacts.copied(),
            import_cancellations: self.import_cancellations.copied(),
            import_receipts: self.import_receipts.copied(),
            live_sessions: self.live_sessions.copied(),
            live_session_shutdown: self.live_session_shutdown.copied(),
            replay_sessions: self.replay_sessions.copied(),
            leases: self.leases.copied(),
            lease_epochs: self.lease_epochs.copied(),
            command_receipts: self.command_receipts.copied(),
            edge_enrollments: self.edge_enrollments.copied(),
            snapshot_version: self.snapshot_version,
        }
    }
}

/// One more than `version`, or the largest version.
pub open spec fn next_version(version: u64) -> u64 {
    if version == u64::MAX {
        version
    } else {
        (version + 1) as u64
    }
}

pub fn version_after(version: u64) -> (r: u64)
    ensures
        r == next_version(version),
{
    if version == u64::MAX {
        version
    } else {
        version + 1
    }
}

pub open spec fn assigned_device(a: DeviceAssignmentView, project: Seq<char>, device: Seq<char>) -> bool {
    a.project_id == project && a.device_id == device && a.valid_to is None
}

pub open spec fn assigned_source(a: DataAssignmentView, project: Seq<char>, source: Seq<char>) -> bool {
    a.project_id == project && a.data_source_id == source && a.valid_to is None
}

/// Whether a project has an active assignment of a device.
pub open spec fn device_is_assigned(
    m: Map<Seq<char>, DeviceAssignmentView>,
    project: Seq<char>,
    device: Seq<char>,
) -> bool {
    table::any_value(m, |a: DeviceAssignmentView| assigned_device(a, project, device))
}

/// Whether a project has an active assignment of a data source.
pub open spec fn source_is_assigned(
    m: Map<Seq<char>, DataAssignmentView>,
    project: Seq<char>,
    source: Seq<char>,
) -> bool {
    table::any_value(m, |a: DataAssignmentView| assigned_source(a, project, source))
}

/// The smallest key of an active assignment of a device to a project.
pub open spec fn device_assignment_key(
    m: Map<Seq<char>, DeviceAssignmentView>,
    project: Seq<char>,
    device: Seq<char>,
) -> Option<Seq<char>> {
    table::first_key(m, |a: DeviceAssignmentView| assigned_device(a, project, device))
}

/// The smallest key of an active assignment of a data source to a project.
pub open spec fn source_assignment_key(
    m: Map<Seq<char>, DataAssignmentView>,
    project: Seq<char>,
    source: Seq<char>,
) -> Option<Seq<char>> {
    table::first_key(m, |a: DataAssignmentView| assigned_source(a, project, source))
}

/// The first active assignment of a device to a project.
pub fn find_device_assignment(
    t: &Table<DeviceAssignment>,
    project: &str,
    device: &str,
) -> (r: Option<usize>)
    ensures
        match r {
            Some(i) => i < t.items().len() && device_is_assigned(t@, project@, device@)
                && device_assignment_key(t@, project@, device@) == Some(t.items()[i as int].0)
                && t@.contains_key(t.items()[i as int].0) && t@[t.items()[i as int].0]
                == t.items()[i as int].1,
            None => !device_is_assigned(t@, project@, device@) && device_assignment_key(
                t@,
                project@,
                device@,
            ) is None,
        },
{
    let n: usize = t.len();
    let ghost p = |a: DeviceAssignmentView| assigned_device(a, project@, device@);
    let mut i: usize = 0;
    while i < n
        invariant
            i <= n,
            n == t.items().len(),
            table::keys_ascend(t.items()),
            p == (|a: DeviceAssignmentView| assigned_device(a, project@, device@)),
            forall|j: int| 0 <= j < i ==> !p((#[trigger] t.items()[j]).1),
        decreases n - i,
    {
        let a = t.value_at(i);
        if text::same(a.project_id.as_str(), project) && text::same(a.device_id.as_str(), device)
            && a.valid_to.is_none() {
            proof {
                table::lemma_first_at(t.items(), p, i as int);
            }
            return Some(i);
        }
        i = i + 1;
    }
    proof {
        table::lemma_first_none(t.items(), p);
    }
    None
}

/// The first active assignment of a data source to a project.
pub fn find_source_assignment(
    t: &Table<DataAssignment>,
    project: &str,
    source: &str,
) -> (r: Option<usize>)
    ensures
        match r {
            Some(i) => i < t.items().len() && source_is_assigned(t@, project@, source@)
                && source_assignment_key(t@, project@, source@) == Some(t.items()[i as int].0)
                && t@.contains_key(t.items()[i as int].0) && t@[t.items()[i as int].0]
                == t.items()[i as int].1,
            None => !source_is_assigned(t@, project@, source@) && source_assignment_key(
                t@,
                project@,
                source@,
            ) is None,
        },
{
    let n: usize = t.len();
    let ghost p = |a: DataAssignmentView| assigned_source(a, project@, source@);
    let mut i: usize = 0;
    while i < n
        invariant
            i <= n,
            n == t.items().len(),
            table::keys_ascend(t.items()),
            p == (|a: DataAssignmentView| assigned_source(a, project@, source@)),
            forall|j: int| 0 <= j < i ==> !p((#[trigger] t.items()[j]).1),
        decreases n - i,
    {
        let a = t.value_at(i);
        if text::same(a.project_id.as_str(), project) && text::same(
            a.data_source_id.as_str(),
            source,
        ) && a.valid_to.is_none() {
            proof {
                table::lemma_first_at(t.items(), p, i as int);
            }
            return Some(i);
        }
        i = i + 1;
    }
    proof {
        table::lemma_first_none(t.items(), p);
    }
    None
}

/// The active assignments of a project.
pub open spec fn project_assignments(
    m: Map<Seq<char>, DeviceAssignmentView>,
    project: Seq<char>,
) -> Set<Seq<char>> {
    m.dom().filter(|k: Seq<char>| m[k].project_id == project && m[k].valid_to is None)
}

/// The active assignments of a project whose device is online.
pub open spec fn online_assignments(c: CatalogView, project: Seq<char>) -> Set<Seq<char>> {
    project_assignments(c.device_assignments, project).filter(
        |k: Seq<char>| device_is_online(c.devices, c.device_assignments[k].device_id),
    )
}

pub open spec fn device_is_online(devices: Map<Seq<char>, DeviceView>, device: Seq<char>) -> bool {
    devices.contains_key(device) && devices[device].status == "online"@
}

/// A project with its counts brought up to date.
pub open spec fn counted_project(c: CatalogView, project: Seq<char>) -> ProjectView {
    ProjectView {
        device_count: project_assignments(c.device_assignments, project).len() as usize,
        online_device_count: online_assignments(c, project).len() as usize,
        ..c.projects[project]
    }
}

/// The catalog once the counts of a project, if there is such a project, are up to date.
pub open spec fn with_counts(c: CatalogView, project: Seq<char>) -> CatalogView {
    if c.projects.contains_key(project) {
        CatalogView { projects: c.projects.insert(project, counted_project(c, project)), ..c }
    } else {
        c
    }
}

/// The catalog at its next version.
pub open spec fn bumped(c: CatalogView) -> CatalogView {
    CatalogView { snapshot_version: next_version(c.snapshot_version), ..c }
}

/// The keys of the first `i` items that satisfy `p`.
pub open spec fn chosen_keys<W>(
    items: Seq<(Seq<char>, W)>,
    i: int,
    p: spec_fn(Seq<char>) -> bool,
) -> Set<Seq<char>> {
    Set::new(|k: Seq<char>| p(k) && exists|j: int| 0 <= j < i && (#[trigger] items[j]).0 == k)
}

pub proof fn lemma_chosen_step<W>(
    items: Seq<(Seq<char>, W)>,
    i: int,
    p: spec_fn(Seq<char>) -> bool,
)
    requires
        table::keys_ascend(items),
        0 <= i < items.len(),
        chosen_keys(items, i, p).finite(),
    ensures
        chosen_keys(items, i + 1, p).finite(),
        chosen_keys(items, i + 1, p).len() == chosen_keys(items, i, p).len() + (if p(items[i].0) {
            1int
        } else {
            0int
        }),
{
    let before = chosen_keys(items, i, p);
    let after = chosen_keys(items, i + 1, p);
    let k = items[i].0;
    assert(!before.contains(k)) by {
        text::lemma_less_irreflexive(k);
        if before.contains(k) {
            let j = choose|j: int| 0 <= j < i && (#[trigger] items[j]).0 == k;
            assert(text::less(items[j].0, items[i].0));
        }
    }
    if p(k) {
        assert(after =~= before.insert(k)) by {
            assert forall|x: Seq<char>| after.contains(x) implies before.insert(k).contains(x) by {
                let j = choose|j: int| 0 <= j < i + 1 && (#[trigger] items[j]).0 == x;
                if j < i {
                    assert(before.contains(x));
                }
            }
            assert(after.contains(k));
        }
    } else {
        assert(after =~= before) by {
            assert forall|x: Seq<char>| after.contains(x) implies before.contains(x) by {
                let j = choose|j: int| 0 <= j < i + 1 && (#[trigger] items[j]).0 == x;
                assert(j != i);
            }
        }
    }
}

pub proof fn lemma_chosen_all<W>(items: Seq<(Seq<char>, W)>, p: spec_fn(Seq<char>) -> bool)
    requires
        table::keys_ascend(items),
    ensures
        chosen_keys(items, items.len() as int, p) == table::items_map(items).dom().filter(p),
{
    table::lemma_items_all(items);
    assert(chosen_keys(items, items.len() as int, p) =~= table::items_map(items).dom().filter(p)) by {
        assert forall|k: Seq<char>|
            table::items_map(items).dom().filter(p).contains(k) implies chosen_keys(
            items,
            items.len() as int,
            p,
        ).contains(k) by {
            let j = table::key_index(items, k);
            assert(items[j].0 == k);
        }
    }
}

/// A catalog that knows nothing.
pub open spec fn empty_catalog() -> CatalogView {
    CatalogView {
        integrations: Map::empty(),
        devices: Map::empty(),
        data_sources: Map::empty(),
        topics_by_data_source: Map::empty(),
        projects: Map::empty(),
        device_assignments: Map::empty(),
        data_assignments: Map::empty(),
        recordings: Map::empty(),
        topics_by_recording: Map::empty(),
        recording_artifacts: Map::empty(),
        recording_imports: Map::empty(),
        import_artifacts: Map::empty(),
        import_cancellations: Map::empty(),
        import_receipts: Map::empty(),
        live_sessions: Map::empty(),
        live_session_shutdown: Map::empty(),
        replay_sessions: Map::empty(),
        leases: Map::empty(),
        lease_epochs: Map::empty(),
        command_receipts: Map::empty(),
        edge_enrollments: Map::empty(),
        snapshot_version: 0,
    }
}

impl Catalog {
    pub fn new() -> (r: Self)
        ensures
            r@ == empty_catalog(),
    {
        Catalog {
            integrations: Table::new(),
            devices: Table::new(),
            data_sources: Table::new(),
            topics_by_data_source: Table::new(),
            projects: Table::new(),
            device_assignments: Table::new(),
            data_assignments: Table::new(),
            recordings: Table::new(),
            topics_by_recording: Table::new(),
            recording_artifacts: Table::new(),
            recording_imports: Table::new(),
            import_artifacts: Table::new(),
            import_cancellations: Table::new(),
            import_receipts: Table::new(),
            live_sessions: Table::new(),
            live_session_shutdown: Table::new(),
            replay_sessions: Table::new(),
            leases: Table::new(),
            lease_epochs: Table::new(),
            command_receipts: Table::new(),
            edge_enrollments: Table::new(),
            snapshot_version: 0,
        }
    }

    /// Moves the catalog to its next version.
    pub fn bump_version(&mut self) -> (r: u64)
        ensures
            final(self)@ == bumped(old(self)@),
            r == next_version(old(self)@.snapshot_version),
    {
        self.snapshot_version = version_after(self.snapshot_version);
        self.snapshot_version
    }

    fn counts(&self, project: &str) -> (r: (usize, usize))
        ensures
            r.0 == project_assignments(self@.device_assignments, project@).len(),
            r.1 == online_assignments(self@, project@).len(),
    {
        let n: usize = self.device_assignments.len();
        let ghost items = self.device_assignments.items();
        let ghost m = self@.device_assignments;
        let ghost p = |k: Seq<char>| m[k].project_id == project@ && m[k].valid_to is None;
        let ghost q = |k: Seq<char>|
            m[k].project_id == project@ && m[k].valid_to is None && device_is_online(
                self@.devices,
                m[k].device_id,
            );
        let mut all: usize = 0;
        let mut online: usize = 0;
        let mut i: usize = 0;
        proof {
            assert(chosen_keys(items, 0, p) =~= Set::empty());
            assert(chosen_keys(items, 0, q) =~= Set::empty());
        }
        while i < n
            invariant
                i <= n,
                n == items.len(),
                items == self.device_assignments.items(),
                table::keys_ascend(items),
                m == self@.device_assignments,
                m == self.device_assignments@,
                p == (|k: Seq<char>| m[k].project_id == project@ && m[k].valid_to is None),
                q == (|k: Seq<char>|
                    m[k].project_id == project@ && m[k].valid_to is None && device_is_online(
                        self@.devices,
                        m[k].device_id,
                    )),
                all <= i,
                online <= all,
                chosen_keys(items, i as int, p).finite(),
                chosen_keys(items, i as int, q).finite(),
                all == chosen_keys(items, i as int, p).len(),
                online == chosen_keys(items, i as int, q).len(),
            decreases n - i,
        {
            let a = self.device_assignments.value_at(i);
            proof {
                lemma_chosen_step(items, i as int, p);
                lemma_chosen_step(items, i as int, q);
            }
            if text::same(a.project_id.as_str(), project) && a.valid_to.is_none() {
                all = all + 1;
                match self.devices.get(a.device_id.as_str()) {
                    Some(d) => {
                        if text::same(d.status.as_str(), "online") {
                            online = online + 1;
                        }
                    },
                    None => {},
                }
            }
            i = i + 1;
        }
        proof {
            lemma_chosen_all(items, p);
            lemma_chosen_all(items, q);
            assert(m.dom().filter(p) =~= project_assignments(m, project@));
            assert(m.dom().filter(q) =~= online_assignments(self@, project@));
        }
        (all, online)
    }

    /// Brings the device counts of a project up to date.
    pub fn refresh_project_counts(&mut self, project: &str)
        ensures
            final(self)@ == with_counts(old(self)@, project@),
    {
        let (all, online) = self.counts(project);
        match self.projects.remove(project) {
            Some(mut p) => {
                p.device_count = all;
                p.online_device_count = online;
                let _ = self.projects.insert(project.to_owned(), p);
                proof {
                    assert(self@.projects =~= old(self)@.projects.insert(
                        project@,
                        counted_project(old(self)@, project@),
                    ));
                }
            },
            None => {
                proof {
                    assert(self@.projects =~= old(self)@.projects);
                }
            },
        }
    }
}

} // verus!
