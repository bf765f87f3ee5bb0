//! The records of the service, and what they stand for.

use crate::table;
use crate::table::{copy_all, copy_option, Copied, Table};
use vstd::prelude::*;

verus! {

/// How a project may use an assigned device.
#[derive(Clone, Copy, Debug, PartialEq, Eq, Structural)]
pub enum AccessMode {
    Control,
    Observe,
}

impl Default for AccessMode {
    fn default() -> (r: Self)
        ensures
            r == AccessMode::Control,
    {
        AccessMode::Control
    }
}

/// Who may see assigned data.
#[derive(Clone, Copy, Debug, PartialEq, Eq, Structural)]
pub enum DataVisibility {
    Operator,
    Analyst,
    Restricted,
}

impl Default for DataVisibility {
    fn default() -> (r: Self)
        ensures
            r == DataVisibility::Operator,
    {
        DataVisibility::Operator
    }
}

/// Where a discovery session stands.
#[derive(Clone, Copy, Debug, PartialEq, Eq, Structural)]
pub enum DiscoverySessionStatus {
    Searching,
    Ready,
    Cancelled,
    Failed,
    Expired,
}

/// Where a discovered candidate stands.
#[derive(Clone, Copy, Debug, PartialEq, Eq, Structural)]
pub enum DiscoveryCandidateStatus {
    Found,
    Verifying,
    Verified,
    NeedsAttention,
    Unavailable,
    AlreadyLinked,
}

/// The kind of thing that was discovered.
#[derive(Clone, Copy, Debug, PartialEq, Eq, Structural)]
pub enum DiscoveryCandidateCategory {
    Robot,
    Drone,
    Vehicle,
    Camera,
    Gateway,
}

/// The outcome of verifying a candidate.
#[derive(Clone, Copy, Debug, PartialEq, Eq, Structural)]
pub enum CandidateVerificationStatus {
    Verified,
    NeedsCredentials,
    Incompatible,
    Unavailable,
}

/// The kind of data that a source offers.
#[derive(Clone, Copy, Debug, PartialEq, Eq, Structural)]
pub enum DiscoverySourceCategory {
    Camera,
    Spatial,
    Telemetry,
    State,
    Log,
}

/// Whether a discovered source can be used.
#[derive(Clone, Copy, Debug, PartialEq, Eq, Structural)]
pub enum DiscoverySourceStatus {
    Ready,
    Unavailable,
}

pub open spec fn sample_view(o: Option<Vec<u64>>) -> Option<Seq<u64>> {
    match o {
        Some(v) => Some(v@),
        None => None,
    }
}

fn copy_samples(o: &Option<Vec<u64>>) -> (r: Option<Vec<u64>>)
    ensures
        sample_view(r) == sample_view(*o),
{
    match o {
        None => None,
        Some(v) => {
            let mut r: Vec<u64> = Vec::new();
            let mut i: usize = 0;
            while i < v.len()
                invariant
                    i <= v@.len(),
                    r@ == v@.take(i as int),
                decreases v@.len() - i,
            {
                r.push(v[i]);
                proof {
                    assert(v@.take(i + 1) =~= v@.take(i as int).push(v@[i as int]));
                }
                i = i + 1;
            }
            proof {
                assert(v@.take(v@.len() as int) =~= v@);
            }
            Some(r)
        },
    }
}

/// The topics of one data source or recording, in their order.
#[derive(Debug)]
pub struct TopicList {
    pub topics: Vec<Topic>,
}

impl View for TopicList {
    type V = Seq<TopicView>;

    open spec fn view(&self) -> Seq<TopicView> {
        table::views(self.topics@)
    }
}

impl Copied for TopicList {
    fn copied(&self) -> (r: Self) {
        TopicList { topics: copy_all(&self.topics) }
    }
}

/// A connection of an organization to a fleet or an agent.
#[derive(Clone, Debug)]
pub struct Integration {
    pub id: String,
    pub organization_id: String,
    pub name: String,
    pub kind: String,
    pub status: String,
    pub endpoint_label: String,
    pub last_health_at: String,
    pub created_at: String,
    pub resource_version: u64,
}

#[verifier::ext_equal]
pub struct IntegrationView {
    pub id: Seq<char>,
    pub organization_id: Seq<char>,
    pub name: Seq<char>,
    pub kind: Seq<char>,
    pub status: Seq<char>,
    pub endpoint_label: Seq<char>,
    pub last_health_at: Seq<char>,
    pub created_at: Seq<char>,
    pub resource_version: u64,
}

impl View for Integration {
    type V = IntegrationView;

    open spec fn view(&self) -> IntegrationView {
        IntegrationView {
            id: self.id@,
            organization_id: self.organization_id@,
            name: self.name@,
            kind: self.kind@,
            status: self.status@,
            endpoint_label: self.endpoint_label@,
            last_health_at: self.last_health_at@,
            created_at: self.created_at@,
            resource_version: self.resource_version,
        }
    }
}

impl Copied for Integration {
    fn copied(&self) -> (r: Self) {
        Integration {
            id: self.id.copied(),
            organization_id: self.organization_id.copied(),
            name: self.name.copied(),
            kind: self.kind.copied(),
            status: self.status.copied(),
            endpoint_label: self.endpoint_label.copied(),
            last_health_at: self.last_health_at.copied(),
            created_at: self.created_at.copied(),
            resource_version: self.resource_version,
        }
    }
}

#[derive(Debug)]
pub struct CreateIntegrationRequest {
    pub organization_id: String,
    pub name: String,
    pub kind: String,
    pub endpoint_label: String,
}

#[verifier::ext_equal]
pub struct CreateIntegrationRequestView {
    pub organization_id: Seq<char>,
    pub name: Seq<char>,
    pub kind: Seq<char>,
    pub endpoint_label: Seq<char>,
}

impl View for CreateIntegrationRequest {
    type V = CreateIntegrationRequestView;

    open spec fn view(&self) -> CreateIntegrationRequestView {
        CreateIntegrationRequestView {
            organization_id: self.organization_id@,
            name: self.name@,
            kind: self.kind@,
            endpoint_label: self.endpoint_label@,
        }
    }
}

impl Copied for CreateIntegrationRequest {
    fn copied(&self) -> (r: Self) {
        CreateIntegrationRequest {
            organization_id: self.organization_id.copied(),
            name: self.name.copied(),
            kind: self.kind.copied(),
            endpoint_label: self.endpoint_label.copied(),
        }
    }
}

/// A robot, vehicle, camera or other machine.
#[derive(Clone, Debug)]
pub struct Device {
    pub id: String,
    pub organization_id: String,
    pub integration_id: String,
    pub name: String,
    pub kind: String,
    pub status: String,
    pub health: String,
    pub operation_mode: String,
    pub battery_percent: Option<u8>,
    pub task_name: String,
    pub task_progress: u8,
    pub last_seen_at: String,
    pub state_version: u64,
}

#[verifier::ext_equal]
pub struct DeviceView {
    pub id: Seq<char>,
    pub organization_id: Seq<char>,
    pub integration_id: Seq<char>,
    pub name: Seq<char>,
    pub kind: Seq<char>,
    pub status: Seq<char>,
    pub health: Seq<char>,
    pub operation_mode: Seq<char>,
    pub battery_percent: Option<u8>,
    pub task_name: Seq<char>,
    pub task_progress: u8,
    pub last_seen_at: Seq<char>,
    pub state_version: u64,
}

impl View for Device {
    type V = DeviceView;

    open spec fn view(&self) -> DeviceView {
        DeviceView {
            id: self.id@,
            organization_id: self.organization_id@,
            integration_id: self.integration_id@,
            name: self.name@,
            kind: self.kind@,
            status: self.status@,
            health: self.health@,
            operation_mode: self.operation_mode@,
            battery_percent: self.battery_percent,
            task_name: self.task_name@,
            task_progress: self.task_progress,
            last_seen_at: self.last_seen_at@,
            state_version: self.state_version,
        }
    }
}

impl Copied for Device {
    fn copied(&self) -> (r: Self) {
        Device {
            id: self.id.copied(),
            organization_id: self.organization_id.copied(),
            integration_id: self.integration_id.copied(),
            name: self.name.copied(),
            kind: self.kind.copied(),
            status: self.status.copied(),
            health: self.health.copied(),
            operation_mode: self.operation_mode.copied(),
            battery_percent: self.battery_percent,
            task_name: self.task_name.copied(),
            task_progress: self.task_progress,
            last_seen_at: self.last_seen_at.copied(),
            state_version: self.state_version,
        }
    }
}

#[derive(Debug)]
pub struct CreateDeviceRequest {
    pub id: Option<String>,
    pub organization_id: String,
    pub integration_id: String,
    pub name: String,
    pub kind: String,
    pub status: String,
    pub health: String,
    pub operation_mode: String,
    pub battery_percent: Option<u8>,
    pub task_name: String,
    pub task_progress: u8,
    pub last_seen_at: Option<String>,
}

#[verifier::ext_equal]
pub struct CreateDeviceRequestView {
    pub id: Option<Seq<char>>,
    pub organization_id: Seq<char>,
    pub integration_id: Seq<char>,
    pub name: Seq<char>,
    pub kind: Seq<char>,
    pub status: Seq<char>,
    pub health: Seq<char>,
    pub operation_mode: Seq<char>,
    pub battery_percent: Option<u8>,
    pub task_name: Seq<char>,
    pub task_progress: u8,
    pub last_seen_at: Option<Seq<char>>,
}

impl View for CreateDeviceRequest {
    type V = CreateDeviceRequestView;

    open spec fn view(&self) -> CreateDeviceRequestView {
        CreateDeviceRequestView {
            id: table::view_option(self.id),
            organization_id: self.organization_id@,
            integration_id: self.integration_id@,
            name: self.name@,
            kind: self.kind@,
            status: self.status@,
            health: self.health@,
            operation_mode: self.operation_mode@,
            battery_percent: self.battery_percent,
            task_name: self.task_name@,
            task_progress: self.task_progress,
            last_seen_at: table::view_option(self.last_seen_at),
        }
    }
}

impl Copied for CreateDeviceRequest {
    fn copied(&self) -> (r: Self) {
        CreateDeviceRequest {
            id: copy_option(&self.id),
            organization_id: self.organization_id.copied(),
            integration_id: self.integration_id.copied(),
            name: self.name.copied(),
            kind: self.kind.copied(),
            status: self.status.copied(),
            health: self.health.copied(),
            operation_mode: self.operation_mode.copied(),
            battery_percent: self.battery_percent,
            task_name: self.task_name.copied(),
            task_progress: self.task_progress,
            last_seen_at: copy_option(&self.last_seen_at),
        }
    }
}

/// A stream or store of data of one device.
#[derive(Clone, Debug)]
pub struct DataSource {
    pub id: String,
    pub integration_id: String,
    pub device_id: String,
    pub name: String,
    pub protocol: String,
    pub status: String,
    pub live_url: String,
    pub topic_ids: Vec<String>,
    pub mapping_version: u64,
    pub last_data_at: String,
}

#[verifier::ext_equal]
pub struct DataSourceView {
    pub id: Seq<char>,
    pub integration_id: Seq<char>,
    pub device_id: Seq<char>,
    pub name: Seq<char>,
    pub protocol: Seq<char>,
    pub status: Seq<char>,
    pub live_url: Seq<char>,
    pub topic_ids: Seq<Seq<char>>,
    pub mapping_version: u64,
    pub last_data_at: Seq<char>,
}

impl View for DataSource {
    type V = DataSourceView;

    open spec fn view(&self) -> DataSourceView {
        DataSourceView {
            id: self.id@,
            integration_id: self.integration_id@,
            device_id: self.device_id@,
            name: self.name@,
            protocol: self.protocol@,
            status: self.status@,
            live_url: self.live_url@,
            topic_ids: table::views(self.topic_ids@),
            mapping_version: self.mapping_version,
            last_data_at: self.last_data_at@,
        }
    }
}

impl Copied for DataSource {
    fn copied(&self) -> (r: Self) {
        DataSource {
            id: self.id.copied(),
            integration_id: self.integration_id.copied(),
            device_id: self.device_id.copied(),
            name: self.name.copied(),
            protocol: self.protocol.copied(),
            status: self.status.copied(),
            live_url: self.live_url.copied(),
            topic_ids: copy_all(&self.topic_ids),
            mapping_version: self.mapping_version,
            last_data_at: self.last_data_at.copied(),
        }
    }
}

/// Durable trust binding created only after an operator approves a signed edge candidate.
/// 
/// It binds signed heartbeats to the exact integration, device and data sources that were
/// created by the approval.
#[derive(Clone, Debug)]
pub struct EdgeEnrollment {
    pub edge_device_id: String,
    pub public_key: String,
    pub organization_id: String,
    pub integration_id: String,
    pub device_id: String,
    pub source_ids: Table<String>,
    pub organization_trusted: bool,
    pub created_at: String,
}

#[verifier::ext_equal]
pub struct EdgeEnrollmentView {
    pub edge_device_id: Seq<char>,
    pub public_key: Seq<char>,
    pub organization_id: Seq<char>,
    pub integration_id: Seq<char>,
    pub device_id: Seq<char>,
    pub source_ids: Map<Seq<char>, Seq<char>>,
    pub organization_trusted: bool,
    pub created_at: Seq<char>,
}

impl View for EdgeEnrollment {
    type V = EdgeEnrollmentView;

    open spec fn view(&self) -> EdgeEnrollmentView {
        EdgeEnrollmentView {
            edge_device_id: self.edge_device_id@,
            public_key: self.public_key@,
            organization_id: self.organization_id@,
            integration_id: self.integration_id@,
            device_id: self.device_id@,
            source_ids: self.source_ids@,
            organization_trusted: self.organization_trusted,
            created_at: self.created_at@,
        }
    }
}

impl Copied for EdgeEnrollment {
    fn copied(&self) -> (r: Self) {
        EdgeEnrollment {
            edge_device_id: self.edge_device_id.copied(),
            public_key: self.public_key.copied(),
            organization_id: self.organization_id.copied(),
            integration_id: self.integration_id.copied(),
            device_id: self.device_id.copied(),
            source_ids: self.source_ids.copied(),
            organization_trusted: self.organization_trusted,
            created_at: self.created_at.copied(),
        }
    }
}

#[derive(Debug)]
pub struct CreateDataSourceRequest {
    pub id: Option<String>,
    pub integration_id: String,
    pub device_id: String,
    pub name: String,
    pub protocol: String,
    pub status: String,
    pub live_url: String,
    pub topic_ids: Vec<String>,
    pub last_data_at: Option<String>,
}

#[verifier::ext_equal]
pub struct CreateDataSourceRequestView {
    pub id: Option<Seq<char>>,
    pub integration_id: Seq<char>,
    pub device_id: Seq<char>,
    pub name: Seq<char>,
    pub protocol: Seq<char>,
    pub status: Seq<char>,
    pub live_url: Seq<char>,
    pub topic_ids: Seq<Seq<char>>,
    pub last_data_at: Option<Seq<char>>,
}

impl View for CreateDataSourceRequest {
    type V = CreateDataSourceRequestView;

    open spec fn view(&self) -> CreateDataSourceRequestView {
        CreateDataSourceRequestView {
            id: table::view_option(self.id),
            integration_id: self.integration_id@,
            device_id: self.device_id@,
            name: self.name@,
            protocol: self.protocol@,
            status: self.status@,
            live_url: self.live_url@,
            topic_ids: table::views(self.topic_ids@),
            last_data_at: table::view_option(self.last_data_at),
        }
    }
}

impl Copied for CreateDataSourceRequest {
    fn copied(&self) -> (r: Self) {
        CreateDataSourceRequest {
            id: copy_option(&self.id),
            integration_id: self.integration_id.copied(),
            device_id: self.device_id.copied(),
            name: self.name.copied(),
            protocol: self.protocol.copied(),
            status: self.status.copied(),
            live_url: self.live_url.copied(),
            topic_ids: copy_all(&self.topic_ids),
            last_data_at: copy_option(&self.last_data_at),
        }
    }
}

/// A project of an organization with its assigned devices.
#[derive(Clone, Debug)]
pub struct Project {
    pub id: String,
    pub organization_id: String,
    pub name: String,
    pub description: String,
    pub status: String,
    pub device_count: usize,
    pub online_device_count: usize,
    pub created_at: String,
    pub resource_version: u64,
}

#[verifier::ext_equal]
pub struct ProjectView {
    pub id: Seq<char>,
    pub organization_id: Seq<char>,
    pub name: Seq<char>,
    pub description: Seq<char>,
    pub status: Seq<char>,
    pub device_count: usize,
    pub online_device_count: usize,
    pub created_at: Seq<char>,
    pub resource_version: u64,
}

impl View for Project {
    type V = ProjectView;

    open spec fn view(&self) -> ProjectView {
        ProjectView {
            id: self.id@,
            organization_id: self.organization_id@,
            name: self.name@,
            description: self.description@,
            status: self.status@,
            device_count: self.device_count,
            online_device_count: self.online_device_count,
            created_at: self.created_at@,
            resource_version: self.resource_version,
        }
    }
}

impl Copied for Project {
    fn copied(&self) -> (r: Self) {
        Project {
            id: self.id.copied(),
            organization_id: self.organization_id.copied(),
            name: self.name.copied(),
            description: self.description.copied(),
            status: self.status.copied(),
            device_count: self.device_count,
            online_device_count: self.online_device_count,
            created_at: self.created_at.copied(),
            resource_version: self.resource_version,
        }
    }
}

#[derive(Debug)]
pub struct CreateProjectRequest {
    pub organization_id: String,
    pub name: String,
    pub description: String,
    pub status: String,
    pub device_ids: Vec<String>,
    pub data_source_ids: Vec<String>,
}

#[verifier::ext_equal]
pub struct CreateProjectRequestView {
    pub organization_id: Seq<char>,
    pub name: Seq<char>,
    pub description: Seq<char>,
    pub status: Seq<char>,
    pub device_ids: Seq<Seq<char>>,
    pub data_source_ids: Seq<Seq<char>>,
}

impl View for CreateProjectRequest {
    type V = CreateProjectRequestView;

    open spec fn view(&self) -> CreateProjectRequestView {
        CreateProjectRequestView {
            organization_id: self.organization_id@,
            name: self.name@,
            description: self.description@,
            status: self.status@,
            device_ids: table::views(self.device_ids@),
            data_source_ids: table::views(self.data_source_ids@),
        }
    }
}

impl Copied for CreateProjectRequest {
    fn copied(&self) -> (r: Self) {
        CreateProjectRequest {
            organization_id: self.organization_id.copied(),
            name: self.name.copied(),
            description: self.description.copied(),
            status: self.status.copied(),
            device_ids: copy_all(&self.device_ids),
            data_source_ids: copy_all(&self.data_source_ids),
        }
    }
}

/// A device that a project may use.
#[derive(Clone, Debug)]
pub struct DeviceAssignment {
    pub id: String,
    pub project_id: String,
    pub device_id: String,
    pub access_mode: AccessMode,
    pub valid_from: String,
    pub valid_to: Option<String>,
    pub resource_version: u64,
}

#[verifier::ext_equal]
pub struct DeviceAssignmentView {
    pub id: Seq<char>,
    pub project_id: Seq<char>,
    pub device_id: Seq<char>,
    pub access_mode: AccessMode,
    pub valid_from: Seq<char>,
    pub valid_to: Option<Seq<char>>,
    pub resource_version: u64,
}

impl View for DeviceAssignment {
    type V = DeviceAssignmentView;

    open spec fn view(&self) -> DeviceAssignmentView {
        DeviceAssignmentView {
            id: self.id@,
            project_id: self.project_id@,
            device_id: self.device_id@,
            access_mode: self.access_mode,
            valid_from: self.valid_from@,
            valid_to: table::view_option(self.valid_to),
            resource_version: self.resource_version,
        }
    }
}

impl Copied for DeviceAssignment {
    fn copied(&self) -> (r: Self) {
        DeviceAssignment {
            id: self.id.copied(),
            project_id: self.project_id.copied(),
            device_id: self.device_id.copied(),
            access_mode: self.access_mode,
            valid_from: self.valid_from.copied(),
            valid_to: copy_option(&self.valid_to),
            resource_version: self.resource_version,
        }
    }
}

#[derive(Debug)]
pub struct CreateDeviceAssignmentRequest {
    pub device_id: String,
    pub access_mode: AccessMode,
}

#[verifier::ext_equal]
pub struct CreateDeviceAssignmentRequestView {
    pub device_id: Seq<char>,
    pub access_mode: AccessMode,
}

impl View for CreateDeviceAssignmentRequest {
    type V = CreateDeviceAssignmentRequestView;

    open spec fn view(&self) -> CreateDeviceAssignmentRequestView {
        CreateDeviceAssignmentRequestView {
            device_id: self.device_id@,
            access_mode: self.access_mode,
        }
    }
}

impl Copied for CreateDeviceAssignmentRequest {
    fn copied(&self) -> (r: Self) {
        CreateDeviceAssignmentRequest {
            device_id: self.device_id.copied(),
            access_mode: self.access_mode,
        }
    }
}

/// A data source that a project may use.
#[derive(Clone, Debug)]
pub struct DataAssignment {
    pub id: String,
    pub project_id: String,
    pub data_source_id: String,
    pub visibility: DataVisibility,
    pub valid_from: String,
    pub valid_to: Option<String>,
    pub resource_version: u64,
}

#[verifier::ext_equal]
pub struct DataAssignmentView {
    pub id: Seq<char>,
    pub project_id: Seq<char>,
    pub data_source_id: Seq<char>,
    pub visibility: DataVisibility,
    pub valid_from: Seq<char>,
    pub valid_to: Option<Seq<char>>,
    pub resource_version: u64,
}

impl View for DataAssignment {
    type V = DataAssignmentView;

    open spec fn view(&self) -> DataAssignmentView {
        DataAssignmentView {
            id: self.id@,
            project_id: self.project_id@,
            data_source_id: self.data_source_id@,
            visibility: self.visibility,
            valid_from: self.valid_from@,
            valid_to: table::view_option(self.valid_to),
            resource_version: self.resource_version,
        }
    }
}

impl Copied for DataAssignment {
    fn copied(&self) -> (r: Self) {
        DataAssignment {
            id: self.id.copied(),
            project_id: self.project_id.copied(),
            data_source_id: self.data_source_id.copied(),
            visibility: self.visibility,
            valid_from: self.valid_from.copied(),
            valid_to: copy_option(&self.valid_to),
            resource_version: self.resource_version,
        }
    }
}

#[derive(Debug)]
pub struct CreateDataAssignmentRequest {
    pub data_source_id: String,
    pub visibility: DataVisibility,
}

#[verifier::ext_equal]
pub struct CreateDataAssignmentRequestView {
    pub data_source_id: Seq<char>,
    pub visibility: DataVisibility,
}

impl View for CreateDataAssignmentRequest {
    type V = CreateDataAssignmentRequestView;

    open spec fn view(&self) -> CreateDataAssignmentRequestView {
        CreateDataAssignmentRequestView {
            data_source_id: self.data_source_id@,
            visibility: self.visibility,
        }
    }
}

impl Copied for CreateDataAssignmentRequest {
    fn copied(&self) -> (r: Self) {
        CreateDataAssignmentRequest {
            data_source_id: self.data_source_id.copied(),
            visibility: self.visibility,
        }
    }
}

/// One topic of a data source or a recording.
#[derive(Clone, Debug)]
pub struct Topic {
    pub id: String,
    pub data_source_id: String,
    pub device_id: String,
    pub path: String,
    pub label: String,
    pub renderer: String,
    pub quality: String,
    pub value: Option<String>,
    pub unit: Option<String>,
    pub message: Option<String>,
    /// The samples as the bits of their IEEE 754 doubles.
    pub samples: Option<Vec<u64>>,
    pub updated_at: String,
}

#[verifier::ext_equal]
pub struct TopicView {
    pub id: Seq<char>,
    pub data_source_id: Seq<char>,
    pub device_id: Seq<char>,
    pub path: Seq<char>,
    pub label: Seq<char>,
    pub renderer: Seq<char>,
    pub quality: Seq<char>,
    pub value: Option<Seq<char>>,
    pub unit: Option<Seq<char>>,
    pub message: Option<Seq<char>>,
    pub samples: Option<Seq<u64>>,
    pub updated_at: Seq<char>,
}

impl View for Topic {
    type V = TopicView;

    open spec fn view(&self) -> TopicView {
        TopicView {
            id: self.id@,
            data_source_id: self.data_source_id@,
            device_id: self.device_id@,
            path: self.path@,
            label: self.label@,
            renderer: self.renderer@,
            quality: self.quality@,
            value: table::view_option(self.value),
            unit: table::view_option(self.unit),
            message: table::view_option(self.message),
            samples: sample_view(self.samples),
            updated_at: self.updated_at@,
        }
    }
}

impl Copied for Topic {
    fn copied(&self) -> (r: Self) {
        Topic {
            id: self.id.copied(),
            data_source_id: self.data_source_id.copied(),
            device_id: self.device_id.copied(),
            path: self.path.copied(),
            label: self.label.copied(),
            renderer: self.renderer.copied(),
            quality: self.quality.copied(),
            value: copy_option(&self.value),
            unit: copy_option(&self.unit),
            message: copy_option(&self.message),
            samples: copy_samples(&self.samples),
            updated_at: self.updated_at.copied(),
        }
    }
}

/// The project as it was when a recording was captured.
#[derive(Clone, Debug)]
pub struct RecordingProjectSnapshot {
    pub project_id: String,
    pub project_name: String,
    pub captured_at: String,
    pub device_assignment_id: String,
    pub data_assignment_id: String,
}

#[verifier::ext_equal]
pub struct RecordingProjectSnapshotView {
    pub project_id: Seq<char>,
    pub project_name: Seq<char>,
    pub captured_at: Seq<char>,
    pub device_assignment_id: Seq<char>,
    pub data_assignment_id: Seq<char>,
}

impl View for RecordingProjectSnapshot {
    type V = RecordingProjectSnapshotView;

    open spec fn view(&self) -> RecordingProjectSnapshotView {
        RecordingProjectSnapshotView {
            project_id: self.project_id@,
            project_name: self.project_name@,
            captured_at: self.captured_at@,
            device_assignment_id: self.device_assignment_id@,
            data_assignment_id: self.data_assignment_id@,
        }
    }
}

impl Copied for RecordingProjectSnapshot {
    fn copied(&self) -> (r: Self) {
        RecordingProjectSnapshot {
            project_id: self.project_id.copied(),
            project_name: self.project_name.copied(),
            captured_at: self.captured_at.copied(),
            device_assignment_id: self.device_assignment_id.copied(),
            data_assignment_id: self.data_assignment_id.copied(),
        }
    }
}

/// The bounds of one timeline of a recording.
#[derive(Clone, Debug, PartialEq)]
pub struct TimelineDescriptor {
    pub name: String,
    pub kind: String,
    /// Lossless native time value: sequence tick, duration ns, or Unix timestamp ns.
    pub start: String,
    /// Lossless native time value: sequence tick, duration ns, or Unix timestamp ns.
    pub end: String,
    /// The bits of an IEEE 754 double.
    pub duration_seconds: Option<u64>,
    /// The bits of an IEEE 754 double.
    pub fps: Option<u64>,
}

#[verifier::ext_equal]
pub struct TimelineDescriptorView {
    pub name: Seq<char>,
    pub kind: Seq<char>,
    pub start: Seq<char>,
    pub end: Seq<char>,
    pub duration_seconds: Option<u64>,
    pub fps: Option<u64>,
}

impl View for TimelineDescriptor {
    type V = TimelineDescriptorView;

    open spec fn view(&self) -> TimelineDescriptorView {
        TimelineDescriptorView {
            name: self.name@,
            kind: self.kind@,
            start: self.start@,
            end: self.end@,
            duration_seconds: self.duration_seconds,
            fps: self.fps,
        }
    }
}

impl Copied for TimelineDescriptor {
    fn copied(&self) -> (r: Self) {
        TimelineDescriptor {
            name: self.name.copied(),
            kind: self.kind.copied(),
            start: self.start.copied(),
            end: self.end.copied(),
            duration_seconds: self.duration_seconds,
            fps: self.fps,
        }
    }
}

/// A recording that can be replayed.
#[derive(Clone, Debug)]
pub struct Recording {
    pub id: String,
    pub organization_id: String,
    pub project_id: String,
    pub device_id: String,
    pub data_source_id: String,
    pub name: String,
    pub status: String,
    pub rrd_url: String,
    pub captured_at: String,
    pub duration_label: String,
    pub timelines: Vec<TimelineDescriptor>,
    pub default_timeline: String,
    /// The bits of an IEEE 754 double.
    pub duration_seconds: u64,
    pub rrd_version: String,
    pub footer_verified: bool,
    pub content_sha256: String,
    pub topic_ids: Vec<String>,
    pub mapping_version: u64,
    pub project_snapshot: RecordingProjectSnapshot,
    pub resource_version: u64,
    pub manifest_hash: String,
}

#[verifier::ext_equal]
pub struct RecordingView {
    pub id: Seq<char>,
    pub organization_id: Seq<char>,
    pub project_id: Seq<char>,
    pub device_id: Seq<char>,
    pub data_source_id: Seq<char>,
    pub name: Seq<char>,
    pub status: Seq<char>,
    pub rrd_url: Seq<char>,
    pub captured_at: Seq<char>,
    pub duration_label: Seq<char>,
    pub timelines: Seq<TimelineDescriptorView>,
    pub default_timeline: Seq<char>,
    pub duration_seconds: u64,
    pub rrd_version: Seq<char>,
    pub footer_verified: bool,
    pub content_sha256: Seq<char>,
    pub topic_ids: Seq<Seq<char>>,
    pub mapping_version: u64,
    pub project_snapshot: RecordingProjectSnapshotView,
    pub resource_version: u64,
    pub manifest_hash: Seq<char>,
}

impl View for Recording {
    type V = RecordingView;

    open spec fn view(&self) -> RecordingView {
        RecordingView {
            id: self.id@,
            organization_id: self.organization_id@,
            project_id: self.project_id@,
            device_id: self.device_id@,
            data_source_id: self.data_source_id@,
            name: self.name@,
            status: self.status@,
            rrd_url: self.rrd_url@,
            captured_at: self.captured_at@,
            duration_label: self.duration_label@,
            timelines: table::views(self.timelines@),
            default_timeline: self.default_timeline@,
            duration_seconds: self.duration_seconds,
            rrd_version: self.rrd_version@,
            footer_verified: self.footer_verified,
            content_sha256: self.content_sha256@,
            topic_ids: table::views(self.topic_ids@),
            mapping_version: self.mapping_version,
            project_snapshot: self.project_snapshot@,
            resource_version: self.resource_version,
            manifest_hash: self.manifest_hash@,
        }
    }
}

impl Copied for Recording {
    fn copied(&self) -> (r: Self) {
        Recording {
            id: self.id.copied(),
            organization_id: self.organization_id.copied(),
            project_id: self.project_id.copied(),
            device_id: self.device_id.copied(),
            data_source_id: self.data_source_id.copied(),
            name: self.name.copied(),
            status: self.status.copied(),
            rrd_url: self.rrd_url.copied(),
            captured_at: self.captured_at.copied(),
            duration_label: self.duration_label.copied(),
            timelines: copy_all(&self.timelines),
            default_timeline: self.default_timeline.copied(),
            duration_seconds: self.duration_seconds,
            rrd_version: self.rrd_version.copied(),
            footer_verified: self.footer_verified,
            content_sha256: self.content_sha256.copied(),
            topic_ids: copy_all(&self.topic_ids),
            mapping_version: self.mapping_version,
            project_snapshot: self.project_snapshot.copied(),
            resource_version: self.resource_version,
            manifest_hash: self.manifest_hash.copied(),
        }
    }
}

/// All that a project shows at one version of the catalog.
#[derive(Clone, Debug)]
pub struct ProjectWorkspace {
    pub snapshot_version: u64,
    pub captured_at: String,
    pub project: Project,
    pub device_assignments: Vec<DeviceAssignment>,
    pub data_assignments: Vec<DataAssignment>,
    pub devices: Vec<Device>,
    pub data_sources: Vec<DataSource>,
    pub recordings: Vec<Recording>,
    /// Topic descriptor snapshots keyed by recording.
    pub topics_by_recording: Table<TopicList>,
    pub topics_by_data_source: Table<TopicList>,
}

#[verifier::ext_equal]
pub struct ProjectWorkspaceView {
    pub snapshot_version: u64,
    pub captured_at: Seq<char>,
    pub project: ProjectView,
    pub device_assignments: Seq<DeviceAssignmentView>,
    pub data_assignments: Seq<DataAssignmentView>,
    pub devices: Seq<DeviceView>,
    pub data_sources: Seq<DataSourceView>,
    pub recordings: Seq<RecordingView>,
    pub topics_by_recording: Map<Seq<char>, Seq<TopicView>>,
    pub topics_by_data_source: Map<Seq<char>, Seq<TopicView>>,
}

impl View for ProjectWorkspace {
    type V = ProjectWorkspaceView;

    open spec fn view(&self) -> ProjectWorkspaceView {
        ProjectWorkspaceView {
            snapshot_version: self.snapshot_version,
            captured_at: self.captured_at@,
            project: self.project@,
            device_assignments: table::views(self.device_assignments@),
            data_assignments: table::views(self.data_assignments@),
            devices: table::views(self.devices@),
            data_sources: table::views(self.data_sources@),
            recordings: table::views(self.recordings@),
            topics_by_recording: self.topics_by_recording@,
            topics_by_data_source: self.topics_by_data_source@,
        }
    }
}

impl Copied for ProjectWorkspace {
    fn copied(&self) -> (r: Self) {
        ProjectWorkspace {
            snapshot_version: self.snapshot_version,
            captured_at: self.captured_at.copied(),
            project: self.project.copied(),
            device_assignments: copy_all(&self.device_assignments),
            data_assignments: copy_all(&self.data_assignments),
            devices: copy_all(&self.devices),
            data_sources: copy_all(&self.data_sources),
            recordings: copy_all(&self.recordings),
            topics_by_recording: self.topics_by_recording.copied(),
            topics_by_data_source: self.topics_by_data_source.copied(),
        }
    }
}

/// An operator following a live device.
#[derive(Clone, Debug)]
pub struct LiveSession {
    pub id: String,
    pub project_id: String,
    pub device_id: String,
    pub data_source_id: String,
    pub opened_by: String,
    pub status: String,
    pub play_state: String,
    pub source_health: String,
    pub stream_url: String,
    pub started_at: String,
    pub closed_at: Option<String>,
    pub resource_version: u64,
}

#[verifier::ext_equal]
pub struct LiveSessionView {
    pub id: Seq<char>,
    pub project_id: Seq<char>,
    pub device_id: Seq<char>,
    pub data_source_id: Seq<char>,
    pub opened_by: Seq<char>,
    pub status: Seq<char>,
    pub play_state: Seq<char>,
    pub source_health: Seq<char>,
    pub stream_url: Seq<char>,
    pub started_at: Seq<char>,
    pub closed_at: Option<Seq<char>>,
    pub resource_version: u64,
}

impl View for LiveSession {
    type V = LiveSessionView;

    open spec fn view(&self) -> LiveSessionView {
        LiveSessionView {
            id: self.id@,
            project_id: self.project_id@,
            device_id: self.device_id@,
            data_source_id: self.data_source_id@,
            opened_by: self.opened_by@,
            status: self.status@,
            play_state: self.play_state@,
            source_health: self.source_health@,
            stream_url: self.stream_url@,
            started_at: self.started_at@,
            closed_at: table::view_option(self.closed_at),
            resource_version: self.resource_version,
        }
    }
}

impl Copied for LiveSession {
    fn copied(&self) -> (r: Self) {
        LiveSession {
            id: self.id.copied(),
            project_id: self.project_id.copied(),
            device_id: self.device_id.copied(),
            data_source_id: self.data_source_id.copied(),
            opened_by: self.opened_by.copied(),
            status: self.status.copied(),
            play_state: self.play_state.copied(),
            source_health: self.source_health.copied(),
            stream_url: self.stream_url.copied(),
            started_at: self.started_at.copied(),
            closed_at: copy_option(&self.closed_at),
            resource_version: self.resource_version,
        }
    }
}

#[derive(Clone, Debug)]
pub struct PlaybackCursor {
    pub kind: String,
    pub value: String,
}

#[verifier::ext_equal]
pub struct PlaybackCursorView {
    pub kind: Seq<char>,
    pub value: Seq<char>,
}

impl View for PlaybackCursor {
    type V = PlaybackCursorView;

    open spec fn view(&self) -> PlaybackCursorView {
        PlaybackCursorView {
            kind: self.kind@,
            value: self.value@,
        }
    }
}

impl Copied for PlaybackCursor {
    fn copied(&self) -> (r: Self) {
        PlaybackCursor {
            kind: self.kind.copied(),
            value: self.value.copied(),
        }
    }
}

#[derive(Clone, Debug)]
pub struct ReplayLoop {
    pub mode: String,
    pub start: Option<PlaybackCursor>,
    pub end: Option<PlaybackCursor>,
}

#[verifier::ext_equal]
pub struct ReplayLoopView {
    pub mode: Seq<char>,
    pub start: Option<PlaybackCursorView>,
    pub end: Option<PlaybackCursorView>,
}

impl View for ReplayLoop {
    type V = ReplayLoopView;

    open spec fn view(&self) -> ReplayLoopView {
        ReplayLoopView {
            mode: self.mode@,
            start: table::view_option(self.start),
            end: table::view_option(self.end),
        }
    }
}

impl Copied for ReplayLoop {
    fn copied(&self) -> (r: Self) {
        ReplayLoop {
            mode: self.mode.copied(),
            start: copy_option(&self.start),
            end: copy_option(&self.end),
        }
    }
}

#[derive(Debug)]
pub struct CreateLiveSessionRequest {
    pub project_id: String,
    pub device_id: String,
    pub data_source_id: String,
    pub opened_by: String,
}

#[verifier::ext_equal]
pub struct CreateLiveSessionRequestView {
    pub project_id: Seq<char>,
    pub device_id: Seq<char>,
    pub data_source_id: Seq<char>,
    pub opened_by: Seq<char>,
}

impl View for CreateLiveSessionRequest {
    type V = CreateLiveSessionRequestView;

    open spec fn view(&self) -> CreateLiveSessionRequestView {
        CreateLiveSessionRequestView {
            project_id: self.project_id@,
            device_id: self.device_id@,
            data_source_id: self.data_source_id@,
            opened_by: self.opened_by@,
        }
    }
}

impl Copied for CreateLiveSessionRequest {
    fn copied(&self) -> (r: Self) {
        CreateLiveSessionRequest {
            project_id: self.project_id.copied(),
            device_id: self.device_id.copied(),
            data_source_id: self.data_source_id.copied(),
            opened_by: self.opened_by.copied(),
        }
    }
}

/// An operator replaying a recording.
#[derive(Clone, Debug)]
pub struct ReplaySession {
    pub id: String,
    pub project_id: String,
    pub recording_id: String,
    pub device_id: String,
    pub opened_by: String,
    pub status: String,
    pub stream_url: String,
    /// The bits of an IEEE 754 double. Kept for older clients; `initial_cursor` is exact.
    pub cursor_seconds: u64,
    pub initial_timeline: String,
    pub initial_cursor: PlaybackCursor,
    pub initial_play_state: String,
    /// The bits of an IEEE 754 double.
    pub initial_speed: u64,
    pub initial_loop: ReplayLoop,
    pub opened_at: String,
    pub closed_at: Option<String>,
    pub resource_version: u64,
}

#[verifier::ext_equal]
pub struct ReplaySessionView {
    pub id: Seq<char>,
    pub project_id: Seq<char>,
    pub recording_id: Seq<char>,
    pub device_id: Seq<char>,
    pub opened_by: Seq<char>,
    pub status: Seq<char>,
    pub stream_url: Seq<char>,
    pub cursor_seconds: u64,
    pub initial_timeline: Seq<char>,
    pub initial_cursor: PlaybackCursorView,
    pub initial_play_state: Seq<char>,
    pub initial_speed: u64,
    pub initial_loop: ReplayLoopView,
    pub opened_at: Seq<char>,
    pub closed_at: Option<Seq<char>>,
    pub resource_version: u64,
}

impl View for ReplaySession {
    type V = ReplaySessionView;

    open spec fn view(&self) -> ReplaySessionView {
        ReplaySessionView {
            id: self.id@,
            project_id: self.project_id@,
            recording_id: self.recording_id@,
            device_id: self.device_id@,
            opened_by: self.opened_by@,
            status: self.status@,
            stream_url: self.stream_url@,
            cursor_seconds: self.cursor_seconds,
            initial_timeline: self.initial_timeline@,
            initial_cursor: self.initial_cursor@,
            initial_play_state: self.initial_play_state@,
            initial_speed: self.initial_speed,
            initial_loop: self.initial_loop@,
            opened_at: self.opened_at@,
            closed_at: table::view_option(self.closed_at),
            resource_version: self.resource_version,
        }
    }
}

impl Copied for ReplaySession {
    fn copied(&self) -> (r: Self) {
        ReplaySession {
            id: self.id.copied(),
            project_id: self.project_id.copied(),
            recording_id: self.recording_id.copied(),
            device_id: self.device_id.copied(),
            opened_by: self.opened_by.copied(),
            status: self.status.copied(),
            stream_url: self.stream_url.copied(),
            cursor_seconds: self.cursor_seconds,
            initial_timeline: self.initial_timeline.copied(),
            initial_cursor: self.initial_cursor.copied(),
            initial_play_state: self.initial_play_state.copied(),
            initial_speed: self.initial_speed,
            initial_loop: self.initial_loop.copied(),
            opened_at: self.opened_at.copied(),
            closed_at: copy_option(&self.closed_at),
            resource_version: self.resource_version,
        }
    }
}

#[derive(Debug)]
pub struct CreateReplaySessionRequest {
    pub project_id: String,
    pub recording_id: String,
    pub opened_by: String,
}

#[verifier::ext_equal]
pub struct CreateReplaySessionRequestView {
    pub project_id: Seq<char>,
    pub recording_id: Seq<char>,
    pub opened_by: Seq<char>,
}

impl View for CreateReplaySessionRequest {
    type V = CreateReplaySessionRequestView;

    open spec fn view(&self) -> CreateReplaySessionRequestView {
        CreateReplaySessionRequestView {
            project_id: self.project_id@,
            recording_id: self.recording_id@,
            opened_by: self.opened_by@,
        }
    }
}

impl Copied for CreateReplaySessionRequest {
    fn copied(&self) -> (r: Self) {
        CreateReplaySessionRequest {
            project_id: self.project_id.copied(),
            recording_id: self.recording_id.copied(),
            opened_by: self.opened_by.copied(),
        }
    }
}

/// An upload and what became of it.
#[derive(Clone, Debug)]
pub struct RecordingImport {
    pub id: String,
    pub project_id: String,
    pub device_id: String,
    pub data_source_id: String,
    pub file_name: String,
    pub format: String,
    pub status: String,
    pub progress_percent: u8,
    pub size_bytes: u64,
    pub source_sha256: Option<String>,
    pub artifact_url: Option<String>,
    pub recording_id: Option<String>,
    pub failure_reason: Option<String>,
    pub warnings: Vec<String>,
    pub created_at: String,
    pub updated_at: String,
    pub resource_version: u64,
}

#[verifier::ext_equal]
pub struct RecordingImportView {
    pub id: Seq<char>,
    pub project_id: Seq<char>,
    pub device_id: Seq<char>,
    pub data_source_id: Seq<char>,
    pub file_name: Seq<char>,
    pub format: Seq<char>,
    pub status: Seq<char>,
    pub progress_percent: u8,
    pub size_bytes: u64,
    pub source_sha256: Option<Seq<char>>,
    pub artifact_url: Option<Seq<char>>,
    pub recording_id: Option<Seq<char>>,
    pub failure_reason: Option<Seq<char>>,
    pub warnings: Seq<Seq<char>>,
    pub created_at: Seq<char>,
    pub updated_at: Seq<char>,
    pub resource_version: u64,
}

impl View for RecordingImport {
    type V = RecordingImportView;

    open spec fn view(&self) -> RecordingImportView {
        RecordingImportView {
            id: self.id@,
            project_id: self.project_id@,
            device_id: self.device_id@,
            data_source_id: self.data_source_id@,
            file_name: self.file_name@,
            format: self.format@,
            status: self.status@,
            progress_percent: self.progress_percent,
            size_bytes: self.size_bytes,
            source_sha256: table::view_option(self.source_sha256),
            artifact_url: table::view_option(self.artifact_url),
            recording_id: table::view_option(self.recording_id),
            failure_reason: table::view_option(self.failure_reason),
            warnings: table::views(self.warnings@),
            created_at: self.created_at@,
            updated_at: self.updated_at@,
            resource_version: self.resource_version,
        }
    }
}

impl Copied for RecordingImport {
    fn copied(&self) -> (r: Self) {
        RecordingImport {
            id: self.id.copied(),
            project_id: self.project_id.copied(),
            device_id: self.device_id.copied(),
            data_source_id: self.data_source_id.copied(),
            file_name: self.file_name.copied(),
            format: self.format.copied(),
            status: self.status.copied(),
            progress_percent: self.progress_percent,
            size_bytes: self.size_bytes,
            source_sha256: copy_option(&self.source_sha256),
            artifact_url: copy_option(&self.artifact_url),
            recording_id: copy_option(&self.recording_id),
            failure_reason: copy_option(&self.failure_reason),
            warnings: copy_all(&self.warnings),
            created_at: self.created_at.copied(),
            updated_at: self.updated_at.copied(),
            resource_version: self.resource_version,
        }
    }
}

#[derive(Clone, Debug)]
pub struct NetworkDiscoverySession {
    pub id: String,
    pub status: DiscoverySessionStatus,
    pub candidate_count: usize,
    pub started_at: String,
    pub expires_at: String,
    pub resource_version: u64,
}

#[verifier::ext_equal]
pub struct NetworkDiscoverySessionView {
    pub id: Seq<char>,
    pub status: DiscoverySessionStatus,
    pub candidate_count: usize,
    pub started_at: Seq<char>,
    pub expires_at: Seq<char>,
    pub resource_version: u64,
}

impl View for NetworkDiscoverySession {
    type V = NetworkDiscoverySessionView;

    open spec fn view(&self) -> NetworkDiscoverySessionView {
        NetworkDiscoverySessionView {
            id: self.id@,
            status: self.status,
            candidate_count: self.candidate_count,
            started_at: self.started_at@,
            expires_at: self.expires_at@,
            resource_version: self.resource_version,
        }
    }
}

impl Copied for NetworkDiscoverySession {
    fn copied(&self) -> (r: Self) {
        NetworkDiscoverySession {
            id: self.id.copied(),
            status: self.status,
            candidate_count: self.candidate_count,
            started_at: self.started_at.copied(),
            expires_at: self.expires_at.copied(),
            resource_version: self.resource_version,
        }
    }
}

#[derive(Debug)]
pub struct StartNetworkDiscoveryRequest {
    pub organization_id: String,
}

#[verifier::ext_equal]
pub struct StartNetworkDiscoveryRequestView {
    pub organization_id: Seq<char>,
}

impl View for StartNetworkDiscoveryRequest {
    type V = StartNetworkDiscoveryRequestView;

    open spec fn view(&self) -> StartNetworkDiscoveryRequestView {
        StartNetworkDiscoveryRequestView {
            organization_id: self.organization_id@,
        }
    }
}

impl Copied for StartNetworkDiscoveryRequest {
    fn copied(&self) -> (r: Self) {
        StartNetworkDiscoveryRequest {
            organization_id: self.organization_id.copied(),
        }
    }
}

#[derive(Clone, Debug)]
pub struct DiscoveryCandidate {
    pub id: String,
    pub session_id: String,
    pub display_name: String,
    pub category: DiscoveryCandidateCategory,
    pub status: DiscoveryCandidateStatus,
    pub last_seen_at: String,
    pub source_count: usize,
    pub supports_live: bool,
}

#[verifier::ext_equal]
pub struct DiscoveryCandidateView {
    pub id: Seq<char>,
    pub session_id: Seq<char>,
    pub display_name: Seq<char>,
    pub category: DiscoveryCandidateCategory,
    pub status: DiscoveryCandidateStatus,
    pub last_seen_at: Seq<char>,
    pub source_count: usize,
    pub supports_live: bool,
}

impl View for DiscoveryCandidate {
    type V = DiscoveryCandidateView;

    open spec fn view(&self) -> DiscoveryCandidateView {
        DiscoveryCandidateView {
            id: self.id@,
            session_id: self.session_id@,
            display_name: self.display_name@,
            category: self.category,
            status: self.status,
            last_seen_at: self.last_seen_at@,
            source_count: self.source_count,
            supports_live: self.supports_live,
        }
    }
}

impl Copied for DiscoveryCandidate {
    fn copied(&self) -> (r: Self) {
        DiscoveryCandidate {
            id: self.id.copied(),
            session_id: self.session_id.copied(),
            display_name: self.display_name.copied(),
            category: self.category,
            status: self.status,
            last_seen_at: self.last_seen_at.copied(),
            source_count: self.source_count,
            supports_live: self.supports_live,
        }
    }
}

#[derive(Clone, Debug)]
pub struct NetworkDiscoverySnapshot {
    pub session: NetworkDiscoverySession,
    pub candidates: Vec<DiscoveryCandidate>,
}

#[verifier::ext_equal]
pub struct NetworkDiscoverySnapshotView {
    pub session: NetworkDiscoverySessionView,
    pub candidates: Seq<DiscoveryCandidateView>,
}

impl View for NetworkDiscoverySnapshot {
    type V = NetworkDiscoverySnapshotView;

    open spec fn view(&self) -> NetworkDiscoverySnapshotView {
        NetworkDiscoverySnapshotView {
            session: self.session@,
            candidates: table::views(self.candidates@),
        }
    }
}

impl Copied for NetworkDiscoverySnapshot {
    fn copied(&self) -> (r: Self) {
        NetworkDiscoverySnapshot {
            session: self.session.copied(),
            candidates: copy_all(&self.candidates),
        }
    }
}

#[derive(Clone, Debug)]
pub struct SuggestedDevice {
    pub name: String,
    pub kind: String,
}

#[verifier::ext_equal]
pub struct SuggestedDeviceView {
    pub name: Seq<char>,
    pub kind: Seq<char>,
}

impl View for SuggestedDevice {
    type V = SuggestedDeviceView;

    open spec fn view(&self) -> SuggestedDeviceView {
        SuggestedDeviceView {
            name: self.name@,
            kind: self.kind@,
        }
    }
}

impl Copied for SuggestedDevice {
    fn copied(&self) -> (r: Self) {
        SuggestedDevice {
            name: self.name.copied(),
            kind: self.kind.copied(),
        }
    }
}

#[derive(Clone, Debug)]
pub struct VerifiedDiscoverySource {
    pub id: String,
    pub label: String,
    pub category: DiscoverySourceCategory,
    pub status: DiscoverySourceStatus,
}

#[verifier::ext_equal]
pub struct VerifiedDiscoverySourceView {
    pub id: Seq<char>,
    pub label: Seq<char>,
    pub category: DiscoverySourceCategory,
    pub status: DiscoverySourceStatus,
}

impl View for VerifiedDiscoverySource {
    type V = VerifiedDiscoverySourceView;

    open spec fn view(&self) -> VerifiedDiscoverySourceView {
        VerifiedDiscoverySourceView {
            id: self.id@,
            label: self.label@,
            category: self.category,
            status: self.status,
        }
    }
}

impl Copied for VerifiedDiscoverySource {
    fn copied(&self) -> (r: Self) {
        VerifiedDiscoverySource {
            id: self.id.copied(),
            label: self.label.copied(),
            category: self.category,
            status: self.status,
        }
    }
}

#[derive(Clone, Debug)]
pub struct CandidateVerification {
    pub verification_token: String,
    pub candidate_id: String,
    pub status: CandidateVerificationStatus,
    pub suggested_device: SuggestedDevice,
    pub sources: Vec<VerifiedDiscoverySource>,
    pub expires_at: String,
}

#[verifier::ext_equal]
pub struct CandidateVerificationView {
    pub verification_token: Seq<char>,
    pub candidate_id: Seq<char>,
    pub status: CandidateVerificationStatus,
    pub suggested_device: SuggestedDeviceView,
    pub sources: Seq<VerifiedDiscoverySourceView>,
    pub expires_at: Seq<char>,
}

impl View for CandidateVerification {
    type V = CandidateVerificationView;

    open spec fn view(&self) -> CandidateVerificationView {
        CandidateVerificationView {
            verification_token: self.verification_token@,
            candidate_id: self.candidate_id@,
            status: self.status,
            suggested_device: self.suggested_device@,
            sources: table::views(self.sources@),
            expires_at: self.expires_at@,
        }
    }
}

impl Copied for CandidateVerification {
    fn copied(&self) -> (r: Self) {
        CandidateVerification {
            verification_token: self.verification_token.copied(),
            candidate_id: self.candidate_id.copied(),
            status: self.status,
            suggested_device: self.suggested_device.copied(),
            sources: copy_all(&self.sources),
            expires_at: self.expires_at.copied(),
        }
    }
}

#[derive(Clone, Debug, PartialEq, Eq)]
pub struct ApproveNetworkCandidateInput {
    pub verification_token: String,
    pub project_id: String,
    pub expected_workspace_version: u64,
    pub device_name: String,
    pub selected_source_ids: Vec<String>,
    pub access_mode: AccessMode,
    pub visibility: DataVisibility,
}

#[verifier::ext_equal]
pub struct ApproveNetworkCandidateInputView {
    pub verification_token: Seq<char>,
    pub project_id: Seq<char>,
    pub expected_workspace_version: u64,
    pub device_name: Seq<char>,
    pub selected_source_ids: Seq<Seq<char>>,
    pub access_mode: AccessMode,
    pub visibility: DataVisibility,
}

impl View for ApproveNetworkCandidateInput {
    type V = ApproveNetworkCandidateInputView;

    open spec fn view(&self) -> ApproveNetworkCandidateInputView {
        ApproveNetworkCandidateInputView {
            verification_token: self.verification_token@,
            project_id: self.project_id@,
            expected_workspace_version: self.expected_workspace_version,
            device_name: self.device_name@,
            selected_source_ids: table::views(self.selected_source_ids@),
            access_mode: self.access_mode,
            visibility: self.visibility,
        }
    }
}

impl Copied for ApproveNetworkCandidateInput {
    fn copied(&self) -> (r: Self) {
        ApproveNetworkCandidateInput {
            verification_token: self.verification_token.copied(),
            project_id: self.project_id.copied(),
            expected_workspace_version: self.expected_workspace_version,
            device_name: self.device_name.copied(),
            selected_source_ids: copy_all(&self.selected_source_ids),
            access_mode: self.access_mode,
            visibility: self.visibility,
        }
    }
}

#[derive(Clone, Debug)]
pub struct NetworkLinkReceipt {
    pub status: String,
    pub project_id: String,
    pub integration_id: String,
    pub device_id: String,
    pub data_source_ids: Vec<String>,
    pub workspace_version: u64,
}

#[verifier::ext_equal]
pub struct NetworkLinkReceiptView {
    pub status: Seq<char>,
    pub project_id: Seq<char>,
    pub integration_id: Seq<char>,
    pub device_id: Seq<char>,
    pub data_source_ids: Seq<Seq<char>>,
    pub workspace_version: u64,
}

impl View for NetworkLinkReceipt {
    type V = NetworkLinkReceiptView;

    open spec fn view(&self) -> NetworkLinkReceiptView {
        NetworkLinkReceiptView {
            status: self.status@,
            project_id: self.project_id@,
            integration_id: self.integration_id@,
            device_id: self.device_id@,
            data_source_ids: table::views(self.data_source_ids@),
            workspace_version: self.workspace_version,
        }
    }
}

impl Copied for NetworkLinkReceipt {
    fn copied(&self) -> (r: Self) {
        NetworkLinkReceipt {
            status: self.status.copied(),
            project_id: self.project_id.copied(),
            integration_id: self.integration_id.copied(),
            device_id: self.device_id.copied(),
            data_source_ids: copy_all(&self.data_source_ids),
            workspace_version: self.workspace_version,
        }
    }
}

/// The right of one operator to command a device for a while.
#[derive(Clone, Debug)]
pub struct ControlLease {
    pub id: String,
    pub live_session_id: String,
    pub device_id: String,
    pub holder_id: String,
    pub holder_name: String,
    pub expires_at: String,
    pub epoch: u64,
    pub expires_at_ms: i64,
}

#[verifier::ext_equal]
pub struct ControlLeaseView {
    pub id: Seq<char>,
    pub live_session_id: Seq<char>,
    pub device_id: Seq<char>,
    pub holder_id: Seq<char>,
    pub holder_name: Seq<char>,
    pub expires_at: Seq<char>,
    pub epoch: u64,
    pub expires_at_ms: i64,
}

impl View for ControlLease {
    type V = ControlLeaseView;

    open spec fn view(&self) -> ControlLeaseView {
        ControlLeaseView {
            id: self.id@,
            live_session_id: self.live_session_id@,
            device_id: self.device_id@,
            holder_id: self.holder_id@,
            holder_name: self.holder_name@,
            expires_at: self.expires_at@,
            epoch: self.epoch,
            expires_at_ms: self.expires_at_ms,
        }
    }
}

impl Copied for ControlLease {
    fn copied(&self) -> (r: Self) {
        ControlLease {
            id: self.id.copied(),
            live_session_id: self.live_session_id.copied(),
            device_id: self.device_id.copied(),
            holder_id: self.holder_id.copied(),
            holder_name: self.holder_name.copied(),
            expires_at: self.expires_at.copied(),
            epoch: self.epoch,
            expires_at_ms: self.expires_at_ms,
        }
    }
}

#[derive(Debug)]
pub struct RequestControlLease {
    pub scope: Option<String>,
    pub expected_device_version: u64,
}

#[verifier::ext_equal]
pub struct RequestControlLeaseView {
    pub scope: Option<Seq<char>>,
    pub expected_device_version: u64,
}

impl View for RequestControlLease {
    type V = RequestControlLeaseView;

    open spec fn view(&self) -> RequestControlLeaseView {
        RequestControlLeaseView {
            scope: table::view_option(self.scope),
            expected_device_version: self.expected_device_version,
        }
    }
}

impl Copied for RequestControlLease {
    fn copied(&self) -> (r: Self) {
        RequestControlLease {
            scope: copy_option(&self.scope),
            expected_device_version: self.expected_device_version,
        }
    }
}

#[derive(Clone, Debug)]
pub struct CommandReceipt {
    pub command_id: String,
    pub live_session_id: String,
    pub command_type: String,
    pub status: String,
    pub message: String,
    pub created_at: String,
}

#[verifier::ext_equal]
pub struct CommandReceiptView {
    pub command_id: Seq<char>,
    pub live_session_id: Seq<char>,
    pub command_type: Seq<char>,
    pub status: Seq<char>,
    pub message: Seq<char>,
    pub created_at: Seq<char>,
}

impl View for CommandReceipt {
    type V = CommandReceiptView;

    open spec fn view(&self) -> CommandReceiptView {
        CommandReceiptView {
            command_id: self.command_id@,
            live_session_id: self.live_session_id@,
            command_type: self.command_type@,
            status: self.status@,
            message: self.message@,
            created_at: self.created_at@,
        }
    }
}

impl Copied for CommandReceipt {
    fn copied(&self) -> (r: Self) {
        CommandReceipt {
            command_id: self.command_id.copied(),
            live_session_id: self.live_session_id.copied(),
            command_type: self.command_type.copied(),
            status: self.status.copied(),
            message: self.message.copied(),
            created_at: self.created_at.copied(),
        }
    }
}

#[derive(Clone, Debug, PartialEq, Eq)]
pub struct SendCommandRequest {
    pub live_session_id: Option<String>,
    pub device_id: String,
    pub command_type: String,
    pub expected_device_version: u64,
    pub idempotency_key: String,
    pub lease_id: String,
    pub lease_epoch: u64,
    pub session_mode: Option<String>,
    pub issued_at: String,
    pub expires_at: String,
}

#[verifier::ext_equal]
pub struct SendCommandRequestView {
    pub live_session_id: Option<Seq<char>>,
    pub device_id: Seq<char>,
    pub command_type: Seq<char>,
    pub expected_device_version: u64,
    pub idempotency_key: Seq<char>,
    pub lease_id: Seq<char>,
    pub lease_epoch: u64,
    pub session_mode: Option<Seq<char>>,
    pub issued_at: Seq<char>,
    pub expires_at: Seq<char>,
}

impl View for SendCommandRequest {
    type V = SendCommandRequestView;

    open spec fn view(&self) -> SendCommandRequestView {
        SendCommandRequestView {
            live_session_id: table::view_option(self.live_session_id),
            device_id: self.device_id@,
            command_type: self.command_type@,
            expected_device_version: self.expected_device_version,
            idempotency_key: self.idempotency_key@,
            lease_id: self.lease_id@,
            lease_epoch: self.lease_epoch,
            session_mode: table::view_option(self.session_mode),
            issued_at: self.issued_at@,
            expires_at: self.expires_at@,
        }
    }
}

impl Copied for SendCommandRequest {
    fn copied(&self) -> (r: Self) {
        SendCommandRequest {
            live_session_id: copy_option(&self.live_session_id),
            device_id: self.device_id.copied(),
            command_type: self.command_type.copied(),
            expected_device_version: self.expected_device_version,
            idempotency_key: self.idempotency_key.copied(),
            lease_id: self.lease_id.copied(),
            lease_epoch: self.lease_epoch,
            session_mode: copy_option(&self.session_mode),
            issued_at: self.issued_at.copied(),
            expires_at: self.expires_at.copied(),
        }
    }
}

/// The status of a device that was registered without one.
pub fn default_online() -> (r: String)
    ensures
        r@ == "online"@,
{
    "online".to_owned()
}

/// The health of a device that was registered without one.
pub fn default_normal() -> (r: String)
    ensures
        r@ == "normal"@,
{
    "normal".to_owned()
}

/// The status of a project that was created without one.
pub fn default_active() -> (r: String)
    ensures
        r@ == "active"@,
{
    "active".to_owned()
}

} // verus!
