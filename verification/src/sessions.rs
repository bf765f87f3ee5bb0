//! Live sessions, which follow a device, and replay sessions, which show a recording.

use crate::api;
use crate::api::{ApiError, ApiErrorView};
use crate::catalog;
use crate::catalog::{Catalog, CatalogView, Marker};
use crate::control;
use crate::discovery_rules;
use crate::domain::{
    ControlLease, CreateLiveSessionRequest, CreateLiveSessionRequestView,
    CreateReplaySessionRequest, CreateReplaySessionRequestView, DataAssignmentView,
    DeviceAssignmentView, DeviceView, LiveSession, LiveSessionView, PlaybackCursor,
    PlaybackCursorView, Recording, RecordingProjectSnapshot,
    RecordingProjectSnapshotView, RecordingView, ReplayLoop, ReplayLoopView, ReplaySession,
    ReplaySessionView, TimelineDescriptor, TimelineDescriptorView,
};
use crate::table;
use crate::table::{copy_all, Copied};
use crate::text;
use vstd::prelude::*;

verus! {

/// What the file of a recording holds.
#[derive(Debug)]
pub struct RecordingContent {
    pub timelines: Vec<TimelineDescriptor>,
    pub default_timeline: String,
    /// The bits of an IEEE 754 double.
    pub duration_seconds: u64,
    pub rrd_version: String,
    pub footer_verified: bool,
    pub content_sha256: String,
}

#[verifier::ext_equal]
pub struct RecordingContentView {
    pub timelines: Seq<TimelineDescriptorView>,
    pub default_timeline: Seq<char>,
    pub duration_seconds: u64,
    pub rrd_version: Seq<char>,
    pub footer_verified: bool,
    pub content_sha256: Seq<char>,
}

impl View for RecordingContent {
    type V = RecordingContentView;

    open spec fn view(&self) -> RecordingContentView {
        RecordingContentView {
            timelines: table::views(self.timelines@),
            default_timeline: self.default_timeline@,
            duration_seconds: self.duration_seconds,
            rrd_version: self.rrd_version@,
            footer_verified: self.footer_verified,
            content_sha256: self.content_sha256@,
        }
    }
}

impl Copied for RecordingContent {
    fn copied(&self) -> (r: Self) {
        RecordingContent {
            timelines: copy_all(&self.timelines),
            default_timeline: self.default_timeline.copied(),
            duration_seconds: self.duration_seconds,
            rrd_version: self.rrd_version.copied(),
            footer_verified: self.footer_verified,
            content_sha256: self.content_sha256.copied(),
        }
    }
}

/// Where and how a replay starts.
#[derive(Debug)]
pub struct ReplayStart {
    pub timeline: String,
    pub cursor: PlaybackCursor,
    pub play_state: String,
    /// The bits of an IEEE 754 double.
    pub speed: u64,
    pub repeat: ReplayLoop,
}

#[verifier::ext_equal]
pub struct ReplayStartView {
    pub timeline: Seq<char>,
    pub cursor: PlaybackCursorView,
    pub play_state: Seq<char>,
    pub speed: u64,
    pub repeat: ReplayLoopView,
}

impl View for ReplayStart {
    type V = ReplayStartView;

    open spec fn view(&self) -> ReplayStartView {
        ReplayStartView {
            timeline: self.timeline@,
            cursor: self.cursor@,
            play_state: self.play_state@,
            speed: self.speed,
            repeat: self.repeat@,
        }
    }
}

impl Copied for ReplayStart {
    fn copied(&self) -> (r: Self) {
        ReplayStart {
            timeline: self.timeline.copied(),
            cursor: self.cursor.copied(),
            play_state: self.play_state.copied(),
            speed: self.speed,
            repeat: self.repeat.copied(),
        }
    }
}

/// What the events of a live session say, but for their number and time.
#[derive(Debug)]
pub struct LiveFeed {
    pub session_id: String,
    pub project_id: String,
    pub device_id: String,
    pub topic_id: String,
    pub value: String,
    pub quality: String,
    pub state_version: u64,
}

#[verifier::ext_equal]
pub struct LiveFeedView {
    pub session_id: Seq<char>,
    pub project_id: Seq<char>,
    pub device_id: Seq<char>,
    pub topic_id: Seq<char>,
    pub value: Seq<char>,
    pub quality: Seq<char>,
    pub state_version: u64,
}

impl View for LiveFeed {
    type V = LiveFeedView;

    open spec fn view(&self) -> LiveFeedView {
        LiveFeedView {
            session_id: self.session_id@,
            project_id: self.project_id@,
            device_id: self.device_id@,
            topic_id: self.topic_id@,
            value: self.value@,
            quality: self.quality@,
            state_version: self.state_version,
        }
    }
}

impl Copied for LiveFeed {
    fn copied(&self) -> (r: Self) {
        LiveFeed {
            session_id: self.session_id.copied(),
            project_id: self.project_id.copied(),
            device_id: self.device_id.copied(),
            topic_id: self.topic_id.copied(),
            value: self.value.copied(),
            quality: self.quality.copied(),
            state_version: self.state_version,
        }
    }
}

/// One event of a live session.
#[derive(Debug)]
pub struct LiveEvent {
    pub event_id: String,
    pub resource_version: u64,
}

#[verifier::ext_equal]
pub struct LiveEventView {
    pub event_id: Seq<char>,
    pub resource_version: u64,
}

impl View for LiveEvent {
    type V = LiveEventView;

    open spec fn view(&self) -> LiveEventView {
        LiveEventView {
            event_id: self.event_id@,
            resource_version: self.resource_version,
        }
    }
}

impl Copied for LiveEvent {
    fn copied(&self) -> (r: Self) {
        LiveEvent {
            event_id: self.event_id.copied(),
            resource_version: self.resource_version,
        }
    }
}

/// Why a live session may not start.
pub open spec fn live_failure(c: CatalogView, q: CreateLiveSessionRequestView) -> Option<
    ApiErrorView,
> {
    if text::trim(q.opened_by).len() == 0 {
        Some(api::bad_request("openedBy is required."@))
    } else if !c.projects.contains_key(q.project_id) {
        Some(api::not_found("Project"@, q.project_id))
    } else if !c.devices.contains_key(q.device_id) {
        Some(api::not_found("Device"@, q.device_id))
    } else if !c.data_sources.contains_key(q.data_source_id) {
        Some(api::not_found("DataSource"@, q.data_source_id))
    } else {
        let project = c.projects[q.project_id];
        let device = c.devices[q.device_id];
        let source = c.data_sources[q.data_source_id];
        if project.organization_id != device.organization_id {
            Some(api::conflict("Project and Device must belong to the same organization."@))
        } else if source.device_id != device.id {
            Some(api::conflict("DataSource does not belong to the requested Device."@))
        } else if device.status == "offline"@ {
            Some(api::conflict("An offline Device cannot start a LiveSession."@))
        } else if source.status == "offline"@ || source.status == "degraded"@ {
            Some(api::conflict("DataSource is not available for a LiveSession."@))
        } else if !catalog::device_is_assigned(c.device_assignments, q.project_id, q.device_id)
            || !catalog::source_is_assigned(c.data_assignments, q.project_id, q.data_source_id) {
            Some(
                api::conflict("Device and DataSource must both be assigned to the Project."@),
            )
        } else {
            None
        }
    }
}

fn check_live_request(c: &Catalog, q: &CreateLiveSessionRequest) -> (r: Result<(), ApiError>)
    ensures
        discovery_rules::checked(r, live_failure(c@, q@)),
{
    if text::is_blank(q.opened_by.as_str()) {
        return Err(ApiError::bad_request("openedBy is required."));
    }
    let project = match c.projects.get(q.project_id.as_str()) {
        Some(p) => p,
        None => {
            return Err(ApiError::not_found("Project", q.project_id.as_str()));
        },
    };
    let device = match c.devices.get(q.device_id.as_str()) {
        Some(d) => d,
        None => {
            return Err(ApiError::not_found("Device", q.device_id.as_str()));
        },
    };
    let source = match c.data_sources.get(q.data_source_id.as_str()) {
        Some(s) => s,
        None => {
            return Err(ApiError::not_found("DataSource", q.data_source_id.as_str()));
        },
    };
    if !text::same(project.organization_id.as_str(), device.organization_id.as_str()) {
        return Err(
            ApiError::conflict("Project and Device must belong to the same organization."),
        );
    }
    if !text::same(source.device_id.as_str(), device.id.as_str()) {
        return Err(ApiError::conflict("DataSource does not belong to the requested Device."));
    }
    if text::same(device.status.as_str(), "offline") {
        return Err(ApiError::conflict("An offline Device cannot start a LiveSession."));
    }
    if text::same(source.status.as_str(), "offline") || text::same(
        source.status.as_str(),
        "degraded",
    ) {
        return Err(ApiError::conflict("DataSource is not available for a LiveSession."));
    }
    if catalog::find_device_assignment(
        &c.device_assignments,
        q.project_id.as_str(),
        q.device_id.as_str(),
    ).is_none() || catalog::find_source_assignment(
        &c.data_assignments,
        q.project_id.as_str(),
        q.data_source_id.as_str(),
    ).is_none() {
        return Err(
            ApiError::conflict("Device and DataSource must both be assigned to the Project."),
        );
    }
    Ok(())
}

/// How fresh the data of a device is.
pub open spec fn freshness(d: DeviceView) -> Seq<char> {
    if d.status == "degraded"@ {
        "delayed"@
    } else {
        "fresh"@
    }
}

pub open spec fn new_live_session(
    c: CatalogView,
    q: CreateLiveSessionRequestView,
    id: Seq<char>,
    now: Seq<char>,
) -> LiveSessionView {
    LiveSessionView {
        id,
        project_id: q.project_id,
        device_id: q.device_id,
        data_source_id: q.data_source_id,
        opened_by: q.opened_by,
        status: "open"@,
        play_state: "following"@,
        source_health: freshness(c.devices[q.device_id]),
        stream_url: "/rerun/live/"@ + id,
        started_at: now,
        closed_at: None,
        resource_version: catalog::next_version(c.snapshot_version),
    }
}

/// The catalog with a new live session.
pub open spec fn with_live_session(c: CatalogView, s: LiveSessionView) -> CatalogView {
    catalog::bumped(
        CatalogView {
            live_sessions: c.live_sessions.insert(s.id, s),
            live_session_shutdown: c.live_session_shutdown.insert(s.id, ()),
            ..c
        },
    )
}

/// Starts a live session of an assigned device and source.
pub fn create_live_session(
    c: &mut Catalog,
    request: &CreateLiveSessionRequest,
    session_id: &str,
    now: &str,
) -> (r: Result<LiveSession, ApiError>)
    ensures
        match live_failure(old(c)@, request@) {
            Some(x) => r matches Err(e) && e@ == x && final(c)@ == old(c)@,
            None => ({
                let s = new_live_session(old(c)@, request@, session_id@, now@);
                r matches Ok(v) && v@ == s && final(c)@ == with_live_session(old(c)@, s)
            }),
        },
{
    match check_live_request(c, request) {
        Ok(()) => {},
        Err(e) => {
            return Err(e);
        },
    }
    let degraded = match c.devices.get(request.device_id.as_str()) {
        Some(d) => text::same(d.status.as_str(), "degraded"),
        None => false,
    };
    let resource_version: u64 = c.bump_version();
    let session = LiveSession {
        id: session_id.to_owned(),
        project_id: request.project_id.clone(),
        device_id: request.device_id.clone(),
        data_source_id: request.data_source_id.clone(),
        opened_by: request.opened_by.clone(),
        status: "open".to_owned(),
        play_state: "following".to_owned(),
        source_health: if degraded {
            "delayed".to_owned()
        } else {
            "fresh".to_owned()
        },
        stream_url: text::line("/rerun/live/").add(session_id).done(),
        started_at: now.to_owned(),
        closed_at: None,
        resource_version,
    };
    let _ = c.live_sessions.insert(session_id.to_owned(), session.copied());
    let _ = c.live_session_shutdown.insert(session_id.to_owned(), Marker {  });
    Ok(session)
}

/// What a table answers for a key.
pub open spec fn looked_up<W>(m: Map<Seq<char>, W>, resource: Seq<char>, id: Seq<char>) -> Result<
    W,
    ApiErrorView,
> {
    if m.contains_key(id) {
        Ok(m[id])
    } else {
        Err(api::not_found(resource, id))
    }
}

pub fn get_live_session(c: &Catalog, session_id: &str) -> (r: Result<LiveSession, ApiError>)
    ensures
        api::answer_view(r) == looked_up(c@.live_sessions, "LiveSession"@, session_id@),
{
    match c.live_sessions.get(session_id) {
        Some(s) => Ok(s.copied()),
        None => Err(ApiError::not_found("LiveSession", session_id)),
    }
}

/// Why a live session may not be closed.
pub open spec fn close_failure(c: CatalogView, id: Seq<char>) -> Option<ApiErrorView> {
    if !c.live_sessions.contains_key(id) {
        Some(api::not_found("LiveSession"@, id))
    } else {
        let s = c.live_sessions[id];
        if s.status != "open"@ {
            Some(api::conflict("LiveSession is already closed."@))
        } else if !c.projects.contains_key(s.project_id) {
            Some(api::not_found("Project"@, s.project_id))
        } else if !c.data_sources.contains_key(s.data_source_id) {
            Some(api::not_found("DataSource"@, s.data_source_id))
        } else if catalog::device_assignment_key(
            c.device_assignments,
            s.project_id,
            s.device_id,
        ) is None {
            Some(api::conflict("Active DeviceAssignment is required."@))
        } else if catalog::source_assignment_key(
            c.data_assignments,
            s.project_id,
            s.data_source_id,
        ) is None {
            Some(api::conflict("Active DataAssignment is required."@))
        } else {
            None
        }
    }
}

/// The recording that a closed live session leaves.
pub open spec fn session_recording(
    c: CatalogView,
    s: LiveSessionView,
    id: Seq<char>,
    content: RecordingContentView,
    now: Seq<char>,
) -> RecordingView {
    let project = c.projects[s.project_id];
    let source = c.data_sources[s.data_source_id];
    let device_key = catalog::device_assignment_key(
        c.device_assignments,
        s.project_id,
        s.device_id,
    )->Some_0;
    let source_key = catalog::source_assignment_key(
        c.data_assignments,
        s.project_id,
        s.data_source_id,
    )->Some_0;
    RecordingView {
        id,
        organization_id: project.organization_id,
        project_id: project.id,
        device_id: s.device_id,
        data_source_id: source.id,
        name: project.name + " 운용 기록"@,
        status: "ready"@,
        rrd_url: "/rerun/recordings/"@ + id,
        captured_at: s.started_at,
        duration_label: "방금 종료"@,
        timelines: content.timelines,
        default_timeline: content.default_timeline,
        duration_seconds: content.duration_seconds,
        rrd_version: content.rrd_version,
        footer_verified: content.footer_verified,
        content_sha256: content.content_sha256,
        topic_ids: source.topic_ids,
        mapping_version: source.mapping_version,
        project_snapshot: RecordingProjectSnapshotView {
            project_id: project.id,
            project_name: project.name,
            captured_at: now,
            device_assignment_id: c.device_assignments[device_key].id,
            data_assignment_id: c.data_assignments[source_key].id,
        },
        resource_version: catalog::next_version(c.snapshot_version),
        manifest_hash: "sha256:"@ + id + "-immutable-local-fixture"@,
    }
}

/// A live session that was closed.
pub open spec fn closed_session(s: LiveSessionView, now: Seq<char>, version: u64) -> LiveSessionView {
    LiveSessionView { status: "closed"@, closed_at: Some(now), resource_version: version, ..s }
}

/// The catalog once a live session is closed and recorded.
pub open spec fn with_closed(
    c: CatalogView,
    s: LiveSessionView,
    recording: RecordingView,
    now: Seq<char>,
) -> CatalogView {
    catalog::bumped(
        CatalogView {
            live_sessions: c.live_sessions.insert(
                s.id,
                closed_session(s, now, catalog::next_version(c.snapshot_version)),
            ),
            leases: table::without(c.leases, control::leases_of_session(s.id)),
            live_session_shutdown: c.live_session_shutdown.remove(s.id),
            recordings: c.recordings.insert(recording.id, recording),
            ..c
        },
    )
}

/// What a live session was closed with.
#[derive(Debug)]
pub struct ClosedSession {
    pub recording: Recording,
    /// Whether an event stream of the session is to be stopped.
    pub stops_stream: bool,
}

/// Closes a live session: its leases end, its events stop and a recording of it is kept.
pub fn close_live_session(
    c: &mut Catalog,
    session_id: &str,
    recording_id: &str,
    content: RecordingContent,
    now: &str,
) -> (r: Result<ClosedSession, ApiError>)
    ensures
        match close_failure(old(c)@, session_id@) {
            Some(x) => r matches Err(e) && e@ == x && final(c)@ == old(c)@,
            None => ({
                let s = old(c)@.live_sessions[session_id@];
                let recording = session_recording(old(c)@, s, recording_id@, content@, now@);
                r matches Ok(v) && v.recording@ == recording && v.stops_stream == old(
                    c,
                )@.live_session_shutdown.contains_key(s.id) && final(c)@ == with_closed(
                    old(c)@,
                    s,
                    recording,
                    now@,
                )
            }),
        },
{
    let session = match c.live_sessions.get(session_id) {
        Some(s) => s.copied(),
        None => {
            return Err(ApiError::not_found("LiveSession", session_id));
        },
    };
    if !text::same(session.status.as_str(), "open") {
        return Err(ApiError::conflict("LiveSession is already closed."));
    }
    let project = match c.projects.get(session.project_id.as_str()) {
        Some(p) => p.copied(),
        None => {
            return Err(ApiError::not_found("Project", session.project_id.as_str()));
        },
    };
    let source = match c.data_sources.get(session.data_source_id.as_str()) {
        Some(s) => s.copied(),
        None => {
            return Err(ApiError::not_found("DataSource", session.data_source_id.as_str()));
        },
    };
    let device_assignment_id = match catalog::find_device_assignment(
        &c.device_assignments,
        session.project_id.as_str(),
        session.device_id.as_str(),
    ) {
        Some(i) => c.device_assignments.value_at(i).id.clone(),
        None => {
            return Err(ApiError::conflict("Active DeviceAssignment is required."));
        },
    };
    let data_assignment_id = match catalog::find_source_assignment(
        &c.data_assignments,
        session.project_id.as_str(),
        session.data_source_id.as_str(),
    ) {
        Some(i) => c.data_assignments.value_at(i).id.clone(),
        None => {
            return Err(ApiError::conflict("Active DataAssignment is required."));
        },
    };
    let resource_version: u64 = c.bump_version();
    let mut closed = session.copied();
    closed.status = "closed".to_owned();
    closed.closed_at = Some(now.to_owned());
    closed.resource_version = resource_version;
    let _ = c.live_sessions.insert(session.id.clone(), closed);
    let test = |l: &ControlLease| -> (b: bool)
        ensures
            b == (l@.live_session_id == session@.id),
        { text::same(l.live_session_id.as_str(), session.id.as_str()) };
    c.leases.remove_where(test, Ghost(control::leases_of_session(session@.id)));
    let stops_stream = c.live_session_shutdown.remove(session.id.as_str()).is_some();
    let recording = Recording {
        id: recording_id.to_owned(),
        organization_id: project.organization_id,
        project_id: project.id.clone(),
        device_id: session.device_id,
        data_source_id: source.id,
        name: text::line(project.name.as_str()).add(" 운용 기록").done(),
        status: "ready".to_owned(),
        rrd_url: text::line("/rerun/recordings/").add(recording_id).done(),
        captured_at: session.started_at,
        duration_label: "방금 종료".to_owned(),
        timelines: content.timelines,
        default_timeline: content.default_timeline,
        duration_seconds: content.duration_seconds,
        rrd_version: content.rrd_version,
        footer_verified: content.footer_verified,
        content_sha256: content.content_sha256,
        topic_ids: source.topic_ids,
        mapping_version: source.mapping_version,
        project_snapshot: RecordingProjectSnapshot {
            project_id: project.id,
            project_name: project.name,
            captured_at: now.to_owned(),
            device_assignment_id,
            data_assignment_id,
        },
        resource_version,
        manifest_hash: text::line("sha256:").add(recording_id).add(
            "-immutable-local-fixture",
        ).done(),
    };
    let _ = c.recordings.insert(recording_id.to_owned(), recording.copied());
    Ok(ClosedSession { recording, stops_stream })
}

/// Why a replay may not start.
pub open spec fn replay_failure(c: CatalogView, q: CreateReplaySessionRequestView) -> Option<
    ApiErrorView,
> {
    if text::trim(q.opened_by).len() == 0 {
        Some(api::bad_request("openedBy is required."@))
    } else if !c.projects.contains_key(q.project_id) {
        Some(api::not_found("Project"@, q.project_id))
    } else if !c.recordings.contains_key(q.recording_id) {
        Some(api::not_found("Recording"@, q.recording_id))
    } else if c.recordings[q.recording_id].project_id != q.project_id {
        Some(api::conflict("Recording is not part of the requested Project snapshot."@))
    } else if c.recordings[q.recording_id].status != "ready"@ {
        Some(api::conflict("Only a ready Recording can start a ReplaySession."@))
    } else {
        None
    }
}

pub open spec fn new_replay_session(
    c: CatalogView,
    q: CreateReplaySessionRequestView,
    start: ReplayStartView,
    id: Seq<char>,
    now: Seq<char>,
) -> ReplaySessionView {
    ReplaySessionView {
        id,
        project_id: q.project_id,
        recording_id: q.recording_id,
        device_id: c.recordings[q.recording_id].device_id,
        opened_by: q.opened_by,
        status: "open"@,
        stream_url: "/rerun/replay/"@ + id,
        cursor_seconds: 0,
        initial_timeline: start.timeline,
        initial_cursor: start.cursor,
        initial_play_state: start.play_state,
        initial_speed: start.speed,
        initial_loop: start.repeat,
        opened_at: now,
        closed_at: None,
        resource_version: catalog::next_version(c.snapshot_version),
    }
}

/// The catalog with another replay session.
pub open spec fn with_replay(c: CatalogView, id: Seq<char>, s: ReplaySessionView) -> CatalogView {
    catalog::bumped(CatalogView { replay_sessions: c.replay_sessions.insert(id, s), ..c })
}

/// Starts a replay of a ready recording.
pub fn create_replay_session(
    c: &mut Catalog,
    request: &CreateReplaySessionRequest,
    start: ReplayStart,
    session_id: &str,
    now: &str,
) -> (r: Result<ReplaySession, ApiError>)
    ensures
        match replay_failure(old(c)@, request@) {
            Some(x) => r matches Err(e) && e@ == x && final(c)@ == old(c)@,
            None => ({
                let s = new_replay_session(old(c)@, request@, start@, session_id@, now@);
                r matches Ok(v) && v@ == s && final(c)@ == with_replay(old(c)@, session_id@, s)
            }),
        },
{
    if text::is_blank(request.opened_by.as_str()) {
        return Err(ApiError::bad_request("openedBy is required."));
    }
    if !c.projects.contains(request.project_id.as_str()) {
        return Err(ApiError::not_found("Project", request.project_id.as_str()));
    }
    let device_id = match c.recordings.get(request.recording_id.as_str()) {
        Some(recording) => {
            if !text::same(recording.project_id.as_str(), request.project_id.as_str()) {
                return Err(
                    ApiError::conflict("Recording is not part of the requested Project snapshot."),
                );
            }
            if !text::same(recording.status.as_str(), "ready") {
                return Err(
                    ApiError::conflict("Only a ready Recording can start a ReplaySession."),
                );
            }
            recording.device_id.clone()
        },
        None => {
            return Err(ApiError::not_found("Recording", request.recording_id.as_str()));
        },
    };
    let resource_version: u64 = c.bump_version();
    let session = ReplaySession {
        id: session_id.to_owned(),
        project_id: request.project_id.clone(),
        recording_id: request.recording_id.clone(),
        device_id,
        opened_by: request.opened_by.clone(),
        status: "open".to_owned(),
        stream_url: text::line("/rerun/replay/").add(session_id).done(),
        cursor_seconds: 0,
        initial_timeline: start.timeline,
        initial_cursor: start.cursor,
        initial_play_state: start.play_state,
        initial_speed: start.speed,
        initial_loop: start.repeat,
        opened_at: now.to_owned(),
        closed_at: None,
        resource_version,
    };
    let _ = c.replay_sessions.insert(session_id.to_owned(), session.copied());
    Ok(session)
}

pub fn get_replay_session(c: &Catalog, session_id: &str) -> (r: Result<ReplaySession, ApiError>)
    ensures
        api::answer_view(r) == looked_up(c@.replay_sessions, "ReplaySession"@, session_id@),
{
    match c.replay_sessions.get(session_id) {
        Some(s) => Ok(s.copied()),
        None => Err(ApiError::not_found("ReplaySession", session_id)),
    }
}

/// A replay that was ended.
pub open spec fn ended_replay(s: ReplaySessionView, now: Seq<char>, version: u64) -> ReplaySessionView {
    ReplaySessionView { status: "closed"@, closed_at: Some(now), resource_version: version, ..s }
}

/// The catalog after a replay was closed. A closed replay stays as it is.
pub open spec fn replay_closed(c: CatalogView, id: Seq<char>, now: Seq<char>) -> Result<
    CatalogView,
    ApiErrorView,
> {
    if !c.replay_sessions.contains_key(id) {
        Err(api::not_found("ReplaySession"@, id))
    } else if c.replay_sessions[id].status == "closed"@ {
        Ok(c)
    } else {
        Ok(
            with_replay(
                c,
                id,
                ended_replay(
                    c.replay_sessions[id],
                    now,
                    catalog::next_version(c.snapshot_version),
                ),
            ),
        )
    }
}

pub fn close_replay_session(c: &mut Catalog, session_id: &str, now: &str) -> (r: Result<
    (),
    ApiError,
>)
    ensures
        match replay_closed(old(c)@, session_id@, now@) {
            Ok(after) => r is Ok && final(c)@ == after,
            Err(x) => r matches Err(e) && e@ == x && final(c)@ == old(c)@,
        },
{
    let mut session = match c.replay_sessions.get(session_id) {
        Some(s) => s.copied(),
        None => {
            return Err(ApiError::not_found("ReplaySession", session_id));
        },
    };
    if text::same(session.status.as_str(), "closed") {
        return Ok(());
    }
    session.status = "closed".to_owned();
    session.closed_at = Some(now.to_owned());
    session.resource_version = c.bump_version();
    let _ = c.replay_sessions.insert(session_id.to_owned(), session);
    Ok(())
}

/// Why the stream of a live session is refused.
pub open spec fn live_stream_failure(c: CatalogView, id: Seq<char>) -> Option<ApiErrorView> {
    if !c.live_sessions.contains_key(id) {
        Some(api::not_found("LiveSession"@, id))
    } else if c.live_sessions[id].status != "open"@ {
        Some(api::conflict("LiveSession is closed."@))
    } else {
        None
    }
}

pub fn open_live_stream(c: &Catalog, session_id: &str) -> (r: Result<(), ApiError>)
    ensures
        discovery_rules::checked(r, live_stream_failure(c@, session_id@)),
{
    match c.live_sessions.get(session_id) {
        Some(s) => if text::same(s.status.as_str(), "open") {
            Ok(())
        } else {
            Err(ApiError::conflict("LiveSession is closed."))
        },
        None => Err(ApiError::not_found("LiveSession", session_id)),
    }
}

/// Why the stream of a replay session is refused.
pub open spec fn replay_stream_failure(c: CatalogView, id: Seq<char>) -> Option<ApiErrorView> {
    if !c.replay_sessions.contains_key(id) {
        Some(api::not_found("ReplaySession"@, id))
    } else if c.replay_sessions[id].status != "open"@ {
        Some(api::conflict("ReplaySession is closed."@))
    } else {
        None
    }
}

pub fn open_replay_stream(c: &Catalog, session_id: &str) -> (r: Result<(), ApiError>)
    ensures
        discovery_rules::checked(r, replay_stream_failure(c@, session_id@)),
{
    match c.replay_sessions.get(session_id) {
        Some(s) => if text::same(s.status.as_str(), "open") {
            Ok(())
        } else {
            Err(ApiError::conflict("ReplaySession is closed."))
        },
        None => Err(ApiError::not_found("ReplaySession", session_id)),
    }
}

/// Why the stream of a recording is refused.
pub open spec fn recording_stream_failure(c: CatalogView, id: Seq<char>) -> Option<ApiErrorView> {
    if !c.recordings.contains_key(id) {
        Some(api::not_found("Recording"@, id))
    } else if c.recordings[id].status != "ready"@ {
        Some(api::conflict("Recording is not ready."@))
    } else {
        None
    }
}

pub fn open_recording_stream(c: &Catalog, recording_id: &str) -> (r: Result<(), ApiError>)
    ensures
        discovery_rules::checked(r, recording_stream_failure(c@, recording_id@)),
{
    match c.recordings.get(recording_id) {
        Some(s) => if text::same(s.status.as_str(), "ready") {
            Ok(())
        } else {
            Err(ApiError::conflict("Recording is not ready."))
        },
        None => Err(ApiError::not_found("Recording", recording_id)),
    }
}

/// The topic that a device reports, and its value.
pub open spec fn reported(d: DeviceView) -> (Seq<char>, Seq<char>) {
    if d.kind == "drone"@ {
        ("altitude"@, "0.0"@)
    } else {
        ("velocity"@, "1.18"@)
    }
}

/// What the events of a live session say.
pub open spec fn feed(c: CatalogView, id: Seq<char>) -> Result<LiveFeedView, ApiErrorView> {
    if live_stream_failure(c, id) is Some {
        Err(live_stream_failure(c, id)->Some_0)
    } else {
        let s = c.live_sessions[id];
        if !c.devices.contains_key(s.device_id) {
            Err(api::not_found("Device"@, s.device_id))
        } else if !c.data_sources.contains_key(s.data_source_id) {
            Err(api::not_found("DataSource"@, s.data_source_id))
        } else if !c.live_session_shutdown.contains_key(id) {
            Err(api::conflict("LiveSession event stream is unavailable."@))
        } else {
            let d = c.devices[s.device_id];
            Ok(
                LiveFeedView {
                    session_id: s.id,
                    project_id: s.project_id,
                    device_id: s.device_id,
                    topic_id: reported(d).0,
                    value: reported(d).1,
                    quality: freshness(d),
                    state_version: d.state_version,
                },
            )
        }
    }
}

/// Opens the events of a live session.
pub fn live_events(c: &Catalog, session_id: &str) -> (r: Result<LiveFeed, ApiError>)
    ensures
        api::answer_view(r) == feed(c@, session_id@),
{
    match open_live_stream(c, session_id) {
        Ok(()) => {},
        Err(e) => {
            return Err(e);
        },
    }
    let session = match c.live_sessions.get(session_id) {
        Some(s) => s,
        None => {
            return Err(ApiError::not_found("LiveSession", session_id));
        },
    };
    let device = match c.devices.get(session.device_id.as_str()) {
        Some(d) => d,
        None => {
            return Err(ApiError::not_found("Device", session.device_id.as_str()));
        },
    };
    if !c.data_sources.contains(session.data_source_id.as_str()) {
        return Err(ApiError::not_found("DataSource", session.data_source_id.as_str()));
    }
    if !c.live_session_shutdown.contains(session_id) {
        return Err(ApiError::conflict("LiveSession event stream is unavailable."));
    }
    let flies = text::same(device.kind.as_str(), "drone");
    Ok(
        LiveFeed {
            session_id: session.id.clone(),
            project_id: session.project_id.clone(),
            device_id: session.device_id.clone(),
            topic_id: if flies {
                "altitude".to_owned()
            } else {
                "velocity".to_owned()
            },
            value: if flies {
                "0.0".to_owned()
            } else {
                "1.18".to_owned()
            },
            quality: if text::same(device.status.as_str(), "degraded") {
                "delayed".to_owned()
            } else {
                "fresh".to_owned()
            },
            state_version: device.state_version,
        },
    )
}

/// The event of a feed with a number.
pub open spec fn numbered(f: LiveFeedView, tick: u64) -> LiveEventView {
    LiveEventView {
        event_id: "live-event-"@ + f.session_id + "-"@ + text::decimal(tick as nat),
        resource_version: if f.state_version + tick > u64::MAX {
            u64::MAX
        } else {
            (f.state_version + tick) as u64
        },
    }
}

impl LiveFeed {
    /// Counts on to the next event.
    pub fn next_event(&self, tick: &mut u64) -> (r: LiveEvent)
        ensures
            *final(tick) == catalog::next_version(*old(tick)),
            r@ == numbered(self@, *final(tick)),
    {
        *tick = catalog::version_after(*tick);
        let number: u64 = *tick;
        LiveEvent {
            event_id: text::line("live-event-").add(self.session_id.as_str()).add("-").num(
                number,
            ).done(),
            resource_version: self.state_version.saturating_add(number),
        }
    }
}

/// A closed live session keeps no lease and gets none, streams nothing and is not closed again;
/// its recording can be played.
pub proof fn law_live_sessions_end_without_control(
    c: CatalogView,
    id: Seq<char>,
    recording_id: Seq<char>,
    content: RecordingContentView,
    now: Seq<char>,
    expected: u64,
    lease_id: Seq<char>,
    now_ms: i64,
)
    requires
        close_failure(c, id) is None,
        c.live_sessions[id].id == id,
    ensures
        ({
            let s = c.live_sessions[id];
            let after = with_closed(
                c,
                s,
                session_recording(c, s, recording_id, content, now),
                now,
            );
            &&& !table::any_value(after.leases, control::leases_of_session(id))
            &&& live_stream_failure(after, id) == Some(api::conflict("LiveSession is closed."@))
            &&& close_failure(after, id) == Some(api::conflict("LiveSession is already closed."@))
            &&& feed(after, id) is Err
            &&& control::lease_request(after, true, id, expected, lease_id, now_ms).1 is Err
            &&& recording_stream_failure(after, recording_id) is None
        }),
{
    reveal_strlit("closed");
    reveal_strlit("open");
    assert("closed"@.len() != "open"@.len());
}

/// Right after its start a live session streams, feeds events and can be looked up.
pub proof fn law_started_sessions_stream(
    c: CatalogView,
    q: CreateLiveSessionRequestView,
    id: Seq<char>,
    now: Seq<char>,
)
    requires
        live_failure(c, q) is None,
    ensures
        ({
            let s = new_live_session(c, q, id, now);
            let after = with_live_session(c, s);
            &&& looked_up(after.live_sessions, "LiveSession"@, id) == Ok::<
                LiveSessionView,
                ApiErrorView,
            >(s)
            &&& live_stream_failure(after, id) is None
            &&& feed(after, id) is Ok
            &&& close_failure(after, id) is None
        }),
{
}

/// A replay that is closed again stays as it was closed first.
pub proof fn law_closing_a_replay_twice_changes_nothing(
    c: CatalogView,
    id: Seq<char>,
    now: Seq<char>,
    later: Seq<char>,
)
    requires
        replay_closed(c, id, now) is Ok,
    ensures
        replay_closed(replay_closed(c, id, now)->Ok_0, id, later) == replay_closed(c, id, now),
{
}

/// A replay holds no control: it leaves leases, live sessions and commands as they are, and nobody
/// gets a lease through it.
pub proof fn law_replays_hold_no_control(
    c: CatalogView,
    q: CreateReplaySessionRequestView,
    start: ReplayStartView,
    id: Seq<char>,
    now: Seq<char>,
    enabled: bool,
    expected: u64,
    lease_id: Seq<char>,
    now_ms: i64,
)
    requires
        replay_failure(c, q) is None,
        !c.live_sessions.contains_key(id),
    ensures
        ({
            let after = with_replay(c, id, new_replay_session(c, q, start, id, now));
            &&& after.leases == c.leases
            &&& after.lease_epochs == c.lease_epochs
            &&& after.live_sessions == c.live_sessions
            &&& after.command_receipts == c.command_receipts
            &&& control::lease_request(after, enabled, id, expected, lease_id, now_ms).1 is Err
        }),
{
}

/// A live session starts exactly if someone opens it, its project, device and source exist, the
/// device and the project belong to one organization, the source is the device's own, the device
/// is not offline, the source is neither offline nor degraded, and the project has both assigned
/// at present.
pub proof fn law_live_sessions_need_assigned_sources(c: CatalogView, q: CreateLiveSessionRequestView)
    ensures
        live_failure(c, q) is None <==> {
            let project = c.projects[q.project_id];
            let device = c.devices[q.device_id];
            let source = c.data_sources[q.data_source_id];
            &&& text::trim(q.opened_by).len() > 0
            &&& c.projects.contains_key(q.project_id)
            &&& c.devices.contains_key(q.device_id)
            &&& c.data_sources.contains_key(q.data_source_id)
            &&& device.organization_id == project.organization_id
            &&& source.device_id == device.id
            &&& device.status != "offline"@
            &&& source.status != "offline"@
            &&& source.status != "degraded"@
            &&& exists|k: Seq<char>| #[trigger]
                c.device_assignments.contains_key(k) && c.device_assignments[k].project_id
                    == q.project_id && c.device_assignments[k].device_id == q.device_id
                    && c.device_assignments[k].valid_to is None
            &&& exists|k: Seq<char>| #[trigger]
                c.data_assignments.contains_key(k) && c.data_assignments[k].project_id
                    == q.project_id && c.data_assignments[k].data_source_id == q.data_source_id
                    && c.data_assignments[k].valid_to is None
        },
{
    assert(catalog::device_is_assigned(c.device_assignments, q.project_id, q.device_id) == exists|
        k: Seq<char>,
    | #[trigger]
        c.device_assignments.contains_key(k) && c.device_assignments[k].project_id == q.project_id
            && c.device_assignments[k].device_id == q.device_id
            && c.device_assignments[k].valid_to is None);
    assert(catalog::source_is_assigned(c.data_assignments, q.project_id, q.data_source_id)
        == exists|k: Seq<char>| #[trigger]
        c.data_assignments.contains_key(k) && c.data_assignments[k].project_id == q.project_id
            && c.data_assignments[k].data_source_id == q.data_source_id
            && c.data_assignments[k].valid_to is None);
}

/// A new live session is open and following, for what was asked, and nothing else changes. Its
/// data counts as delayed where the device is degraded, and as fresh otherwise.
pub proof fn law_started_sessions_hold_what_was_asked(
    c: CatalogView,
    q: CreateLiveSessionRequestView,
    id: Seq<char>,
    now: Seq<char>,
    k: Seq<char>,
)
    requires
        live_failure(c, q) is None,
    ensures
        ({
            let s = new_live_session(c, q, id, now);
            let after = with_live_session(c, s);
            &&& s.id == id
            &&& s.project_id == q.project_id
            &&& s.device_id == q.device_id
            &&& s.data_source_id == q.data_source_id
            &&& s.opened_by == q.opened_by
            &&& s.status == "open"@
            &&& s.play_state == "following"@
            &&& c.devices[q.device_id].status == "degraded"@ ==> s.source_health == "delayed"@
            &&& c.devices[q.device_id].status != "degraded"@ ==> s.source_health == "fresh"@
            &&& s.started_at == now
            &&& s.closed_at is None
            &&& s.stream_url == "/rerun/live/"@ + id
            &&& s.resource_version == after.snapshot_version
            &&& c.snapshot_version < u64::MAX ==> after.snapshot_version == c.snapshot_version + 1
            &&& after.live_sessions.contains_key(id) && after.live_sessions[id] == s
            &&& k != id ==> after.live_sessions.contains_key(k) == c.live_sessions.contains_key(k)
            &&& k != id && c.live_sessions.contains_key(k) ==> after.live_sessions[k]
                == c.live_sessions[k]
            &&& after.leases == c.leases
            &&& after.devices == c.devices
            &&& after.data_sources == c.data_sources
            &&& after.recordings == c.recordings
        }),
{
}

/// A closed live session leaves one ready recording of its project, device and source, which
/// keeps what the source was then: its topics, its mapping and the assignments by which it was
/// recorded. Other sessions, leases and recordings stay.
pub proof fn law_closed_sessions_leave_a_recording(
    c: CatalogView,
    id: Seq<char>,
    recording_id: Seq<char>,
    content: RecordingContentView,
    now: Seq<char>,
    k: Seq<char>,
)
    requires
        close_failure(c, id) is None,
        c.live_sessions[id].id == id,
        c.device_assignments.dom().finite(),
        c.data_assignments.dom().finite(),
    ensures
        ({
            let s = c.live_sessions[id];
            let r = session_recording(c, s, recording_id, content, now);
            let after = with_closed(c, s, r, now);
            let source = c.data_sources[s.data_source_id];
            &&& c.live_sessions.contains_key(id) && s.status == "open"@
            &&& after.recordings.contains_key(recording_id) && after.recordings[recording_id] == r
            &&& r.id == recording_id
            &&& r.status == "ready"@
            &&& r.project_id == c.projects[s.project_id].id
            &&& r.organization_id == c.projects[s.project_id].organization_id
            &&& r.device_id == s.device_id
            &&& r.data_source_id == source.id
            &&& r.captured_at == s.started_at
            &&& r.topic_ids == source.topic_ids
            &&& r.mapping_version == source.mapping_version
            &&& r.timelines == content.timelines
            &&& r.default_timeline == content.default_timeline
            &&& r.content_sha256 == content.content_sha256
            &&& exists|j: Seq<char>| #[trigger]
                c.device_assignments.contains_key(j) && c.device_assignments[j].id
                    == r.project_snapshot.device_assignment_id
                    && c.device_assignments[j].project_id == s.project_id
                    && c.device_assignments[j].device_id == s.device_id
                    && c.device_assignments[j].valid_to is None
            &&& exists|j: Seq<char>| #[trigger]
                c.data_assignments.contains_key(j) && c.data_assignments[j].id
                    == r.project_snapshot.data_assignment_id && c.data_assignments[j].project_id
                    == s.project_id && c.data_assignments[j].data_source_id == s.data_source_id
                    && c.data_assignments[j].valid_to is None
            &&& after.live_sessions[id].status == "closed"@
            &&& after.live_sessions[id].closed_at == Some(now)
            &&& k != id ==> after.live_sessions.contains_key(k) == c.live_sessions.contains_key(k)
            &&& k != id && c.live_sessions.contains_key(k) ==> after.live_sessions[k]
                == c.live_sessions[k]
            &&& k != recording_id && c.recordings.contains_key(k) ==> after.recordings[k]
                == c.recordings[k]
            &&& after.leases.contains_key(k) <==> c.leases.contains_key(k)
                && c.leases[k].live_session_id != id
            &&& !after.live_session_shutdown.contains_key(id)
        }),
{
    let s = c.live_sessions[id];
    let p = |a: DeviceAssignmentView| catalog::assigned_device(a, s.project_id, s.device_id);
    let q = |a: DataAssignmentView| catalog::assigned_source(a, s.project_id, s.data_source_id);
    table::lemma_first_key(c.device_assignments, p);
    table::lemma_first_key(c.data_assignments, q);
}

/// A replay starts exactly if someone opens it and its recording is a ready one of its project.
/// It replays that recording, from its beginning, and nothing else changes.
pub proof fn law_replays_need_ready_recordings(
    c: CatalogView,
    q: CreateReplaySessionRequestView,
    start: ReplayStartView,
    id: Seq<char>,
    now: Seq<char>,
    k: Seq<char>,
)
    ensures
        replay_failure(c, q) is None <==> {
            &&& text::trim(q.opened_by).len() > 0
            &&& c.projects.contains_key(q.project_id)
            &&& c.recordings.contains_key(q.recording_id)
            &&& c.recordings[q.recording_id].project_id == q.project_id
            &&& c.recordings[q.recording_id].status == "ready"@
        },
        ({
            let s = new_replay_session(c, q, start, id, now);
            let after = with_replay(c, id, s);
            &&& s.id == id
            &&& s.project_id == q.project_id
            &&& s.recording_id == q.recording_id
            &&& s.device_id == c.recordings[q.recording_id].device_id
            &&& s.opened_by == q.opened_by
            &&& s.status == "open"@
            &&& s.cursor_seconds == 0
            &&& s.initial_timeline == start.timeline
            &&& s.initial_cursor == start.cursor
            &&& s.initial_play_state == start.play_state
            &&& s.initial_speed == start.speed
            &&& s.initial_loop == start.repeat
            &&& s.closed_at is None
            &&& after.replay_sessions[id] == s
            &&& k != id && c.replay_sessions.contains_key(k) ==> after.replay_sessions[k]
                == c.replay_sessions[k]
            &&& after.recordings == c.recordings
        }),
{
}

/// A replay that was closed is closed as of then, and no other is.
pub proof fn law_closed_replays_are_closed(c: CatalogView, id: Seq<char>, now: Seq<char>, k: Seq<char>)
    ensures
        replay_closed(c, id, now) is Ok <==> c.replay_sessions.contains_key(id),
        replay_closed(c, id, now) matches Ok(after) ==> {
            &&& after.replay_sessions[id].status == "closed"@
            &&& c.replay_sessions[id].status != "closed"@ ==> after.replay_sessions[id].closed_at
                == Some(now)
            &&& after.replay_sessions[id].recording_id == c.replay_sessions[id].recording_id
            &&& k != id ==> after.replay_sessions.contains_key(k) == c.replay_sessions.contains_key(
                k,
            )
            &&& k != id && c.replay_sessions.contains_key(k) ==> after.replay_sessions[k]
                == c.replay_sessions[k]
            &&& replay_stream_failure(after, id) is Some
        },
{
    reveal_strlit("closed");
    reveal_strlit("open");
    assert("closed"@.len() != "open"@.len());
}

/// Only open sessions and ready recordings are streamed.
pub proof fn law_streams_are_open_or_ready(c: CatalogView, id: Seq<char>)
    ensures
        live_stream_failure(c, id) is None <==> c.live_sessions.contains_key(id)
            && c.live_sessions[id].status == "open"@,
        replay_stream_failure(c, id) is None <==> c.replay_sessions.contains_key(id)
            && c.replay_sessions[id].status == "open"@,
        recording_stream_failure(c, id) is None <==> c.recordings.contains_key(id)
            && c.recordings[id].status == "ready"@,
        feed(c, id) matches Ok(f) ==> {
            let s = c.live_sessions[id];
            let d = c.devices[s.device_id];
            &&& live_stream_failure(c, id) is None
            &&& f.session_id == s.id
            &&& f.project_id == s.project_id
            &&& f.device_id == s.device_id
            &&& f.state_version == d.state_version
            &&& f.quality == if d.status == "degraded"@ {
                "delayed"@
            } else {
                "fresh"@
            }
            &&& d.kind == "drone"@ ==> f.topic_id == "altitude"@ && f.value == "0.0"@
            &&& d.kind != "drone"@ ==> f.topic_id == "velocity"@ && f.value == "1.18"@
        },
{
}

} // verus!
