//! Import requests, their outcome and their failures.

use crate::table;
use crate::table::{copy_all, Copied};
use crate::text;
use std::sync::atomic::{AtomicBool, Ordering};
use std::sync::Arc;
use vstd::prelude::*;

verus! {

/// Source format selected by the upload service after MIME/extension inspection.
#[derive(Clone, Copy, Debug, PartialEq, Eq, Structural)]
pub enum ImportFormat {
    Rrd,
    Mcap,
    Ros2BagZip,
    Csv,
    Video,
}

/// Cloneable cancellation signal owned by the upload service.
#[derive(Clone, Debug, Default)]
pub struct ImportCancellation(Arc<AtomicBool>);

impl ImportCancellation {
    /// A signal that has not been raised.
    pub fn new() -> (r: Self) {
        ImportCancellation(Arc::new(AtomicBool::new(false)))
    }

    /// Raises the signal for every clone.
    pub fn cancel(&self) {
        self.0.store(true, Ordering::Release);
    }

    /// Whether the signal was raised. Other threads decide, so nothing is promised of the answer.
    pub fn is_cancelled(&self) -> (r: bool) {
        self.0.load(Ordering::Acquire)
    }
}

/// Timeline kind preserved without lossy relabeling.
#[derive(Clone, Copy, Debug, PartialEq, Eq, PartialOrd, Ord, Structural)]
pub enum TimelineKind {
    Sequence,
    Timestamp,
    Duration,
}

/// Viewer category derived from the verified RRD component archetypes for one entity.
#[derive(Clone, Copy, Debug, PartialEq, Eq, Structural)]
pub enum EntityVisualization {
    Camera,
    /// Geographic points or lines rendered on the map view.
    GeoMap,
    Spatial2d,
    Spatial3d,
    /// A transform hierarchy that should be shown with explicit coordinate axes.
    Transform3d,
    TimeSeries,
    State,
    Log,
    /// Verified data for which no registered semantic visualizer was found.
    Raw,
}

pub open spec fn renderer_name(v: EntityVisualization) -> Seq<char> {
    match v {
        EntityVisualization::Camera => "camera"@,
        EntityVisualization::GeoMap => "map"@,
        EntityVisualization::Spatial2d => "spatial2d"@,
        EntityVisualization::Spatial3d => "spatial3d"@,
        EntityVisualization::Transform3d => "transform3d"@,
        EntityVisualization::TimeSeries => "timeseries"@,
        EntityVisualization::State => "state"@,
        EntityVisualization::Log => "log"@,
        EntityVisualization::Raw => "raw"@,
    }
}

impl EntityVisualization {
    /// Stable renderer name used by Recording Topic descriptors.
    pub fn renderer(self) -> (r: &'static str)
        ensures
            r@ == renderer_name(self),
    {
        match self {
            EntityVisualization::Camera => "camera",
            EntityVisualization::GeoMap => "map",
            EntityVisualization::Spatial2d => "spatial2d",
            EntityVisualization::Spatial3d => "spatial3d",
            EntityVisualization::Transform3d => "transform3d",
            EntityVisualization::TimeSeries => "timeseries",
            EntityVisualization::State => "state",
            EntityVisualization::Log => "log",
            EntityVisualization::Raw => "raw",
        }
    }
}

/// Visualization metadata for an entity in a verified Recording.
#[derive(Clone, Debug, PartialEq, Eq)]
pub struct EntityDescriptor {
    pub path: String,
    pub visualization: EntityVisualization,
}

pub struct EntityDescriptorView {
    pub path: Seq<char>,
    pub visualization: EntityVisualization,
}

impl View for EntityDescriptor {
    type V = EntityDescriptorView;

    open spec fn view(&self) -> EntityDescriptorView {
        EntityDescriptorView { path: self.path@, visualization: self.visualization }
    }
}

impl Copied for EntityDescriptor {
    fn copied(&self) -> (r: Self) {
        EntityDescriptor { path: self.path.copied(), visualization: self.visualization }
    }
}

/// Lossless timeline bounds extracted from the verified RRD footer.
#[derive(Clone, Debug, PartialEq)]
pub struct TimelineDescriptor {
    pub name: String,
    pub kind: TimelineKind,
    pub start: String,
    pub end: String,
    /// The bits of an IEEE 754 double.
    pub duration_seconds: Option<u64>,
    /// The bits of an IEEE 754 double.
    pub fps: Option<u64>,
}

#[verifier::ext_equal]
pub struct TimelineDescriptorView {
    pub name: Seq<char>,
    pub kind: TimelineKind,
    pub start: Seq<char>,
    pub end: Seq<char>,
    pub duration_seconds: Option<u64>,
    pub fps: Option<u64>,
}

impl View for TimelineDescriptor {
    type V = TimelineDescriptorView;

    open spec fn view(&self) -> TimelineDescriptorView {
        TimelineDescriptorView {
            name: self.name@,
            kind: self.kind,
            start: self.start@,
            end: self.end@,
            duration_seconds: self.duration_seconds,
            fps: self.fps,
        }
    }
}

impl Copied for TimelineDescriptor {
    fn copied(&self) -> (r: Self) {
        TimelineDescriptor {
            name: self.name.copied(),
            kind: self.kind,
            start: self.start.copied(),
            end: self.end.copied(),
            duration_seconds: self.duration_seconds,
            fps: self.fps,
        }
    }
}

/// Metadata returned only after the destination RRD has passed footer verification.
#[derive(Clone, Debug, PartialEq)]
pub struct ImportResult {
    pub rrd_path: String,
    pub source_sha256: String,
    pub content_sha256: String,
    pub size_bytes: u64,
    pub rrd_version: String,
    pub footer_verified: bool,
    pub timelines: Vec<TimelineDescriptor>,
    pub default_timeline: String,
    /// The bits of an IEEE 754 double.
    pub duration_seconds: u64,
    pub warnings: Vec<String>,
    pub entity_paths: Vec<String>,
    pub entity_descriptors: Vec<EntityDescriptor>,
    pub topics: Vec<String>,
}

#[verifier::ext_equal]
pub struct ImportResultView {
    pub rrd_path: Seq<char>,
    pub source_sha256: Seq<char>,
    pub content_sha256: Seq<char>,
    pub size_bytes: u64,
    pub rrd_version: Seq<char>,
    pub footer_verified: bool,
    pub timelines: Seq<TimelineDescriptorView>,
    pub default_timeline: Seq<char>,
    pub duration_seconds: u64,
    pub warnings: Seq<Seq<char>>,
    pub entity_paths: Seq<Seq<char>>,
    pub entity_descriptors: Seq<EntityDescriptorView>,
    pub topics: Seq<Seq<char>>,
}

impl View for ImportResult {
    type V = ImportResultView;

    open spec fn view(&self) -> ImportResultView {
        ImportResultView {
            rrd_path: self.rrd_path@,
            source_sha256: self.source_sha256@,
            content_sha256: self.content_sha256@,
            size_bytes: self.size_bytes,
            rrd_version: self.rrd_version@,
            footer_verified: self.footer_verified,
            timelines: table::views(self.timelines@),
            default_timeline: self.default_timeline@,
            duration_seconds: self.duration_seconds,
            warnings: table::views(self.warnings@),
            entity_paths: table::views(self.entity_paths@),
            entity_descriptors: table::views(self.entity_descriptors@),
            topics: table::views(self.topics@),
        }
    }
}

impl Copied for ImportResult {
    fn copied(&self) -> (r: Self) {
        ImportResult {
            rrd_path: self.rrd_path.copied(),
            source_sha256: self.source_sha256.copied(),
            content_sha256: self.content_sha256.copied(),
            size_bytes: self.size_bytes,
            rrd_version: self.rrd_version.copied(),
            footer_verified: self.footer_verified,
            timelines: copy_all(&self.timelines),
            default_timeline: self.default_timeline.copied(),
            duration_seconds: self.duration_seconds,
            warnings: copy_all(&self.warnings),
            entity_paths: copy_all(&self.entity_paths),
            entity_descriptors: copy_all(&self.entity_descriptors),
            topics: copy_all(&self.topics),
        }
    }
}

/// Stable machine-readable import failure category.
#[derive(Clone, Copy, Debug, PartialEq, Eq, Structural)]
pub enum ImportErrorCode {
    InvalidRequest,
    UnsupportedFormat,
    ValidationFailed,
    ResourceLimitExceeded,
    ToolUnavailable,
    ConversionFailed,
    OutputValidationFailed,
    Io,
    Cancelled,
}

/// Import failure with separately consumable user-facing and internal details.
#[derive(Debug)]
pub struct ImportError {
    code: ImportErrorCode,
    user_reason: String,
    internal_detail: String,
}

pub struct ImportErrorView {
    pub code: ImportErrorCode,
    pub user_reason: Seq<char>,
    pub internal_detail: Seq<char>,
}

impl View for ImportError {
    type V = ImportErrorView;

    closed spec fn view(&self) -> ImportErrorView {
        ImportErrorView {
            code: self.code,
            user_reason: self.user_reason@,
            internal_detail: self.internal_detail@,
        }
    }
}

pub open spec fn import_error(
    code: ImportErrorCode,
    user_reason: Seq<char>,
    internal_detail: Seq<char>,
) -> ImportErrorView {
    ImportErrorView { code, user_reason, internal_detail }
}

/// What a fallible import step returned, in terms of what the values stand for.
pub open spec fn outcome<T>(r: Result<T, ImportError>) -> Result<T, ImportErrorView> {
    match r {
        Ok(x) => Ok(x),
        Err(e) => Err(e@),
    }
}

/// The failure of an import that was cancelled before its commit.
pub open spec fn cancelled_error() -> ImportErrorView {
    import_error(
        ImportErrorCode::Cancelled,
        "The import was cancelled."@,
        "Import cancellation was requested before commit"@,
    )
}

impl ImportError {
    pub fn code(&self) -> (r: ImportErrorCode)
        ensures
            r == self@.code,
    {
        self.code
    }

    pub fn user_reason(&self) -> (r: &str)
        ensures
            r@ == self@.user_reason,
    {
        self.user_reason.as_str()
    }

    pub fn internal_detail(&self) -> (r: &str)
        ensures
            r@ == self@.internal_detail,
    {
        self.internal_detail.as_str()
    }

    pub fn new(code: ImportErrorCode, user_reason: &str, internal_detail: String) -> (r: Self)
        ensures
            r@ == import_error(code, user_reason@, internal_detail@),
    {
        ImportError { code, user_reason: user_reason.to_owned(), internal_detail }
    }

    pub fn cancelled() -> (r: Self)
        ensures
            r@ == cancelled_error(),
    {
        ImportError::new(
            ImportErrorCode::Cancelled,
            "The import was cancelled.",
            "Import cancellation was requested before commit".to_owned(),
        )
    }
}

/// Stops an import whose cancellation signal was observed.
pub fn check_cancelled(cancelled: bool) -> (r: Result<(), ImportError>)
    ensures
        outcome(r) == if cancelled {
            Err::<(), ImportErrorView>(cancelled_error())
        } else {
            Ok(())
        },
{
    if cancelled {
        Err(ImportError::cancelled())
    } else {
        Ok(())
    }
}

/// The accounting of a writer that may not grow beyond a limit.
pub struct OutputBudget {
    pub limit: u64,
    pub written: u64,
    pub limit_exceeded: bool,
}

impl OutputBudget {
    pub open spec fn within(self) -> bool {
        self.written <= self.limit
    }

    pub fn new(limit: u64) -> (r: Self)
        ensures
            r.limit == limit,
            r.written == 0,
            !r.limit_exceeded,
            r.within(),
    {
        OutputBudget { limit, written: 0, limit_exceeded: false }
    }

    /// Accepts a write of `requested` bytes if the output stays within its limit; a refused
    /// write is remembered.
    pub fn accept(&mut self, requested: u64) -> (r: bool)
        ensures
            r == (old(self).written + requested <= old(self).limit),
            final(self).limit == old(self).limit,
            final(self).written == old(self).written,
            final(self).limit_exceeded == (old(self).limit_exceeded || !r),
    {
        match self.written.checked_add(requested) {
            Some(size) if size <= self.limit => true,
            _ => {
                self.limit_exceeded = true;
                false
            },
        }
    }

    /// Accounts for the bytes that an accepted write really took.
    pub fn record(&mut self, requested: u64, taken: u64)
        requires
            old(self).written + requested <= old(self).limit,
            taken <= requested,
        ensures
            final(self).limit == old(self).limit,
            final(self).written == old(self).written + taken,
            final(self).limit_exceeded == old(self).limit_exceeded,
            final(self).within(),
    {
        self.written = self.written + taken;
    }
}

pub open spec fn encode_failure(cause: Seq<char>, limit_exceeded: bool, limit: u64) -> ImportErrorView {
    if limit_exceeded {
        import_error(
            ImportErrorCode::ResourceLimitExceeded,
            "The converted recording exceeds its output size limit."@,
            "RRD encoder exceeded "@ + text::decimal(limit as nat) + " bytes: "@ + cause,
        )
    } else {
        import_error(
            ImportErrorCode::ConversionFailed,
            "Imported data could not be encoded as RRD."@,
            "RRD encoder failed: "@ + cause,
        )
    }
}

/// Tells an exhausted output budget from any other encoder failure.
pub fn encode_error(cause: &str, limit_exceeded: bool, limit: u64) -> (r: ImportError)
    ensures
        r@ == encode_failure(cause@, limit_exceeded, limit),
{
    if limit_exceeded {
        ImportError::new(
            ImportErrorCode::ResourceLimitExceeded,
            "The converted recording exceeds its output size limit.",
            text::line("RRD encoder exceeded ").num(limit).add(" bytes: ").add(cause).done(),
        )
    } else {
        ImportError::new(
            ImportErrorCode::ConversionFailed,
            "Imported data could not be encoded as RRD.",
            text::line("RRD encoder failed: ").add(cause).done(),
        )
    }
}

/// An encoder that stops at its limit is told apart from one that fails.
pub proof fn law_limits_are_told_from_failures(cause: Seq<char>, limit_exceeded: bool, limit: u64)
    ensures
        encode_failure(cause, limit_exceeded, limit).code == ImportErrorCode::ResourceLimitExceeded
            <==> limit_exceeded,
        encode_failure(cause, limit_exceeded, limit).code == ImportErrorCode::ConversionFailed
            <==> !limit_exceeded,
        cancelled_error().code == ImportErrorCode::Cancelled,
{
}

} // verus!
