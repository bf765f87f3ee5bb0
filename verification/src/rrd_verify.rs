//! Verification of an RRD as a whole, and what a verified recording offers.

use crate::catalog::Marker;
use crate::import;
use crate::import::{
    EntityDescriptor, EntityDescriptorView, EntityVisualization, ImportError, ImportErrorCode,
    ImportErrorView, TimelineKind,
};
use crate::rrd_manifest;
use crate::rrd_manifest::{
    ChunkTransport, DecodedChunk, DecodedChunkView, ExpectedChunkMetadata, ExpectedChunkView,
    ManifestChunk, ManifestChunkView, ManifestColumn, ManifestColumnView, TemporalRange,
    TemporalRangeView, TemporalTimeline, TemporalTimelineView, TimeRange, TimeRanges,
};
use crate::rrd_wire;
use crate::table;
use crate::table::{copy_all, Table};
use crate::text;
use vstd::prelude::*;

verus! {

/// The view in which the data of an archetype is shown, if it has one of its own.
pub open spec fn shown_as(archetype: Seq<char>) -> Option<EntityVisualization> {
    if archetype == "EncodedImage"@ || archetype == "EncodedDepthImage"@ || archetype == "Image"@
        || archetype == "DepthImage"@ || archetype == "SegmentationImage"@ || archetype
        == "VideoStream"@ || archetype == "VideoFrameReference"@ {
        Some(EntityVisualization::Camera)
    } else if archetype == "GeoPoints"@ || archetype == "GeoLineStrings"@ {
        Some(EntityVisualization::GeoMap)
    } else if archetype == "Points2D"@ || archetype == "Boxes2D"@ || archetype == "Arrows2D"@
        || archetype == "LineStrips2D"@ || archetype == "Ellipses2D"@ {
        Some(EntityVisualization::Spatial2d)
    } else if archetype == "GridMap"@ || archetype == "VoxelGridMap"@ || archetype == "Points3D"@
        || archetype == "Boxes3D"@ || archetype == "Arrows3D"@ || archetype == "LineStrips3D"@
        || archetype == "Mesh3D"@ || archetype == "Asset3D"@ || archetype == "Capsules3D"@
        || archetype == "Cylinders3D"@ || archetype == "Ellipsoids3D"@ || archetype
        == "GaussianSplats3D"@ || archetype == "Pinhole"@ {
        Some(EntityVisualization::Spatial3d)
    } else if archetype == "Transform3D"@ || archetype == "TransformAxes3D"@ {
        Some(EntityVisualization::Transform3d)
    } else if archetype == "Scalars"@ || archetype == "SeriesLines"@ || archetype
        == "SeriesPoints"@ {
        Some(EntityVisualization::TimeSeries)
    } else if archetype == "TextLog"@ {
        Some(EntityVisualization::Log)
    } else {
        None
    }
}

/// The view in which the data of an archetype is shown. Grid maps are drawn as textured
/// rectangles in space; a coordinate frame only labels data and has no view.
pub fn archetype_visualization(short_name: &str) -> (r: Option<EntityVisualization>)
    ensures
        r == shown_as(short_name@),
{
    if text::same(short_name, "EncodedImage") || text::same(short_name, "EncodedDepthImage")
        || text::same(short_name, "Image") || text::same(short_name, "DepthImage") || text::same(
        short_name,
        "SegmentationImage",
    ) || text::same(short_name, "VideoStream") || text::same(short_name, "VideoFrameReference") {
        Some(EntityVisualization::Camera)
    } else if text::same(short_name, "GeoPoints") || text::same(short_name, "GeoLineStrings") {
        Some(EntityVisualization::GeoMap)
    } else if text::same(short_name, "Points2D") || text::same(short_name, "Boxes2D") || text::same(
        short_name,
        "Arrows2D",
    ) || text::same(short_name, "LineStrips2D") || text::same(short_name, "Ellipses2D") {
        Some(EntityVisualization::Spatial2d)
    } else if text::same(short_name, "GridMap") || text::same(short_name, "VoxelGridMap")
        || text::same(short_name, "Points3D") || text::same(short_name, "Boxes3D") || text::same(
        short_name,
        "Arrows3D",
    ) || text::same(short_name, "LineStrips3D") || text::same(short_name, "Mesh3D") || text::same(
        short_name,
        "Asset3D",
    ) || text::same(short_name, "Capsules3D") || text::same(short_name, "Cylinders3D")
        || text::same(short_name, "Ellipsoids3D") || text::same(short_name, "GaussianSplats3D")
        || text::same(short_name, "Pinhole") {
        Some(EntityVisualization::Spatial3d)
    } else if text::same(short_name, "Transform3D") || text::same(short_name, "TransformAxes3D") {
        Some(EntityVisualization::Transform3d)
    } else if text::same(short_name, "Scalars") || text::same(short_name, "SeriesLines")
        || text::same(short_name, "SeriesPoints") {
        Some(EntityVisualization::TimeSeries)
    } else if text::same(short_name, "TextLog") {
        Some(EntityVisualization::Log)
    } else {
        None
    }
}

/// The rank of a view: an entity is shown in the highest-ranked view that one of its archetypes
/// has.
pub open spec fn rank(v: EntityVisualization) -> u8 {
    match v {
        EntityVisualization::Camera => 8,
        EntityVisualization::GeoMap => 7,
        EntityVisualization::Spatial2d => 6,
        EntityVisualization::Spatial3d => 5,
        EntityVisualization::Transform3d => 4,
        EntityVisualization::TimeSeries => 3,
        EntityVisualization::State => 2,
        EntityVisualization::Log => 1,
        EntityVisualization::Raw => 0,
    }
}

pub fn visualization_priority(visualization: EntityVisualization) -> (r: u8)
    ensures
        r == rank(visualization),
{
    match visualization {
        EntityVisualization::Camera => 8,
        EntityVisualization::GeoMap => 7,
        EntityVisualization::Spatial2d => 6,
        EntityVisualization::Spatial3d => 5,
        EntityVisualization::Transform3d => 4,
        EntityVisualization::TimeSeries => 3,
        EntityVisualization::State => 2,
        EntityVisualization::Log => 1,
        EntityVisualization::Raw => 0,
    }
}

/// No two views have the same rank.
pub proof fn law_views_are_strictly_ranked(a: EntityVisualization, b: EntityVisualization)
    ensures
        rank(a) == rank(b) ==> a == b,
{
}

/// One component column of a recording, by its entity and its archetype.
#[derive(Debug)]
pub struct ComponentColumn {
    pub entity_path: String,
    /// The short name of the archetype.
    pub archetype: Option<String>,
}

#[verifier::ext_equal]
pub struct ComponentColumnView {
    pub entity_path: Seq<char>,
    pub archetype: Option<Seq<char>>,
}

impl View for ComponentColumn {
    type V = ComponentColumnView;

    open spec fn view(&self) -> ComponentColumnView {
        ComponentColumnView {
            entity_path: self.entity_path@,
            archetype: table::view_option(self.archetype),
        }
    }
}

/// One store of an RRD, as its manifest describes it.
#[derive(Debug)]
pub struct RrdStore {
    pub is_recording: bool,
    pub chunks: Vec<ManifestChunk>,
    pub columns: Vec<ManifestColumn>,
    /// The entities with temporal data.
    pub temporal_entities: Vec<String>,
    pub temporal: Vec<TemporalTimeline>,
    /// The entities with static data.
    pub static_entities: Vec<String>,
    pub components: Vec<ComponentColumn>,
}

#[verifier::ext_equal]
pub struct RrdStoreView {
    pub is_recording: bool,
    pub chunks: Seq<ManifestChunkView>,
    pub columns: Seq<ManifestColumnView>,
    pub temporal_entities: Seq<Seq<char>>,
    pub temporal: Seq<TemporalTimelineView>,
    pub static_entities: Seq<Seq<char>>,
    pub components: Seq<ComponentColumnView>,
}

impl View for RrdStore {
    type V = RrdStoreView;

    open spec fn view(&self) -> RrdStoreView {
        RrdStoreView {
            is_recording: self.is_recording,
            chunks: table::views(self.chunks@),
            columns: table::views(self.columns@),
            temporal_entities: table::views(self.temporal_entities@),
            temporal: table::views(self.temporal@),
            static_entities: table::views(self.static_entities@),
            components: table::views(self.components@),
        }
    }
}

impl RrdStore {
    /// Whether each column of the manifest has a value for each chunk.
    pub open spec fn wf(self) -> bool {
        forall|i: int|
            0 <= i < self.columns@.len() ==> rrd_manifest::column_fits(
                (#[trigger] self.columns@[i])@,
                self.chunks@.len(),
            )
    }
}

/// A view, as a table can hold it.
#[derive(Clone, Copy, Debug)]
pub struct Shown {
    pub visualization: EntityVisualization,
}

impl View for Shown {
    type V = EntityVisualization;

    open spec fn view(&self) -> EntityVisualization {
        self.visualization
    }
}

/// The views after the component columns from `i` on: the higher rank wins.
pub open spec fn ranked_from(
    columns: Seq<ComponentColumnView>,
    i: int,
    m: Map<Seq<char>, EntityVisualization>,
) -> Map<Seq<char>, EntityVisualization>
    decreases columns.len() - i,
{
    if i < 0 || i >= columns.len() {
        m
    } else {
        ranked_from(columns, i + 1, ranked(columns[i], m))
    }
}

/// The views after one component column.
pub open spec fn ranked(c: ComponentColumnView, m: Map<Seq<char>, EntityVisualization>) -> Map<
    Seq<char>,
    EntityVisualization,
> {
    match c.archetype {
        None => m,
        Some(a) => match shown_as(a) {
            None => m,
            Some(v) => {
                let current = if m.contains_key(c.entity_path) {
                    m[c.entity_path]
                } else {
                    EntityVisualization::Raw
                };
                m.insert(
                    c.entity_path,
                    if rank(v) > rank(current) {
                        v
                    } else {
                        current
                    },
                )
            },
        },
    }
}

/// Every entity, shown as raw data.
pub open spec fn all_raw(paths: Map<Seq<char>, ()>) -> Map<Seq<char>, EntityVisualization> {
    Map::new(|k: Seq<char>| paths.contains_key(k), |k: Seq<char>| EntityVisualization::Raw)
}

/// The view of each entity of a recording.
pub open spec fn entity_views(columns: Seq<ComponentColumnView>, paths: Map<Seq<char>, ()>) -> Map<
    Seq<char>,
    EntityVisualization,
> {
    ranked_from(columns, 0, all_raw(paths))
}

pub open spec fn descriptors(m: Map<Seq<char>, EntityVisualization>) -> Seq<EntityDescriptorView> {
    table::items_of(m).map_values(
        |e: (Seq<char>, EntityVisualization)|
            EntityDescriptorView { path: e.0, visualization: e.1 },
    )
}

/// Describes the entities of a recording, in the order of their paths.
pub fn recording_entity_descriptors(
    columns: &Vec<ComponentColumn>,
    entity_paths: &Table<Marker>,
) -> (r: Vec<EntityDescriptor>)
    ensures
        table::views(r@) == descriptors(entity_views(table::views(columns@), entity_paths@)),
{
    let ghost cols = table::views(columns@);
    let mut shown: Table<Shown> = Table::new();
    let n: usize = entity_paths.len();
    let ghost items = entity_paths.items();
    let mut k: usize = 0;
    proof {
        assert(shown@ =~= all_raw(table::items_map(items.take(0))));
    }
    while k < n
        invariant
            k <= n,
            n == items.len(),
            items == entity_paths.items(),
            table::keys_ascend(items),
            shown@ == all_raw(table::items_map(items.take(k as int))),
        decreases n - k,
    {
        let key = entity_paths.key_at(k).clone();
        let _ = shown.insert(key, Shown { visualization: EntityVisualization::Raw });
        proof {
            table::lemma_items_step(items, k as int);
            assert(shown@ =~= all_raw(table::items_map(items.take(k + 1))));
        }
        k = k + 1;
    }
    proof {
        assert(items.take(n as int) =~= items);
    }
    let mut i: usize = 0;
    while i < columns.len()
        invariant
            i <= columns@.len(),
            cols == table::views(columns@),
            entity_views(cols, entity_paths@) == ranked_from(cols, i as int, shown@),
        decreases columns@.len() - i,
    {
        let c = &columns[i];
        assert(c@ == cols[i as int]);
        let candidate = match &c.archetype {
            Some(a) => archetype_visualization(a.as_str()),
            None => None,
        };
        match candidate {
            Some(v) => {
                let current = match shown.get(c.entity_path.as_str()) {
                    Some(s) => s.visualization,
                    None => EntityVisualization::Raw,
                };
                let best = if visualization_priority(v) > visualization_priority(current) {
                    v
                } else {
                    current
                };
                let _ = shown.insert(c.entity_path.clone(), Shown { visualization: best });
            },
            None => {},
        }
        i = i + 1;
    }
    let total: usize = shown.len();
    let ghost found = shown.items();
    let mut r: Vec<EntityDescriptor> = Vec::new();
    let mut j: usize = 0;
    while j < total
        invariant
            j <= total,
            total == found.len(),
            found == shown.items(),
            r@.len() == j,
            forall|x: int|
                0 <= x < j ==> (#[trigger] table::views(r@)[x]) == (EntityDescriptorView {
                    path: found[x].0,
                    visualization: found[x].1,
                }),
        decreases total - j,
    {
        let one = EntityDescriptor {
            path: shown.key_at(j).clone(),
            visualization: shown.value_at(j).visualization,
        };
        proof {
            table::lemma_views_push(r@, one);
        }
        r.push(one);
        j = j + 1;
    }
    proof {
        assert(table::views(r@) =~= descriptors(shown@));
    }
    r
}

/// The range of a timeline so far; an untouched one is empty.
pub open spec fn widened(r: Option<TimeRange>, start: i64, end: i64) -> TimeRange {
    let old = match r {
        Some(x) => x,
        None => TimeRange { start: i64::MAX, end: i64::MIN },
    };
    TimeRange {
        start: if start < old.start {
            start
        } else {
            old.start
        },
        end: if end > old.end {
            end
        } else {
            old.end
        },
    }
}

/// The range of a timeline after the chunks from `k` on.
pub open spec fn range_from(ranges: Seq<TemporalRangeView>, k: int, r: TimeRange) -> TimeRange
    decreases ranges.len() - k,
{
    if k < 0 || k >= ranges.len() {
        r
    } else {
        range_from(ranges, k + 1, widened(Some(r), ranges[k].start, ranges[k].end))
    }
}

/// The ranges of all timelines after the temporal indices from `i` on.
pub open spec fn timeline_ranges(
    temporal: Seq<TemporalTimelineView>,
    i: int,
    m: Map<Seq<char>, TimeRanges>,
) -> Map<Seq<char>, TimeRanges>
    decreases temporal.len() - i,
{
    if i < 0 || i >= temporal.len() {
        m
    } else {
        let t = temporal[i];
        let old = match rrd_manifest::range_of(rrd_manifest::ranges_at(m, t.timeline), t.kind) {
            Some(r) => r,
            None => TimeRange { start: i64::MAX, end: i64::MIN },
        };
        timeline_ranges(
            temporal,
            i + 1,
            rrd_manifest::put_range(m, t.timeline, t.kind, range_from(t.ranges, 0, old)),
        )
    }
}

fn widen(ranges: &Vec<TemporalRange>, start: TimeRange) -> (r: TimeRange)
    ensures
        r == range_from(table::views(ranges@), 0, start),
{
    let ghost views = table::views(ranges@);
    let mut range = start;
    let mut k: usize = 0;
    while k < ranges.len()
        invariant
            k <= ranges@.len(),
            views == table::views(ranges@),
            range_from(views, 0, start) == range_from(views, k as int, range),
        decreases ranges@.len() - k,
    {
        let one = &ranges[k];
        assert(one@ == views[k as int]);
        range = TimeRange {
            start: if one.start < range.start {
                one.start
            } else {
                range.start
            },
            end: if one.end > range.end {
                one.end
            } else {
                range.end
            },
        };
        k = k + 1;
    }
    range
}

fn collect_timelines(temporal: &Vec<TemporalTimeline>) -> (r: Table<TimeRanges>)
    ensures
        r@ == timeline_ranges(table::views(temporal@), 0, Map::empty()),
{
    let ghost views = table::views(temporal@);
    let mut t: Table<TimeRanges> = Table::new();
    let mut i: usize = 0;
    while i < temporal.len()
        invariant
            i <= temporal@.len(),
            views == table::views(temporal@),
            timeline_ranges(views, 0, Map::empty()) == timeline_ranges(views, i as int, t@),
        decreases temporal@.len() - i,
    {
        let one = &temporal[i];
        assert(one@ == views[i as int]);
        let known = rrd_manifest::find_ranges(&t, one.timeline.as_str());
        let old = match known.get(one.kind) {
            Some(r) => r,
            None => TimeRange { start: i64::MAX, end: i64::MIN },
        };
        let range = widen(&one.ranges, old);
        let _ = rrd_manifest::insert_range(&mut t, one.timeline.as_str(), one.kind, range);
        i = i + 1;
    }
    t
}

/// One timeline of a verified recording.
#[derive(Debug)]
pub struct TimelineSpan {
    pub name: String,
    pub kind: TimelineKind,
    pub start: String,
    pub end: String,
    /// How far the end is from the start.
    pub ticks: u64,
}

#[verifier::ext_equal]
pub struct TimelineSpanView {
    pub name: Seq<char>,
    pub kind: TimelineKind,
    pub start: Seq<char>,
    pub end: Seq<char>,
    pub ticks: nat,
}

impl View for TimelineSpan {
    type V = TimelineSpanView;

    open spec fn view(&self) -> TimelineSpanView {
        TimelineSpanView {
            name: self.name@,
            kind: self.kind,
            start: self.start@,
            end: self.end@,
            ticks: self.ticks as nat,
        }
    }
}

pub open spec fn distance(r: TimeRange) -> nat {
    if r.start <= r.end {
        (r.end - r.start) as nat
    } else {
        (r.start - r.end) as nat
    }
}

pub open spec fn span_view(name: Seq<char>, kind: TimelineKind, r: TimeRange) -> TimelineSpanView {
    TimelineSpanView {
        name,
        kind,
        start: text::signed(r.start as int),
        end: text::signed(r.end as int),
        ticks: distance(r),
    }
}

pub open spec fn maybe_span(name: Seq<char>, kind: TimelineKind, r: Option<TimeRange>) -> Seq<
    TimelineSpanView,
> {
    match r {
        Some(range) => seq![span_view(name, kind, range)],
        None => Seq::empty(),
    }
}

/// The timelines of one name, in the order of their kinds.
pub open spec fn name_spans(name: Seq<char>, r: TimeRanges) -> Seq<TimelineSpanView> {
    maybe_span(name, TimelineKind::Sequence, r.sequence) + maybe_span(
        name,
        TimelineKind::Timestamp,
        r.timestamp,
    ) + maybe_span(name, TimelineKind::Duration, r.duration)
}

/// The timelines of the first `n` names, in the order of their names and kinds.
pub open spec fn spans_upto(items: Seq<(Seq<char>, TimeRanges)>, n: int) -> Seq<TimelineSpanView>
    decreases n,
{
    if n <= 0 {
        Seq::empty()
    } else {
        spans_upto(items, n - 1) + name_spans(items[n - 1].0, items[n - 1].1)
    }
}

/// The timelines of a recording, in the order of their names and kinds.
pub open spec fn recording_spans(m: Map<Seq<char>, TimeRanges>) -> Seq<TimelineSpanView> {
    spans_upto(table::items_of(m), table::items_of(m).len() as int)
}

fn span_of(name: &str, kind: TimelineKind, r: TimeRange) -> (s: TimelineSpan)
    ensures
        s@ == span_view(name@, kind, r),
{
    let ticks: u64 = if r.start <= r.end {
        (r.end as i128 - r.start as i128) as u64
    } else {
        (r.start as i128 - r.end as i128) as u64
    };
    TimelineSpan {
        name: name.to_owned(),
        kind,
        start: text::signed_text(r.start),
        end: text::signed_text(r.end),
        ticks,
    }
}

fn push_span(v: &mut Vec<TimelineSpan>, name: &str, kind: TimelineKind, r: Option<TimeRange>)
    ensures
        table::views(final(v)@) == table::views(old(v)@) + maybe_span(name@, kind, r),
{
    match r {
        Some(range) => {
            let s = span_of(name, kind, range);
            proof {
                table::lemma_views_push(v@, s);
                assert(table::views(v@).push(s@) =~= table::views(v@) + seq![s@]);
            }
            v.push(s);
        },
        None => {
            proof {
                assert(table::views(v@) =~= table::views(v@) + Seq::<TimelineSpanView>::empty());
            }
        },
    }
}

fn list_spans(t: &Table<TimeRanges>) -> (r: Vec<TimelineSpan>)
    ensures
        table::views(r@) == recording_spans(t@),
{
    let n: usize = t.len();
    let ghost items = t.items();
    let mut r: Vec<TimelineSpan> = Vec::new();
    let mut i: usize = 0;
    proof {
        assert(table::views(r@) =~= spans_upto(items, 0));
    }
    while i < n
        invariant
            i <= n,
            n == items.len(),
            items == t.items(),
            table::views(r@) == spans_upto(items, i as int),
        decreases n - i,
    {
        let name = t.key_at(i).as_str();
        let ranges = *t.value_at(i);
        let ghost before = table::views(r@);
        push_span(&mut r, name, TimelineKind::Sequence, ranges.sequence);
        push_span(&mut r, name, TimelineKind::Timestamp, ranges.timestamp);
        push_span(&mut r, name, TimelineKind::Duration, ranges.duration);
        proof {
            assert(table::views(r@) =~= before + name_spans(items[i as int].0, items[i as int].1));
        }
        i = i + 1;
    }
    r
}

/// The first timeline at or after `i` with a name.
pub open spec fn named_from(spans: Seq<TimelineSpanView>, name: Seq<char>, i: int) -> bool
    decreases spans.len() - i,
{
    if i < 0 || i >= spans.len() {
        false
    } else {
        spans[i].name == name || named_from(spans, name, i + 1)
    }
}

/// The name of the first timeline at or after `i` that is not a sequence.
pub open spec fn first_clock(spans: Seq<TimelineSpanView>, i: int) -> Option<Seq<char>>
    decreases spans.len() - i,
{
    if i < 0 || i >= spans.len() {
        None
    } else if spans[i].kind != TimelineKind::Sequence {
        Some(spans[i].name)
    } else {
        first_clock(spans, i + 1)
    }
}

/// The timeline that a recording opens with: the hinted one, the message log time, the first
/// clock, or else the first of all.
pub open spec fn opening_timeline(spans: Seq<TimelineSpanView>, hint: Option<Seq<char>>) -> Seq<char> {
    if hint is Some && named_from(spans, hint->Some_0, 0) {
        hint->Some_0
    } else if named_from(spans, "message_log_time"@, 0) {
        "message_log_time"@
    } else {
        match first_clock(spans, 0) {
            Some(name) => name,
            None => spans[0].name,
        }
    }
}

fn is_named(spans: &Vec<TimelineSpan>, name: &str) -> (r: bool)
    ensures
        r == named_from(table::views(spans@), name@, 0),
{
    let ghost views = table::views(spans@);
    let mut i: usize = 0;
    while i < spans.len()
        invariant
            i <= spans@.len(),
            views == table::views(spans@),
            named_from(views, name@, 0) == named_from(views, name@, i as int),
        decreases spans@.len() - i,
    {
        assert(spans@[i as int]@ == views[i as int]);
        if text::same(spans[i].name.as_str(), name) {
            return true;
        }
        i = i + 1;
    }
    false
}

/// Chooses the timeline that a recording opens with.
pub fn default_timeline(spans: &Vec<TimelineSpan>, hint: &Option<String>) -> (r: String)
    requires
        spans@.len() > 0,
    ensures
        r@ == opening_timeline(table::views(spans@), table::view_option(*hint)),
{
    let ghost views = table::views(spans@);
    match hint {
        Some(h) => {
            if is_named(spans, h.as_str()) {
                return h.clone();
            }
        },
        None => {},
    }
    if is_named(spans, "message_log_time") {
        return "message_log_time".to_owned();
    }
    let mut i: usize = 0;
    while i < spans.len()
        invariant
            i <= spans@.len(),
            views == table::views(spans@),
            first_clock(views, 0) == first_clock(views, i as int),
            opening_timeline(views, table::view_option(*hint)) == match first_clock(views, 0) {
                Some(name) => name,
                None => views[0].name,
            },
        decreases spans@.len() - i,
    {
        assert(spans@[i as int]@ == views[i as int]);
        if spans[i].kind != TimelineKind::Sequence {
            return spans[i].name.clone();
        }
        i = i + 1;
    }
    assert(spans@[0]@ == views[0]);
    spans[0].name.clone()
}

/// What a verified recording offers.
#[derive(Debug)]
pub struct VerifiedRrd {
    pub timelines: Vec<TimelineSpan>,
    pub default_timeline: String,
    pub entity_paths: Vec<String>,
    pub entity_descriptors: Vec<EntityDescriptor>,
}

#[verifier::ext_equal]
pub struct VerifiedRrdView {
    pub timelines: Seq<TimelineSpanView>,
    pub default_timeline: Seq<char>,
    pub entity_paths: Seq<Seq<char>>,
    pub entity_descriptors: Seq<EntityDescriptorView>,
}

impl View for VerifiedRrd {
    type V = VerifiedRrdView;

    open spec fn view(&self) -> VerifiedRrdView {
        VerifiedRrdView {
            timelines: table::views(self.timelines@),
            default_timeline: self.default_timeline@,
            entity_paths: table::views(self.entity_paths@),
            entity_descriptors: table::views(self.entity_descriptors@),
        }
    }
}

/// The entities of a store: those with temporal or static data.
pub open spec fn store_entities(s: RrdStoreView) -> Map<Seq<char>, ()> {
    rrd_manifest::name_set(s.temporal_entities + s.static_entities)
}

pub open spec fn keys_of<W>(m: Map<Seq<char>, W>) -> Seq<Seq<char>> {
    table::items_of(m).map_values(|e: (Seq<char>, W)| e.0)
}

pub open spec fn output_failure(reason: Seq<char>, detail: Seq<char>, path: Seq<char>) -> ImportErrorView {
    import::import_error(
        ImportErrorCode::OutputValidationFailed,
        reason,
        detail + "\nFile path: "@ + path,
    )
}

/// What a recording store offers, if it has temporal data.
pub open spec fn summary(s: RrdStoreView, hint: Option<Seq<char>>, path: Seq<char>) -> Result<
    VerifiedRrdView,
    ImportErrorView,
> {
    let ranges = timeline_ranges(s.temporal, 0, Map::empty());
    let spans = recording_spans(ranges);
    if ranges.dom().len() == 0 {
        Err(
            output_failure(
                "The recording contains no temporal data to Replay."@,
                "RRD recording manifests contain no temporal chunks"@,
                path,
            ),
        )
    } else {
        Ok(
            VerifiedRrdView {
                timelines: spans,
                default_timeline: opening_timeline(spans, hint),
                entity_paths: keys_of(store_entities(s)),
                entity_descriptors: descriptors(entity_views(s.components, store_entities(s))),
            },
        )
    }
}

spec fn some_range(r: TimeRanges) -> bool {
    r.sequence is Some || r.timestamp is Some || r.duration is Some
}

proof fn lemma_ranges_filled(
    temporal: Seq<TemporalTimelineView>,
    i: int,
    m: Map<Seq<char>, TimeRanges>,
)
    requires
        0 <= i,
        forall|k: Seq<char>| #[trigger] m.contains_key(k) ==> some_range(m[k]),
    ensures
        forall|k: Seq<char>| #[trigger]
            timeline_ranges(temporal, i, m).contains_key(k) ==> some_range(
                timeline_ranges(temporal, i, m)[k],
            ),
    decreases temporal.len() - i,
{
    if i < temporal.len() {
        let t = temporal[i];
        let old = match rrd_manifest::range_of(rrd_manifest::ranges_at(m, t.timeline), t.kind) {
            Some(r) => r,
            None => TimeRange { start: i64::MAX, end: i64::MIN },
        };
        let next = rrd_manifest::put_range(
            m,
            t.timeline,
            t.kind,
            range_from(t.ranges, 0, old),
        );
        assert forall|k: Seq<char>| #[trigger] next.contains_key(k) implies some_range(next[k]) by {
            if k != t.timeline {
                assert(m.contains_key(k));
            }
        }
        lemma_ranges_filled(temporal, i + 1, next);
        assert(timeline_ranges(temporal, i, m) == timeline_ranges(temporal, i + 1, next));
    } else {
        assert(timeline_ranges(temporal, i, m) == m);
    }
}

proof fn lemma_spans_exist(items: Seq<(Seq<char>, TimeRanges)>, n: int)
    requires
        0 <= n <= items.len(),
        forall|j: int| 0 <= j < items.len() ==> some_range((#[trigger] items[j]).1),
    ensures
        spans_upto(items, n).len() >= n,
    decreases n,
{
    if n > 0 {
        lemma_spans_exist(items, n - 1);
        assert(some_range(items[n - 1].1));
    }
}

pub fn list_keys(t: &Table<Marker>) -> (r: Vec<String>)
    ensures
        table::views(r@) == keys_of(t@),
        table::keys_ascend(table::items_of(t@)),
        table::items_map(table::items_of(t@)) == t@,
{
    let n: usize = t.len();
    let ghost items = t.items();
    let mut r: Vec<String> = Vec::new();
    let mut i: usize = 0;
    while i < n
        invariant
            i <= n,
            n == items.len(),
            items == t.items(),
            r@.len() == i,
            forall|j: int| 0 <= j < i ==> (#[trigger] table::views(r@)[j]) == items[j].0,
        decreases n - i,
    {
        let key = t.key_at(i).clone();
        proof {
            table::lemma_views_push(r@, key);
        }
        r.push(key);
        i = i + 1;
    }
    proof {
        assert(table::views(r@) =~= keys_of(t@));
    }
    r
}

fn collect_entities(s: &RrdStore) -> (r: Table<Marker>)
    ensures
        r@ == store_entities(s@),
{
    let mut all = copy_all(&s.temporal_entities);
    let more = copy_all(&s.static_entities);
    let ghost first = table::views(all@);
    let ghost second = table::views(more@);
    let mut i: usize = 0;
    proof {
        assert(table::views(all@) =~= first + second.take(0));
    }
    while i < more.len()
        invariant
            i <= more@.len(),
            second == table::views(more@),
            table::views(all@) == first + second.take(i as int),
        decreases more@.len() - i,
    {
        let one = more[i].clone();
        proof {
            assert(second[i as int] == one@);
            table::lemma_views_push(all@, one);
            assert((first + second.take(i as int)).push(one@) =~= first + second.take(i + 1));
        }
        all.push(one);
        i = i + 1;
    }
    proof {
        assert(second.take(second.len() as int) =~= second);
    }
    rrd_manifest::set_of_names(&all)
}

pub open spec fn verified_view(r: Result<VerifiedRrd, ImportError>) -> Result<
    VerifiedRrdView,
    ImportErrorView,
> {
    match r {
        Ok(v) => Ok(v@),
        Err(e) => Err(e@),
    }
}

/// Describes what a recording store offers.
pub fn summarize_store(s: &RrdStore, hint: &Option<String>, path: &str) -> (r: Result<
    VerifiedRrd,
    ImportError,
>)
    ensures
        verified_view(r) == summary(s@, table::view_option(*hint), path@),
{
    let ranges = collect_timelines(&s.temporal);
    if ranges.len() == 0 {
        return Err(
            ImportError::new(
                ImportErrorCode::OutputValidationFailed,
                "The recording contains no temporal data to Replay.",
                text::line("RRD recording manifests contain no temporal chunks").add(
                    "\nFile path: ",
                ).add(path).done(),
            ),
        );
    }
    let timelines = list_spans(&ranges);
    proof {
        let items = ranges.items();
        lemma_ranges_filled(s@.temporal, 0, Map::empty());
        table::lemma_items_all(items);
        assert forall|j: int| 0 <= j < items.len() implies some_range((#[trigger] items[j]).1) by {
            assert(ranges@.contains_key(items[j].0));
        }
        lemma_spans_exist(items, items.len() as int);
    }
    let opening = default_timeline(&timelines, hint);
    let entities = collect_entities(s);
    let entity_descriptors = recording_entity_descriptors(&s.components, &entities);
    Ok(
        VerifiedRrd {
            timelines,
            default_timeline: opening,
            entity_paths: list_keys(&entities),
            entity_descriptors,
        },
    )
}

/// How many of the stores from `i` on are recordings.
pub open spec fn recording_count(stores: Seq<RrdStoreView>, i: int) -> nat
    decreases stores.len() - i,
{
    if i < 0 || i >= stores.len() {
        0
    } else if stores[i].is_recording {
        1 + recording_count(stores, i + 1)
    } else {
        recording_count(stores, i + 1)
    }
}

/// The first recording at or after `i`.
pub open spec fn first_recording(stores: Seq<RrdStoreView>, i: int) -> Option<int>
    decreases stores.len() - i,
{
    if i < 0 || i >= stores.len() {
        None
    } else if stores[i].is_recording {
        Some(i)
    } else {
        first_recording(stores, i + 1)
    }
}

/// What the manifests of the stores from `i` on promise.
pub open spec fn promises_from(
    stores: Seq<RrdStoreView>,
    i: int,
    done: Seq<Map<Seq<char>, ExpectedChunkView>>,
    path: Seq<char>,
) -> Result<Seq<Map<Seq<char>, ExpectedChunkView>>, ImportErrorView>
    decreases stores.len() - i,
{
    if i < 0 || i >= stores.len() {
        Ok(done)
    } else {
        match rrd_manifest::promised(
            stores[i].chunks,
            stores[i].columns,
            stores[i].temporal,
            path,
        ) {
            Err(e) => Err(e),
            Ok(m) => promises_from(stores, i + 1, done.push(m), path),
        }
    }
}

pub open spec fn store_chunks(stores: Seq<RrdStoreView>) -> Seq<Seq<ManifestChunkView>> {
    stores.map_values(|s: RrdStoreView| s.chunks)
}

/// What the manifests of an RRD promise, or why it is refused before its payloads are read.
pub open spec fn manifests_outcome(
    stores: Seq<RrdStoreView>,
    row_counts: Seq<usize>,
    file_size: u64,
    header_size: u64,
    path: Seq<char>,
) -> Result<Seq<Map<Seq<char>, ExpectedChunkView>>, ImportErrorView> {
    match rrd_manifest::rows_failure(row_counts, 0, 0, path) {
        Some(e) => Err(e),
        None => match promises_from(stores, 0, Seq::empty(), path) {
            Err(e) => Err(e),
            Ok(promises) => if recording_count(stores, 0) != 1 {
                Err(
                    output_failure(
                        "An imported RRD must contain exactly one recording store."@,
                        "RRD footer has "@ + text::decimal(recording_count(stores, 0))
                            + " recording manifests; expected exactly one"@,
                        path,
                    ),
                )
            } else {
                match rrd_manifest::resources_failure(
                    store_chunks(stores),
                    file_size,
                    header_size,
                    path,
                ) {
                    Some(e) => Err(e),
                    None => Ok(promises),
                }
            },
        },
    }
}

pub open spec fn promises_view(r: Result<Vec<Table<ExpectedChunkMetadata>>, ImportError>) -> Result<
    Seq<Map<Seq<char>, ExpectedChunkView>>,
    ImportErrorView,
> {
    match r {
        Ok(v) => Ok(table::views(v@)),
        Err(e) => Err(e@),
    }
}

fn count_recordings(stores: &Vec<RrdStore>) -> (r: usize)
    ensures
        r == recording_count(table::views(stores@), 0),
{
    let ghost views = table::views(stores@);
    let n: usize = stores.len();
    let mut count: usize = 0;
    let mut i: usize = n;
    while i > 0
        invariant
            i <= n,
            n == stores@.len(),
            views == table::views(stores@),
            count == recording_count(views, i as int),
            count <= n - i,
        decreases i,
    {
        i = i - 1;
        assert(stores@[i as int]@ == views[i as int]);
        if stores[i].is_recording {
            count = count + 1;
        }
    }
    count
}

fn chunks_within(
    stores: &Vec<RrdStore>,
    file_size: u64,
    header_size: u64,
    path: &str,
) -> (r: Result<(), ImportError>)
    ensures
        rrd_wire::fault(r) == rrd_manifest::resources_failure(
            store_chunks(table::views(stores@)),
            file_size,
            header_size,
            path@,
        ),
{
    let ghost views = table::views(stores@);
    let mut all: Vec<Vec<ManifestChunk>> = Vec::new();
    let mut i: usize = 0;
    while i < stores.len()
        invariant
            i <= stores@.len(),
            views == table::views(stores@),
            all@.len() == i,
            forall|j: int|
                0 <= j < i ==> (#[trigger] rrd_manifest::listed_chunks(all@)[j]) == views[j].chunks,
        decreases stores@.len() - i,
    {
        assert(stores@[i as int]@ == views[i as int]);
        let chunks = copy_all(&stores[i].chunks);
        let ghost before = all@;
        all.push(chunks);
        proof {
            assert forall|j: int| 0 <= j < i + 1 implies (#[trigger] rrd_manifest::listed_chunks(
                all@,
            )[j]) == views[j].chunks by {
                if j < i {
                    assert(rrd_manifest::listed_chunks(before)[j] == views[j].chunks);
                }
            }
        }
        i = i + 1;
    }
    proof {
        assert(rrd_manifest::listed_chunks(all@) =~= store_chunks(views));
    }
    rrd_manifest::validate_manifest_resources(&all, file_size, header_size, path)
}

/// Verifies the manifests of an RRD, before any of its payloads is read. What they promise of
/// their chunks is checked against the payloads afterwards.
pub fn verify_manifests(
    stores: &Vec<RrdStore>,
    row_counts: &Vec<usize>,
    file_size: u64,
    header_size: u64,
    path: &str,
) -> (r: Result<Vec<Table<ExpectedChunkMetadata>>, ImportError>)
    requires
        forall|i: int| 0 <= i < stores@.len() ==> (#[trigger] stores@[i]).wf(),
    ensures
        promises_view(r) == manifests_outcome(
            table::views(stores@),
            row_counts@,
            file_size,
            header_size,
            path@,
        ),
{
    let ghost views = table::views(stores@);
    match rrd_manifest::validate_raw_manifest_row_count(row_counts.as_slice(), path) {
        Ok(()) => {},
        Err(e) => {
            return Err(e);
        },
    }
    let mut promises: Vec<Table<ExpectedChunkMetadata>> = Vec::new();
    let mut i: usize = 0;
    proof {
        assert(table::views(promises@) =~= Seq::<Map<Seq<char>, ExpectedChunkView>>::empty());
    }
    while i < stores.len()
        invariant
            i <= stores@.len(),
            views == table::views(stores@),
            forall|i: int| 0 <= i < stores@.len() ==> (#[trigger] stores@[i]).wf(),
            rrd_manifest::rows_failure(row_counts@, 0, 0, path@) is None,
            promises_from(views, 0, Seq::empty(), path@) == promises_from(
                views,
                i as int,
                table::views(promises@),
                path@,
            ),
        decreases stores@.len() - i,
    {
        let s = &stores[i];
        assert(s@ == views[i as int]);
        assert(stores@[i as int].wf());
        match rrd_manifest::expected_chunk_metadata(&s.chunks, &s.columns, &s.temporal, path) {
            Ok(t) => {
                proof {
                    table::lemma_views_push(promises@, t);
                }
                promises.push(t);
            },
            Err(e) => {
                return Err(e);
            },
        }
        i = i + 1;
    }
    let count: usize = count_recordings(stores);
    if count != 1 {
        return Err(
            ImportError::new(
                ImportErrorCode::OutputValidationFailed,
                "An imported RRD must contain exactly one recording store.",
                text::line("RRD footer has ").num(count as u64).add(
                    " recording manifests; expected exactly one",
                ).add("\nFile path: ").add(path).done(),
            ),
        );
    }
    match chunks_within(stores, file_size, header_size, path) {
        Ok(()) => Ok(promises),
        Err(e) => Err(e),
    }
}

/// What the recording of an RRD offers, or why it is refused.
pub open spec fn recording_outcome(stores: Seq<RrdStoreView>, hint: Option<Seq<char>>, path: Seq<char>) -> Result<
    VerifiedRrdView,
    ImportErrorView,
> {
    match first_recording(stores, 0) {
        None => Err(
            rrd_wire::validation_failure("Validated recording manifest is unavailable"@, path),
        ),
        Some(i) => summary(stores[i], hint, path),
    }
}

/// Describes the recording of an RRD whose manifests and payloads were verified.
fn describe_recording(stores: &Vec<RrdStore>, default_timeline_hint: &Option<String>, path: &str) -> (r:
    Result<VerifiedRrd, ImportError>)
    ensures
        verified_view(r) == recording_outcome(
            table::views(stores@),
            table::view_option(*default_timeline_hint),
            path@,
        ),
{
    let ghost views = table::views(stores@);
    let mut i: usize = 0;
    while i < stores.len()
        invariant
            i <= stores@.len(),
            views == table::views(stores@),
            first_recording(views, 0) == first_recording(views, i as int),
        decreases stores@.len() - i,
    {
        assert(stores@[i as int]@ == views[i as int]);
        if stores[i].is_recording {
            return summarize_store(&stores[i], default_timeline_hint, path);
        }
        i = i + 1;
    }
    Err(
        rrd_wire::rrd_validation_error(
            text::line("Validated recording manifest is unavailable"),
            path,
        ),
    )
}

/// What the payloads of one store decode to.
#[derive(Debug)]
pub struct RrdPayloads {
    pub store_id: String,
    /// The transport message of each chunk that the manifest lists, in its order.
    pub transports: Vec<ChunkTransport>,
    /// The chunks that the transport messages decode to.
    pub decoded: Vec<DecodedChunk>,
}

#[verifier::ext_equal]
pub struct RrdPayloadsView {
    pub store_id: Seq<char>,
    pub transports: Seq<ChunkTransport>,
    pub decoded: Seq<DecodedChunkView>,
}

impl View for RrdPayloads {
    type V = RrdPayloadsView;

    open spec fn view(&self) -> RrdPayloadsView {
        RrdPayloadsView {
            store_id: self.store_id@,
            transports: self.transports@,
            decoded: table::views(self.decoded@),
        }
    }
}

/// An RRD, as its bytes decode.
#[derive(Debug)]
pub struct RrdFile {
    pub size: u64,
    /// How many bytes the stream header takes.
    pub header_size: u64,
    /// How many bytes the stream footer takes.
    pub footer_size: u64,
    /// Where the stream footer says that footers lie: the start and the length of each.
    pub footers: Vec<(u64, u64)>,
    /// The bytes of the footer.
    pub footer_payload: Vec<u8>,
    /// How many rows each manifest has.
    pub row_counts: Vec<usize>,
    pub stores: Vec<RrdStore>,
    /// The payloads of each store, in the order of the stores.
    pub payloads: Vec<RrdPayloads>,
}

#[verifier::ext_equal]
pub struct RrdFileView {
    pub size: u64,
    pub header_size: u64,
    pub footer_size: u64,
    pub footers: Seq<(u64, u64)>,
    pub footer_payload: Seq<u8>,
    pub row_counts: Seq<usize>,
    pub stores: Seq<RrdStoreView>,
    pub payloads: Seq<RrdPayloadsView>,
}

impl View for RrdFile {
    type V = RrdFileView;

    open spec fn view(&self) -> RrdFileView {
        RrdFileView {
            size: self.size,
            header_size: self.header_size,
            footer_size: self.footer_size,
            footers: self.footers@,
            footer_payload: self.footer_payload@,
            row_counts: self.row_counts@,
            stores: table::views(self.stores@),
            payloads: table::views(self.payloads@),
        }
    }
}

impl RrdFile {
    /// Whether each manifest has a value in each column for each chunk, and each listed chunk a
    /// transport message.
    pub open spec fn wf(self) -> bool {
        &&& forall|i: int| 0 <= i < self.stores@.len() ==> (#[trigger] self.stores@[i]).wf()
        &&& self.payloads@.len() == self.stores@.len()
        &&& forall|i: int|
            0 <= i < self.payloads@.len() ==> (#[trigger] self.payloads@[i]).transports@.len()
                == self.stores@[i].chunks@.len()
    }
}

/// The fault of the transport messages of a store from chunk `k` on.
pub open spec fn transports_failure(
    chunks: Seq<ManifestChunkView>,
    p: RrdPayloadsView,
    k: int,
    path: Seq<char>,
) -> Option<ImportErrorView>
    decreases chunks.len() - k,
{
    if k < 0 || k >= chunks.len() {
        None
    } else {
        match rrd_manifest::transport_failure(
            p.transports[k],
            chunks[k].uncompressed,
            p.store_id,
            chunks[k].id,
            path,
        ) {
            Some(e) => Some(e),
            None => transports_failure(chunks, p, k + 1, path),
        }
    }
}

/// The fault of the transport messages of the stores from `i` on.
pub open spec fn all_transports_failure(
    stores: Seq<RrdStoreView>,
    payloads: Seq<RrdPayloadsView>,
    i: int,
    path: Seq<char>,
) -> Option<ImportErrorView>
    decreases stores.len() - i,
{
    if i < 0 || i >= stores.len() {
        None
    } else {
        match transports_failure(stores[i].chunks, payloads[i], 0, path) {
            Some(e) => Some(e),
            None => all_transports_failure(stores, payloads, i + 1, path),
        }
    }
}

/// The fault of the decoded chunks of a store from `k` on.
pub open spec fn chunks_failure(
    decoded: Seq<DecodedChunkView>,
    chunks: Seq<ManifestChunkView>,
    promises: Map<Seq<char>, ExpectedChunkView>,
    k: int,
    path: Seq<char>,
) -> Option<ImportErrorView>
    decreases decoded.len() - k,
{
    if k < 0 || k >= decoded.len() {
        None
    } else {
        match rrd_manifest::decoded_chunk_failure(decoded[k], chunks, promises, path) {
            Some(e) => Some(e),
            None => chunks_failure(decoded, chunks, promises, k + 1, path),
        }
    }
}

/// The fault of the decoded chunks of the stores from `i` on.
pub open spec fn all_chunks_failure(
    stores: Seq<RrdStoreView>,
    payloads: Seq<RrdPayloadsView>,
    promises: Seq<Map<Seq<char>, ExpectedChunkView>>,
    i: int,
    path: Seq<char>,
) -> Option<ImportErrorView>
    decreases stores.len() - i,
{
    if i < 0 || i >= stores.len() {
        None
    } else {
        match chunks_failure(payloads[i].decoded, stores[i].chunks, promises[i], 0, path) {
            Some(e) => Some(e),
            None => all_chunks_failure(stores, payloads, promises, i + 1, path),
        }
    }
}

/// The fault of a file that is no longer than the header of the format.
pub open spec fn size_failure(size: u64, header_size: u64, path: Seq<char>) -> Option<
    ImportErrorView,
> {
    if size <= header_size {
        Some(
            output_failure(
                "The converted recording contains no Replay data."@,
                "RRD is only "@ + text::decimal(size as nat) + " bytes"@,
                path,
            ),
        )
    } else {
        None
    }
}

/// Checks that a file holds more than the header of the format, before anything of it is read.
pub fn check_size(size: u64, header_size: u64, path: &str) -> (r: Result<(), ImportError>)
    ensures
        rrd_wire::fault(r) == size_failure(size, header_size, path@),
{
    if size <= header_size {
        return Err(
            ImportError::new(
                ImportErrorCode::OutputValidationFailed,
                "The converted recording contains no Replay data.",
                text::line("RRD is only ").num(size).add(" bytes").add("\nFile path: ").add(
                    path,
                ).done(),
            ),
        );
    }
    Ok(())
}

/// What a verified RRD offers, or why it is refused: its footer is bounded and well placed, its
/// manifests list one recording whose chunks fit the file, every transport message agrees with
/// its manifest, and every chunk is what its manifest promises.
pub open spec fn rrd_outcome(f: RrdFileView, hint: Option<Seq<char>>, path: Seq<char>) -> Result<
    VerifiedRrdView,
    ImportErrorView,
> {
    if size_failure(f.size, f.header_size, path) is Some {
        Err(size_failure(f.size, f.header_size, path)->Some_0)
    } else {
        match rrd_wire::pointer_failure(f.footers, f.size, f.header_size, f.footer_size, path) {
            Some(e) => Err(e),
            None => match rrd_wire::footer_failure(f.footer_payload, path) {
                Some(e) => Err(e),
                None => match manifests_outcome(
                    f.stores,
                    f.row_counts,
                    f.size,
                    f.header_size,
                    path,
                ) {
                    Err(e) => Err(e),
                    Ok(promises) => match all_transports_failure(f.stores, f.payloads, 0, path) {
                        Some(e) => Err(e),
                        None => match all_chunks_failure(
                            f.stores,
                            f.payloads,
                            promises,
                            0,
                            path,
                        ) {
                            Some(e) => Err(e),
                            None => recording_outcome(f.stores, hint, path),
                        },
                    },
                },
            },
        }
    }
}

fn check_transports(s: &RrdStore, p: &RrdPayloads, path: &str) -> (r: Result<(), ImportError>)
    requires
        p.transports@.len() == s.chunks@.len(),
    ensures
        rrd_wire::fault(r) == transports_failure(s@.chunks, p@, 0, path@),
{
    let mut k: usize = 0;
    while k < s.chunks.len()
        invariant
            k <= s.chunks@.len(),
            p.transports@.len() == s.chunks@.len(),
            transports_failure(s@.chunks, p@, 0, path@) == transports_failure(
                s@.chunks,
                p@,
                k as int,
                path@,
            ),
        decreases s.chunks@.len() - k,
    {
        assert(s@.chunks[k as int] == s.chunks@[k as int]@);
        match rrd_manifest::validate_arrow_transport(
            &p.transports[k],
            s.chunks[k].uncompressed,
            p.store_id.as_str(),
            s.chunks[k].id.as_str(),
            path,
        ) {
            Ok(()) => {},
            Err(e) => {
                return Err(e);
            },
        }
        k = k + 1;
    }
    Ok(())
}

fn check_chunks(
    decoded: &Vec<DecodedChunk>,
    chunks: &Vec<ManifestChunk>,
    promises: &Table<ExpectedChunkMetadata>,
    path: &str,
) -> (r: Result<(), ImportError>)
    ensures
        rrd_wire::fault(r) == chunks_failure(
            table::views(decoded@),
            table::views(chunks@),
            promises@,
            0,
            path@,
        ),
{
    let ghost views = table::views(decoded@);
    let ghost listed = table::views(chunks@);
    let mut k: usize = 0;
    while k < decoded.len()
        invariant
            k <= decoded@.len(),
            views == table::views(decoded@),
            listed == table::views(chunks@),
            chunks_failure(views, listed, promises@, 0, path@) == chunks_failure(
                views,
                listed,
                promises@,
                k as int,
                path@,
            ),
        decreases decoded@.len() - k,
    {
        assert(views[k as int] == decoded@[k as int]@);
        match rrd_manifest::validate_decoded_chunk(&decoded[k], chunks, promises, path) {
            Ok(()) => {},
            Err(e) => {
                return Err(e);
            },
        }
        k = k + 1;
    }
    Ok(())
}

fn check_all_transports(file: &RrdFile, path: &str) -> (r: Result<(), ImportError>)
    requires
        file.wf(),
    ensures
        rrd_wire::fault(r) == all_transports_failure(file@.stores, file@.payloads, 0, path@),
{
    let ghost f = file@;
    let mut i: usize = 0;
    while i < file.stores.len()
        invariant
            i <= file.stores@.len(),
            file.wf(),
            f == file@,
            all_transports_failure(f.stores, f.payloads, 0, path@) == all_transports_failure(
                f.stores,
                f.payloads,
                i as int,
                path@,
            ),
        decreases file.stores@.len() - i,
    {
        assert(f.stores[i as int] == file.stores@[i as int]@);
        assert(f.payloads[i as int] == file.payloads@[i as int]@);
        match check_transports(&file.stores[i], &file.payloads[i], path) {
            Ok(()) => {},
            Err(e) => {
                return Err(e);
            },
        }
        i = i + 1;
    }
    Ok(())
}

fn check_all_chunks(file: &RrdFile, promises: &Vec<Table<ExpectedChunkMetadata>>, path: &str) -> (r:
    Result<(), ImportError>)
    requires
        file.wf(),
        promises@.len() == file.stores@.len(),
    ensures
        rrd_wire::fault(r) == all_chunks_failure(
            file@.stores,
            file@.payloads,
            table::views(promises@),
            0,
            path@,
        ),
{
    let ghost f = file@;
    let ghost promised = table::views(promises@);
    let mut i: usize = 0;
    while i < file.stores.len()
        invariant
            i <= file.stores@.len(),
            file.wf(),
            f == file@,
            promised == table::views(promises@),
            promises@.len() == file.stores@.len(),
            all_chunks_failure(f.stores, f.payloads, promised, 0, path@) == all_chunks_failure(
                f.stores,
                f.payloads,
                promised,
                i as int,
                path@,
            ),
        decreases file.stores@.len() - i,
    {
        assert(f.stores[i as int] == file.stores@[i as int]@);
        assert(f.payloads[i as int] == file.payloads@[i as int]@);
        assert(promised[i as int] == promises@[i as int]@);
        match check_chunks(&file.payloads[i].decoded, &file.stores[i].chunks, &promises[i], path) {
            Ok(()) => {},
            Err(e) => {
                return Err(e);
            },
        }
        i = i + 1;
    }
    Ok(())
}

/// Verifies an RRD as a whole and describes its recording.
pub fn verify_rrd(file: &RrdFile, default_timeline_hint: &Option<String>, path: &str) -> (r: Result<
    VerifiedRrd,
    ImportError,
>)
    requires
        file.wf(),
    ensures
        verified_view(r) == rrd_outcome(
            file@,
            table::view_option(*default_timeline_hint),
            path@,
        ),
{
    match check_size(file.size, file.header_size, path) {
        Ok(()) => {},
        Err(e) => {
            return Err(e);
        },
    }
    match rrd_wire::validate_footer_pointer(
        &file.footers,
        file.size,
        file.header_size,
        file.footer_size,
        path,
    ) {
        Ok(_) => {},
        Err(e) => {
            return Err(e);
        },
    }
    match rrd_wire::preflight_rrd_footer_wire(file.footer_payload.as_slice(), path) {
        Ok(()) => {},
        Err(e) => {
            return Err(e);
        },
    }
    let promises = match verify_manifests(
        &file.stores,
        &file.row_counts,
        file.size,
        file.header_size,
        path,
    ) {
        Ok(promises) => promises,
        Err(e) => {
            return Err(e);
        },
    };
    proof {
        lemma_promises_length(file@.stores, 0, Seq::empty(), path@);
    }
    match check_all_transports(file, path) {
        Ok(()) => {},
        Err(e) => {
            return Err(e);
        },
    }
    match check_all_chunks(file, &promises, path) {
        Ok(()) => {},
        Err(e) => {
            return Err(e);
        },
    }
    describe_recording(&file.stores, default_timeline_hint, path)
}

/// Verifies an RRD again and returns the entity paths of its recording, in order and once each.
pub fn inspect_rrd_entity_paths(file: &RrdFile, path: &str) -> (r: Result<
    Vec<String>,
    ImportError,
>)
    requires
        file.wf(),
    ensures
        match (r, rrd_outcome(file@, None, path@)) {
            (Ok(paths), Ok(v)) => table::views(paths@) == v.entity_paths,
            (Err(e), Err(f)) => e@ == f,
            _ => false,
        },
{
    match verify_rrd(file, &None, path) {
        Ok(v) => Ok(v.entity_paths),
        Err(e) => Err(e),
    }
}

/// Verifies an RRD again and returns the descriptors of the entities of its recording, in the
/// order of their paths.
pub fn inspect_rrd_entity_descriptors(file: &RrdFile, path: &str) -> (r: Result<
    Vec<EntityDescriptor>,
    ImportError,
>)
    requires
        file.wf(),
    ensures
        match (r, rrd_outcome(file@, None, path@)) {
            (Ok(found), Ok(v)) => table::views(found@) == v.entity_descriptors,
            (Err(e), Err(f)) => e@ == f,
            _ => false,
        },
{
    match verify_rrd(file, &None, path) {
        Ok(v) => Ok(v.entity_descriptors),
        Err(e) => Err(e),
    }
}

proof fn lemma_promises_length(
    stores: Seq<RrdStoreView>,
    i: int,
    done: Seq<Map<Seq<char>, ExpectedChunkView>>,
    path: Seq<char>,
)
    requires
        0 <= i <= stores.len(),
        done.len() == i,
    ensures
        promises_from(stores, i, done, path) matches Ok(all) ==> all.len() == stores.len(),
    decreases stores.len() - i,
{
    if i < stores.len() {
        match rrd_manifest::promised(
            stores[i].chunks,
            stores[i].columns,
            stores[i].temporal,
            path,
        ) {
            Err(e) => {},
            Ok(m) => lemma_promises_length(stores, i + 1, done.push(m), path),
        }
    }
}

proof fn lemma_transports_agree(
    stores: Seq<RrdStoreView>,
    payloads: Seq<RrdPayloadsView>,
    i: int,
    path: Seq<char>,
    s: int,
    k: int,
)
    requires
        0 <= i <= s < stores.len(),
        0 <= k < stores[s].chunks.len(),
        all_transports_failure(stores, payloads, i, path) is None,
    ensures
        rrd_manifest::transport_failure(
            payloads[s].transports[k],
            stores[s].chunks[k].uncompressed,
            payloads[s].store_id,
            stores[s].chunks[k].id,
            path,
        ) is None,
    decreases s - i,
{
    if i == s {
        lemma_store_transports_agree(stores[s].chunks, payloads[s], 0, path, k);
    } else {
        lemma_transports_agree(stores, payloads, i + 1, path, s, k);
    }
}

proof fn lemma_store_transports_agree(
    chunks: Seq<ManifestChunkView>,
    p: RrdPayloadsView,
    i: int,
    path: Seq<char>,
    k: int,
)
    requires
        0 <= i <= k < chunks.len(),
        transports_failure(chunks, p, i, path) is None,
    ensures
        rrd_manifest::transport_failure(
            p.transports[k],
            chunks[k].uncompressed,
            p.store_id,
            chunks[k].id,
            path,
        ) is None,
    decreases k - i,
{
    if i < k {
        lemma_store_transports_agree(chunks, p, i + 1, path, k);
    }
}

proof fn lemma_chunks_agree(
    stores: Seq<RrdStoreView>,
    payloads: Seq<RrdPayloadsView>,
    promises: Seq<Map<Seq<char>, ExpectedChunkView>>,
    i: int,
    path: Seq<char>,
    s: int,
    k: int,
)
    requires
        0 <= i <= s < stores.len(),
        0 <= k < payloads[s].decoded.len(),
        all_chunks_failure(stores, payloads, promises, i, path) is None,
    ensures
        rrd_manifest::decoded_chunk_failure(
            payloads[s].decoded[k],
            stores[s].chunks,
            promises[s],
            path,
        ) is None,
    decreases s - i,
{
    if i == s {
        lemma_store_chunks_agree(
            payloads[s].decoded,
            stores[s].chunks,
            promises[s],
            0,
            path,
            k,
        );
    } else {
        lemma_chunks_agree(stores, payloads, promises, i + 1, path, s, k);
    }
}

proof fn lemma_store_chunks_agree(
    decoded: Seq<DecodedChunkView>,
    chunks: Seq<ManifestChunkView>,
    promises: Map<Seq<char>, ExpectedChunkView>,
    i: int,
    path: Seq<char>,
    k: int,
)
    requires
        0 <= i <= k < decoded.len(),
        chunks_failure(decoded, chunks, promises, i, path) is None,
    ensures
        rrd_manifest::decoded_chunk_failure(decoded[k], chunks, promises, path) is None,
    decreases k - i,
{
    if i < k {
        lemma_store_chunks_agree(decoded, chunks, promises, i + 1, path, k);
    }
}

proof fn lemma_promise_of(
    stores: Seq<RrdStoreView>,
    i: int,
    done: Seq<Map<Seq<char>, ExpectedChunkView>>,
    path: Seq<char>,
    s: int,
)
    requires
        0 <= i <= stores.len(),
        done.len() == i,
        0 <= s < stores.len(),
        promises_from(stores, i, done, path) is Ok,
    ensures
        ({
            let all = promises_from(stores, i, done, path)->Ok_0;
            &&& s < i ==> all[s] == done[s]
            &&& s >= i ==> rrd_manifest::promised(
                stores[s].chunks,
                stores[s].columns,
                stores[s].temporal,
                path,
            ) == Ok::<Map<Seq<char>, ExpectedChunkView>, ImportErrorView>(all[s])
        }),
    decreases stores.len() - i,
{
    if i < stores.len() {
        let m = rrd_manifest::promised(
            stores[i].chunks,
            stores[i].columns,
            stores[i].temporal,
            path,
        )->Ok_0;
        lemma_promise_of(stores, i + 1, done.push(m), path, s);
    }
}

/// A verified RRD has one recording, its chunks lie apart within the file, each of its transport
/// messages agrees with the manifest that lists the chunk, and each decoded chunk is what the
/// manifest of its store promises.
pub proof fn law_verified_files_hold_what_they_promise(
    f: RrdFileView,
    hint: Option<Seq<char>>,
    path: Seq<char>,
    s: int,
)
    requires
        rrd_outcome(f, hint, path) is Ok,
        0 <= s < f.stores.len(),
    ensures
        recording_count(f.stores, 0) == 1,
        rrd_manifest::resources_failure(
            store_chunks(f.stores),
            f.size,
            f.header_size,
            path,
        ) is None,
        forall|k: int|
            0 <= k < f.stores[s].chunks.len() ==> rrd_manifest::transport_failure(
                #[trigger] f.payloads[s].transports[k],
                f.stores[s].chunks[k].uncompressed,
                f.payloads[s].store_id,
                f.stores[s].chunks[k].id,
                path,
            ) is None,
        rrd_manifest::promised(
            f.stores[s].chunks,
            f.stores[s].columns,
            f.stores[s].temporal,
            path,
        ) matches Ok(promises) && forall|k: int|
            0 <= k < f.payloads[s].decoded.len() ==> rrd_manifest::decoded_chunk_failure(
                #[trigger] f.payloads[s].decoded[k],
                f.stores[s].chunks,
                promises,
                path,
            ) is None,
{
    let promises = manifests_outcome(
        f.stores,
        f.row_counts,
        f.size,
        f.header_size,
        path,
    )->Ok_0;
    lemma_promise_of(f.stores, 0, Seq::empty(), path, s);
    assert forall|k: int| 0 <= k < f.stores[s].chunks.len() implies rrd_manifest::transport_failure(
        #[trigger] f.payloads[s].transports[k],
        f.stores[s].chunks[k].uncompressed,
        f.payloads[s].store_id,
        f.stores[s].chunks[k].id,
        path,
    ) is None by {
        lemma_transports_agree(f.stores, f.payloads, 0, path, s, k);
    }
    assert forall|k: int| 0 <= k < f.payloads[s].decoded.len() implies rrd_manifest::decoded_chunk_failure(
        #[trigger] f.payloads[s].decoded[k],
        f.stores[s].chunks,
        promises[s],
        path,
    ) is None by {
        lemma_chunks_agree(f.stores, f.payloads, promises, 0, path, s, k);
    }
}

proof fn lemma_ranked_keeps(
    columns: Seq<ComponentColumnView>,
    i: int,
    m: Map<Seq<char>, EntityVisualization>,
    path: Seq<char>,
)
    requires
        0 <= i,
        m.contains_key(path),
    ensures
        ranked_from(columns, i, m).contains_key(path),
        rank(ranked_from(columns, i, m)[path]) >= rank(m[path]),
    decreases columns.len() - i,
{
    if i < columns.len() {
        lemma_ranked_keeps(columns, i + 1, ranked(columns[i], m), path);
    }
}

/// An entity is shown in a view that ranks at least as high as that of each of its archetypes.
pub proof fn law_entities_take_their_highest_view(
    columns: Seq<ComponentColumnView>,
    paths: Map<Seq<char>, ()>,
    k: int,
    v: EntityVisualization,
)
    requires
        0 <= k < columns.len(),
        columns[k].archetype matches Some(a) && shown_as(a) == Some(v),
    ensures
        entity_views(columns, paths).contains_key(columns[k].entity_path),
        rank(entity_views(columns, paths)[columns[k].entity_path]) >= rank(v),
{
    lemma_ranked_reaches(columns, 0, all_raw(paths), k, v);
}

proof fn lemma_ranked_reaches(
    columns: Seq<ComponentColumnView>,
    i: int,
    m: Map<Seq<char>, EntityVisualization>,
    k: int,
    v: EntityVisualization,
)
    requires
        0 <= i <= k < columns.len(),
        columns[k].archetype matches Some(a) && shown_as(a) == Some(v),
    ensures
        ranked_from(columns, i, m).contains_key(columns[k].entity_path),
        rank(ranked_from(columns, i, m)[columns[k].entity_path]) >= rank(v),
    decreases k - i,
{
    if i < k {
        lemma_ranked_reaches(columns, i + 1, ranked(columns[i], m), k, v);
    } else {
        lemma_ranked_keeps(columns, i + 1, ranked(columns[i], m), columns[k].entity_path);
    }
}

/// An entity without an archetype that has a view is shown as raw data.
pub proof fn law_entities_without_a_view_are_raw(
    columns: Seq<ComponentColumnView>,
    paths: Map<Seq<char>, ()>,
    path: Seq<char>,
)
    requires
        paths.contains_key(path),
        forall|k: int|
            0 <= k < columns.len() && (#[trigger] columns[k]).entity_path == path ==> (
            columns[k].archetype matches Some(a) ==> shown_as(a) is None),
    ensures
        entity_views(columns, paths).contains_key(path),
        entity_views(columns, paths)[path] == EntityVisualization::Raw,
{
    lemma_stays_raw(columns, 0, all_raw(paths), path);
}

proof fn lemma_stays_raw(
    columns: Seq<ComponentColumnView>,
    i: int,
    m: Map<Seq<char>, EntityVisualization>,
    path: Seq<char>,
)
    requires
        0 <= i,
        m.contains_key(path),
        m[path] == EntityVisualization::Raw,
        forall|k: int|
            0 <= k < columns.len() && (#[trigger] columns[k]).entity_path == path ==> (
            columns[k].archetype matches Some(a) ==> shown_as(a) is None),
    ensures
        ranked_from(columns, i, m).contains_key(path),
        ranked_from(columns, i, m)[path] == EntityVisualization::Raw,
    decreases columns.len() - i,
{
    if i < columns.len() {
        assert(columns[i].entity_path == path ==> ranked(columns[i], m) == m);
        lemma_stays_raw(columns, i + 1, ranked(columns[i], m), path);
    }
}

/// The order in which timelines of one name are listed.
pub open spec fn kind_rank(k: TimelineKind) -> int {
    match k {
        TimelineKind::Sequence => 0,
        TimelineKind::Timestamp => 1,
        TimelineKind::Duration => 2,
    }
}

/// The timelines ascend by name and kind, so none is listed twice.
pub open spec fn timelines_ascend(spans: Seq<TimelineSpanView>) -> bool {
    forall|i: int, j: int|
        0 <= i < j < spans.len() ==> text::less((#[trigger] spans[i]).name, (
        #[trigger] spans[j]).name) || (spans[i].name == spans[j].name && kind_rank(spans[i].kind)
            < kind_rank(spans[j].kind))
}

proof fn lemma_span_names(items: Seq<(Seq<char>, TimeRanges)>, n: int, k: int)
    requires
        0 <= n <= items.len(),
        0 <= k < spans_upto(items, n).len(),
    ensures
        exists|j: int| 0 <= j < n && (#[trigger] items[j]).0 == spans_upto(items, n)[k].name,
    decreases n,
{
    if n > 0 {
        let before = spans_upto(items, n - 1);
        if k < before.len() {
            lemma_span_names(items, n - 1, k);
            let j = choose|j: int| 0 <= j < n - 1 && (#[trigger] items[j]).0 == before[k].name;
            assert(items[j].0 == spans_upto(items, n)[k].name);
        } else {
            let own = name_spans(items[n - 1].0, items[n - 1].1);
            assert(own[k - before.len()].name == items[n - 1].0);
            assert(spans_upto(items, n)[k] == own[k - before.len()]);
        }
    }
}

proof fn lemma_spans_ascend(items: Seq<(Seq<char>, TimeRanges)>, n: int)
    requires
        0 <= n <= items.len(),
        table::keys_ascend(items),
    ensures
        timelines_ascend(spans_upto(items, n)),
    decreases n,
{
    if n > 0 {
        lemma_spans_ascend(items, n - 1);
        let before = spans_upto(items, n - 1);
        let own = name_spans(items[n - 1].0, items[n - 1].1);
        let all = spans_upto(items, n);
        assert(timelines_ascend(own));
        assert(forall|k: int| 0 <= k < own.len() ==> (#[trigger] own[k]).name == items[n - 1].0);
        assert forall|i: int, j: int| 0 <= i < j < all.len() implies text::less(
            (#[trigger] all[i]).name,
            (#[trigger] all[j]).name,
        ) || (all[i].name == all[j].name && kind_rank(all[i].kind) < kind_rank(all[j].kind)) by {
            if j < before.len() {
                assert(all[i] == before[i] && all[j] == before[j]);
            } else if i >= before.len() {
                assert(all[i] == own[i - before.len()] && all[j] == own[j - before.len()]);
            } else {
                lemma_span_names(items, n - 1, i);
                let a = choose|a: int| 0 <= a < n - 1 && (#[trigger] items[a]).0 == before[i].name;
                assert(all[i] == before[i] && all[j] == own[j - before.len()]);
                assert(text::less(items[a].0, items[n - 1].0));
            }
        }
    }
}

proof fn lemma_ranges_finite(temporal: Seq<TemporalTimelineView>, i: int, m: Map<Seq<char>, TimeRanges>)
    requires
        m.dom().finite(),
    ensures
        timeline_ranges(temporal, i, m).dom().finite(),
    decreases temporal.len() - i,
{
    if 0 <= i < temporal.len() {
        let t = temporal[i];
        let old = match rrd_manifest::range_of(rrd_manifest::ranges_at(m, t.timeline), t.kind) {
            Some(r) => r,
            None => TimeRange { start: i64::MAX, end: i64::MIN },
        };
        lemma_ranges_finite(
            temporal,
            i + 1,
            rrd_manifest::put_range(m, t.timeline, t.kind, range_from(t.ranges, 0, old)),
        );
    }
}

proof fn lemma_named_position(spans: Seq<TimelineSpanView>, name: Seq<char>, i: int)
    requires
        0 <= i,
        named_from(spans, name, i),
    ensures
        exists|k: int| 0 <= k < spans.len() && (#[trigger] spans[k]).name == name,
    decreases spans.len() - i,
{
    if spans[i].name != name {
        lemma_named_position(spans, name, i + 1);
    }
}

proof fn lemma_clock_position(spans: Seq<TimelineSpanView>, i: int)
    requires
        0 <= i,
        first_clock(spans, i) is Some,
    ensures
        exists|k: int| 0 <= k < spans.len() && Some((#[trigger] spans[k]).name) == first_clock(
            spans,
            i,
        ),
    decreases spans.len() - i,
{
    if spans[i].kind == TimelineKind::Sequence {
        lemma_clock_position(spans, i + 1);
    }
}

/// The timelines of a verified recording ascend by name and kind, and the one that it opens with
/// is among them.
pub proof fn law_recordings_open_with_a_listed_timeline(
    f: RrdFileView,
    hint: Option<Seq<char>>,
    path: Seq<char>,
)
    ensures
        rrd_outcome(f, hint, path) matches Ok(v) ==> {
            &&& timelines_ascend(v.timelines)
            &&& exists|k: int|
                0 <= k < v.timelines.len() && (#[trigger] v.timelines[k]).name == v.default_timeline
        },
{
    if rrd_outcome(f, hint, path) is Ok {
        let v = rrd_outcome(f, hint, path)->Ok_0;
        let s = f.stores[first_recording(f.stores, 0)->Some_0];
        let ranges = timeline_ranges(s.temporal, 0, Map::empty());
        let items = table::items_of(ranges);
        let spans = v.timelines;
        assert(summary(s, hint, path) == Ok::<VerifiedRrdView, ImportErrorView>(v));
        lemma_ranges_finite(s.temporal, 0, Map::empty());
        lemma_ranges_filled(s.temporal, 0, Map::empty());
        table::lemma_items_exist(ranges);
        table::lemma_items_all(items);
        lemma_spans_ascend(items, items.len() as int);
        assert forall|j: int| 0 <= j < items.len() implies some_range((#[trigger] items[j]).1) by {
            assert(ranges.contains_key(items[j].0));
        }
        lemma_spans_exist(items, items.len() as int);
        assert(spans.len() > 0);
        if hint is Some && named_from(spans, hint->Some_0, 0) {
            lemma_named_position(spans, hint->Some_0, 0);
        } else if named_from(spans, "message_log_time"@, 0) {
            lemma_named_position(spans, "message_log_time"@, 0);
        } else if first_clock(spans, 0) is Some {
            lemma_clock_position(spans, 0);
        } else {
            assert(spans[0].name == v.default_timeline);
        }
    }
}

proof fn lemma_ranked_finite(
    columns: Seq<ComponentColumnView>,
    i: int,
    m: Map<Seq<char>, EntityVisualization>,
)
    requires
        m.dom().finite(),
    ensures
        ranked_from(columns, i, m).dom().finite(),
    decreases columns.len() - i,
{
    if 0 <= i < columns.len() {
        lemma_ranked_finite(columns, i + 1, ranked(columns[i], m));
    }
}

/// The descriptors of a verified recording stand in the order of their paths, each of its
/// entities has exactly one, and an entity without an archetype that has a view is shown as raw
/// data. They do not depend on the timeline that was asked for.
pub proof fn law_entities_have_one_descriptor(
    f: RrdFileView,
    hint: Option<Seq<char>>,
    path: Seq<char>,
    k: int,
)
    ensures
        rrd_outcome(f, hint, path) matches Ok(v) ==> {
            &&& rrd_outcome(f, None, path) matches Ok(again) && again.entity_descriptors
                == v.entity_descriptors && again.entity_paths == v.entity_paths
            &&& forall|i: int, j: int|
                0 <= i < j < v.entity_descriptors.len() ==> text::less(
                    (#[trigger] v.entity_descriptors[i]).path,
                    (#[trigger] v.entity_descriptors[j]).path,
                )
            &&& forall|i: int, j: int|
                0 <= i < j < v.entity_paths.len() ==> text::less(
                    #[trigger] v.entity_paths[i],
                    #[trigger] v.entity_paths[j],
                )
            &&& 0 <= k < v.entity_paths.len() ==> exists|i: int| #[trigger]
                describes(v, i, v.entity_paths[k]) && forall|j: int| #[trigger]
                describes(v, j, v.entity_paths[k]) ==> j == i
            &&& 0 <= k < v.entity_paths.len() && unviewed(
                f.stores[first_recording(f.stores, 0)->Some_0].components,
                v.entity_paths[k],
            ) ==> exists|i: int| #[trigger]
                describes(v, i, v.entity_paths[k]) && v.entity_descriptors[i].visualization
                    == EntityVisualization::Raw
        },
{
    if rrd_outcome(f, hint, path) is Ok {
        let v = rrd_outcome(f, hint, path)->Ok_0;
        let s = f.stores[first_recording(f.stores, 0)->Some_0];
        let names = s.temporal_entities + s.static_entities;
        let paths = store_entities(s);
        let shown = entity_views(s.components, paths);
        assert(summary(s, hint, path) == Ok::<VerifiedRrdView, ImportErrorView>(v));
        assert(paths.dom() =~= names.to_set());
        vstd::seq_lib::seq_to_set_is_finite(names);
        assert(all_raw(paths).dom() =~= paths.dom());
        lemma_ranked_finite(s.components, 0, all_raw(paths));
        table::lemma_items_exist(paths);
        table::lemma_items_exist(shown);
        let listed = table::items_of(paths);
        let items = table::items_of(shown);
        table::lemma_items_all(listed);
        table::lemma_items_all(items);
        assert(forall|i: int| 0 <= i < items.len() ==> (#[trigger] v.entity_descriptors[i]).path == items[i].0);
        assert(forall|i: int| 0 <= i < listed.len() ==> (#[trigger] v.entity_paths[i]) == listed[i].0);
        if 0 <= k < v.entity_paths.len() {
            let p = v.entity_paths[k];
            assert(paths.contains_key(p));
            lemma_ranked_keeps(s.components, 0, all_raw(paths), p);
            let i = table::key_index(items, p);
            assert(describes(v, i, p));
            assert forall|j: int| #[trigger] describes(v, j, p) implies j == i by {
                text::lemma_less_irreflexive(p);
                if j < i {
                    assert(text::less(v.entity_descriptors[j].path, v.entity_descriptors[i].path));
                } else if i < j {
                    assert(text::less(v.entity_descriptors[i].path, v.entity_descriptors[j].path));
                }
            }
            if unviewed(s.components, p) {
                law_entities_without_a_view_are_raw(s.components, paths, p);
                assert(items[i].1 == EntityVisualization::Raw);
            }
        }
    }
}

/// Whether the descriptor at `i` is that of an entity.
pub open spec fn describes(v: VerifiedRrdView, i: int, entity: Seq<char>) -> bool {
    0 <= i < v.entity_descriptors.len() && v.entity_descriptors[i].path == entity
}

/// Whether no archetype of an entity has a view.
pub open spec fn unviewed(columns: Seq<ComponentColumnView>, entity: Seq<char>) -> bool {
    forall|k: int|
        0 <= k < columns.len() && (#[trigger] columns[k]).entity_path == entity ==> (
        columns[k].archetype matches Some(a) ==> shown_as(a) is None)
}

/// Whether a temporal index is that of a timeline.
pub open spec fn indexes(t: TemporalTimelineView, name: Seq<char>, kind: TimelineKind) -> bool {
    t.timeline == name && t.kind == kind
}

spec fn starts_at(temporal: Seq<TemporalTimelineView>, i: int, j: int, start: i64) -> bool {
    temporal[i].ranges[j].start == start
}

spec fn ends_at(temporal: Seq<TemporalTimelineView>, i: int, j: int, end: i64) -> bool {
    temporal[i].ranges[j].end == end
}

spec fn has_range(temporal: Seq<TemporalTimelineView>, n: int, name: Seq<char>, kind: TimelineKind, i: int, j: int) -> bool {
    0 <= i < n && indexes(temporal[i], name, kind) && 0 <= j < temporal[i].ranges.len()
}

/// The range of a timeline after the first `n` temporal indices.
spec fn range_tells(
    temporal: Seq<TemporalTimelineView>,
    n: int,
    name: Seq<char>,
    kind: TimelineKind,
    range: Option<TimeRange>,
) -> bool {
    match range {
        Some(r) => {
            &&& exists|i: int| 0 <= i < n && indexes(#[trigger] temporal[i], name, kind)
            &&& forall|i: int, j: int| #[trigger]
                has_range(temporal, n, name, kind, i, j) ==> r.start <= temporal[i].ranges[j].start
                    && r.end >= temporal[i].ranges[j].end
            &&& r.start == i64::MAX || exists|i: int, j: int| #[trigger]
                has_range(temporal, n, name, kind, i, j) && starts_at(temporal, i, j, r.start)
            &&& r.end == i64::MIN || exists|i: int, j: int| #[trigger]
                has_range(temporal, n, name, kind, i, j) && ends_at(temporal, i, j, r.end)
        },
        None => forall|i: int| 0 <= i < n ==> !indexes(#[trigger] temporal[i], name, kind),
    }
}

proof fn lemma_range_from(ranges: Seq<TemporalRangeView>, k: int, r: TimeRange)
    requires
        0 <= k <= ranges.len(),
    ensures
        range_from(ranges, k, r).start <= r.start,
        range_from(ranges, k, r).end >= r.end,
        forall|j: int|
            k <= j < ranges.len() ==> range_from(ranges, k, r).start <= (#[trigger] ranges[j]).start
                && range_from(ranges, k, r).end >= ranges[j].end,
        range_from(ranges, k, r).start == r.start || exists|j: int|
            k <= j < ranges.len() && (#[trigger] ranges[j]).start == range_from(ranges, k, r).start,
        range_from(ranges, k, r).end == r.end || exists|j: int|
            k <= j < ranges.len() && (#[trigger] ranges[j]).end == range_from(ranges, k, r).end,
    decreases ranges.len() - k,
{
    if k < ranges.len() {
        lemma_range_from(ranges, k + 1, widened(Some(r), ranges[k].start, ranges[k].end));
    }
}

proof fn lemma_range_tells(
    temporal: Seq<TemporalTimelineView>,
    n: int,
    m: Map<Seq<char>, TimeRanges>,
    name: Seq<char>,
    kind: TimelineKind,
)
    requires
        0 <= n <= temporal.len(),
        range_tells(
            temporal,
            n,
            name,
            kind,
            rrd_manifest::range_of(rrd_manifest::ranges_at(m, name), kind),
        ),
    ensures
        range_tells(
            temporal,
            temporal.len() as int,
            name,
            kind,
            rrd_manifest::range_of(
                rrd_manifest::ranges_at(timeline_ranges(temporal, n, m), name),
                kind,
            ),
        ),
    decreases temporal.len() - n,
{
    if n < temporal.len() {
        let t = temporal[n];
        let known = rrd_manifest::range_of(rrd_manifest::ranges_at(m, t.timeline), t.kind);
        let old = match known {
            Some(r) => r,
            None => TimeRange { start: i64::MAX, end: i64::MIN },
        };
        let range = range_from(t.ranges, 0, old);
        let next = rrd_manifest::put_range(m, t.timeline, t.kind, range);
        lemma_range_from(t.ranges, 0, old);
        let now = rrd_manifest::range_of(rrd_manifest::ranges_at(next, name), kind);
        let before = rrd_manifest::range_of(rrd_manifest::ranges_at(m, name), kind);
        if indexes(t, name, kind) {
            assert(now == Some(range));
            assert(indexes(temporal[n], name, kind));
            assert forall|i: int, j: int| #[trigger]
                has_range(temporal, n + 1, name, kind, i, j) implies range.start
                <= temporal[i].ranges[j].start && range.end >= temporal[i].ranges[j].end by {
                if i < n {
                    assert(has_range(temporal, n, name, kind, i, j));
                } else {
                    assert(t.ranges[j] == temporal[i].ranges[j]);
                }
            }
            if range.start != i64::MAX {
                if range.start == old.start {
                    let (i, j) = choose|i: int, j: int| #[trigger]
                        has_range(temporal, n, name, kind, i, j) && starts_at(temporal, i, j, range.start);
                    assert(has_range(temporal, n + 1, name, kind, i, j));
                } else {
                    let j = choose|j: int|
                        0 <= j < t.ranges.len() && (#[trigger] t.ranges[j]).start == range.start;
                    assert(has_range(temporal, n + 1, name, kind, n, j));
                    assert(starts_at(temporal, n, j, range.start));
                }
            }
            if range.end != i64::MIN {
                if range.end == old.end {
                    let (i, j) = choose|i: int, j: int| #[trigger]
                        has_range(temporal, n, name, kind, i, j) && ends_at(temporal, i, j, range.end);
                    assert(has_range(temporal, n + 1, name, kind, i, j));
                } else {
                    let j = choose|j: int|
                        0 <= j < t.ranges.len() && (#[trigger] t.ranges[j]).end == range.end;
                    assert(has_range(temporal, n + 1, name, kind, n, j));
                    assert(ends_at(temporal, n, j, range.end));
                }
            }
        } else {
            assert(now == before);
            assert forall|i: int, j: int|
                #![trigger has_range(temporal, n + 1, name, kind, i, j)]
                #![trigger has_range(temporal, n, name, kind, i, j)]
                has_range(temporal, n + 1, name, kind, i, j) == has_range(temporal, n, name, kind, i, j) by {}
        }
        assert(range_tells(temporal, n + 1, name, kind, now));
        lemma_range_tells(temporal, n + 1, next, name, kind);
    }
}

proof fn lemma_span_is_of_a_range(items: Seq<(Seq<char>, TimeRanges)>, n: int, k: int) -> (j: int)
    requires
        0 <= n <= items.len(),
        0 <= k < spans_upto(items, n).len(),
    ensures
        0 <= j < n,
        spans_upto(items, n)[k].name == items[j].0,
        rrd_manifest::range_of(items[j].1, spans_upto(items, n)[k].kind) is Some,
        spans_upto(items, n)[k] == span_view(
            items[j].0,
            spans_upto(items, n)[k].kind,
            rrd_manifest::range_of(items[j].1, spans_upto(items, n)[k].kind)->Some_0,
        ),
    decreases n,
{
    let before = spans_upto(items, n - 1);
    if k < before.len() {
        assert(spans_upto(items, n)[k] == before[k]);
        lemma_span_is_of_a_range(items, n - 1, k)
    } else {
        let own = name_spans(items[n - 1].0, items[n - 1].1);
        assert(spans_upto(items, n)[k] == own[k - before.len()]);
        n - 1
    }
}

proof fn lemma_range_has_a_span(items: Seq<(Seq<char>, TimeRanges)>, n: int, j: int, kind: TimelineKind) -> (k: int)
    requires
        0 <= j < n <= items.len(),
        rrd_manifest::range_of(items[j].1, kind) is Some,
    ensures
        0 <= k < spans_upto(items, n).len(),
        spans_upto(items, n)[k].name == items[j].0,
        spans_upto(items, n)[k].kind == kind,
    decreases n,
{
    let before = spans_upto(items, n - 1);
    if j < n - 1 {
        let k = lemma_range_has_a_span(items, n - 1, j, kind);
        assert(spans_upto(items, n)[k] == before[k]);
        k
    } else {
        let r = items[j].1;
        let own = name_spans(items[j].0, r);
        let s = if r.sequence is Some { 1int } else { 0int };
        let t = if r.timestamp is Some { 1int } else { 0int };
        let at = match kind {
            TimelineKind::Sequence => 0int,
            TimelineKind::Timestamp => s,
            TimelineKind::Duration => s + t,
        };
        assert(own[at].kind == kind && own[at].name == items[j].0);
        assert(spans_upto(items, n)[before.len() + at] == own[at]);
        before.len() + at
    }
}

proof fn lemma_only_recording(stores: Seq<RrdStoreView>, i: int, r: int)
    requires
        0 <= i <= r < stores.len(),
        stores[r].is_recording,
        recording_count(stores, i) == 1,
    ensures
        first_recording(stores, i) == Some(r),
    decreases r - i,
{
    if i < r {
        lemma_some_recording(stores, i + 1, r);
        lemma_only_recording(stores, i + 1, r);
    }
}

proof fn lemma_some_recording(stores: Seq<RrdStoreView>, i: int, r: int)
    requires
        0 <= i <= r < stores.len(),
        stores[r].is_recording,
    ensures
        recording_count(stores, i) >= 1,
    decreases r - i,
{
    if i < r {
        lemma_some_recording(stores, i + 1, r);
    }
}

/// Whether a timeline is reported with a range.
pub open spec fn shows(span: TimelineSpanView, start: i64, end: i64) -> bool {
    &&& span.start == text::signed(start as int)
    &&& span.end == text::signed(end as int)
    &&& span.ticks == if start <= end {
        end - start
    } else {
        start - end
    }
}

/// Whether the range at `j` of the temporal index at `i` is one of a timeline.
pub open spec fn lists(temporal: Seq<TemporalTimelineView>, span: TimelineSpanView, i: int, j: int) -> bool {
    0 <= i < temporal.len() && indexes(temporal[i], span.name, span.kind) && 0 <= j
        < temporal[i].ranges.len()
}

/// Each timeline that a verified recording reports is one that its manifest indexes, and its
/// range is the least that holds all ranges listed for it: it starts where the earliest starts
/// and ends where the latest ends.
pub proof fn law_reported_ranges_span_all_listed_ranges(
    f: RrdFileView,
    hint: Option<Seq<char>>,
    path: Seq<char>,
    r: int,
    k: int,
)
    requires
        rrd_outcome(f, hint, path) is Ok,
        0 <= r < f.stores.len(),
        f.stores[r].is_recording,
        0 <= k < rrd_outcome(f, hint, path)->Ok_0.timelines.len(),
    ensures
        ({
            let span = rrd_outcome(f, hint, path)->Ok_0.timelines[k];
            let temporal = f.stores[r].temporal;
            &&& exists|i: int|
                0 <= i < temporal.len() && indexes(#[trigger] temporal[i], span.name, span.kind)
            &&& exists|start: i64, end: i64| #[trigger]
                shows(span, start, end) && (forall|i: int, j: int| #[trigger]
                    lists(temporal, span, i, j) ==> start <= temporal[i].ranges[j].start && end
                        >= temporal[i].ranges[j].end) && ((exists|i: int, j: int| #[trigger]
                    lists(temporal, span, i, j)) ==> (exists|i: int, j: int| #[trigger]
                    lists(temporal, span, i, j) && temporal[i].ranges[j].start == start) && (exists|
                    i: int,
                    j: int,
                | #[trigger]
                    lists(temporal, span, i, j) && temporal[i].ranges[j].end == end))
        }),
{
    let v = rrd_outcome(f, hint, path)->Ok_0;
    let span = v.timelines[k];
    let s = f.stores[r];
    let temporal = s.temporal;
    lemma_only_recording(f.stores, 0, r);
    assert(summary(s, hint, path) == Ok::<VerifiedRrdView, ImportErrorView>(v));
    let ranges = timeline_ranges(temporal, 0, Map::empty());
    let items = table::items_of(ranges);
    lemma_ranges_finite(temporal, 0, Map::empty());
    table::lemma_items_exist(ranges);
    table::lemma_items_all(items);
    let at = lemma_span_is_of_a_range(items, items.len() as int, k);
    assert(ranges.contains_key(items[at].0));
    lemma_range_tells(temporal, 0, Map::empty(), span.name, span.kind);
    let range = rrd_manifest::range_of(items[at].1, span.kind)->Some_0;
    assert(range_tells(temporal, temporal.len() as int, span.name, span.kind, Some(range)));
    assert(shows(span, range.start, range.end));
    let n = temporal.len() as int;
    assert forall|i: int, j: int| #[trigger] lists(temporal, span, i, j) implies range.start
        <= temporal[i].ranges[j].start && range.end >= temporal[i].ranges[j].end by {
        assert(has_range(temporal, n, span.name, span.kind, i, j));
    }
    if exists|i: int, j: int| #[trigger] lists(temporal, span, i, j) {
        let (a, b) = choose|i: int, j: int| #[trigger] lists(temporal, span, i, j);
        if range.start != i64::MAX {
            let (i, j) = choose|i: int, j: int| #[trigger]
                has_range(temporal, n, span.name, span.kind, i, j) && starts_at(temporal, i, j, range.start);
            assert(lists(temporal, span, i, j));
        } else {
            assert(temporal[a].ranges[b].start == range.start);
        }
        if range.end != i64::MIN {
            let (i, j) = choose|i: int, j: int| #[trigger]
                has_range(temporal, n, span.name, span.kind, i, j) && ends_at(temporal, i, j, range.end);
            assert(lists(temporal, span, i, j));
        } else {
            assert(temporal[a].ranges[b].end == range.end);
        }
    }
}

/// A verified recording reports every timeline that its manifest indexes.
pub proof fn law_indexed_timelines_are_reported(
    f: RrdFileView,
    hint: Option<Seq<char>>,
    path: Seq<char>,
    r: int,
    i: int,
)
    requires
        rrd_outcome(f, hint, path) is Ok,
        0 <= r < f.stores.len(),
        f.stores[r].is_recording,
        0 <= i < f.stores[r].temporal.len(),
    ensures
        ({
            let v = rrd_outcome(f, hint, path)->Ok_0;
            let t = f.stores[r].temporal[i];
            exists|k: int|
                0 <= k < v.timelines.len() && (#[trigger] v.timelines[k]).name == t.timeline
                    && v.timelines[k].kind == t.kind
        }),
{
    let v = rrd_outcome(f, hint, path)->Ok_0;
    let s = f.stores[r];
    let t = s.temporal[i];
    lemma_only_recording(f.stores, 0, r);
    assert(summary(s, hint, path) == Ok::<VerifiedRrdView, ImportErrorView>(v));
    let ranges = timeline_ranges(s.temporal, 0, Map::empty());
    let items = table::items_of(ranges);
    lemma_ranges_finite(s.temporal, 0, Map::empty());
    table::lemma_items_exist(ranges);
    table::lemma_items_all(items);
    lemma_range_tells(s.temporal, 0, Map::empty(), t.timeline, t.kind);
    assert(indexes(s.temporal[i], t.timeline, t.kind));
    let at = table::key_index(items, t.timeline);
    assert(ranges.contains_key(t.timeline));
    assert(items[at].1 == ranges[t.timeline]);
    let k = lemma_range_has_a_span(items, items.len() as int, at, t.kind);
    assert(v.timelines[k].name == t.timeline);
}

/// Pictures, maps, drawings, transforms, curves and log lines each have a view of their own, and
/// nothing else has.
pub proof fn law_archetypes_are_shown_in_their_view(a: Seq<char>)
    ensures
        shown_as(a) == Some(EntityVisualization::Camera) <==> seq![
            "Image"@,
            "DepthImage"@,
            "SegmentationImage"@,
            "EncodedImage"@,
            "EncodedDepthImage"@,
            "VideoStream"@,
            "VideoFrameReference"@,
        ].contains(a),
        shown_as(a) == Some(EntityVisualization::GeoMap) <==> a == "GeoPoints"@ || a
            == "GeoLineStrings"@,
        shown_as(a) == Some(EntityVisualization::Spatial2d) <==> seq![
            "Points2D"@,
            "Boxes2D"@,
            "Arrows2D"@,
            "LineStrips2D"@,
            "Ellipses2D"@,
        ].contains(a),
        shown_as(a) == Some(EntityVisualization::Spatial3d) <==> seq![
            "GridMap"@,
            "VoxelGridMap"@,
            "Points3D"@,
            "Boxes3D"@,
            "Arrows3D"@,
            "LineStrips3D"@,
            "Mesh3D"@,
            "Asset3D"@,
            "Capsules3D"@,
            "Cylinders3D"@,
            "Ellipsoids3D"@,
            "GaussianSplats3D"@,
            "Pinhole"@,
        ].contains(a),
        shown_as(a) == Some(EntityVisualization::Transform3d) <==> a == "Transform3D"@ || a
            == "TransformAxes3D"@,
        shown_as(a) == Some(EntityVisualization::TimeSeries) <==> a == "Scalars"@ || a
            == "SeriesLines"@ || a == "SeriesPoints"@,
        shown_as(a) == Some(EntityVisualization::Log) <==> a == "TextLog"@,
        shown_as(a) != Some(EntityVisualization::State),
        shown_as(a) != Some(EntityVisualization::Raw),
{
    reveal_strlit("EncodedImage");
    reveal_strlit("EncodedDepthImage");
    reveal_strlit("Image");
    reveal_strlit("DepthImage");
    reveal_strlit("SegmentationImage");
    reveal_strlit("VideoStream");
    reveal_strlit("VideoFrameReference");
    reveal_strlit("GeoPoints");
    reveal_strlit("GeoLineStrings");
    reveal_strlit("Points2D");
    reveal_strlit("Boxes2D");
    reveal_strlit("Arrows2D");
    reveal_strlit("LineStrips2D");
    reveal_strlit("Ellipses2D");
    reveal_strlit("GridMap");
    reveal_strlit("VoxelGridMap");
    reveal_strlit("Points3D");
    reveal_strlit("Boxes3D");
    reveal_strlit("Arrows3D");
    reveal_strlit("LineStrips3D");
    reveal_strlit("Mesh3D");
    reveal_strlit("Asset3D");
    reveal_strlit("Capsules3D");
    reveal_strlit("Cylinders3D");
    reveal_strlit("Ellipsoids3D");
    reveal_strlit("GaussianSplats3D");
    reveal_strlit("Pinhole");
    reveal_strlit("Transform3D");
    reveal_strlit("TransformAxes3D");
    reveal_strlit("Scalars");
    reveal_strlit("SeriesLines");
    reveal_strlit("SeriesPoints");
    reveal_strlit("TextLog");
    assert("EncodedImage"@.len() == 12 && "EncodedImage"@[0] == 'E' && "EncodedImage"@[10] == 'g' && "EncodedDepthImage"@.len() == 17 && "EncodedDepthImage"@[0] == 'E' && "EncodedDepthImage"@[15] == 'g' && "Image"@.len() == 5 && "Image"@[0] == 'I' && "Image"@[3] == 'g' && "DepthImage"@.len() == 10 && "DepthImage"@[0] == 'D' && "DepthImage"@[8] == 'g' && "SegmentationImage"@.len() == 17 && "SegmentationImage"@[0] == 'S' && "SegmentationImage"@[15] == 'g' && "VideoStream"@.len() == 11 && "VideoStream"@[0] == 'V' && "VideoStream"@[9] == 'a' && "VideoFrameReference"@.len() == 19 && "VideoFrameReference"@[0] == 'V' && "VideoFrameReference"@[17] == 'c' && "GeoPoints"@.len() == 9 && "GeoPoints"@[0] == 'G' && "GeoPoints"@[7] == 't' && "GeoLineStrings"@.len() == 14 && "GeoLineStrings"@[0] == 'G' && "GeoLineStrings"@[12] == 'g' && "Points2D"@.len() == 8 && "Points2D"@[0] == 'P' && "Points2D"@[6] == '2' && "Boxes2D"@.len() == 7 && "Boxes2D"@[0] == 'B' && "Boxes2D"@[5] == '2' && "Arrows2D"@.len() == 8 && "Arrows2D"@[0] == 'A' && "Arrows2D"@[6] == '2' && "LineStrips2D"@.len() == 12 && "LineStrips2D"@[0] == 'L' && "LineStrips2D"@[10] == '2' && "Ellipses2D"@.len() == 10 && "Ellipses2D"@[0] == 'E' && "Ellipses2D"@[8] == '2' && "GridMap"@.len() == 7 && "GridMap"@[0] == 'G' && "GridMap"@[5] == 'a' && "VoxelGridMap"@.len() == 12 && "VoxelGridMap"@[0] == 'V' && "VoxelGridMap"@[10] == 'a' && "Points3D"@.len() == 8 && "Points3D"@[0] == 'P' && "Points3D"@[6] == '3' && "Boxes3D"@.len() == 7 && "Boxes3D"@[0] == 'B' && "Boxes3D"@[5] == '3' && "Arrows3D"@.len() == 8 && "Arrows3D"@[0] == 'A' && "Arrows3D"@[6] == '3' && "LineStrips3D"@.len() == 12 && "LineStrips3D"@[0] == 'L' && "LineStrips3D"@[10] == '3' && "Mesh3D"@.len() == 6 && "Mesh3D"@[0] == 'M' && "Mesh3D"@[4] == '3' && "Asset3D"@.len() == 7 && "Asset3D"@[0] == 'A' && "Asset3D"@[5] == '3' && "Capsules3D"@.len() == 10 && "Capsules3D"@[0] == 'C' && "Capsules3D"@[8] == '3' && "Cylinders3D"@.len() == 11 && "Cylinders3D"@[0] == 'C' && "Cylinders3D"@[9] == '3' && "Ellipsoids3D"@.len() == 12 && "Ellipsoids3D"@[0] == 'E' && "Ellipsoids3D"@[10] == '3' && "GaussianSplats3D"@.len() == 16 && "GaussianSplats3D"@[0] == 'G' && "GaussianSplats3D"@[14] == '3' && "Pinhole"@.len() == 7 && "Pinhole"@[0] == 'P' && "Pinhole"@[5] == 'l' && "Transform3D"@.len() == 11 && "Transform3D"@[0] == 'T' && "Transform3D"@[9] == '3' && "TransformAxes3D"@.len() == 15 && "TransformAxes3D"@[0] == 'T' && "TransformAxes3D"@[13] == '3' && "Scalars"@.len() == 7 && "Scalars"@[0] == 'S' && "Scalars"@[5] == 'r' && "SeriesLines"@.len() == 11 && "SeriesLines"@[0] == 'S' && "SeriesLines"@[9] == 'e' && "SeriesPoints"@.len() == 12 && "SeriesPoints"@[0] == 'S' && "SeriesPoints"@[10] == 't' && "TextLog"@.len() == 7 && "TextLog"@[0] == 'T' && "TextLog"@[5] == 'o');
    let pictures = seq![
        "Image"@,
        "DepthImage"@,
        "SegmentationImage"@,
        "EncodedImage"@,
        "EncodedDepthImage"@,
        "VideoStream"@,
        "VideoFrameReference"@,
    ];
    assert(pictures[0] == "Image"@ && pictures[1] == "DepthImage"@ && pictures[2]
        == "SegmentationImage"@ && pictures[3] == "EncodedImage"@ && pictures[4]
        == "EncodedDepthImage"@ && pictures[5] == "VideoStream"@ && pictures[6]
        == "VideoFrameReference"@);
    let flat = seq!["Points2D"@, "Boxes2D"@, "Arrows2D"@, "LineStrips2D"@, "Ellipses2D"@];
    assert(flat[0] == "Points2D"@ && flat[1] == "Boxes2D"@ && flat[2] == "Arrows2D"@ && flat[3]
        == "LineStrips2D"@ && flat[4] == "Ellipses2D"@);
    let deep = seq![
        "GridMap"@,
        "VoxelGridMap"@,
        "Points3D"@,
        "Boxes3D"@,
        "Arrows3D"@,
        "LineStrips3D"@,
        "Mesh3D"@,
        "Asset3D"@,
        "Capsules3D"@,
        "Cylinders3D"@,
        "Ellipsoids3D"@,
        "GaussianSplats3D"@,
        "Pinhole"@,
    ];
    assert(deep[0] == "GridMap"@ && deep[1] == "VoxelGridMap"@ && deep[2] == "Points3D"@ && deep[3]
        == "Boxes3D"@ && deep[4] == "Arrows3D"@ && deep[5] == "LineStrips3D"@ && deep[6]
        == "Mesh3D"@ && deep[7] == "Asset3D"@ && deep[8] == "Capsules3D"@ && deep[9]
        == "Cylinders3D"@ && deep[10] == "Ellipsoids3D"@ && deep[11] == "GaussianSplats3D"@
        && deep[12] == "Pinhole"@);
}

/// What can be seen ranks above what can be plotted, and anything ranks above raw data: pictures
/// first, then maps, drawings in the plane, drawings in space, transforms, curves, states and
/// log lines.
pub proof fn law_views_rank_from_pictures_to_raw_data()
    ensures
        rank(EntityVisualization::Camera) > rank(EntityVisualization::GeoMap),
        rank(EntityVisualization::GeoMap) > rank(EntityVisualization::Spatial2d),
        rank(EntityVisualization::Spatial2d) > rank(EntityVisualization::Spatial3d),
        rank(EntityVisualization::Spatial3d) > rank(EntityVisualization::Transform3d),
        rank(EntityVisualization::Transform3d) > rank(EntityVisualization::TimeSeries),
        rank(EntityVisualization::TimeSeries) > rank(EntityVisualization::State),
        rank(EntityVisualization::State) > rank(EntityVisualization::Log),
        rank(EntityVisualization::Log) > rank(EntityVisualization::Raw),
{
}

proof fn lemma_named(spans: Seq<TimelineSpanView>, name: Seq<char>, i: int, k: int)
    requires
        0 <= i <= k < spans.len(),
        spans[k].name == name,
    ensures
        named_from(spans, name, i),
    decreases k - i,
{
    if i < k {
        lemma_named(spans, name, i + 1, k);
    }
}

proof fn lemma_first_clock(spans: Seq<TimelineSpanView>, i: int)
    requires
        0 <= i <= spans.len(),
    ensures
        match first_clock(spans, i) {
            Some(name) => exists|k: int|
                i <= k < spans.len() && (#[trigger] spans[k]).name == name && spans[k].kind
                    != TimelineKind::Sequence && forall|j: int|
                    i <= j < k ==> (#[trigger] spans[j]).kind == TimelineKind::Sequence,
            None => forall|j: int|
                i <= j < spans.len() ==> (#[trigger] spans[j]).kind == TimelineKind::Sequence,
        },
    decreases spans.len() - i,
{
    if i < spans.len() {
        lemma_first_clock(spans, i + 1);
        if spans[i].kind == TimelineKind::Sequence {
            if first_clock(spans, i) is Some {
                let name = first_clock(spans, i)->Some_0;
                let k = choose|k: int|
                    i + 1 <= k < spans.len() && (#[trigger] spans[k]).name == name && spans[k].kind
                        != TimelineKind::Sequence && forall|j: int|
                        i + 1 <= j < k ==> (#[trigger] spans[j]).kind == TimelineKind::Sequence;
                assert(spans[k].name == name);
            }
        } else {
            assert(spans[i].name == first_clock(spans, i)->Some_0);
        }
    }
}

/// Whether a recording reports a timeline of a name.
pub open spec fn has_timeline(v: VerifiedRrdView, name: Seq<char>) -> bool {
    exists|k: int| 0 <= k < v.timelines.len() && (#[trigger] v.timelines[k]).name == name
}

/// A recording opens with the timeline that was asked for, where it has that one; else with the
/// message log time, where it has that; else with its first timeline that is a clock; and with
/// its first timeline where none is a clock.
pub proof fn law_recordings_open_with_the_preferred_timeline(
    f: RrdFileView,
    hint: Option<Seq<char>>,
    path: Seq<char>,
)
    requires
        rrd_outcome(f, hint, path) is Ok,
    ensures
        ({
            let v = rrd_outcome(f, hint, path)->Ok_0;
            let asked = hint is Some && has_timeline(v, hint->Some_0);
            let logged = has_timeline(v, "message_log_time"@);
            &&& asked ==> v.default_timeline == hint->Some_0
            &&& !asked && logged ==> v.default_timeline == "message_log_time"@
            &&& forall|k: int|
                !asked && !logged && 0 <= k < v.timelines.len() && (#[trigger] v.timelines[k]).kind
                    != TimelineKind::Sequence && (forall|j: int|
                    0 <= j < k ==> (#[trigger] v.timelines[j]).kind == TimelineKind::Sequence)
                    ==> v.default_timeline == v.timelines[k].name
            &&& !asked && !logged && (forall|k: int|
                0 <= k < v.timelines.len() ==> (#[trigger] v.timelines[k]).kind
                    == TimelineKind::Sequence) ==> v.default_timeline == v.timelines[0].name
        }),
{
    let v = rrd_outcome(f, hint, path)->Ok_0;
    let spans = v.timelines;
    assert(v.default_timeline == opening_timeline(spans, hint));
    assert forall|name: Seq<char>| #[trigger] has_timeline(v, name) == named_from(spans, name, 0) by {
        if has_timeline(v, name) {
            let k = choose|k: int| 0 <= k < spans.len() && (#[trigger] spans[k]).name == name;
            lemma_named(spans, name, 0, k);
        }
        if named_from(spans, name, 0) {
            lemma_named_position(spans, name, 0);
        }
    }
    lemma_first_clock(spans, 0);
    if hint is Some {
        assert(has_timeline(v, hint->Some_0) == named_from(spans, hint->Some_0, 0));
    }
    assert(has_timeline(v, "message_log_time"@) == named_from(spans, "message_log_time"@, 0));
    if first_clock(spans, 0) is Some {
        let name = first_clock(spans, 0)->Some_0;
        let c = choose|k: int|
            0 <= k < spans.len() && (#[trigger] spans[k]).name == name && spans[k].kind
                != TimelineKind::Sequence && forall|j: int|
                0 <= j < k ==> (#[trigger] spans[j]).kind == TimelineKind::Sequence;
        assert(spans[c].kind != TimelineKind::Sequence);
    }
}

/// A verified recording lists exactly the entities that its manifest has data of, temporal or
/// static.
pub proof fn law_recordings_list_their_entities(
    f: RrdFileView,
    hint: Option<Seq<char>>,
    path: Seq<char>,
    r: int,
    entity: Seq<char>,
)
    requires
        rrd_outcome(f, hint, path) is Ok,
        0 <= r < f.stores.len(),
        f.stores[r].is_recording,
    ensures
        rrd_outcome(f, hint, path)->Ok_0.entity_paths.contains(entity) <==> (
        f.stores[r].temporal_entities.contains(entity) || f.stores[r].static_entities.contains(
            entity,
        )),
{
    let v = rrd_outcome(f, hint, path)->Ok_0;
    let s = f.stores[r];
    lemma_only_recording(f.stores, 0, r);
    assert(summary(s, hint, path) == Ok::<VerifiedRrdView, ImportErrorView>(v));
    let names = s.temporal_entities + s.static_entities;
    let paths = store_entities(s);
    assert(paths.dom() =~= names.to_set());
    vstd::seq_lib::seq_to_set_is_finite(names);
    table::lemma_items_exist(paths);
    let listed = table::items_of(paths);
    table::lemma_items_all(listed);
    assert(forall|i: int| 0 <= i < listed.len() ==> (#[trigger] v.entity_paths[i]) == listed[i].0);
    if v.entity_paths.contains(entity) {
        let i = choose|i: int| 0 <= i < v.entity_paths.len() && v.entity_paths[i] == entity;
        assert(paths.contains_key(listed[i].0));
        let j = choose|j: int| 0 <= j < names.len() && names[j] == entity;
        if j < s.temporal_entities.len() {
            assert(s.temporal_entities[j] == entity);
        } else {
            assert(s.static_entities[j - s.temporal_entities.len()] == entity);
        }
    }
    if s.temporal_entities.contains(entity) || s.static_entities.contains(entity) {
        if s.temporal_entities.contains(entity) {
            let j = choose|j: int| 0 <= j < s.temporal_entities.len() && s.temporal_entities[j] == entity;
            assert(names[j] == entity);
        } else {
            let j = choose|j: int| 0 <= j < s.static_entities.len() && s.static_entities[j] == entity;
            assert(names[s.temporal_entities.len() + j] == entity);
        }
        assert(paths.contains_key(entity));
        let i = table::key_index(listed, entity);
        assert(v.entity_paths[i] == entity);
    }
}

/// Whether the column at `k` shows an entity in a view.
pub open spec fn column_shows(
    columns: Seq<ComponentColumnView>,
    k: int,
    entity: Seq<char>,
    v: EntityVisualization,
) -> bool {
    0 <= k < columns.len() && columns[k].entity_path == entity && (columns[k].archetype matches Some(
        a,
    ) && shown_as(a) == Some(v))
}

proof fn lemma_view_has_a_column(
    columns: Seq<ComponentColumnView>,
    i: int,
    m: Map<Seq<char>, EntityVisualization>,
    p: Seq<char>,
)
    requires
        0 <= i <= columns.len(),
        m.contains_key(p) ==> m[p] == EntityVisualization::Raw || exists|k: int| #[trigger]
            column_shows(columns, k, p, m[p]),
    ensures
        ranked_from(columns, i, m).contains_key(p) ==> ranked_from(columns, i, m)[p]
            == EntityVisualization::Raw || exists|k: int| #[trigger]
            column_shows(columns, k, p, ranked_from(columns, i, m)[p]),
    decreases columns.len() - i,
{
    if i < columns.len() {
        let next = ranked(columns[i], m);
        if next.contains_key(p) && next[p] != EntityVisualization::Raw && !(m.contains_key(p)
            && m[p] == next[p]) {
            assert(column_shows(columns, i, p, next[p]));
        }
        lemma_view_has_a_column(columns, i + 1, next, p);
    }
}

/// Each entity of a verified recording is shown in the view of one of its own archetypes, the
/// highest-ranked of them, or as raw data.
pub proof fn law_descriptors_show_the_highest_view(
    f: RrdFileView,
    hint: Option<Seq<char>>,
    path: Seq<char>,
    r: int,
    i: int,
)
    requires
        rrd_outcome(f, hint, path) is Ok,
        0 <= r < f.stores.len(),
        f.stores[r].is_recording,
        0 <= i < rrd_outcome(f, hint, path)->Ok_0.entity_descriptors.len(),
    ensures
        ({
            let d = rrd_outcome(f, hint, path)->Ok_0.entity_descriptors[i];
            let columns = f.stores[r].components;
            &&& d.visualization == EntityVisualization::Raw || exists|k: int| #[trigger]
                column_shows(columns, k, d.path, d.visualization)
            &&& forall|k: int, v: EntityVisualization| #[trigger]
                column_shows(columns, k, d.path, v) ==> rank(v) <= rank(d.visualization)
        }),
{
    let out = rrd_outcome(f, hint, path)->Ok_0;
    let s = f.stores[r];
    lemma_only_recording(f.stores, 0, r);
    assert(summary(s, hint, path) == Ok::<VerifiedRrdView, ImportErrorView>(out));
    let names = s.temporal_entities + s.static_entities;
    let paths = store_entities(s);
    assert(paths.dom() =~= names.to_set());
    vstd::seq_lib::seq_to_set_is_finite(names);
    assert(all_raw(paths).dom() =~= paths.dom());
    lemma_ranked_finite(s.components, 0, all_raw(paths));
    let shown = entity_views(s.components, paths);
    table::lemma_items_exist(shown);
    let items = table::items_of(shown);
    table::lemma_items_all(items);
    let d = out.entity_descriptors[i];
    assert(d.path == items[i].0 && d.visualization == items[i].1);
    assert(shown.contains_key(d.path) && shown[d.path] == d.visualization);
    lemma_view_has_a_column(s.components, 0, all_raw(paths), d.path);
    assert forall|k: int, v: EntityVisualization| #[trigger]
        column_shows(s.components, k, d.path, v) implies rank(v) <= rank(d.visualization) by {
        law_entities_take_their_highest_view(s.components, paths, k, v);
    }
}

} // verus!
