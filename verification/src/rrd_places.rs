//! Where a recording lies has no part in what is found of it: the path of a file is only told in
//! the text of an error.

use crate::import::{ImportErrorView, TimelineKind};
use crate::rrd_manifest;
use crate::rrd_manifest::{
    ChunkTotals, DecodedChunkView, ExpectedChunkView, ManifestChunkView, ManifestColumnView,
    TemporalRangeView, TemporalTimelineView,
};
use crate::rrd_verify;
use crate::rrd_verify::{RrdFileView, RrdPayloadsView, RrdStoreView};
use crate::rrd_wire;
use crate::rrd_wire::{DataframeFields, FooterCount, ManifestFields};
use vstd::prelude::*;

verus! {

/// Two outcomes that differ at most in what their errors say.
pub open spec fn alike<T>(a: Result<T, ImportErrorView>, b: Result<T, ImportErrorView>) -> bool {
    match (a, b) {
        (Ok(x), Ok(y)) => x == y,
        (Err(_), Err(_)) => true,
        _ => false,
    }
}

proof fn lemma_varint_from(b: Seq<u8>, at: int, i: int, p: Seq<char>, q: Seq<char>)
    requires
        0 <= i <= 10,
    ensures
        alike(rrd_wire::varint_from(b, at, i, p), rrd_wire::varint_from(b, at, i, q)),
    decreases 10 - i,
{
    if i < 9 {
        lemma_varint_from(b, at, i + 1, p, q);
    }
}

proof fn lemma_fields(b: Seq<u8>, at: int, p: Seq<char>, q: Seq<char>)
    ensures
        alike(rrd_wire::varint(b, at, p), rrd_wire::varint(b, at, q)),
        alike(rrd_wire::field_key(b, at, p), rrd_wire::field_key(b, at, q)),
        alike(rrd_wire::field_span(b, at, p), rrd_wire::field_span(b, at, q)),
{
    lemma_varint_from(b, at, 0, p, q);
}

proof fn lemma_schema(b: Seq<u8>, p: Seq<char>, q: Seq<char>)
    ensures
        rrd_wire::schema_failure(b, p) is None <==> rrd_wire::schema_failure(b, q) is None,
{
    lemma_fields(b, 0, p, q);
    match rrd_wire::field_key(b, 0, p) {
        Ok((_, _, at)) => {
            lemma_fields(b, at, p, q);
        },
        Err(_) => {},
    }
}

proof fn lemma_dataframe_step(b: Seq<u8>, at: int, f: DataframeFields, p: Seq<char>, q: Seq<char>)
    ensures
        alike(rrd_wire::dataframe_step(b, at, f, p), rrd_wire::dataframe_step(b, at, f, q)),
{
    lemma_fields(b, at, p, q);
    match rrd_wire::field_key(b, at, p) {
        Ok((_, _, from)) => {
            lemma_fields(b, from, p, q);
        },
        Err(_) => {},
    }
}

proof fn lemma_dataframe_fields(b: Seq<u8>, at: int, f: DataframeFields, p: Seq<char>, q: Seq<char>)
    ensures
        alike(rrd_wire::dataframe_fields(b, at, f, p), rrd_wire::dataframe_fields(b, at, f, q)),
    decreases b.len() - at,
{
    if 0 <= at < b.len() {
        lemma_dataframe_step(b, at, f, p, q);
        rrd_wire::lemma_dataframe_step_end(b, at, f, p);
        match rrd_wire::dataframe_step(b, at, f, p) {
            Ok((g, end)) => {
                lemma_dataframe_fields(b, end, g, p, q);
            },
            Err(_) => {},
        }
    }
}

proof fn lemma_manifest_step(b: Seq<u8>, at: int, f: ManifestFields, p: Seq<char>, q: Seq<char>)
    ensures
        alike(rrd_wire::manifest_step(b, at, f, p), rrd_wire::manifest_step(b, at, f, q)),
{
    lemma_fields(b, at, p, q);
    match rrd_wire::field_key(b, at, p) {
        Ok((field, wire, from)) => {
            lemma_fields(b, from, p, q);
            match rrd_wire::field_span(b, from, p) {
                Ok((start, end)) => {
                    let content = b.subrange(start, end);
                    lemma_schema(content, p, q);
                    lemma_dataframe_fields(content, 0, rrd_wire::no_fields(), p, q);
                    assert(alike(
                        rrd_wire::dataframe_budget(content, p),
                        rrd_wire::dataframe_budget(content, q),
                    ));
                },
                Err(_) => {},
            }
        },
        Err(_) => {},
    }
}

proof fn lemma_manifest_fields(b: Seq<u8>, at: int, f: ManifestFields, p: Seq<char>, q: Seq<char>)
    ensures
        alike(rrd_wire::manifest_fields(b, at, f, p), rrd_wire::manifest_fields(b, at, f, q)),
    decreases b.len() - at,
{
    if 0 <= at < b.len() {
        lemma_manifest_step(b, at, f, p, q);
        rrd_wire::lemma_manifest_step_end(b, at, f, p);
        match rrd_wire::manifest_step(b, at, f, p) {
            Ok((g, end)) => {
                lemma_manifest_fields(b, end, g, p, q);
            },
            Err(_) => {},
        }
    }
}

proof fn lemma_footer_step(b: Seq<u8>, at: int, c: FooterCount, p: Seq<char>, q: Seq<char>)
    ensures
        alike(rrd_wire::footer_step(b, at, c, p), rrd_wire::footer_step(b, at, c, q)),
{
    lemma_fields(b, at, p, q);
    match rrd_wire::field_key(b, at, p) {
        Ok((field, wire, from)) => {
            lemma_fields(b, from, p, q);
            match rrd_wire::field_span(b, from, p) {
                Ok((start, end)) => {
                    let content = b.subrange(start, end);
                    lemma_manifest_fields(content, 0, rrd_wire::empty_manifest(), p, q);
                    assert(alike(
                        rrd_wire::manifest_budget(content, p),
                        rrd_wire::manifest_budget(content, q),
                    ));
                },
                Err(_) => {},
            }
        },
        Err(_) => {},
    }
}

proof fn lemma_footer_count(b: Seq<u8>, at: int, c: FooterCount, p: Seq<char>, q: Seq<char>)
    ensures
        alike(rrd_wire::footer_count(b, at, c, p), rrd_wire::footer_count(b, at, c, q)),
    decreases b.len() - at,
{
    if 0 <= at < b.len() {
        lemma_footer_step(b, at, c, p, q);
        rrd_wire::lemma_footer_step_end(b, at, c, p);
        match rrd_wire::footer_step(b, at, c, p) {
            Ok((d, end)) => {
                lemma_footer_count(b, end, d, p, q);
            },
            Err(_) => {},
        }
    }
}

proof fn lemma_rows(counts: Seq<usize>, i: int, total: int, p: Seq<char>, q: Seq<char>)
    ensures
        rrd_manifest::rows_failure(counts, i, total, p) is None <==> rrd_manifest::rows_failure(
            counts,
            i,
            total,
            q,
        ) is None,
    decreases counts.len() - i,
{
    if 0 <= i < counts.len() {
        lemma_rows(counts, i + 1, total + counts[i], p, q);
    }
}

proof fn lemma_manifest_totals(
    chunks: Seq<ManifestChunkView>,
    i: int,
    t: ChunkTotals,
    size: u64,
    header: u64,
    p: Seq<char>,
    q: Seq<char>,
)
    ensures
        alike(
            rrd_manifest::manifest_totals(chunks, i, t, size, header, p),
            rrd_manifest::manifest_totals(chunks, i, t, size, header, q),
        ),
    decreases chunks.len() - i,
{
    if 0 <= i < chunks.len() {
        lemma_manifest_totals(
            chunks,
            i + 1,
            rrd_manifest::counted_chunk(t, chunks[i]),
            size,
            header,
            p,
            q,
        );
    }
}

proof fn lemma_all_totals(
    manifests: Seq<Seq<ManifestChunkView>>,
    i: int,
    count: int,
    t: ChunkTotals,
    size: u64,
    header: u64,
    p: Seq<char>,
    q: Seq<char>,
)
    ensures
        alike(
            rrd_manifest::all_totals(manifests, i, count, t, size, header, p),
            rrd_manifest::all_totals(manifests, i, count, t, size, header, q),
        ),
    decreases manifests.len() - i,
{
    if 0 <= i < manifests.len() {
        lemma_manifest_totals(manifests[i], 0, t, size, header, p, q);
        match rrd_manifest::manifest_totals(manifests[i], 0, t, size, header, p) {
            Ok(u) => {
                lemma_all_totals(
                    manifests,
                    i + 1,
                    count + manifests[i].len(),
                    u,
                    size,
                    header,
                    p,
                    q,
                );
            },
            Err(_) => {},
        }
    }
}

proof fn lemma_listed(
    chunks: Seq<ManifestChunkView>,
    i: int,
    m: Map<Seq<char>, ExpectedChunkView>,
    p: Seq<char>,
    q: Seq<char>,
)
    ensures
        alike(
            rrd_manifest::listed_from(chunks, i, m, p),
            rrd_manifest::listed_from(chunks, i, m, q),
        ),
    decreases chunks.len() - i,
{
    if 0 <= i < chunks.len() {
        lemma_listed(
            chunks,
            i + 1,
            m.insert(chunks[i].id, rrd_manifest::blank_chunk(chunks[i].num_rows)),
            p,
            q,
        );
    }
}

proof fn lemma_static_rows(
    component: Seq<char>,
    values: Seq<bool>,
    chunks: Seq<ManifestChunkView>,
    row: int,
    m: Map<Seq<char>, ExpectedChunkView>,
    p: Seq<char>,
    q: Seq<char>,
)
    ensures
        alike(
            rrd_manifest::static_rows(component, values, chunks, row, m, p),
            rrd_manifest::static_rows(component, values, chunks, row, m, q),
        ),
    decreases values.len() - row,
{
    if 0 <= row < values.len() {
        let n = if values[row] {
            m.insert(
                chunks[row].id,
                rrd_manifest::with_component(m[chunks[row].id], component),
            )
        } else {
            m
        };
        lemma_static_rows(component, values, chunks, row + 1, n, p, q);
    }
}

proof fn lemma_static_columns(
    columns: Seq<ManifestColumnView>,
    chunks: Seq<ManifestChunkView>,
    i: int,
    m: Map<Seq<char>, ExpectedChunkView>,
    p: Seq<char>,
    q: Seq<char>,
)
    ensures
        alike(
            rrd_manifest::static_columns(columns, chunks, i, m, p),
            rrd_manifest::static_columns(columns, chunks, i, m, q),
        ),
    decreases columns.len() - i,
{
    if 0 <= i < columns.len() {
        lemma_static_columns(columns, chunks, i + 1, m, p, q);
        if columns[i].component is Some && columns[i].booleans is Some {
            let component = columns[i].component->Some_0;
            let values = columns[i].booleans->Some_0;
            lemma_static_rows(component, values, chunks, 0, m, p, q);
            match rrd_manifest::static_rows(component, values, chunks, 0, m, p) {
                Ok(n) => {
                    lemma_static_columns(columns, chunks, i + 1, n, p, q);
                },
                Err(_) => {},
            }
        }
    }
}

proof fn lemma_timeline_rows(
    timeline: Seq<char>,
    kind: TimelineKind,
    starts: ManifestColumnView,
    ends: ManifestColumnView,
    chunks: Seq<ManifestChunkView>,
    row: int,
    m: Map<Seq<char>, ExpectedChunkView>,
    p: Seq<char>,
    q: Seq<char>,
)
    ensures
        alike(
            rrd_manifest::timeline_rows(timeline, kind, starts, ends, chunks, row, m, p),
            rrd_manifest::timeline_rows(timeline, kind, starts, ends, chunks, row, m, q),
        ),
    decreases chunks.len() - row,
{
    if 0 <= row < chunks.len() {
        lemma_timeline_rows(timeline, kind, starts, ends, chunks, row + 1, m, p, q);
        let n = m.insert(
            chunks[row].id,
            rrd_manifest::with_timeline(
                m[chunks[row].id],
                timeline,
                kind,
                rrd_manifest::TimeRange { start: starts.times[row], end: ends.times[row] },
            ),
        );
        lemma_timeline_rows(timeline, kind, starts, ends, chunks, row + 1, n, p, q);
    }
}

proof fn lemma_timeline_column(
    columns: Seq<ManifestColumnView>,
    chunks: Seq<ManifestChunkView>,
    i: int,
    m: Map<Seq<char>, ExpectedChunkView>,
    p: Seq<char>,
    q: Seq<char>,
)
    ensures
        alike(
            rrd_manifest::timeline_column(columns, chunks, i, m, p),
            rrd_manifest::timeline_column(columns, chunks, i, m, q),
        ),
{
    let timeline = columns[i].index->Some_0;
    match rrd_manifest::end_column(columns, timeline, 0) {
        None => {},
        Some(j) => {
            if columns[i].kind is Some {
                lemma_timeline_rows(
                    timeline,
                    columns[i].kind->Some_0,
                    columns[i],
                    columns[j],
                    chunks,
                    0,
                    m,
                    p,
                    q,
                );
            }
        },
    }
}

proof fn lemma_timeline_columns(
    columns: Seq<ManifestColumnView>,
    chunks: Seq<ManifestChunkView>,
    i: int,
    m: Map<Seq<char>, ExpectedChunkView>,
    p: Seq<char>,
    q: Seq<char>,
)
    ensures
        alike(
            rrd_manifest::timeline_columns(columns, chunks, i, m, p),
            rrd_manifest::timeline_columns(columns, chunks, i, m, q),
        ),
    decreases columns.len() - i,
{
    if 0 <= i < columns.len() {
        lemma_timeline_columns(columns, chunks, i + 1, m, p, q);
        lemma_timeline_column(columns, chunks, i, m, p, q);
        match rrd_manifest::timeline_column(columns, chunks, i, m, p) {
            Ok(n) => {
                lemma_timeline_columns(columns, chunks, i + 1, n, p, q);
            },
            Err(_) => {},
        }
    }
}

proof fn lemma_indexed_ranges(
    ranges: Seq<TemporalRangeView>,
    k: int,
    m: Map<Seq<char>, ExpectedChunkView>,
    p: Seq<char>,
    q: Seq<char>,
)
    ensures
        alike(
            rrd_manifest::indexed_ranges(ranges, k, m, p),
            rrd_manifest::indexed_ranges(ranges, k, m, q),
        ),
    decreases ranges.len() - k,
{
    if 0 <= k < ranges.len() {
        lemma_indexed_ranges(
            ranges,
            k + 1,
            m.insert(
                ranges[k].chunk_id,
                rrd_manifest::with_component(m[ranges[k].chunk_id], ranges[k].component),
            ),
            p,
            q,
        );
    }
}

proof fn lemma_indexed_timelines(
    temporal: Seq<TemporalTimelineView>,
    i: int,
    m: Map<Seq<char>, ExpectedChunkView>,
    p: Seq<char>,
    q: Seq<char>,
)
    ensures
        alike(
            rrd_manifest::indexed_timelines(temporal, i, m, p),
            rrd_manifest::indexed_timelines(temporal, i, m, q),
        ),
    decreases temporal.len() - i,
{
    if 0 <= i < temporal.len() {
        lemma_indexed_ranges(temporal[i].ranges, 0, m, p, q);
        match rrd_manifest::indexed_ranges(temporal[i].ranges, 0, m, p) {
            Ok(n) => {
                lemma_indexed_timelines(temporal, i + 1, n, p, q);
            },
            Err(_) => {},
        }
    }
}

proof fn lemma_promised(s: RrdStoreView, p: Seq<char>, q: Seq<char>)
    ensures
        alike(
            rrd_manifest::promised(s.chunks, s.columns, s.temporal, p),
            rrd_manifest::promised(s.chunks, s.columns, s.temporal, q),
        ),
{
    lemma_listed(s.chunks, 0, Map::empty(), p, q);
    match rrd_manifest::listed_from(s.chunks, 0, Map::empty(), p) {
        Ok(a) => {
            lemma_static_columns(s.columns, s.chunks, 0, a, p, q);
            match rrd_manifest::static_columns(s.columns, s.chunks, 0, a, p) {
                Ok(b) => {
                    lemma_timeline_columns(s.columns, s.chunks, 0, b, p, q);
                    match rrd_manifest::timeline_columns(s.columns, s.chunks, 0, b, p) {
                        Ok(c) => {
                            lemma_indexed_timelines(s.temporal, 0, c, p, q);
                        },
                        Err(_) => {},
                    }
                },
                Err(_) => {},
            }
        },
        Err(_) => {},
    }
}

proof fn lemma_promises(
    stores: Seq<RrdStoreView>,
    i: int,
    done: Seq<Map<Seq<char>, ExpectedChunkView>>,
    p: Seq<char>,
    q: Seq<char>,
)
    ensures
        alike(
            rrd_verify::promises_from(stores, i, done, p),
            rrd_verify::promises_from(stores, i, done, q),
        ),
    decreases stores.len() - i,
{
    if 0 <= i < stores.len() {
        lemma_promised(stores[i], p, q);
        match rrd_manifest::promised(stores[i].chunks, stores[i].columns, stores[i].temporal, p) {
            Ok(m) => {
                lemma_promises(stores, i + 1, done.push(m), p, q);
            },
            Err(_) => {},
        }
    }
}

proof fn lemma_transports(
    chunks: Seq<ManifestChunkView>,
    payloads: RrdPayloadsView,
    k: int,
    p: Seq<char>,
    q: Seq<char>,
)
    ensures
        rrd_verify::transports_failure(chunks, payloads, k, p) is None
            <==> rrd_verify::transports_failure(chunks, payloads, k, q) is None,
    decreases chunks.len() - k,
{
    if 0 <= k < chunks.len() {
        lemma_transports(chunks, payloads, k + 1, p, q);
    }
}

proof fn lemma_all_transports(
    stores: Seq<RrdStoreView>,
    payloads: Seq<RrdPayloadsView>,
    i: int,
    p: Seq<char>,
    q: Seq<char>,
)
    ensures
        rrd_verify::all_transports_failure(stores, payloads, i, p) is None
            <==> rrd_verify::all_transports_failure(stores, payloads, i, q) is None,
    decreases stores.len() - i,
{
    if 0 <= i < stores.len() {
        lemma_transports(stores[i].chunks, payloads[i], 0, p, q);
        lemma_all_transports(stores, payloads, i + 1, p, q);
    }
}

proof fn lemma_chunks(
    decoded: Seq<DecodedChunkView>,
    chunks: Seq<ManifestChunkView>,
    promises: Map<Seq<char>, ExpectedChunkView>,
    k: int,
    p: Seq<char>,
    q: Seq<char>,
)
    ensures
        rrd_verify::chunks_failure(decoded, chunks, promises, k, p) is None
            <==> rrd_verify::chunks_failure(decoded, chunks, promises, k, q) is None,
    decreases decoded.len() - k,
{
    if 0 <= k < decoded.len() {
        lemma_chunks(decoded, chunks, promises, k + 1, p, q);
    }
}

proof fn lemma_all_chunks(
    stores: Seq<RrdStoreView>,
    payloads: Seq<RrdPayloadsView>,
    promises: Seq<Map<Seq<char>, ExpectedChunkView>>,
    i: int,
    p: Seq<char>,
    q: Seq<char>,
)
    ensures
        rrd_verify::all_chunks_failure(stores, payloads, promises, i, p) is None
            <==> rrd_verify::all_chunks_failure(stores, payloads, promises, i, q) is None,
    decreases stores.len() - i,
{
    if 0 <= i < stores.len() {
        lemma_chunks(payloads[i].decoded, stores[i].chunks, promises[i], 0, p, q);
        lemma_all_chunks(stores, payloads, promises, i + 1, p, q);
    }
}

/// A recording is verified alike wherever it lies: accepted under both paths, with the same
/// findings, or refused under both.
pub proof fn law_verification_does_not_depend_on_the_path(
    f: RrdFileView,
    hint: Option<Seq<char>>,
    p: Seq<char>,
    q: Seq<char>,
)
    ensures
        alike(rrd_verify::rrd_outcome(f, hint, p), rrd_verify::rrd_outcome(f, hint, q)),
{
    let none = FooterCount { manifests: 0, budget: 0 };
    lemma_footer_count(f.footer_payload, 0, none, p, q);
    lemma_rows(f.row_counts, 0, 0, p, q);
    lemma_promises(f.stores, 0, Seq::empty(), p, q);
    lemma_all_totals(
        rrd_verify::store_chunks(f.stores),
        0,
        0,
        rrd_manifest::no_totals(),
        f.size,
        f.header_size,
        p,
        q,
    );
    lemma_all_transports(f.stores, f.payloads, 0, p, q);
    match rrd_verify::promises_from(f.stores, 0, Seq::empty(), p) {
        Ok(promises) => {
            lemma_all_chunks(f.stores, f.payloads, promises, 0, p, q);
        },
        Err(_) => {},
    }
    assert(rrd_wire::pointer_failure(f.footers, f.size, f.header_size, f.footer_size, p) is None
        <==> rrd_wire::pointer_failure(f.footers, f.size, f.header_size, f.footer_size, q) is None);
    assert(rrd_wire::footer_failure(f.footer_payload, p) is None <==> rrd_wire::footer_failure(
        f.footer_payload,
        q,
    ) is None);
    assert(alike(
        rrd_verify::manifests_outcome(f.stores, f.row_counts, f.size, f.header_size, p),
        rrd_verify::manifests_outcome(f.stores, f.row_counts, f.size, f.header_size, q),
    ));
    assert(alike(
        rrd_verify::recording_outcome(f.stores, hint, p),
        rrd_verify::recording_outcome(f.stores, hint, q),
    ));
}

/// What an import found of the entities of its recording is what a later inspection finds, under
/// whatever path the recording lies by then.
pub proof fn law_inspection_finds_what_verification_found(
    f: RrdFileView,
    hint: Option<Seq<char>>,
    p: Seq<char>,
    q: Seq<char>,
)
    ensures
        rrd_verify::rrd_outcome(f, hint, p) matches Ok(v) ==> rrd_verify::rrd_outcome(
            f,
            None,
            q,
        ) matches Ok(again) && again.entity_paths == v.entity_paths && again.entity_descriptors
            == v.entity_descriptors,
{
    law_verification_does_not_depend_on_the_path(f, hint, p, q);
    rrd_verify::law_entities_have_one_descriptor(f, hint, q, 0);
}

} // verus!
