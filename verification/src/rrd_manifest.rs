//! The manifests of an RRD: what they list, and that the payloads agree with them.

use crate::catalog::Marker;
use crate::import::{ImportError, ImportErrorView, TimelineKind};
use crate::rrd_wire;
use crate::spans;
use crate::table;
use crate::table::{Copied, Table};
use crate::text;
use vstd::prelude::*;

verus! {

pub const MAX_RRD_CHUNKS: usize = 65_536;
pub const MAX_RRD_CHUNK_COMPRESSED_BYTES: u64 = 67_108_864;
pub const MAX_RRD_CHUNK_UNCOMPRESSED_BYTES: u64 = 67_108_864;
pub const MAX_RRD_TOTAL_COMPRESSED_BYTES: u64 = 2_147_483_648;
pub const MAX_RRD_TOTAL_UNCOMPRESSED_BYTES: u64 = 2_147_483_648;
pub const RRD_DECODE_BATCH_BYTES: u64 = 67_108_864;
pub const RRD_DECODE_BATCH_CHUNKS: usize = 32;

/// One chunk as a manifest lists it.
#[derive(Debug)]
pub struct ManifestChunk {
    pub id: String,
    pub entity_path: String,
    pub is_static: bool,
    pub num_rows: u64,
    pub offset: u64,
    pub size: u64,
    pub uncompressed: u64,
}

#[verifier::ext_equal]
pub struct ManifestChunkView {
    pub id: Seq<char>,
    pub entity_path: Seq<char>,
    pub is_static: bool,
    pub num_rows: u64,
    pub offset: u64,
    pub size: u64,
    pub uncompressed: u64,
}

impl View for ManifestChunk {
    type V = ManifestChunkView;

    open spec fn view(&self) -> ManifestChunkView {
        ManifestChunkView {
            id: self.id@,
            entity_path: self.entity_path@,
            is_static: self.is_static,
            num_rows: self.num_rows,
            offset: self.offset,
            size: self.size,
            uncompressed: self.uncompressed,
        }
    }
}

impl Copied for ManifestChunk {
    fn copied(&self) -> (r: Self) {
        ManifestChunk {
            id: self.id.clone(),
            entity_path: self.entity_path.clone(),
            is_static: self.is_static,
            num_rows: self.num_rows,
            offset: self.offset,
            size: self.size,
            uncompressed: self.uncompressed,
        }
    }
}

/// The fault of the row counts from `i` on, after `total` rows.
pub open spec fn rows_failure(counts: Seq<usize>, i: int, total: int, path: Seq<char>) -> Option<
    ImportErrorView,
>
    decreases counts.len() - i,
{
    if i < 0 || i >= counts.len() {
        None
    } else if total + counts[i] > usize::MAX {
        Some(rrd_wire::resource_failure("RRD manifest row count overflow"@, path))
    } else if total + counts[i] > MAX_RRD_CHUNKS {
        Some(
            rrd_wire::resource_failure(
                "RRD has more than "@ + text::decimal(MAX_RRD_CHUNKS as nat) + " manifest rows"@,
                path,
            ),
        )
    } else {
        rows_failure(counts, i + 1, total + counts[i], path)
    }
}

/// Checks the number of rows of all manifests together.
pub fn validate_raw_manifest_row_count(row_counts: &[usize], path: &str) -> (r: Result<
    (),
    ImportError,
>)
    ensures
        rrd_wire::fault(r) == rows_failure(row_counts@, 0, 0, path@),
{
    let n: usize = row_counts.len();
    let mut total: usize = 0;
    let mut i: usize = 0;
    while i < n
        invariant
            n == row_counts@.len(),
            i <= n,
            rows_failure(row_counts@, 0, 0, path@) == rows_failure(
                row_counts@,
                i as int,
                total as int,
                path@,
            ),
        decreases n - i,
    {
        match total.checked_add(row_counts[i]) {
            Some(next) => {
                total = next;
            },
            None => {
                return Err(
                    rrd_wire::rrd_resource_error(
                        text::line("RRD manifest row count overflow"),
                        path,
                    ),
                );
            },
        }
        if total > MAX_RRD_CHUNKS {
            return Err(
                rrd_wire::rrd_resource_error(
                    text::line("RRD has more than ").num(MAX_RRD_CHUNKS as u64).add(
                        " manifest rows",
                    ),
                    path,
                ),
            );
        }
        i = i + 1;
    }
    Ok(())
}

pub open spec fn span_text(s: (u64, u64)) -> Seq<char> {
    "("@ + text::decimal(s.0 as nat) + ", "@ + text::decimal(s.1 as nat) + ")"@
}

fn span_label(s: (u64, u64)) -> (r: String)
    ensures
        r@ == span_text(s),
{
    text::line("(").num(s.0).add(", ").num(s.1).add(")").done()
}

/// The fault of a set of chunk spans: two of them overlap.
pub open spec fn spans_failure(s: Seq<(u64, u64)>, path: Seq<char>) -> Option<ImportErrorView> {
    let sorted = spans::arranged(s);
    match spans::overlap_from(sorted, 0) {
        Some(i) => Some(
            rrd_wire::validation_failure(
                "RRD chunk spans overlap: "@ + span_text(sorted[i]) + " and "@ + span_text(
                    sorted[i + 1],
                ),
                path,
            ),
        ),
        None => None,
    }
}

/// Puts the chunk spans in ascending order and checks that no two of them overlap.
pub fn validate_rrd_chunk_span_set(chunk_spans: &mut Vec<(u64, u64)>, path: &str) -> (r: Result<
    (),
    ImportError,
>)
    ensures
        final(chunk_spans)@ == spans::arranged(old(chunk_spans)@),
        spans::ascending(final(chunk_spans)@),
        final(chunk_spans)@.to_multiset() == old(chunk_spans)@.to_multiset(),
        rrd_wire::fault(r) == spans_failure(old(chunk_spans)@, path@),
{
    let sorted = spans::sort_spans(chunk_spans);
    let size: usize = sorted.len();
    let found = spans::find_overlap(&sorted);
    *chunk_spans = sorted;
    match found {
        Some(i) => {
            assert(i + 1 < size);
            let a = span_label(chunk_spans[i]);
            let b = span_label(chunk_spans[i + 1]);
            Err(
                rrd_wire::rrd_validation_error(
                    text::line("RRD chunk spans overlap: ").add(a.as_str()).add(" and ").add(
                        b.as_str(),
                    ),
                    path,
                ),
            )
        },
        None => Ok(()),
    }
}

/// Chunk spans that hold at least a byte each are accepted just where no two of them share a
/// byte.
pub proof fn law_accepted_spans_are_disjoint(s: Seq<(u64, u64)>, path: Seq<char>)
    requires
        forall|k: int| 0 <= k < s.len() ==> (#[trigger] s[k]).0 < s[k].1,
    ensures
        spans_failure(s, path) is None <==> spans::disjoint(s),
        spans_failure(s, path) matches Some(e) ==> e.code
            == crate::import::ImportErrorCode::OutputValidationFailed,
{
    spans::lemma_disjoint_either_way(s);
}

/// What all chunks so far come to.
pub struct ChunkTotals {
    pub compressed: u64,
    pub uncompressed: u64,
    pub spans: Seq<(u64, u64)>,
}

/// The fault of one chunk, listed at `index` of its manifest.
pub open spec fn chunk_failure(
    c: ManifestChunkView,
    index: int,
    t: ChunkTotals,
    file_size: u64,
    header_size: u64,
    path: Seq<char>,
) -> Option<ImportErrorView> {
    if c.size == 0 || c.size > MAX_RRD_CHUNK_COMPRESSED_BYTES {
        Some(
            rrd_wire::resource_failure(
                "RRD chunk "@ + text::decimal(index as nat) + " has invalid compressed size "@
                    + text::decimal(c.size as nat) + "; maximum is "@ + text::decimal(
                    MAX_RRD_CHUNK_COMPRESSED_BYTES as nat,
                ),
                path,
            ),
        )
    } else if c.uncompressed == 0 || c.uncompressed > MAX_RRD_CHUNK_UNCOMPRESSED_BYTES {
        Some(
            rrd_wire::resource_failure(
                "RRD chunk "@ + text::decimal(index as nat) + " has invalid uncompressed size "@
                    + text::decimal(c.uncompressed as nat) + "; maximum is "@ + text::decimal(
                    MAX_RRD_CHUNK_UNCOMPRESSED_BYTES as nat,
                ),
                path,
            ),
        )
    } else if !rrd_wire::within_ratio(c.uncompressed, c.size) {
        Some(
            rrd_wire::resource_failure(
                "RRD chunk "@ + text::decimal(index as nat) + " exceeds compression ratio "@
                    + text::decimal(rrd_wire::MAX_RRD_COMPRESSION_RATIO as nat) + ":1"@,
                path,
            ),
        )
    } else if t.compressed + c.size > MAX_RRD_TOTAL_COMPRESSED_BYTES {
        Some(
            rrd_wire::resource_failure(
                "RRD total referenced compressed size exceeds "@ + text::decimal(
                    MAX_RRD_TOTAL_COMPRESSED_BYTES as nat,
                ) + " bytes"@,
                path,
            ),
        )
    } else if t.uncompressed + c.uncompressed > MAX_RRD_TOTAL_UNCOMPRESSED_BYTES {
        Some(
            rrd_wire::resource_failure(
                "RRD total uncompressed size exceeds "@ + text::decimal(
                    MAX_RRD_TOTAL_UNCOMPRESSED_BYTES as nat,
                ) + " bytes"@,
                path,
            ),
        )
    } else if c.offset + c.size > u64::MAX {
        Some(rrd_wire::validation_failure("RRD chunk byte span overflow"@, path))
    } else if c.offset < header_size || c.offset + c.size > file_size {
        Some(
            rrd_wire::validation_failure(
                "RRD chunk span "@ + text::decimal(c.offset as nat) + ".."@ + text::decimal(
                    (c.offset + c.size) as nat,
                ) + " is outside file bounds 0.."@ + text::decimal(file_size as nat),
                path,
            ),
        )
    } else {
        None
    }
}

/// What all chunks come to after one more.
pub open spec fn counted_chunk(t: ChunkTotals, c: ManifestChunkView) -> ChunkTotals {
    ChunkTotals {
        compressed: (t.compressed + c.size) as u64,
        uncompressed: (t.uncompressed + c.uncompressed) as u64,
        spans: t.spans.push((c.offset, (c.offset + c.size) as u64)),
    }
}

/// What the chunks of a manifest from `i` on come to.
pub open spec fn manifest_totals(
    chunks: Seq<ManifestChunkView>,
    i: int,
    t: ChunkTotals,
    file_size: u64,
    header_size: u64,
    path: Seq<char>,
) -> Result<ChunkTotals, ImportErrorView>
    decreases chunks.len() - i,
{
    if i < 0 || i >= chunks.len() {
        Ok(t)
    } else {
        match chunk_failure(chunks[i], i, t, file_size, header_size, path) {
            Some(e) => Err(e),
            None => manifest_totals(
                chunks,
                i + 1,
                counted_chunk(t, chunks[i]),
                file_size,
                header_size,
                path,
            ),
        }
    }
}

/// What the chunks of all manifests from `i` on come to, after `count` chunks.
pub open spec fn all_totals(
    manifests: Seq<Seq<ManifestChunkView>>,
    i: int,
    count: int,
    t: ChunkTotals,
    file_size: u64,
    header_size: u64,
    path: Seq<char>,
) -> Result<ChunkTotals, ImportErrorView>
    decreases manifests.len() - i,
{
    if i < 0 || i >= manifests.len() {
        Ok(t)
    } else if count + manifests[i].len() > usize::MAX {
        Err(rrd_wire::resource_failure("RRD chunk count overflow"@, path))
    } else if count + manifests[i].len() > MAX_RRD_CHUNKS {
        Err(
            rrd_wire::resource_failure(
                "RRD has more than "@ + text::decimal(MAX_RRD_CHUNKS as nat) + " chunks"@,
                path,
            ),
        )
    } else {
        match manifest_totals(manifests[i], 0, t, file_size, header_size, path) {
            Err(e) => Err(e),
            Ok(u) => all_totals(
                manifests,
                i + 1,
                count + manifests[i].len(),
                u,
                file_size,
                header_size,
                path,
            ),
        }
    }
}

pub open spec fn no_totals() -> ChunkTotals {
    ChunkTotals { compressed: 0, uncompressed: 0, spans: Seq::empty() }
}

/// The fault of the chunks that all manifests list: too many, too large, outside the file, or
/// overlapping.
pub open spec fn resources_failure(
    manifests: Seq<Seq<ManifestChunkView>>,
    file_size: u64,
    header_size: u64,
    path: Seq<char>,
) -> Option<ImportErrorView> {
    match all_totals(manifests, 0, 0, no_totals(), file_size, header_size, path) {
        Err(e) => Some(e),
        Ok(t) => spans_failure(t.spans, path),
    }
}

fn check_chunk(
    c: &ManifestChunk,
    index: usize,
    compressed: u64,
    uncompressed: u64,
    Ghost(listed): Ghost<Seq<(u64, u64)>>,
    file_size: u64,
    header_size: u64,
    path: &str,
) -> (r: Result<(u64, u64, u64), ImportError>)
    requires
        compressed <= MAX_RRD_TOTAL_COMPRESSED_BYTES,
        uncompressed <= MAX_RRD_TOTAL_UNCOMPRESSED_BYTES,
    ensures
        match chunk_failure(
            c@,
            index as int,
            ChunkTotals { compressed, uncompressed, spans: listed },
            file_size,
            header_size,
            path@,
        ) {
            Some(e) => r matches Err(f) && f@ == e,
            None => r matches Ok((a, b, end)) && a == compressed + c.size && b == uncompressed
                + c.uncompressed && end == c.offset + c.size && a <= MAX_RRD_TOTAL_COMPRESSED_BYTES
                && b <= MAX_RRD_TOTAL_UNCOMPRESSED_BYTES,
        },
{
    let size: u64 = c.size;
    if size == 0 || size > MAX_RRD_CHUNK_COMPRESSED_BYTES {
        return Err(
            rrd_wire::rrd_resource_error(
                text::line("RRD chunk ").num(index as u64).add(
                    " has invalid compressed size ",
                ).num(size).add("; maximum is ").num(MAX_RRD_CHUNK_COMPRESSED_BYTES),
                path,
            ),
        );
    }
    if c.uncompressed == 0 || c.uncompressed > MAX_RRD_CHUNK_UNCOMPRESSED_BYTES {
        return Err(
            rrd_wire::rrd_resource_error(
                text::line("RRD chunk ").num(index as u64).add(
                    " has invalid uncompressed size ",
                ).num(c.uncompressed).add("; maximum is ").num(MAX_RRD_CHUNK_UNCOMPRESSED_BYTES),
                path,
            ),
        );
    }
    if !rrd_wire::is_within_ratio(c.uncompressed, size) {
        return Err(
            rrd_wire::rrd_resource_error(
                text::line("RRD chunk ").num(index as u64).add(" exceeds compression ratio ").num(
                    rrd_wire::MAX_RRD_COMPRESSION_RATIO,
                ).add(":1"),
                path,
            ),
        );
    }
    let total: u64 = compressed + size;
    if total > MAX_RRD_TOTAL_COMPRESSED_BYTES {
        return Err(
            rrd_wire::rrd_resource_error(
                text::line("RRD total referenced compressed size exceeds ").num(
                    MAX_RRD_TOTAL_COMPRESSED_BYTES,
                ).add(" bytes"),
                path,
            ),
        );
    }
    let total_uncompressed: u64 = uncompressed + c.uncompressed;
    if total_uncompressed > MAX_RRD_TOTAL_UNCOMPRESSED_BYTES {
        return Err(
            rrd_wire::rrd_resource_error(
                text::line("RRD total uncompressed size exceeds ").num(
                    MAX_RRD_TOTAL_UNCOMPRESSED_BYTES,
                ).add(" bytes"),
                path,
            ),
        );
    }
    let end: u64 = match c.offset.checked_add(size) {
        Some(end) => end,
        None => {
            return Err(
                rrd_wire::rrd_validation_error(text::line("RRD chunk byte span overflow"), path),
            );
        },
    };
    if c.offset < header_size || end > file_size {
        return Err(
            rrd_wire::rrd_validation_error(
                text::line("RRD chunk span ").num(c.offset).add("..").num(end).add(
                    " is outside file bounds 0..",
                ).num(file_size),
                path,
            ),
        );
    }
    Ok((total, total_uncompressed, end))
}

pub open spec fn listed_chunks(manifests: Seq<Vec<ManifestChunk>>) -> Seq<Seq<ManifestChunkView>> {
    manifests.map_values(|m: Vec<ManifestChunk>| table::views(m@))
}

/// Checks the chunks that all manifests list, before any payload is read.
pub fn validate_manifest_resources(
    manifests: &Vec<Vec<ManifestChunk>>,
    file_size: u64,
    header_size: u64,
    path: &str,
) -> (r: Result<(), ImportError>)
    ensures
        rrd_wire::fault(r) == resources_failure(
            listed_chunks(manifests@),
            file_size,
            header_size,
            path@,
        ),
{
    let ghost listed = listed_chunks(manifests@);
    let mut found: Vec<(u64, u64)> = Vec::new();
    let mut count: usize = 0;
    let mut compressed: u64 = 0;
    let mut uncompressed: u64 = 0;
    let mut i: usize = 0;
    proof {
        assert(found@ =~= Seq::<(u64, u64)>::empty());
    }
    while i < manifests.len()
        invariant
            i <= manifests@.len(),
            listed == listed_chunks(manifests@),
            count <= MAX_RRD_CHUNKS,
            compressed <= MAX_RRD_TOTAL_COMPRESSED_BYTES,
            uncompressed <= MAX_RRD_TOTAL_UNCOMPRESSED_BYTES,
            all_totals(listed, 0, 0, no_totals(), file_size, header_size, path@) == all_totals(
                listed,
                i as int,
                count as int,
                ChunkTotals { compressed, uncompressed, spans: found@ },
                file_size,
                header_size,
                path@,
            ),
        decreases manifests@.len() - i,
    {
        let chunks = &manifests[i];
        let ghost views = table::views(chunks@);
        assert(views == listed[i as int]);
        let n: usize = chunks.len();
        match count.checked_add(n) {
            Some(next) => {
                count = next;
            },
            None => {
                return Err(
                    rrd_wire::rrd_resource_error(text::line("RRD chunk count overflow"), path),
                );
            },
        }
        if count > MAX_RRD_CHUNKS {
            return Err(
                rrd_wire::rrd_resource_error(
                    text::line("RRD has more than ").num(MAX_RRD_CHUNKS as u64).add(" chunks"),
                    path,
                ),
            );
        }
        let ghost before = ChunkTotals { compressed, uncompressed, spans: found@ };
        let mut k: usize = 0;
        while k < n
            invariant
                k <= n,
                n == chunks@.len(),
                views == table::views(chunks@),
                compressed <= MAX_RRD_TOTAL_COMPRESSED_BYTES,
                uncompressed <= MAX_RRD_TOTAL_UNCOMPRESSED_BYTES,
                i < listed.len(),
                listed == listed_chunks(manifests@),
                views == listed[i as int],
                count <= MAX_RRD_CHUNKS,
                all_totals(listed, 0, 0, no_totals(), file_size, header_size, path@)
                    == all_totals(
                    listed,
                    i as int,
                    count - n,
                    before,
                    file_size,
                    header_size,
                    path@,
                ),
                manifest_totals(views, 0, before, file_size, header_size, path@)
                    == manifest_totals(
                    views,
                    k as int,
                    ChunkTotals { compressed, uncompressed, spans: found@ },
                    file_size,
                    header_size,
                    path@,
                ),
            decreases n - k,
        {
            let c = &chunks[k];
            assert(c@ == views[k as int]);
            match check_chunk(
                c,
                k,
                compressed,
                uncompressed,
                Ghost(found@),
                file_size,
                header_size,
                path,
            ) {
                Err(e) => {
                    return Err(e);
                },
                Ok((a, b, end)) => {
                    compressed = a;
                    uncompressed = b;
                    found.push((c.offset, end));
                },
            }
            k = k + 1;
        }
        i = i + 1;
    }
    validate_rrd_chunk_span_set(&mut found, path)
}

/// What the transport message of a chunk says of itself.
#[derive(Debug)]
pub struct ChunkTransport {
    pub uncompressed_size: u64,
    pub payload_size: u64,
    /// Whether it names the store of the manifest.
    pub same_store: bool,
    /// Whether it names the chunk of the manifest.
    pub same_chunk: bool,
}

/// The fault of the transport message of a chunk.
pub open spec fn transport_failure(
    t: ChunkTransport,
    listed_uncompressed: u64,
    store_id: Seq<char>,
    chunk_id: Seq<char>,
    path: Seq<char>,
) -> Option<ImportErrorView> {
    if t.uncompressed_size != listed_uncompressed {
        Some(
            rrd_wire::validation_failure(
                "RRD ArrowMsg uncompressed_size "@ + text::decimal(t.uncompressed_size as nat)
                    + " disagrees with manifest "@ + text::decimal(listed_uncompressed as nat),
                path,
            ),
        )
    } else if !t.same_store || !t.same_chunk {
        Some(
            rrd_wire::validation_failure(
                "RRD ArrowMsg store/chunk identity disagrees with manifest store="@ + store_id
                    + " chunk="@ + chunk_id,
                path,
            ),
        )
    } else if t.uncompressed_size > usize::MAX {
        Some(
            rrd_wire::resource_failure(
                "RRD ArrowMsg uncompressed_size does not fit memory: out of range integral type conversion attempted"@,
                path,
            ),
        )
    } else if t.payload_size == 0 || !rrd_wire::within_ratio(t.uncompressed_size, t.payload_size) {
        Some(
            rrd_wire::resource_failure(
                "RRD ArrowMsg payload exceeds compression ratio "@ + text::decimal(
                    rrd_wire::MAX_RRD_COMPRESSION_RATIO as nat,
                ) + ":1"@,
                path,
            ),
        )
    } else {
        None
    }
}

/// Checks that the transport message of a chunk agrees with its manifest.
pub fn validate_arrow_transport(
    t: &ChunkTransport,
    listed_uncompressed: u64,
    store_id: &str,
    chunk_id: &str,
    path: &str,
) -> (r: Result<(), ImportError>)
    ensures
        rrd_wire::fault(r) == transport_failure(
            *t,
            listed_uncompressed,
            store_id@,
            chunk_id@,
            path@,
        ),
{
    if t.uncompressed_size != listed_uncompressed {
        return Err(
            rrd_wire::rrd_validation_error(
                text::line("RRD ArrowMsg uncompressed_size ").num(t.uncompressed_size).add(
                    " disagrees with manifest ",
                ).num(listed_uncompressed),
                path,
            ),
        );
    }
    if !t.same_store || !t.same_chunk {
        return Err(
            rrd_wire::rrd_validation_error(
                text::line("RRD ArrowMsg store/chunk identity disagrees with manifest store=").add(
                    store_id,
                ).add(" chunk=").add(chunk_id),
                path,
            ),
        );
    }
    if t.uncompressed_size > usize::MAX as u64 {
        return Err(
            rrd_wire::rrd_resource_error(
                text::line(
                    "RRD ArrowMsg uncompressed_size does not fit memory: out of range integral type conversion attempted",
                ),
                path,
            ),
        );
    }
    if t.payload_size == 0 || !rrd_wire::is_within_ratio(t.uncompressed_size, t.payload_size) {
        return Err(
            rrd_wire::rrd_resource_error(
                text::line("RRD ArrowMsg payload exceeds compression ratio ").num(
                    rrd_wire::MAX_RRD_COMPRESSION_RATIO,
                ).add(":1"),
                path,
            ),
        );
    }
    Ok(())
}

/// Where a batch of chunks that starts at `start`, and holds the chunks up to `end` with `bytes`
/// bytes so far, ends: at a number of chunks or before a number of bytes.
pub open spec fn batch_end_from(sizes: Seq<u64>, start: int, end: int, bytes: int) -> int
    decreases sizes.len() - end,
{
    if end < 0 || end >= sizes.len() || end - start >= RRD_DECODE_BATCH_CHUNKS {
        end
    } else {
        let next = if bytes + sizes[end] > u64::MAX {
            u64::MAX as int
        } else {
            bytes + sizes[end]
        };
        if end > start && next > RRD_DECODE_BATCH_BYTES {
            end
        } else {
            batch_end_from(sizes, start, end + 1, next)
        }
    }
}

/// Where the batch of chunks that are decoded together, and that starts at `start`, ends.
pub fn decode_batch_end(sizes: &Vec<u64>, start: usize) -> (r: usize)
    requires
        start <= sizes@.len(),
    ensures
        r == batch_end_from(sizes@, start as int, start as int, 0),
        start <= r <= sizes@.len(),
        start < sizes@.len() ==> start < r,
        r - start <= RRD_DECODE_BATCH_CHUNKS,
{
    let n: usize = sizes.len();
    let mut end: usize = start;
    let mut bytes: u64 = 0;
    while end < n && end - start < RRD_DECODE_BATCH_CHUNKS
        invariant_except_break
            batch_end_from(sizes@, start as int, start as int, 0) == batch_end_from(
                sizes@,
                start as int,
                end as int,
                bytes as int,
            ),
        invariant
            n == sizes@.len(),
            start <= end <= n,
            end - start <= RRD_DECODE_BATCH_CHUNKS,
        ensures
            end == batch_end_from(sizes@, start as int, start as int, 0),
            start < n ==> start < end,
        decreases n - end,
    {
        let next: u64 = bytes.saturating_add(sizes[end]);
        if end > start && next > RRD_DECODE_BATCH_BYTES {
            break;
        }
        bytes = next;
        end = end + 1;
    }
    end
}

/// The first and the last time of a chunk on one timeline.
#[derive(Clone, Copy, Debug, PartialEq, Eq, Structural)]
pub struct TimeRange {
    pub start: i64,
    pub end: i64,
}

/// The ranges of timelines of one name, by kind.
#[derive(Clone, Copy, Debug)]
pub struct TimeRanges {
    pub sequence: Option<TimeRange>,
    pub timestamp: Option<TimeRange>,
    pub duration: Option<TimeRange>,
}

impl View for TimeRanges {
    type V = TimeRanges;

    open spec fn view(&self) -> TimeRanges {
        *self
    }
}

impl Copied for TimeRanges {
    fn copied(&self) -> (r: Self) {
        *self
    }
}

pub open spec fn no_ranges() -> TimeRanges {
    TimeRanges { sequence: None, timestamp: None, duration: None }
}

pub open spec fn range_of(r: TimeRanges, kind: TimelineKind) -> Option<TimeRange> {
    match kind {
        TimelineKind::Sequence => r.sequence,
        TimelineKind::Timestamp => r.timestamp,
        TimelineKind::Duration => r.duration,
    }
}

pub open spec fn with_range(r: TimeRanges, kind: TimelineKind, range: TimeRange) -> TimeRanges {
    match kind {
        TimelineKind::Sequence => TimeRanges { sequence: Some(range), ..r },
        TimelineKind::Timestamp => TimeRanges { timestamp: Some(range), ..r },
        TimelineKind::Duration => TimeRanges { duration: Some(range), ..r },
    }
}

impl TimeRanges {
    pub fn new() -> (r: Self)
        ensures
            r == no_ranges(),
    {
        TimeRanges { sequence: None, timestamp: None, duration: None }
    }

    pub fn get(&self, kind: TimelineKind) -> (r: Option<TimeRange>)
        ensures
            r == range_of(*self, kind),
    {
        match kind {
            TimelineKind::Sequence => self.sequence,
            TimelineKind::Timestamp => self.timestamp,
            TimelineKind::Duration => self.duration,
        }
    }

    pub fn with(self, kind: TimelineKind, range: TimeRange) -> (r: Self)
        ensures
            r == with_range(self, kind, range),
    {
        match kind {
            TimelineKind::Sequence => TimeRanges { sequence: Some(range), ..self },
            TimelineKind::Timestamp => TimeRanges { timestamp: Some(range), ..self },
            TimelineKind::Duration => TimeRanges { duration: Some(range), ..self },
        }
    }
}

pub open spec fn ranges_at(m: Map<Seq<char>, TimeRanges>, name: Seq<char>) -> TimeRanges {
    if m.contains_key(name) {
        m[name]
    } else {
        no_ranges()
    }
}

/// The ranges after one more timeline.
pub open spec fn put_range(
    m: Map<Seq<char>, TimeRanges>,
    name: Seq<char>,
    kind: TimelineKind,
    range: TimeRange,
) -> Map<Seq<char>, TimeRanges> {
    m.insert(name, with_range(ranges_at(m, name), kind, range))
}

pub fn find_ranges(t: &Table<TimeRanges>, name: &str) -> (r: TimeRanges)
    ensures
        r == ranges_at(t@, name@),
{
    match t.get(name) {
        Some(r) => *r,
        None => TimeRanges::new(),
    }
}

pub fn insert_range(t: &mut Table<TimeRanges>, name: &str, kind: TimelineKind, range: TimeRange) -> (r: Option<
    TimeRange,
>)
    ensures
        final(t)@ == put_range(old(t)@, name@, kind, range),
        r == range_of(ranges_at(old(t)@, name@), kind),
{
    let ranges = find_ranges(t, name);
    let previous = ranges.get(kind);
    let _ = t.insert(name.to_owned(), ranges.with(kind, range));
    previous
}

/// What a manifest promises of one chunk.
#[derive(Debug)]
pub struct ExpectedChunkMetadata {
    pub num_rows: u64,
    pub components: Table<Marker>,
    pub timelines: Table<TimeRanges>,
}

#[verifier::ext_equal]
pub struct ExpectedChunkView {
    pub num_rows: u64,
    pub components: Map<Seq<char>, ()>,
    pub timelines: Map<Seq<char>, TimeRanges>,
}

impl View for ExpectedChunkMetadata {
    type V = ExpectedChunkView;

    open spec fn view(&self) -> ExpectedChunkView {
        ExpectedChunkView {
            num_rows: self.num_rows,
            components: self.components@,
            timelines: self.timelines@,
        }
    }
}

impl Default for ExpectedChunkMetadata {
    fn default() -> (r: Self)
        ensures
            r@ == (ExpectedChunkView {
                num_rows: 0,
                components: Map::empty(),
                timelines: Map::empty(),
            }),
    {
        ExpectedChunkMetadata { num_rows: 0, components: Table::new(), timelines: Table::new() }
    }
}

impl Copied for ExpectedChunkMetadata {
    fn copied(&self) -> (r: Self) {
        ExpectedChunkMetadata {
            num_rows: self.num_rows,
            components: self.components.copied(),
            timelines: self.timelines.copied(),
        }
    }
}

pub open spec fn blank_chunk(num_rows: u64) -> ExpectedChunkView {
    ExpectedChunkView { num_rows, components: Map::empty(), timelines: Map::empty() }
}

pub open spec fn with_component(e: ExpectedChunkView, component: Seq<char>) -> ExpectedChunkView {
    ExpectedChunkView { components: e.components.insert(component, ()), ..e }
}

/// One column of a manifest table.
#[derive(Debug)]
pub struct ManifestColumn {
    pub name: String,
    /// The component that the column speaks of.
    pub component: Option<String>,
    /// The timeline that the column speaks of.
    pub index: Option<String>,
    pub data_type: String,
    /// The values, where they are booleans.
    pub booleans: Option<Vec<bool>>,
    /// The kind of the values, where they are times.
    pub kind: Option<TimelineKind>,
    pub times: Vec<i64>,
    /// Why the values are no times.
    pub time_fault: String,
    /// Which rows have a value.
    pub valid: Vec<bool>,
}

#[verifier::ext_equal]
pub struct ManifestColumnView {
    pub name: Seq<char>,
    pub component: Option<Seq<char>>,
    pub index: Option<Seq<char>>,
    pub data_type: Seq<char>,
    pub booleans: Option<Seq<bool>>,
    pub kind: Option<TimelineKind>,
    pub times: Seq<i64>,
    pub time_fault: Seq<char>,
    pub valid: Seq<bool>,
}

impl View for ManifestColumn {
    type V = ManifestColumnView;

    open spec fn view(&self) -> ManifestColumnView {
        ManifestColumnView {
            name: self.name@,
            component: table::view_option(self.component),
            index: table::view_option(self.index),
            data_type: self.data_type@,
            booleans: match self.booleans {
                Some(v) => Some(v@),
                None => None,
            },
            kind: self.kind,
            times: self.times@,
            time_fault: self.time_fault@,
            valid: self.valid@,
        }
    }
}

/// Whether a column has a value for each of `rows` rows.
pub open spec fn column_fits(c: ManifestColumnView, rows: nat) -> bool {
    &&& c.booleans matches Some(v) ==> v.len() == rows
    &&& c.kind is Some ==> c.times.len() == rows
    &&& c.valid.len() == rows
}

/// A chunk that a temporal index refers to.
#[derive(Debug)]
pub struct TemporalRange {
    pub component: String,
    pub chunk_id: String,
    pub start: i64,
    pub end: i64,
}

#[verifier::ext_equal]
pub struct TemporalRangeView {
    pub component: Seq<char>,
    pub chunk_id: Seq<char>,
    pub start: i64,
    pub end: i64,
}

impl View for TemporalRange {
    type V = TemporalRangeView;

    open spec fn view(&self) -> TemporalRangeView {
        TemporalRangeView {
            component: self.component@,
            chunk_id: self.chunk_id@,
            start: self.start,
            end: self.end,
        }
    }
}

/// The chunks of one entity on one timeline.
#[derive(Debug)]
pub struct TemporalTimeline {
    pub entity_path: String,
    pub timeline: String,
    pub kind: TimelineKind,
    pub ranges: Vec<TemporalRange>,
}

#[verifier::ext_equal]
pub struct TemporalTimelineView {
    pub entity_path: Seq<char>,
    pub timeline: Seq<char>,
    pub kind: TimelineKind,
    pub ranges: Seq<TemporalRangeView>,
}

impl View for TemporalTimeline {
    type V = TemporalTimelineView;

    open spec fn view(&self) -> TemporalTimelineView {
        TemporalTimelineView {
            entity_path: self.entity_path@,
            timeline: self.timeline@,
            kind: self.kind,
            ranges: table::views(self.ranges@),
        }
    }
}

/// One chunk for each listed identifier, from `i` on.
pub open spec fn listed_from(
    chunks: Seq<ManifestChunkView>,
    i: int,
    m: Map<Seq<char>, ExpectedChunkView>,
    path: Seq<char>,
) -> Result<Map<Seq<char>, ExpectedChunkView>, ImportErrorView>
    decreases chunks.len() - i,
{
    if i < 0 || i >= chunks.len() {
        Ok(m)
    } else if m.contains_key(chunks[i].id) {
        Err(
            rrd_wire::validation_failure(
                "RRD manifest contains duplicate chunk ID "@ + chunks[i].id,
                path,
            ),
        )
    } else {
        listed_from(chunks, i + 1, m.insert(chunks[i].id, blank_chunk(chunks[i].num_rows)), path)
    }
}

pub open spec fn expected_view(r: Result<Table<ExpectedChunkMetadata>, ImportError>) -> Result<
    Map<Seq<char>, ExpectedChunkView>,
    ImportErrorView,
> {
    match r {
        Ok(t) => Ok(t@),
        Err(e) => Err(e@),
    }
}

fn list_chunks(chunks: &Vec<ManifestChunk>, path: &str) -> (r: Result<
    Table<ExpectedChunkMetadata>,
    ImportError,
>)
    ensures
        expected_view(r) == listed_from(table::views(chunks@), 0, Map::empty(), path@),
{
    let ghost views = table::views(chunks@);
    let mut t: Table<ExpectedChunkMetadata> = Table::new();
    let mut i: usize = 0;
    while i < chunks.len()
        invariant
            i <= chunks@.len(),
            views == table::views(chunks@),
            listed_from(views, 0, Map::empty(), path@) == listed_from(views, i as int, t@, path@),
        decreases chunks@.len() - i,
    {
        let c = &chunks[i];
        assert(c@ == views[i as int]);
        if t.contains(c.id.as_str()) {
            return Err(
                rrd_wire::rrd_validation_error(
                    text::line("RRD manifest contains duplicate chunk ID ").add(c.id.as_str()),
                    path,
                ),
            );
        }
        let blank = ExpectedChunkMetadata {
            num_rows: c.num_rows,
            components: Table::new(),
            timelines: Table::new(),
        };
        assert(blank@ =~= blank_chunk(c.num_rows));
        let _ = t.insert(c.id.clone(), blank);
        i = i + 1;
    }
    Ok(t)
}

pub open spec fn no_metadata(row: int, path: Seq<char>) -> ImportErrorView {
    rrd_wire::validation_failure(
        "RRD manifest row "@ + text::decimal(row as nat) + " has no chunk metadata"@,
        path,
    )
}

/// The chunks after the rows of a static column from `row` on.
pub open spec fn static_rows(
    component: Seq<char>,
    values: Seq<bool>,
    chunks: Seq<ManifestChunkView>,
    row: int,
    m: Map<Seq<char>, ExpectedChunkView>,
    path: Seq<char>,
) -> Result<Map<Seq<char>, ExpectedChunkView>, ImportErrorView>
    decreases values.len() - row,
{
    if row < 0 || row >= values.len() {
        Ok(m)
    } else if !values[row] {
        static_rows(component, values, chunks, row + 1, m, path)
    } else if !chunks[row].is_static {
        Err(
            rrd_wire::validation_failure(
                "RRD temporal manifest row "@ + text::decimal(row as nat)
                    + " claims static component "@ + component,
                path,
            ),
        )
    } else if !m.contains_key(chunks[row].id) {
        Err(no_metadata(row, path))
    } else {
        static_rows(
            component,
            values,
            chunks,
            row + 1,
            m.insert(chunks[row].id, with_component(m[chunks[row].id], component)),
            path,
        )
    }
}

/// The chunks after the static columns from `i` on.
pub open spec fn static_columns(
    columns: Seq<ManifestColumnView>,
    chunks: Seq<ManifestChunkView>,
    i: int,
    m: Map<Seq<char>, ExpectedChunkView>,
    path: Seq<char>,
) -> Result<Map<Seq<char>, ExpectedChunkView>, ImportErrorView>
    decreases columns.len() - i,
{
    if i < 0 || i >= columns.len() {
        Ok(m)
    } else if !text::ends_with(columns[i].name, ":has_static_data"@) {
        static_columns(columns, chunks, i + 1, m, path)
    } else if columns[i].component is None {
        Err(
            rrd_wire::validation_failure(
                "RRD static manifest column "@ + columns[i].name
                    + " has no component metadata"@,
                path,
            ),
        )
    } else if columns[i].booleans is None {
        Err(
            rrd_wire::validation_failure(
                "RRD static manifest column "@ + columns[i].name + " has type "@
                    + columns[i].data_type + ", expected Boolean"@,
                path,
            ),
        )
    } else {
        match static_rows(
            columns[i].component->Some_0,
            columns[i].booleans->Some_0,
            chunks,
            0,
            m,
            path,
        ) {
            Err(e) => Err(e),
            Ok(n) => static_columns(columns, chunks, i + 1, n, path),
        }
    }
}

fn add_static_rows(
    component: &str,
    values: &Vec<bool>,
    chunks: &Vec<ManifestChunk>,
    start: Table<ExpectedChunkMetadata>,
    path: &str,
) -> (r: Result<Table<ExpectedChunkMetadata>, ImportError>)
    requires
        values@.len() == chunks@.len(),
    ensures
        expected_view(r) == static_rows(
            component@,
            values@,
            table::views(chunks@),
            0,
            start@,
            path@,
        ),
{
    let ghost views = table::views(chunks@);
    let ghost initial = start@;
    let mut t = start;
    let n: usize = values.len();
    let mut row: usize = 0;
    while row < n
        invariant
            row <= n,
            n == values@.len(),
            n == chunks@.len(),
            views == table::views(chunks@),
            initial == start@,
            static_rows(component@, values@, views, 0, initial, path@) == static_rows(
                component@,
                values@,
                views,
                row as int,
                t@,
                path@,
            ),
        decreases n - row,
    {
        let c = &chunks[row];
        assert(c@ == views[row as int]);
        if values[row] {
            if !c.is_static {
                return Err(
                    rrd_wire::rrd_validation_error(
                        text::line("RRD temporal manifest row ").num(row as u64).add(
                            " claims static component ",
                        ).add(component),
                        path,
                    ),
                );
            }
            let found = match t.get(c.id.as_str()) {
                Some(e) => Some(e.copied()),
                None => None,
            };
            match found {
                Some(mut e) => {
                    let ghost before = e@;
                    let _ = e.components.insert(component.to_owned(), Marker {  });
                    assert(e@ =~= with_component(before, component@));
                    let _ = t.insert(c.id.clone(), e);
                },
                None => {
                    return Err(
                        rrd_wire::rrd_validation_error(
                            text::line("RRD manifest row ").num(row as u64).add(
                                " has no chunk metadata",
                            ),
                            path,
                        ),
                    );
                },
            }
        }
        row = row + 1;
    }
    Ok(t)
}

fn add_static_columns(
    columns: &Vec<ManifestColumn>,
    chunks: &Vec<ManifestChunk>,
    start: Table<ExpectedChunkMetadata>,
    path: &str,
) -> (r: Result<Table<ExpectedChunkMetadata>, ImportError>)
    requires
        forall|i: int|
            0 <= i < columns@.len() ==> column_fits((#[trigger] columns@[i])@, chunks@.len()),
    ensures
        expected_view(r) == static_columns(
            table::views(columns@),
            table::views(chunks@),
            0,
            start@,
            path@,
        ),
{
    let ghost cols = table::views(columns@);
    let ghost views = table::views(chunks@);
    let ghost initial = start@;
    let mut t = start;
    let mut i: usize = 0;
    while i < columns.len()
        invariant
            i <= columns@.len(),
            cols == table::views(columns@),
            views == table::views(chunks@),
            initial == start@,
            forall|i: int|
                0 <= i < columns@.len() ==> column_fits((#[trigger] columns@[i])@, chunks@.len()),
            static_columns(cols, views, 0, initial, path@) == static_columns(
                cols,
                views,
                i as int,
                t@,
                path@,
            ),
        decreases columns@.len() - i,
    {
        let col = &columns[i];
        assert(col@ == cols[i as int]);
        assert(column_fits(columns@[i as int]@, chunks@.len()));
        if text::has_suffix(col.name.as_str(), ":has_static_data") {
            let component = match &col.component {
                Some(c) => c,
                None => {
                    return Err(
                        rrd_wire::rrd_validation_error(
                            text::line("RRD static manifest column ").add(col.name.as_str()).add(
                                " has no component metadata",
                            ),
                            path,
                        ),
                    );
                },
            };
            let values = match &col.booleans {
                Some(v) => v,
                None => {
                    return Err(
                        rrd_wire::rrd_validation_error(
                            text::line("RRD static manifest column ").add(col.name.as_str()).add(
                                " has type ",
                            ).add(col.data_type.as_str()).add(", expected Boolean"),
                            path,
                        ),
                    );
                },
            };
            match add_static_rows(component.as_str(), values, chunks, t, path) {
                Ok(next) => {
                    t = next;
                },
                Err(e) => {
                    return Err(e);
                },
            }
        }
        i = i + 1;
    }
    Ok(t)
}

/// Whether a column holds the ends of the ranges of a timeline.
pub open spec fn is_end_column(c: ManifestColumnView, timeline: Seq<char>) -> bool {
    c.index == Some(timeline) && c.component is None && text::ends_with(c.name, ":end"@)
}

/// The first column at or after `i` that holds the ends of the ranges of a timeline.
pub open spec fn end_column(columns: Seq<ManifestColumnView>, timeline: Seq<char>, i: int) -> Option<int>
    decreases columns.len() - i,
{
    if i < 0 || i >= columns.len() {
        None
    } else if is_end_column(columns[i], timeline) {
        Some(i)
    } else {
        end_column(columns, timeline, i + 1)
    }
}

fn find_end_column(columns: &Vec<ManifestColumn>, timeline: &str) -> (r: Option<usize>)
    ensures
        match r {
            Some(i) => i < columns@.len() && end_column(table::views(columns@), timeline@, 0)
                == Some(i as int),
            None => end_column(table::views(columns@), timeline@, 0) is None,
        },
{
    let ghost cols = table::views(columns@);
    let mut i: usize = 0;
    while i < columns.len()
        invariant
            i <= columns@.len(),
            cols == table::views(columns@),
            end_column(cols, timeline@, 0) == end_column(cols, timeline@, i as int),
        decreases columns@.len() - i,
    {
        let col = &columns[i];
        assert(col@ == cols[i as int]);
        if table::is_text(&col.index, timeline) && col.component.is_none() && text::has_suffix(
            col.name.as_str(),
            ":end",
        ) {
            return Some(i);
        }
        i = i + 1;
    }
    None
}

pub open spec fn with_timeline(
    e: ExpectedChunkView,
    name: Seq<char>,
    kind: TimelineKind,
    range: TimeRange,
) -> ExpectedChunkView {
    ExpectedChunkView { timelines: put_range(e.timelines, name, kind, range), ..e }
}

pub open spec fn row_failure(
    timeline: Seq<char>,
    row: int,
    what: Seq<char>,
    path: Seq<char>,
) -> ImportErrorView {
    rrd_wire::validation_failure(
        "RRD timeline "@ + timeline + " row "@ + text::decimal(row as nat) + what,
        path,
    )
}

/// The chunks after the ranges of a timeline from `row` on.
pub open spec fn timeline_rows(
    timeline: Seq<char>,
    kind: TimelineKind,
    starts: ManifestColumnView,
    ends: ManifestColumnView,
    chunks: Seq<ManifestChunkView>,
    row: int,
    m: Map<Seq<char>, ExpectedChunkView>,
    path: Seq<char>,
) -> Result<Map<Seq<char>, ExpectedChunkView>, ImportErrorView>
    decreases chunks.len() - row,
{
    if row < 0 || row >= chunks.len() {
        Ok(m)
    } else if !starts.valid[row] && !ends.valid[row] {
        timeline_rows(timeline, kind, starts, ends, chunks, row + 1, m, path)
    } else if starts.valid[row] != ends.valid[row] {
        Err(row_failure(timeline, row, " has mismatched start/end validity"@, path))
    } else if chunks[row].is_static {
        Err(
            rrd_wire::validation_failure(
                "RRD static manifest row "@ + text::decimal(row as nat)
                    + " claims temporal index "@ + timeline,
                path,
            ),
        )
    } else if starts.times[row] > ends.times[row] {
        Err(
            row_failure(
                timeline,
                row,
                " has inverted range "@ + text::signed(starts.times[row] as int) + ".."@
                    + text::signed(ends.times[row] as int),
                path,
            ),
        )
    } else if !m.contains_key(chunks[row].id) {
        Err(no_metadata(row, path))
    } else if range_of(ranges_at(m[chunks[row].id].timelines, timeline), kind) is Some {
        Err(
            rrd_wire::validation_failure(
                "RRD manifest row "@ + text::decimal(row as nat) + " repeats timeline "@
                    + timeline,
                path,
            ),
        )
    } else {
        timeline_rows(
            timeline,
            kind,
            starts,
            ends,
            chunks,
            row + 1,
            m.insert(
                chunks[row].id,
                with_timeline(
                    m[chunks[row].id],
                    timeline,
                    kind,
                    TimeRange { start: starts.times[row], end: ends.times[row] },
                ),
            ),
            path,
        )
    }
}

/// Whether a column holds the starts of the ranges of a timeline.
pub open spec fn is_start_column(c: ManifestColumnView) -> bool {
    c.index is Some && c.component is None && text::ends_with(c.name, ":start"@)
}

/// The chunks after one timeline, whose starts are in column `i`.
pub open spec fn timeline_column(
    columns: Seq<ManifestColumnView>,
    chunks: Seq<ManifestChunkView>,
    i: int,
    m: Map<Seq<char>, ExpectedChunkView>,
    path: Seq<char>,
) -> Result<Map<Seq<char>, ExpectedChunkView>, ImportErrorView> {
    let timeline = columns[i].index->Some_0;
    match end_column(columns, timeline, 0) {
        None => Err(
            rrd_wire::validation_failure(
                "RRD timeline "@ + timeline + " has no manifest end column"@,
                path,
            ),
        ),
        Some(j) => match (columns[i].kind, columns[j].kind) {
            (None, _) => Err(
                rrd_wire::validation_failure(
                    "RRD timeline "@ + timeline + " start column is invalid: "@
                        + columns[i].time_fault,
                    path,
                ),
            ),
            (_, None) => Err(
                rrd_wire::validation_failure(
                    "RRD timeline "@ + timeline + " end column is invalid: "@
                        + columns[j].time_fault,
                    path,
                ),
            ),
            (Some(kind), Some(other)) => if kind != other {
                Err(
                    rrd_wire::validation_failure(
                        "RRD timeline "@ + timeline + " start/end types disagree"@,
                        path,
                    ),
                )
            } else {
                timeline_rows(timeline, kind, columns[i], columns[j], chunks, 0, m, path)
            },
        },
    }
}

/// The chunks after the timelines whose starts are in the columns from `i` on.
pub open spec fn timeline_columns(
    columns: Seq<ManifestColumnView>,
    chunks: Seq<ManifestChunkView>,
    i: int,
    m: Map<Seq<char>, ExpectedChunkView>,
    path: Seq<char>,
) -> Result<Map<Seq<char>, ExpectedChunkView>, ImportErrorView>
    decreases columns.len() - i,
{
    if i < 0 || i >= columns.len() {
        Ok(m)
    } else if !is_start_column(columns[i]) {
        timeline_columns(columns, chunks, i + 1, m, path)
    } else {
        match timeline_column(columns, chunks, i, m, path) {
            Err(e) => Err(e),
            Ok(n) => timeline_columns(columns, chunks, i + 1, n, path),
        }
    }
}

fn row_error(timeline: &str, row: usize, what: &str, path: &str) -> (r: ImportError)
    ensures
        r@ == row_failure(timeline@, row as int, what@, path@),
{
    rrd_wire::rrd_validation_error(
        text::line("RRD timeline ").add(timeline).add(" row ").num(row as u64).add(what),
        path,
    )
}

fn add_timeline_rows(
    timeline: &str,
    kind: TimelineKind,
    starts: &ManifestColumn,
    ends: &ManifestColumn,
    chunks: &Vec<ManifestChunk>,
    start: Table<ExpectedChunkMetadata>,
    path: &str,
) -> (r: Result<Table<ExpectedChunkMetadata>, ImportError>)
    requires
        column_fits(starts@, chunks@.len()),
        column_fits(ends@, chunks@.len()),
        starts.kind is Some,
        ends.kind is Some,
    ensures
        expected_view(r) == timeline_rows(
            timeline@,
            kind,
            starts@,
            ends@,
            table::views(chunks@),
            0,
            start@,
            path@,
        ),
{
    let ghost views = table::views(chunks@);
    let ghost initial = start@;
    let mut t = start;
    let n: usize = chunks.len();
    let mut row: usize = 0;
    while row < n
        invariant
            row <= n,
            n == chunks@.len(),
            views == table::views(chunks@),
            initial == start@,
            column_fits(starts@, chunks@.len()),
            column_fits(ends@, chunks@.len()),
            starts.kind is Some,
            ends.kind is Some,
            timeline_rows(timeline@, kind, starts@, ends@, views, 0, initial, path@)
                == timeline_rows(
                timeline@,
                kind,
                starts@,
                ends@,
                views,
                row as int,
                t@,
                path@,
            ),
        decreases n - row,
    {
        let c = &chunks[row];
        assert(c@ == views[row as int]);
        let has_start = starts.valid[row];
        let has_end = ends.valid[row];
        if has_start != has_end {
            return Err(row_error(timeline, row, " has mismatched start/end validity", path));
        }
        if has_start {
            let range = TimeRange { start: starts.times[row], end: ends.times[row] };
            if c.is_static {
                return Err(
                    rrd_wire::rrd_validation_error(
                        text::line("RRD static manifest row ").num(row as u64).add(
                            " claims temporal index ",
                        ).add(timeline),
                        path,
                    ),
                );
            }
            if range.start > range.end {
                let what = text::line(" has inverted range ").signed(range.start).add("..").signed(
                    range.end,
                ).done();
                return Err(row_error(timeline, row, what.as_str(), path));
            }
            let found = match t.get(c.id.as_str()) {
                Some(e) => Some(e.copied()),
                None => None,
            };
            match found {
                Some(mut e) => {
                    let ghost before = e@;
                    let previous = insert_range(&mut e.timelines, timeline, kind, range);
                    if previous.is_some() {
                        return Err(
                            rrd_wire::rrd_validation_error(
                                text::line("RRD manifest row ").num(row as u64).add(
                                    " repeats timeline ",
                                ).add(timeline),
                                path,
                            ),
                        );
                    }
                    assert(e@ =~= with_timeline(before, timeline@, kind, range));
                    let _ = t.insert(c.id.clone(), e);
                },
                None => {
                    return Err(
                        rrd_wire::rrd_validation_error(
                            text::line("RRD manifest row ").num(row as u64).add(
                                " has no chunk metadata",
                            ),
                            path,
                        ),
                    );
                },
            }
        }
        row = row + 1;
    }
    Ok(t)
}

fn add_timeline_column(
    columns: &Vec<ManifestColumn>,
    chunks: &Vec<ManifestChunk>,
    i: usize,
    timeline: &str,
    start: Table<ExpectedChunkMetadata>,
    path: &str,
) -> (r: Result<Table<ExpectedChunkMetadata>, ImportError>)
    requires
        i < columns@.len(),
        columns@[i as int]@.index == Some(timeline@),
        forall|i: int|
            0 <= i < columns@.len() ==> column_fits((#[trigger] columns@[i])@, chunks@.len()),
    ensures
        expected_view(r) == timeline_column(
            table::views(columns@),
            table::views(chunks@),
            i as int,
            start@,
            path@,
        ),
{
    let ghost cols = table::views(columns@);
    assert(columns@[i as int]@ == cols[i as int]);
    let j: usize = match find_end_column(columns, timeline) {
        Some(j) => j,
        None => {
            return Err(
                rrd_wire::rrd_validation_error(
                    text::line("RRD timeline ").add(timeline).add(" has no manifest end column"),
                    path,
                ),
            );
        },
    };
    assert(columns@[j as int]@ == cols[j as int]);
    let starts = &columns[i];
    let ends = &columns[j];
    let kind = match starts.kind {
        Some(kind) => kind,
        None => {
            return Err(
                rrd_wire::rrd_validation_error(
                    text::line("RRD timeline ").add(timeline).add(
                        " start column is invalid: ",
                    ).add(starts.time_fault.as_str()),
                    path,
                ),
            );
        },
    };
    let other = match ends.kind {
        Some(kind) => kind,
        None => {
            return Err(
                rrd_wire::rrd_validation_error(
                    text::line("RRD timeline ").add(timeline).add(" end column is invalid: ").add(
                        ends.time_fault.as_str(),
                    ),
                    path,
                ),
            );
        },
    };
    if kind != other {
        return Err(
            rrd_wire::rrd_validation_error(
                text::line("RRD timeline ").add(timeline).add(" start/end types disagree"),
                path,
            ),
        );
    }
    add_timeline_rows(timeline, kind, starts, ends, chunks, start, path)
}

fn add_timeline_columns(
    columns: &Vec<ManifestColumn>,
    chunks: &Vec<ManifestChunk>,
    start: Table<ExpectedChunkMetadata>,
    path: &str,
) -> (r: Result<Table<ExpectedChunkMetadata>, ImportError>)
    requires
        forall|i: int|
            0 <= i < columns@.len() ==> column_fits((#[trigger] columns@[i])@, chunks@.len()),
    ensures
        expected_view(r) == timeline_columns(
            table::views(columns@),
            table::views(chunks@),
            0,
            start@,
            path@,
        ),
{
    let ghost cols = table::views(columns@);
    let ghost views = table::views(chunks@);
    let ghost initial = start@;
    let mut t = start;
    let mut i: usize = 0;
    while i < columns.len()
        invariant
            i <= columns@.len(),
            cols == table::views(columns@),
            views == table::views(chunks@),
            initial == start@,
            forall|i: int|
                0 <= i < columns@.len() ==> column_fits((#[trigger] columns@[i])@, chunks@.len()),
            timeline_columns(cols, views, 0, initial, path@) == timeline_columns(
                cols,
                views,
                i as int,
                t@,
                path@,
            ),
        decreases columns@.len() - i,
    {
        let col = &columns[i];
        assert(col@ == cols[i as int]);
        match &col.index {
            Some(timeline) => {
                if col.component.is_none() && text::has_suffix(col.name.as_str(), ":start") {
                    match add_timeline_column(columns, chunks, i, timeline.as_str(), t, path) {
                        Ok(next) => {
                            t = next;
                        },
                        Err(e) => {
                            return Err(e);
                        },
                    }
                }
            },
            None => {},
        }
        i = i + 1;
    }
    Ok(t)
}

/// The chunks after the entries of a temporal index from `k` on.
pub open spec fn indexed_ranges(
    ranges: Seq<TemporalRangeView>,
    k: int,
    m: Map<Seq<char>, ExpectedChunkView>,
    path: Seq<char>,
) -> Result<Map<Seq<char>, ExpectedChunkView>, ImportErrorView>
    decreases ranges.len() - k,
{
    if k < 0 || k >= ranges.len() {
        Ok(m)
    } else if !m.contains_key(ranges[k].chunk_id) {
        Err(
            rrd_wire::validation_failure(
                "RRD temporal index references absent chunk "@ + ranges[k].chunk_id,
                path,
            ),
        )
    } else {
        indexed_ranges(
            ranges,
            k + 1,
            m.insert(
                ranges[k].chunk_id,
                with_component(m[ranges[k].chunk_id], ranges[k].component),
            ),
            path,
        )
    }
}

/// The chunks after the temporal indices from `i` on.
pub open spec fn indexed_timelines(
    temporal: Seq<TemporalTimelineView>,
    i: int,
    m: Map<Seq<char>, ExpectedChunkView>,
    path: Seq<char>,
) -> Result<Map<Seq<char>, ExpectedChunkView>, ImportErrorView>
    decreases temporal.len() - i,
{
    if i < 0 || i >= temporal.len() {
        Ok(m)
    } else {
        match indexed_ranges(temporal[i].ranges, 0, m, path) {
            Err(e) => Err(e),
            Ok(n) => indexed_timelines(temporal, i + 1, n, path),
        }
    }
}

fn add_indexed_ranges(
    ranges: &Vec<TemporalRange>,
    start: Table<ExpectedChunkMetadata>,
    path: &str,
) -> (r: Result<Table<ExpectedChunkMetadata>, ImportError>)
    ensures
        expected_view(r) == indexed_ranges(table::views(ranges@), 0, start@, path@),
{
    let ghost views = table::views(ranges@);
    let ghost initial = start@;
    let mut t = start;
    let mut k: usize = 0;
    while k < ranges.len()
        invariant
            k <= ranges@.len(),
            views == table::views(ranges@),
            initial == start@,
            indexed_ranges(views, 0, initial, path@) == indexed_ranges(views, k as int, t@, path@),
        decreases ranges@.len() - k,
    {
        let range = &ranges[k];
        assert(range@ == views[k as int]);
        let found = match t.get(range.chunk_id.as_str()) {
            Some(e) => Some(e.copied()),
            None => None,
        };
        match found {
            Some(mut e) => {
                let ghost before = e@;
                let _ = e.components.insert(range.component.clone(), Marker {  });
                assert(e@ =~= with_component(before, range.component@));
                let _ = t.insert(range.chunk_id.clone(), e);
            },
            None => {
                return Err(
                    rrd_wire::rrd_validation_error(
                        text::line("RRD temporal index references absent chunk ").add(
                            range.chunk_id.as_str(),
                        ),
                        path,
                    ),
                );
            },
        }
        k = k + 1;
    }
    Ok(t)
}

/// What a manifest promises of its chunks: from the list of chunks, the static columns, the
/// timelines and the temporal index.
pub open spec fn promised(
    chunks: Seq<ManifestChunkView>,
    columns: Seq<ManifestColumnView>,
    temporal: Seq<TemporalTimelineView>,
    path: Seq<char>,
) -> Result<Map<Seq<char>, ExpectedChunkView>, ImportErrorView> {
    match listed_from(chunks, 0, Map::empty(), path) {
        Err(e) => Err(e),
        Ok(a) => match static_columns(columns, chunks, 0, a, path) {
            Err(e) => Err(e),
            Ok(b) => match timeline_columns(columns, chunks, 0, b, path) {
                Err(e) => Err(e),
                Ok(c) => indexed_timelines(temporal, 0, c, path),
            },
        },
    }
}

/// Works out what a manifest promises of its chunks.
pub fn expected_chunk_metadata(
    chunks: &Vec<ManifestChunk>,
    columns: &Vec<ManifestColumn>,
    temporal: &Vec<TemporalTimeline>,
    path: &str,
) -> (r: Result<Table<ExpectedChunkMetadata>, ImportError>)
    requires
        forall|i: int|
            0 <= i < columns@.len() ==> column_fits((#[trigger] columns@[i])@, chunks@.len()),
    ensures
        expected_view(r) == promised(
            table::views(chunks@),
            table::views(columns@),
            table::views(temporal@),
            path@,
        ),
{
    let listed = match list_chunks(chunks, path) {
        Ok(t) => t,
        Err(e) => {
            return Err(e);
        },
    };
    let with_static = match add_static_columns(columns, chunks, listed, path) {
        Ok(t) => t,
        Err(e) => {
            return Err(e);
        },
    };
    let mut t = match add_timeline_columns(columns, chunks, with_static, path) {
        Ok(t) => t,
        Err(e) => {
            return Err(e);
        },
    };
    let ghost views = table::views(temporal@);
    let ghost initial = t@;
    let mut i: usize = 0;
    while i < temporal.len()
        invariant
            i <= temporal@.len(),
            views == table::views(temporal@),
            promised(
                table::views(chunks@),
                table::views(columns@),
                table::views(temporal@),
                path@,
            ) == indexed_timelines(views, 0, initial, path@),
            indexed_timelines(views, 0, initial, path@) == indexed_timelines(
                views,
                i as int,
                t@,
                path@,
            ),
        decreases temporal@.len() - i,
    {
        assert(temporal@[i as int]@ == views[i as int]);
        match add_indexed_ranges(&temporal[i].ranges, t, path) {
            Ok(next) => {
                t = next;
            },
            Err(e) => {
                return Err(e);
            },
        }
        i = i + 1;
    }
    Ok(t)
}

/// What a decoded chunk says of one timeline.
#[derive(Debug)]
pub struct DecodedTimeline {
    pub name: String,
    pub kind: TimelineKind,
    pub range: TimeRange,
}

#[verifier::ext_equal]
pub struct DecodedTimelineView {
    pub name: Seq<char>,
    pub kind: TimelineKind,
    pub range: TimeRange,
}

impl View for DecodedTimeline {
    type V = DecodedTimelineView;

    open spec fn view(&self) -> DecodedTimelineView {
        DecodedTimelineView { name: self.name@, kind: self.kind, range: self.range }
    }
}

/// What a decoded chunk says of itself.
#[derive(Debug)]
pub struct DecodedChunk {
    pub id: String,
    pub entity_path: String,
    pub is_static: bool,
    pub num_rows: u64,
    pub components: Vec<String>,
    pub timelines: Vec<DecodedTimeline>,
}

#[verifier::ext_equal]
pub struct DecodedChunkView {
    pub id: Seq<char>,
    pub entity_path: Seq<char>,
    pub is_static: bool,
    pub num_rows: u64,
    pub components: Seq<Seq<char>>,
    pub timelines: Seq<DecodedTimelineView>,
}

impl View for DecodedChunk {
    type V = DecodedChunkView;

    open spec fn view(&self) -> DecodedChunkView {
        DecodedChunkView {
            id: self.id@,
            entity_path: self.entity_path@,
            is_static: self.is_static,
            num_rows: self.num_rows,
            components: table::views(self.components@),
            timelines: table::views(self.timelines@),
        }
    }
}

/// The set of some names.
pub open spec fn name_set(names: Seq<Seq<char>>) -> Map<Seq<char>, ()> {
    Map::new(|k: Seq<char>| names.contains(k), |k: Seq<char>| ())
}

pub fn set_of_names(names: &Vec<String>) -> (r: Table<Marker>)
    ensures
        r@ == name_set(table::views(names@)),
{
    let ghost views = table::views(names@);
    let mut t: Table<Marker> = Table::new();
    let mut i: usize = 0;
    proof {
        assert(t@ =~= name_set(views.take(0)));
    }
    while i < names.len()
        invariant
            i <= names@.len(),
            views == table::views(names@),
            t@ == name_set(views.take(i as int)),
        decreases names@.len() - i,
    {
        let ghost before = t@;
        let _ = t.insert(names[i].clone(), Marker {  });
        proof {
            let a = views.take(i as int);
            let b = views.take(i + 1);
            assert(views[i as int] == names@[i as int]@);
            assert(b =~= a.push(views[i as int]));
            assert forall|k: Seq<char>| b.contains(k) <==> a.contains(k) || k == views[i as int] by {
                if a.contains(k) {
                    let j = choose|j: int| 0 <= j < a.len() && a[j] == k;
                    assert(b[j] == k);
                }
                assert(b[i as int] == views[i as int]);
                if b.contains(k) {
                    let j = choose|j: int| 0 <= j < b.len() && b[j] == k;
                    if j < i {
                        assert(a[j] == k);
                    }
                }
            }
            assert(t@ =~= name_set(b));
        }
        i = i + 1;
    }
    proof {
        assert(views.take(views.len() as int) =~= views);
    }
    t
}

/// The ranges of the timelines of a chunk, where a later one replaces an earlier one.
pub open spec fn ranges_from(
    timelines: Seq<DecodedTimelineView>,
    i: int,
    m: Map<Seq<char>, TimeRanges>,
) -> Map<Seq<char>, TimeRanges>
    decreases timelines.len() - i,
{
    if i < 0 || i >= timelines.len() {
        m
    } else {
        ranges_from(
            timelines,
            i + 1,
            put_range(m, timelines[i].name, timelines[i].kind, timelines[i].range),
        )
    }
}

fn collect_ranges(timelines: &Vec<DecodedTimeline>) -> (r: Table<TimeRanges>)
    ensures
        r@ == ranges_from(table::views(timelines@), 0, Map::empty()),
{
    let ghost views = table::views(timelines@);
    let mut t: Table<TimeRanges> = Table::new();
    let mut i: usize = 0;
    while i < timelines.len()
        invariant
            i <= timelines@.len(),
            views == table::views(timelines@),
            ranges_from(views, 0, Map::empty()) == ranges_from(views, i as int, t@),
        decreases timelines@.len() - i,
    {
        let one = &timelines[i];
        assert(one@ == views[i as int]);
        let _ = insert_range(&mut t, one.name.as_str(), one.kind, one.range);
        i = i + 1;
    }
    t
}

/// Whether two sets of names are the same.
pub fn same_names(a: &Table<Marker>, b: &Table<Marker>) -> (r: bool)
    ensures
        r == (a@ == b@),
{
    let n: usize = a.len();
    let m: usize = b.len();
    let ghost x = a.items();
    let ghost y = b.items();
    if n != m {
        return false;
    }
    let mut i: usize = 0;
    while i < n
        invariant
            i <= n,
            n == x.len(),
            n == y.len(),
            x == a.items(),
            y == b.items(),
            x == table::items_of(a@),
            y == table::items_of(b@),
            forall|j: int| 0 <= j < i ==> x[j].0 == y[j].0,
        decreases n - i,
    {
        if !text::same(a.key_at(i).as_str(), b.key_at(i).as_str()) {
            return false;
        }
        i = i + 1;
    }
    proof {
        assert forall|j: int| 0 <= j < n implies x[j] == y[j] by {
            let u: () = x[j].1;
            let v: () = y[j].1;
            assert(u == v);
        }
    }
    assert(x =~= y);
    true
}

fn same_range(a: Option<TimeRange>, b: Option<TimeRange>) -> (r: bool)
    ensures
        r == (a == b),
{
    match (a, b) {
        (None, None) => true,
        (Some(x), Some(y)) => x == y,
        _ => false,
    }
}

/// Whether two sets of ranges are the same.
pub fn same_ranges(a: &Table<TimeRanges>, b: &Table<TimeRanges>) -> (r: bool)
    ensures
        r == (a@ == b@),
{
    let n: usize = a.len();
    let m: usize = b.len();
    let ghost x = a.items();
    let ghost y = b.items();
    if n != m {
        return false;
    }
    let mut i: usize = 0;
    while i < n
        invariant
            i <= n,
            n == x.len(),
            n == y.len(),
            x == a.items(),
            y == b.items(),
            x == table::items_of(a@),
            y == table::items_of(b@),
            forall|j: int| 0 <= j < i ==> x[j] == y[j],
        decreases n - i,
    {
        if !text::same(a.key_at(i).as_str(), b.key_at(i).as_str()) {
            return false;
        }
        let p = a.value_at(i);
        let q = b.value_at(i);
        if !same_range(p.sequence, q.sequence) || !same_range(p.timestamp, q.timestamp)
            || !same_range(p.duration, q.duration) {
            return false;
        }
        assert(x[i as int] == y[i as int]);
        i = i + 1;
    }
    assert(x =~= y);
    true
}

pub open spec fn decoded_failure(id: Seq<char>, what: Seq<char>, path: Seq<char>) -> ImportErrorView {
    rrd_wire::validation_failure("Decoded RRD chunk "@ + id + what, path)
}

/// The fault of a decoded chunk against what the manifest promises of it.
pub open spec fn decoded_metadata_failure(
    c: DecodedChunkView,
    expected: Map<Seq<char>, ExpectedChunkView>,
    path: Seq<char>,
) -> Option<ImportErrorView> {
    if !expected.contains_key(c.id) {
        Some(decoded_failure(c.id, " has no manifest metadata"@, path))
    } else if c.num_rows != expected[c.id].num_rows {
        Some(decoded_failure(c.id, " row count disagrees with manifest"@, path))
    } else if name_set(c.components) != expected[c.id].components {
        Some(decoded_failure(c.id, " component set disagrees with manifest"@, path))
    } else if ranges_from(c.timelines, 0, Map::empty()) != expected[c.id].timelines {
        Some(decoded_failure(c.id, " timeline ranges disagree with manifest"@, path))
    } else {
        None
    }
}

fn decoded_error(id: &str, what: &str, path: &str) -> (r: ImportError)
    ensures
        r@ == decoded_failure(id@, what@, path@),
{
    rrd_wire::rrd_validation_error(text::line("Decoded RRD chunk ").add(id).add(what), path)
}

/// Checks a decoded chunk against what the manifest promises of it.
pub fn validate_decoded_chunk_metadata(
    c: &DecodedChunk,
    expected: &Table<ExpectedChunkMetadata>,
    path: &str,
) -> (r: Result<(), ImportError>)
    ensures
        rrd_wire::fault(r) == decoded_metadata_failure(c@, expected@, path@),
{
    let e = match expected.get(c.id.as_str()) {
        Some(e) => e,
        None => {
            return Err(decoded_error(c.id.as_str(), " has no manifest metadata", path));
        },
    };
    if c.num_rows != e.num_rows {
        return Err(decoded_error(c.id.as_str(), " row count disagrees with manifest", path));
    }
    let components = set_of_names(&c.components);
    if !same_names(&components, &e.components) {
        return Err(decoded_error(c.id.as_str(), " component set disagrees with manifest", path));
    }
    let ranges = collect_ranges(&c.timelines);
    if !same_ranges(&ranges, &e.timelines) {
        return Err(decoded_error(c.id.as_str(), " timeline ranges disagree with manifest", path));
    }
    Ok(())
}

/// The last row below `i` that lists a chunk.
pub open spec fn listed_row(chunks: Seq<ManifestChunkView>, id: Seq<char>, i: int) -> Option<int>
    decreases i,
{
    if i <= 0 || i > chunks.len() {
        None
    } else if chunks[i - 1].id == id {
        Some(i - 1)
    } else {
        listed_row(chunks, id, i - 1)
    }
}

fn find_row(chunks: &Vec<ManifestChunk>, id: &str) -> (r: Option<usize>)
    ensures
        match r {
            Some(row) => row < chunks@.len() && listed_row(
                table::views(chunks@),
                id@,
                chunks@.len() as int,
            ) == Some(row as int),
            None => listed_row(table::views(chunks@), id@, chunks@.len() as int) is None,
        },
{
    let ghost views = table::views(chunks@);
    let n: usize = chunks.len();
    let mut i: usize = n;
    while i > 0
        invariant
            i <= n,
            n == chunks@.len(),
            views == table::views(chunks@),
            listed_row(views, id@, n as int) == listed_row(views, id@, i as int),
        decreases i,
    {
        assert(views[i - 1] == chunks@[i - 1]@);
        if text::same(chunks[i - 1].id.as_str(), id) {
            return Some(i - 1);
        }
        i = i - 1;
    }
    None
}

/// The fault of a decoded chunk against its manifest.
pub open spec fn decoded_chunk_failure(
    c: DecodedChunkView,
    chunks: Seq<ManifestChunkView>,
    expected: Map<Seq<char>, ExpectedChunkView>,
    path: Seq<char>,
) -> Option<ImportErrorView> {
    match listed_row(chunks, c.id, chunks.len() as int) {
        None => Some(decoded_failure(c.id, " is absent from its manifest"@, path)),
        Some(row) => if c.entity_path != chunks[row].entity_path || c.is_static
            != chunks[row].is_static {
            Some(
                decoded_failure(
                    c.id,
                    " identity metadata disagrees with manifest row "@ + text::decimal(row as nat),
                    path,
                ),
            )
        } else {
            decoded_metadata_failure(c, expected, path)
        },
    }
}

/// Checks a decoded chunk against its manifest.
pub fn validate_decoded_chunk(
    c: &DecodedChunk,
    chunks: &Vec<ManifestChunk>,
    expected: &Table<ExpectedChunkMetadata>,
    path: &str,
) -> (r: Result<(), ImportError>)
    ensures
        rrd_wire::fault(r) == decoded_chunk_failure(c@, table::views(chunks@), expected@, path@),
{
    match find_row(chunks, c.id.as_str()) {
        None => Err(decoded_error(c.id.as_str(), " is absent from its manifest", path)),
        Some(row) => {
            assert(table::views(chunks@)[row as int] == chunks@[row as int]@);
            if !text::same(c.entity_path.as_str(), chunks[row].entity_path.as_str()) || c.is_static
                != chunks[row].is_static {
                let what = text::line(" identity metadata disagrees with manifest row ").num(
                    row as u64,
                ).done();
                return Err(decoded_error(c.id.as_str(), what.as_str(), path));
            }
            validate_decoded_chunk_metadata(c, expected, path)
        },
    }
}

/// Spans that run forward within the payload region of a file.
pub open spec fn within_file(s: Seq<(u64, u64)>, file_size: u64, header_size: u64) -> bool {
    forall|k: int|
        0 <= k < s.len() ==> header_size <= (#[trigger] s[k]).0 <= s[k].1 && s[k].1 <= file_size
}

spec fn bounded(t: ChunkTotals, file_size: u64, header_size: u64) -> bool {
    t.compressed <= MAX_RRD_TOTAL_COMPRESSED_BYTES && t.uncompressed
        <= MAX_RRD_TOTAL_UNCOMPRESSED_BYTES && within_file(t.spans, file_size, header_size)
}

proof fn lemma_manifest_bounds(
    chunks: Seq<ManifestChunkView>,
    i: int,
    t: ChunkTotals,
    file_size: u64,
    header_size: u64,
    path: Seq<char>,
)
    requires
        0 <= i,
        bounded(t, file_size, header_size),
    ensures
        manifest_totals(chunks, i, t, file_size, header_size, path) matches Ok(u) ==> bounded(
            u,
            file_size,
            header_size,
        ),
    decreases chunks.len() - i,
{
    if i < chunks.len() && chunk_failure(chunks[i], i, t, file_size, header_size, path) is None {
        lemma_manifest_bounds(
            chunks,
            i + 1,
            counted_chunk(t, chunks[i]),
            file_size,
            header_size,
            path,
        );
    }
}

proof fn lemma_all_bounds(
    manifests: Seq<Seq<ManifestChunkView>>,
    i: int,
    count: int,
    t: ChunkTotals,
    file_size: u64,
    header_size: u64,
    path: Seq<char>,
)
    requires
        0 <= i,
        bounded(t, file_size, header_size),
    ensures
        all_totals(manifests, i, count, t, file_size, header_size, path) matches Ok(u) ==> bounded(
            u,
            file_size,
            header_size,
        ),
    decreases manifests.len() - i,
{
    if i < manifests.len() {
        lemma_manifest_bounds(manifests[i], 0, t, file_size, header_size, path);
        match manifest_totals(manifests[i], 0, t, file_size, header_size, path) {
            Ok(u) => {
                lemma_all_bounds(
                    manifests,
                    i + 1,
                    count + manifests[i].len(),
                    u,
                    file_size,
                    header_size,
                    path,
                );
            },
            Err(_) => {},
        }
    }
}

/// The chunks of an RRD that passes lie within the file, share no byte, and stay within the
/// limits in total.
pub proof fn law_accepted_chunks_are_disjoint_and_bounded(
    manifests: Seq<Seq<ManifestChunkView>>,
    file_size: u64,
    header_size: u64,
    path: Seq<char>,
    sorted: Seq<(u64, u64)>,
)
    requires
        resources_failure(manifests, file_size, header_size, path) is None,
        all_totals(manifests, 0, 0, no_totals(), file_size, header_size, path) matches Ok(t)
            && spans::ascending(sorted) && sorted.to_multiset() == t.spans.to_multiset(),
    ensures
        spans::disjoint(sorted),
        ({
            let t = all_totals(manifests, 0, 0, no_totals(), file_size, header_size, path)->Ok_0;
            within_file(t.spans, file_size, header_size) && t.compressed
                <= MAX_RRD_TOTAL_COMPRESSED_BYTES && t.uncompressed
                <= MAX_RRD_TOTAL_UNCOMPRESSED_BYTES
        }),
{
    lemma_all_bounds(manifests, 0, 0, no_totals(), file_size, header_size, path);
    let t = all_totals(manifests, 0, 0, no_totals(), file_size, header_size, path)->Ok_0;
    spans::lemma_arranged(t.spans, sorted);
    assert forall|k: int| 0 <= k < sorted.len() implies (#[trigger] sorted[k]).0 <= sorted[k].1 by {
        sorted.to_multiset_ensures();
        t.spans.to_multiset_ensures();
        assert(sorted.contains(sorted[k]));
        assert(t.spans.to_multiset().count(sorted[k]) > 0);
        assert(t.spans.contains(sorted[k]));
    }
    spans::law_no_neighbour_overlap_is_disjoint(sorted);
}

/// Two promises that cover the same chunks with the same numbers of rows.
pub open spec fn same_cover(
    a: Map<Seq<char>, ExpectedChunkView>,
    b: Map<Seq<char>, ExpectedChunkView>,
) -> bool {
    a.dom() =~= b.dom() && forall|k: Seq<char>| #[trigger]
        a.contains_key(k) ==> a[k].num_rows == b[k].num_rows
}

proof fn lemma_static_rows_cover(
    component: Seq<char>,
    values: Seq<bool>,
    chunks: Seq<ManifestChunkView>,
    row: int,
    m: Map<Seq<char>, ExpectedChunkView>,
    path: Seq<char>,
)
    requires
        0 <= row,
    ensures
        static_rows(component, values, chunks, row, m, path) matches Ok(n) ==> same_cover(m, n),
    decreases values.len() - row,
{
    if row < values.len() {
        if !values[row] {
            lemma_static_rows_cover(component, values, chunks, row + 1, m, path);
        } else if chunks[row].is_static && m.contains_key(chunks[row].id) {
            lemma_static_rows_cover(
                component,
                values,
                chunks,
                row + 1,
                m.insert(chunks[row].id, with_component(m[chunks[row].id], component)),
                path,
            );
        }
    }
}

proof fn lemma_static_cover(
    columns: Seq<ManifestColumnView>,
    chunks: Seq<ManifestChunkView>,
    i: int,
    m: Map<Seq<char>, ExpectedChunkView>,
    path: Seq<char>,
)
    requires
        0 <= i,
    ensures
        static_columns(columns, chunks, i, m, path) matches Ok(n) ==> same_cover(m, n),
    decreases columns.len() - i,
{
    if i < columns.len() {
        if !text::ends_with(columns[i].name, ":has_static_data"@) {
            lemma_static_cover(columns, chunks, i + 1, m, path);
        } else if columns[i].component is Some && columns[i].booleans is Some {
            let c = columns[i].component->Some_0;
            let v = columns[i].booleans->Some_0;
            lemma_static_rows_cover(c, v, chunks, 0, m, path);
            match static_rows(c, v, chunks, 0, m, path) {
                Ok(n) => {
                    lemma_static_cover(columns, chunks, i + 1, n, path);
                },
                Err(_) => {},
            }
        }
    }
}

proof fn lemma_timeline_rows_cover(
    timeline: Seq<char>,
    kind: TimelineKind,
    starts: ManifestColumnView,
    ends: ManifestColumnView,
    chunks: Seq<ManifestChunkView>,
    row: int,
    m: Map<Seq<char>, ExpectedChunkView>,
    path: Seq<char>,
)
    requires
        0 <= row,
    ensures
        timeline_rows(timeline, kind, starts, ends, chunks, row, m, path) matches Ok(n)
            ==> same_cover(m, n),
    decreases chunks.len() - row,
{
    if row < chunks.len() {
        if !starts.valid[row] && !ends.valid[row] {
            lemma_timeline_rows_cover(timeline, kind, starts, ends, chunks, row + 1, m, path);
        } else if m.contains_key(chunks[row].id) {
            let range = TimeRange { start: starts.times[row], end: ends.times[row] };
            let next = m.insert(
                chunks[row].id,
                with_timeline(m[chunks[row].id], timeline, kind, range),
            );
            assert(same_cover(m, next));
            lemma_timeline_rows_cover(timeline, kind, starts, ends, chunks, row + 1, next, path);
            match timeline_rows(timeline, kind, starts, ends, chunks, row + 1, next, path) {
                Ok(n) => {
                    assert forall|k: Seq<char>| #[trigger] m.contains_key(k) implies m[k].num_rows
                        == n[k].num_rows by {
                        assert(next.contains_key(k));
                    }
                    assert(same_cover(m, n));
                },
                Err(_) => {},
            }
        }
    }
}

proof fn lemma_timelines_cover(
    columns: Seq<ManifestColumnView>,
    chunks: Seq<ManifestChunkView>,
    i: int,
    m: Map<Seq<char>, ExpectedChunkView>,
    path: Seq<char>,
)
    requires
        0 <= i,
    ensures
        timeline_columns(columns, chunks, i, m, path) matches Ok(n) ==> same_cover(m, n),
    decreases columns.len() - i,
{
    if i < columns.len() {
        if !is_start_column(columns[i]) {
            lemma_timelines_cover(columns, chunks, i + 1, m, path);
        } else {
            let timeline = columns[i].index->Some_0;
            match end_column(columns, timeline, 0) {
                Some(j) => {
                    if columns[i].kind is Some {
                        lemma_timeline_rows_cover(
                            timeline,
                            columns[i].kind->Some_0,
                            columns[i],
                            columns[j],
                            chunks,
                            0,
                            m,
                            path,
                        );
                    }
                },
                None => {},
            }
            match timeline_column(columns, chunks, i, m, path) {
                Ok(n) => {
                    lemma_timelines_cover(columns, chunks, i + 1, n, path);
                },
                Err(_) => {},
            }
        }
    }
}

proof fn lemma_indexed_ranges_cover(
    ranges: Seq<TemporalRangeView>,
    k: int,
    m: Map<Seq<char>, ExpectedChunkView>,
    path: Seq<char>,
)
    requires
        0 <= k,
    ensures
        indexed_ranges(ranges, k, m, path) matches Ok(n) ==> same_cover(m, n),
    decreases ranges.len() - k,
{
    if k < ranges.len() && m.contains_key(ranges[k].chunk_id) {
        lemma_indexed_ranges_cover(
            ranges,
            k + 1,
            m.insert(
                ranges[k].chunk_id,
                with_component(m[ranges[k].chunk_id], ranges[k].component),
            ),
            path,
        );
    }
}

proof fn lemma_indexed_cover(
    temporal: Seq<TemporalTimelineView>,
    i: int,
    m: Map<Seq<char>, ExpectedChunkView>,
    path: Seq<char>,
)
    requires
        0 <= i,
    ensures
        indexed_timelines(temporal, i, m, path) matches Ok(n) ==> same_cover(m, n),
    decreases temporal.len() - i,
{
    if i < temporal.len() {
        lemma_indexed_ranges_cover(temporal[i].ranges, 0, m, path);
        match indexed_ranges(temporal[i].ranges, 0, m, path) {
            Ok(n) => {
                lemma_indexed_cover(temporal, i + 1, n, path);
            },
            Err(_) => {},
        }
    }
}

spec fn lists(chunks: Seq<ManifestChunkView>, upto: int, m: Map<Seq<char>, ExpectedChunkView>) -> bool {
    &&& forall|i: int|
        0 <= i < upto ==> m.contains_key((#[trigger] chunks[i]).id) && m[chunks[i].id].num_rows
            == chunks[i].num_rows
    &&& forall|k: Seq<char>| #[trigger]
        m.contains_key(k) ==> exists|i: int| 0 <= i < upto && (#[trigger] chunks[i]).id == k
    &&& forall|i: int, j: int|
        0 <= i < j < upto ==> (#[trigger] chunks[i]).id != (#[trigger] chunks[j]).id
}

proof fn lemma_listed(
    chunks: Seq<ManifestChunkView>,
    i: int,
    m: Map<Seq<char>, ExpectedChunkView>,
    path: Seq<char>,
)
    requires
        0 <= i <= chunks.len(),
        lists(chunks, i, m),
    ensures
        listed_from(chunks, i, m, path) matches Ok(n) ==> lists(chunks, chunks.len() as int, n),
    decreases chunks.len() - i,
{
    if i < chunks.len() && !m.contains_key(chunks[i].id) {
        let next = m.insert(chunks[i].id, blank_chunk(chunks[i].num_rows));
        assert forall|k: Seq<char>| #[trigger] next.contains_key(k) implies exists|j: int|
            0 <= j < i + 1 && (#[trigger] chunks[j]).id == k by {
            if k == chunks[i].id {
                assert(chunks[i].id == k);
            } else {
                assert(m.contains_key(k));
                let j = choose|j: int| 0 <= j < i && (#[trigger] chunks[j]).id == k;
                assert(chunks[j].id == k);
            }
        }
        lemma_listed(chunks, i + 1, next, path);
    }
}

/// A manifest that passes lists every chunk once, and promises something of exactly the chunks
/// that it lists, with their numbers of rows.
pub proof fn law_promises_cover_the_listed_chunks(
    chunks: Seq<ManifestChunkView>,
    columns: Seq<ManifestColumnView>,
    temporal: Seq<TemporalTimelineView>,
    path: Seq<char>,
)
    requires
        promised(chunks, columns, temporal, path) is Ok,
    ensures
        ({
            let m = promised(chunks, columns, temporal, path)->Ok_0;
            &&& forall|i: int|
                0 <= i < chunks.len() ==> m.contains_key((#[trigger] chunks[i]).id)
                    && m[chunks[i].id].num_rows == chunks[i].num_rows
            &&& forall|k: Seq<char>| #[trigger]
                m.contains_key(k) ==> exists|i: int|
                    0 <= i < chunks.len() && (#[trigger] chunks[i]).id == k
            &&& forall|i: int, j: int|
                0 <= i < j < chunks.len() ==> (#[trigger] chunks[i]).id != (
                #[trigger] chunks[j]).id
        }),
{
    let start = Map::<Seq<char>, ExpectedChunkView>::empty();
    assert(lists(chunks, 0, start));
    lemma_listed(chunks, 0, start, path);
    let a = listed_from(chunks, 0, start, path)->Ok_0;
    lemma_static_cover(columns, chunks, 0, a, path);
    let b = static_columns(columns, chunks, 0, a, path)->Ok_0;
    lemma_timelines_cover(columns, chunks, 0, b, path);
    let c = timeline_columns(columns, chunks, 0, b, path)->Ok_0;
    lemma_indexed_cover(temporal, 0, c, path);
    let m = promised(chunks, columns, temporal, path)->Ok_0;
    assert(lists(chunks, chunks.len() as int, a));
    assert forall|i: int| 0 <= i < chunks.len() implies m.contains_key((#[trigger] chunks[i]).id)
        && m[chunks[i].id].num_rows == chunks[i].num_rows by {
        let k = chunks[i].id;
        assert(a.contains_key(k));
        assert(a.dom().contains(k));
        assert(b.dom().contains(k));
        assert(b.contains_key(k));
        assert(c.dom().contains(k));
        assert(c.contains_key(k));
        assert(m.dom().contains(k));
    }
    assert forall|k: Seq<char>| #[trigger] m.contains_key(k) implies exists|i: int|
        0 <= i < chunks.len() && (#[trigger] chunks[i]).id == k by {
        assert(m.dom().contains(k));
        assert(c.dom().contains(k));
        assert(b.dom().contains(k));
        assert(a.contains_key(k));
    }
}

/// A chunk is accepted exactly if its packed and its unpacked size are within their limits and
/// their ratio, the recording stays within its limits with it, and it lies in the file behind the
/// header.
pub proof fn law_chunks_lie_within_the_file(
    c: ManifestChunkView,
    index: int,
    t: ChunkTotals,
    file_size: u64,
    header_size: u64,
    path: Seq<char>,
)
    ensures
        chunk_failure(c, index, t, file_size, header_size, path) is None <==> {
            &&& 0 < c.size <= 67_108_864
            &&& 0 < c.uncompressed <= 67_108_864
            &&& c.uncompressed <= c.size * 1_000
            &&& t.compressed + c.size <= 2_147_483_648
            &&& t.uncompressed + c.uncompressed <= 2_147_483_648
            &&& header_size <= c.offset && c.offset + c.size <= file_size
        },
        chunk_failure(c, index, t, file_size, header_size, path) is None ==> {
            let after = counted_chunk(t, c);
            &&& after.compressed == t.compressed + c.size
            &&& after.uncompressed == t.uncompressed + c.uncompressed
            &&& after.spans.len() == t.spans.len() + 1 && after.spans.last().0 == c.offset
                && after.spans.last().1 == c.offset + c.size
        },
{
}

/// A chunk was sent as it is listed exactly if its message is of its store and its chunk, has the
/// listed size, and is not packed more tightly than a thousand to one.
pub proof fn law_chunks_are_sent_as_listed(
    t: ChunkTransport,
    listed_uncompressed: u64,
    store_id: Seq<char>,
    chunk_id: Seq<char>,
    path: Seq<char>,
)
    requires
        listed_uncompressed <= usize::MAX,
    ensures
        transport_failure(t, listed_uncompressed, store_id, chunk_id, path) is None <==> {
            &&& t.uncompressed_size == listed_uncompressed
            &&& t.same_store && t.same_chunk
            &&& t.payload_size > 0
            &&& t.uncompressed_size <= t.payload_size * 1_000
        },
{
}

/// What the sizes from one place up to another come to.
pub open spec fn sizes_between(sizes: Seq<u64>, start: int, end: int) -> nat
    decreases end - start,
{
    if end <= start {
        0
    } else {
        sizes_between(sizes, start, end - 1) + sizes[end - 1] as nat
    }
}

proof fn lemma_batch_end(sizes: Seq<u64>, start: int, end: int, bytes: int)
    requires
        0 <= start <= end <= sizes.len(),
        end - start <= 32,
        sizes_between(sizes, start, end) == bytes,
        bytes <= 67_108_864 || end <= start + 1,
        bytes <= u64::MAX,
    ensures
        ({
            let r = batch_end_from(sizes, start, end, bytes);
            &&& end <= r <= sizes.len() && r - start <= 32
            &&& start < sizes.len() ==> start < r
            &&& sizes_between(sizes, start, r) <= 67_108_864 || r <= start + 1
            &&& r < sizes.len() ==> r - start == 32 || sizes_between(sizes, start, r + 1)
                > 67_108_864
        }),
    decreases sizes.len() - end,
{
    if end < sizes.len() && end - start < RRD_DECODE_BATCH_CHUNKS {
        assert(sizes_between(sizes, start, end + 1) == bytes + sizes[end]);
        let next = if bytes + sizes[end] > u64::MAX {
            u64::MAX as int
        } else {
            bytes + sizes[end]
        };
        if !(end > start && next > RRD_DECODE_BATCH_BYTES) {
            lemma_batch_end(sizes, start, end + 1, next);
        }
    }
}

/// A batch holds at least one chunk and at most 32, at most 64 megabytes unless it is a single
/// chunk, and is not cut short: one chunk more would be too many or too much.
pub proof fn law_batches_are_full(sizes: Seq<u64>, start: int)
    requires
        0 <= start < sizes.len(),
    ensures
        ({
            let end = batch_end_from(sizes, start, start, 0);
            &&& start < end <= sizes.len() && end - start <= 32
            &&& sizes_between(sizes, start, end) <= 67_108_864 || end == start + 1
            &&& end < sizes.len() ==> end - start == 32 || sizes_between(sizes, start, end + 1)
                > 67_108_864
        }),
{
    lemma_batch_end(sizes, start, start, 0);
}

proof fn lemma_static_rows(
    component: Seq<char>,
    values: Seq<bool>,
    chunks: Seq<ManifestChunkView>,
    row: int,
    m: Map<Seq<char>, ExpectedChunkView>,
    path: Seq<char>,
)
    requires
        0 <= row,
    ensures
        static_rows(component, values, chunks, row, m, path) matches Ok(n) ==> {
            &&& forall|id: Seq<char>| #[trigger]
                m.contains_key(id) ==> n.contains_key(id) && m[id].components.submap_of(
                    n[id].components,
                ) && n[id].timelines == m[id].timelines && n[id].num_rows == m[id].num_rows
            &&& forall|r: int|
                row <= r < values.len() && #[trigger] values[r] ==> chunks[r].is_static
                    && n.contains_key(chunks[r].id) && n[chunks[r].id].components.contains_key(
                    component,
                )
        },
    decreases values.len() - row,
{
    if row < values.len() {
        if !values[row] {
            lemma_static_rows(component, values, chunks, row + 1, m, path);
        } else if chunks[row].is_static && m.contains_key(chunks[row].id) {
            let id = chunks[row].id;
            let next = m.insert(id, with_component(m[id], component));
            lemma_static_rows(component, values, chunks, row + 1, next, path);
            assert(next.contains_key(id));
            assert(next[id].components.contains_key(component));
            assert(m[id].components.submap_of(next[id].components));
            match static_rows(component, values, chunks, row, m, path) {
                Ok(n) => {
                    assert(next[id].components.submap_of(n[id].components));
                    assert forall|k: Seq<char>| #[trigger] m.contains_key(k) implies n.contains_key(
                        k,
                    ) && m[k].components.submap_of(n[k].components) && n[k].timelines
                        == m[k].timelines && n[k].num_rows == m[k].num_rows by {
                        assert(next.contains_key(k));
                        assert(next[k].components.submap_of(n[k].components));
                        assert(m[k].components.submap_of(next[k].components));
                        assert forall|c: Seq<char>| #[trigger]
                            m[k].components.dom().contains(c) implies n[k].components.dom().contains(
                            c,
                        ) && m[k].components[c] == n[k].components[c] by {
                            assert(next[k].components.dom().contains(c));
                        }
                    }
                },
                Err(_) => {},
            }
        }
    }
}

/// A static column promises its component of every chunk that it marks, and marks only static
/// chunks.
pub proof fn law_static_columns_promise_their_component(
    component: Seq<char>,
    values: Seq<bool>,
    chunks: Seq<ManifestChunkView>,
    m: Map<Seq<char>, ExpectedChunkView>,
    path: Seq<char>,
    row: int,
)
    requires
        0 <= row < values.len(),
        values[row],
    ensures
        static_rows(component, values, chunks, 0, m, path) matches Ok(n) ==> chunks[row].is_static
            && n.contains_key(chunks[row].id) && n[chunks[row].id].components.contains_key(
            component,
        ),
{
    lemma_static_rows(component, values, chunks, 0, m, path);
}

proof fn lemma_timeline_rows(
    timeline: Seq<char>,
    kind: TimelineKind,
    starts: ManifestColumnView,
    ends: ManifestColumnView,
    chunks: Seq<ManifestChunkView>,
    row: int,
    m: Map<Seq<char>, ExpectedChunkView>,
    path: Seq<char>,
)
    requires
        0 <= row,
    ensures
        timeline_rows(timeline, kind, starts, ends, chunks, row, m, path) matches Ok(n) ==> {
            &&& forall|id: Seq<char>| #[trigger]
                m.contains_key(id) ==> n.contains_key(id) && n[id].components == m[id].components
                    && (range_of(ranges_at(m[id].timelines, timeline), kind) is Some ==> range_of(
                    ranges_at(n[id].timelines, timeline),
                    kind,
                ) == range_of(ranges_at(m[id].timelines, timeline), kind))
            &&& forall|r: int|
                row <= r < chunks.len() ==> starts.valid[r] == ends.valid[r] && (starts.valid[r]
                    ==> !(#[trigger] chunks[r]).is_static && starts.times[r] <= ends.times[r]
                    && n.contains_key(chunks[r].id) && range_of(
                    ranges_at(n[chunks[r].id].timelines, timeline),
                    kind,
                ) == Some(TimeRange { start: starts.times[r], end: ends.times[r] }))
        },
    decreases chunks.len() - row,
{
    if row < chunks.len() {
        if !starts.valid[row] && !ends.valid[row] {
            lemma_timeline_rows(timeline, kind, starts, ends, chunks, row + 1, m, path);
        } else if starts.valid[row] == ends.valid[row] && !chunks[row].is_static
            && starts.times[row] <= ends.times[row] && m.contains_key(chunks[row].id) && range_of(
            ranges_at(m[chunks[row].id].timelines, timeline),
            kind,
        ) is None {
            let id = chunks[row].id;
            let range = TimeRange { start: starts.times[row], end: ends.times[row] };
            let next = m.insert(id, with_timeline(m[id], timeline, kind, range));
            lemma_timeline_rows(timeline, kind, starts, ends, chunks, row + 1, next, path);
            assert(next.contains_key(id));
            assert(range_of(ranges_at(next[id].timelines, timeline), kind) == Some(range));
            assert forall|k: Seq<char>| #[trigger] m.contains_key(k) implies next.contains_key(
                k,
            ) by {
            }
        }
    }
}

/// The columns of a timeline promise its range, from the start to the end that they give, of every
/// chunk for which they give both; they give both or neither, in order, and never for a static
/// chunk.
pub proof fn law_timeline_columns_promise_their_ranges(
    timeline: Seq<char>,
    kind: TimelineKind,
    starts: ManifestColumnView,
    ends: ManifestColumnView,
    chunks: Seq<ManifestChunkView>,
    m: Map<Seq<char>, ExpectedChunkView>,
    path: Seq<char>,
    row: int,
)
    requires
        0 <= row < chunks.len(),
    ensures
        timeline_rows(timeline, kind, starts, ends, chunks, 0, m, path) matches Ok(n) ==> {
            &&& starts.valid[row] == ends.valid[row]
            &&& starts.valid[row] ==> !chunks[row].is_static && starts.times[row]
                <= ends.times[row] && n.contains_key(chunks[row].id) && range_of(
                ranges_at(n[chunks[row].id].timelines, timeline),
                kind,
            ) == Some(TimeRange { start: starts.times[row], end: ends.times[row] })
        },
{
    lemma_timeline_rows(timeline, kind, starts, ends, chunks, 0, m, path);
}

/// A range that is put for a timeline of a kind is what is found for it; every other one stays.
pub proof fn law_ranges_are_kept_apart(
    m: Map<Seq<char>, TimeRanges>,
    name: Seq<char>,
    kind: TimelineKind,
    range: TimeRange,
    other: Seq<char>,
    other_kind: TimelineKind,
)
    ensures
        range_of(ranges_at(put_range(m, name, kind, range), name), kind) == Some(range),
        other != name || other_kind != kind ==> range_of(
            ranges_at(put_range(m, name, kind, range), other),
            other_kind,
        ) == range_of(ranges_at(m, other), other_kind),
{
}

proof fn lemma_listed_row(chunks: Seq<ManifestChunkView>, id: Seq<char>, i: int)
    requires
        0 <= i <= chunks.len(),
    ensures
        match listed_row(chunks, id, i) {
            Some(row) => 0 <= row < i && chunks[row].id == id && forall|k: int|
                row < k < i ==> (#[trigger] chunks[k]).id != id,
            None => forall|k: int| 0 <= k < i ==> (#[trigger] chunks[k]).id != id,
        },
    decreases i,
{
    if i > 0 && chunks[i - 1].id != id {
        lemma_listed_row(chunks, id, i - 1);
    }
}

/// A decoded chunk agrees with a manifest that lists it once exactly if it has the entity, the
/// number of rows, the components and the ranges that were promised of it.
pub proof fn law_decoded_chunks_keep_the_promise(
    c: DecodedChunkView,
    chunks: Seq<ManifestChunkView>,
    expected: Map<Seq<char>, ExpectedChunkView>,
    path: Seq<char>,
    row: int,
)
    requires
        0 <= row < chunks.len(),
        chunks[row].id == c.id,
        forall|k: int| 0 <= k < chunks.len() && k != row ==> (#[trigger] chunks[k]).id != c.id,
    ensures
        decoded_chunk_failure(c, chunks, expected, path) is None <==> {
            &&& c.entity_path == chunks[row].entity_path && c.is_static == chunks[row].is_static
            &&& expected.contains_key(c.id) && c.num_rows == expected[c.id].num_rows
            &&& forall|name: Seq<char>| #[trigger]
                c.components.contains(name) <==> expected[c.id].components.contains_key(name)
            &&& ranges_from(c.timelines, 0, Map::empty()) == expected[c.id].timelines
        },
{
    lemma_listed_row(chunks, c.id, chunks.len() as int);
    assert(chunks[row].id == c.id);
    if expected.contains_key(c.id) {
        let set = name_set(c.components);
        let promised = expected[c.id].components;
        if forall|name: Seq<char>| #[trigger]
            c.components.contains(name) <==> promised.contains_key(name) {
            assert forall|name: Seq<char>| #[trigger] set.contains_key(name)
                == promised.contains_key(name) by {
                assert(c.components.contains(name) <==> promised.contains_key(name));
            }
            assert(set =~= promised);
        }
        if set == promised {
            assert forall|name: Seq<char>| #[trigger]
                c.components.contains(name) <==> promised.contains_key(name) by {
                assert(set.contains_key(name) == c.components.contains(name));
            }
        }
    }
}

/// A chunk that no manifest row lists is refused.
pub proof fn law_unlisted_chunks_are_refused(
    c: DecodedChunkView,
    chunks: Seq<ManifestChunkView>,
    expected: Map<Seq<char>, ExpectedChunkView>,
    path: Seq<char>,
)
    requires
        forall|k: int| 0 <= k < chunks.len() ==> (#[trigger] chunks[k]).id != c.id,
    ensures
        decoded_chunk_failure(c, chunks, expected, path) is Some,
{
    lemma_listed_row(chunks, c.id, chunks.len() as int);
}

} // verus!
