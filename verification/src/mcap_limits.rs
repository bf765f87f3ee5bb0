//! Resource limits and framing checks of MCAP files.

use crate::bytes;
use crate::import;
use crate::import::{ImportError, ImportErrorCode, ImportErrorView};
use crate::spans;
use crate::table;
use crate::text;
use vstd::multiset::Multiset;
use vstd::prelude::*;
use vstd::utf8::*;

verus! {

pub const MAX_MCAP_CHUNKS: usize = 65_536;
pub const MAX_MCAP_CHUNK_UNCOMPRESSED_BYTES: u64 = 67_108_864;
pub const MAX_MCAP_TOTAL_UNCOMPRESSED_BYTES: u64 = 2_147_483_648;
pub const MAX_MCAP_COMPRESSION_RATIO: u64 = 1000;
pub const MAX_MCAP_DECODE_WORKERS: usize = 2;
pub const MAX_MCAP_SUMMARY_BYTES: u64 = 67_108_864;
pub const MAX_MCAP_SUMMARY_RECORD_BYTES: u64 = 8_388_608;
pub const MAX_MCAP_SUMMARY_RECORDS: usize = 131_072;
pub const MAX_MCAP_SCHEMAS: usize = 4_096;
pub const MAX_MCAP_TOTAL_SCHEMA_BYTES: u64 = 33_554_432;
pub const MAX_MCAP_ATTACHMENTS: usize = 1_024;
pub const MAX_MCAP_ATTACHMENT_DATA_BYTES: u64 = 67_108_864;
pub const MAX_MCAP_TOTAL_ATTACHMENT_BYTES: u64 = 134_217_728;
pub const MAX_MCAP_ATTACHMENT_OVERHEAD_BYTES: u64 = 1_048_576;
pub const MAX_MCAP_METADATA_RECORDS: usize = 4_096;
pub const MAX_MCAP_METADATA_RECORD_BYTES: u64 = 1_048_576;
pub const MAX_MCAP_TOTAL_METADATA_BYTES: u64 = 16_777_216;

pub const OP_FOOTER: u8 = 0x02;
pub const OP_SCHEMA: u8 = 0x03;
pub const OP_CHANNEL: u8 = 0x04;
pub const OP_CHUNK: u8 = 0x06;
pub const OP_CHUNK_INDEX: u8 = 0x08;
pub const OP_ATTACHMENT: u8 = 0x09;
pub const OP_ATTACHMENT_INDEX: u8 = 0x0a;
pub const OP_STATISTICS: u8 = 0x0b;
pub const OP_METADATA: u8 = 0x0c;
pub const OP_METADATA_INDEX: u8 = 0x0d;
pub const OP_SUMMARY_OFFSET: u8 = 0x0e;

pub const RECORD_HEADER_BYTES: usize = 9;
pub const MAGIC_BYTES: usize = 8;
pub const FOOTER_BODY_BYTES: usize = 20;
pub const FOOTER_AND_MAGIC_BYTES: usize = 37;

/// The eight bytes that open and close an MCAP file.
pub open spec fn magic() -> Seq<u8> {
    seq![0x89u8, 0x4du8, 0x43u8, 0x41u8, 0x50u8, 0x30u8, 0x0du8, 0x0au8]
}

fn magic_bytes() -> (r: Vec<u8>)
    ensures
        r@ == magic(),
{
    let r: Vec<u8> = vec![0x89u8, 0x4du8, 0x43u8, 0x41u8, 0x50u8, 0x30u8, 0x0du8, 0x0au8];
    assert(r@ =~= magic());
    r
}

/// Whether the file starts with the MCAP magic.
pub fn has_mcap_magic(bytes: &[u8]) -> (r: bool)
    ensures
        r == bytes::bytes_at(bytes@, magic(), 0),
{
    let m = magic_bytes();
    bytes::has_bytes_at(bytes, m.as_slice(), 0)
}

pub open spec fn validation_failure(detail: Seq<char>, path: Seq<char>) -> ImportErrorView {
    import::import_error(
        ImportErrorCode::ValidationFailed,
        "The MCAP chunk index or payload framing is corrupt."@,
        detail + "\nFile path: "@ + path,
    )
}

pub open spec fn resource_failure(detail: Seq<char>, path: Seq<char>) -> ImportErrorView {
    import::import_error(
        ImportErrorCode::ResourceLimitExceeded,
        "The MCAP exceeds the safe decompression limits."@,
        detail + "\nFile path: "@ + path,
    )
}

pub fn mcap_validation_error(detail: text::Line, path: &str) -> (r: ImportError)
    ensures
        r@ == validation_failure(detail@, path@),
{
    ImportError::new(
        ImportErrorCode::ValidationFailed,
        "The MCAP chunk index or payload framing is corrupt.",
        detail.add("\nFile path: ").add(path).done(),
    )
}

pub fn mcap_resource_error(detail: text::Line, path: &str) -> (r: ImportError)
    ensures
        r@ == resource_failure(detail@, path@),
{
    ImportError::new(
        ImportErrorCode::ResourceLimitExceeded,
        "The MCAP exceeds the safe decompression limits.",
        detail.add("\nFile path: ").add(path).done(),
    )
}

/// What has been counted of a summary section so far.
#[derive(Clone, Copy)]
pub struct SummaryTally {
    pub records: usize,
    pub chunk_indexes: usize,
    pub schemas: usize,
    pub schema_bytes: u64,
    pub attachment_indexes: usize,
    pub metadata_indexes: usize,
}

pub open spec fn empty_tally() -> SummaryTally {
    SummaryTally {
        records: 0,
        chunk_indexes: 0,
        schemas: 0,
        schema_bytes: 0,
        attachment_indexes: 0,
        metadata_indexes: 0,
    }
}

/// A summary section within all its budgets.
pub open spec fn tally_bounded(t: SummaryTally) -> bool {
    &&& t.records <= MAX_MCAP_SUMMARY_RECORDS
    &&& t.chunk_indexes <= MAX_MCAP_CHUNKS
    &&& t.schemas <= MAX_MCAP_SCHEMAS
    &&& t.schema_bytes <= MAX_MCAP_TOTAL_SCHEMA_BYTES
    &&& t.attachment_indexes <= MAX_MCAP_ATTACHMENTS
    &&& t.metadata_indexes <= MAX_MCAP_METADATA_RECORDS
}

/// The opcodes that may stand in a summary section.
pub open spec fn is_summary_opcode(op: u8) -> bool {
    op == OP_SCHEMA || op == OP_CHANNEL || op == OP_CHUNK_INDEX || op == OP_ATTACHMENT_INDEX || op
        == OP_STATISTICS || op == OP_METADATA_INDEX || op == OP_SUMMARY_OFFSET
}

/// The tally after one more record with this opcode and body size, or the budget it breaks.
pub open spec fn count_record(t: SummaryTally, op: u8, size: nat, path: Seq<char>) -> Result<
    SummaryTally,
    ImportErrorView,
> {
    if t.records + 1 > MAX_MCAP_SUMMARY_RECORDS {
        Err(
            resource_failure(
                "MCAP summary has more than "@ + text::decimal(MAX_MCAP_SUMMARY_RECORDS as nat)
                    + " records"@,
                path,
            ),
        )
    } else {
        let t = SummaryTally { records: (t.records + 1) as usize, ..t };
        if op == OP_CHUNK_INDEX {
            if t.chunk_indexes + 1 > MAX_MCAP_CHUNKS {
                Err(
                    resource_failure(
                        "MCAP summary has more than "@ + text::decimal(MAX_MCAP_CHUNKS as nat)
                            + " chunk indexes"@,
                        path,
                    ),
                )
            } else {
                Ok(SummaryTally { chunk_indexes: (t.chunk_indexes + 1) as usize, ..t })
            }
        } else if op == OP_SCHEMA {
            if t.schemas + 1 > MAX_MCAP_SCHEMAS || t.schema_bytes + size
                > MAX_MCAP_TOTAL_SCHEMA_BYTES {
                Err(
                    resource_failure(
                        "MCAP summary schema budget exceeds "@ + text::decimal(
                            MAX_MCAP_SCHEMAS as nat,
                        ) + " records or "@ + text::decimal(MAX_MCAP_TOTAL_SCHEMA_BYTES as nat)
                            + " bytes"@,
                        path,
                    ),
                )
            } else {
                Ok(
                    SummaryTally {
                        schemas: (t.schemas + 1) as usize,
                        schema_bytes: (t.schema_bytes + size) as u64,
                        ..t
                    },
                )
            }
        } else if op == OP_ATTACHMENT_INDEX {
            if t.attachment_indexes + 1 > MAX_MCAP_ATTACHMENTS {
                Err(
                    resource_failure(
                        "MCAP has more than "@ + text::decimal(MAX_MCAP_ATTACHMENTS as nat)
                            + " attachment indexes"@,
                        path,
                    ),
                )
            } else {
                Ok(SummaryTally { attachment_indexes: (t.attachment_indexes + 1) as usize, ..t })
            }
        } else if op == OP_METADATA_INDEX {
            if t.metadata_indexes + 1 > MAX_MCAP_METADATA_RECORDS {
                Err(
                    resource_failure(
                        "MCAP has more than "@ + text::decimal(MAX_MCAP_METADATA_RECORDS as nat)
                            + " metadata indexes"@,
                        path,
                    ),
                )
            } else {
                Ok(SummaryTally { metadata_indexes: (t.metadata_indexes + 1) as usize, ..t })
            }
        } else {
            Ok(t)
        }
    }
}

/// The tally of the summary records from `cursor` up to `end`, or the first rule that one of
/// them breaks.
pub open spec fn scan_summary(
    s: Seq<u8>,
    cursor: int,
    end: int,
    t: SummaryTally,
    path: Seq<char>,
) -> Result<SummaryTally, ImportErrorView>
    decreases end - cursor,
{
    if cursor >= end {
        Ok(t)
    } else if cursor + RECORD_HEADER_BYTES > s.len() {
        Err(validation_failure("MCAP summary record header is truncated"@, path))
    } else if !is_summary_opcode(s[cursor]) {
        Err(
            validation_failure(
                "MCAP summary contains non-summary opcode 0x"@ + text::hex_text(seq![s[cursor]]),
                path,
            ),
        )
    } else {
        let size = bytes::le_u64(s, cursor + 1);
        if size > MAX_MCAP_SUMMARY_RECORD_BYTES {
            Err(
                resource_failure(
                    "MCAP summary record declares "@ + text::decimal(size) + " bytes; maximum is "@
                        + text::decimal(MAX_MCAP_SUMMARY_RECORD_BYTES as nat),
                    path,
                ),
            )
        } else if cursor + RECORD_HEADER_BYTES + size > end {
            Err(validation_failure("MCAP summary record extends into the footer"@, path))
        } else {
            match count_record(t, s[cursor], size, path) {
                Err(e) => Err(e),
                Ok(next) => scan_summary(
                    s,
                    cursor + RECORD_HEADER_BYTES + size,
                    end,
                    next,
                    path,
                ),
            }
        }
    }
}

/// Where the footer record of an MCAP file of this size starts.
pub open spec fn footer_start(size: nat) -> int {
    size - FOOTER_AND_MAGIC_BYTES
}

/// Whether a summary section can be scanned, or the rule that its footer breaks.
pub open spec fn footer_check(s: Seq<u8>, path: Seq<char>) -> Result<nat, ImportErrorView> {
    let footer = footer_start(s.len());
    if s.len() < MAGIC_BYTES + FOOTER_AND_MAGIC_BYTES || !bytes::bytes_at(s, magic(), s.len() - 8) {
        Err(validation_failure("MCAP footer or trailing magic is missing"@, path))
    } else if s[footer] != OP_FOOTER {
        Err(validation_failure("MCAP final record is not a footer"@, path))
    } else if bytes::le_u64(s, footer + 1) != FOOTER_BODY_BYTES {
        Err(
            validation_failure(
                "MCAP footer body is "@ + text::decimal(bytes::le_u64(s, footer + 1))
                    + " bytes; expected "@ + text::decimal(FOOTER_BODY_BYTES as nat),
                path,
            ),
        )
    } else {
        let start = bytes::le_u64(s, footer + 9);
        let offsets = bytes::le_u64(s, footer + 17);
        if start > usize::MAX {
            Err(
                resource_failure(
                    "MCAP summary offset does not fit memory: "@ + conversion_failure(),
                    path,
                ),
            )
        } else if offsets > usize::MAX {
            Err(
                resource_failure(
                    "MCAP summary-offset position does not fit memory: "@ + conversion_failure(),
                    path,
                ),
            )
        } else if start < 8 || start >= footer {
            Err(
                validation_failure(
                    "MCAP summary start "@ + text::decimal(start) + " is outside "@
                        + text::decimal(8) + ".."@ + text::decimal(footer as nat),
                    path,
                ),
            )
        } else if offsets != 0 && (offsets < start || offsets >= footer) {
            Err(
                validation_failure(
                    "MCAP summary-offset start "@ + text::decimal(offsets) + " is outside "@
                        + text::decimal(start) + ".."@ + text::decimal(footer as nat),
                    path,
                ),
            )
        } else if footer - start > MAX_MCAP_SUMMARY_BYTES {
            Err(
                resource_failure(
                    "MCAP summary is "@ + text::decimal((footer - start) as nat)
                        + " bytes; maximum is "@ + text::decimal(MAX_MCAP_SUMMARY_BYTES as nat),
                    path,
                ),
            )
        } else {
            Ok(start)
        }
    }
}

/// What std prints for an integer that does not fit the target type.
pub open spec fn conversion_failure() -> Seq<char> {
    "out of range integral type conversion attempted"@
}

/// Whether the summary section of an MCAP file is framed and within its budgets, or the first
/// rule that it breaks.
pub open spec fn preflight_outcome(s: Seq<u8>, path: Seq<char>) -> Result<(), ImportErrorView> {
    match footer_check(s, path) {
        Err(e) => Err(e),
        Ok(start) => match scan_summary(
            s,
            start as int,
            footer_start(s.len()),
            empty_tally(),
            path,
        ) {
            Err(e) => Err(e),
            Ok(t) => if t.chunk_indexes == 0 {
                Err(validation_failure("MCAP summary contains no chunk indexes"@, path))
            } else {
                Ok(())
            },
        },
    }
}

fn check_footer(s: &[u8], path: &str) -> (r: Result<usize, ImportError>)
    ensures
        match r {
            Ok(start) => footer_check(s@, path@) == Ok::<nat, ImportErrorView>(start as nat)
                && start < footer_start(s@.len()),
            Err(e) => footer_check(s@, path@) == Err::<nat, ImportErrorView>(e@),
        },
{
    let n: usize = s.len();
    let m = magic_bytes();
    if n < MAGIC_BYTES + FOOTER_AND_MAGIC_BYTES || !bytes::has_bytes_at(s, m.as_slice(), n - 8) {
        return Err(
            mcap_validation_error(text::line("MCAP footer or trailing magic is missing"), path),
        );
    }
    let footer: usize = n - FOOTER_AND_MAGIC_BYTES;
    if s[footer] != OP_FOOTER {
        return Err(mcap_validation_error(text::line("MCAP final record is not a footer"), path));
    }
    let body_size: u64 = bytes::read_le_u64(s, footer + 1);
    if body_size != FOOTER_BODY_BYTES as u64 {
        return Err(
            mcap_validation_error(
                text::line("MCAP footer body is ").num(body_size).add(" bytes; expected ").num(
                    FOOTER_BODY_BYTES as u64,
                ),
                path,
            ),
        );
    }
    let start: u64 = bytes::read_le_u64(s, footer + 9);
    let offsets: u64 = bytes::read_le_u64(s, footer + 17);
    if start > usize::MAX as u64 {
        return Err(
            mcap_resource_error(
                text::line("MCAP summary offset does not fit memory: ").add(
                    "out of range integral type conversion attempted",
                ),
                path,
            ),
        );
    }
    if offsets > usize::MAX as u64 {
        return Err(
            mcap_resource_error(
                text::line("MCAP summary-offset position does not fit memory: ").add(
                    "out of range integral type conversion attempted",
                ),
                path,
            ),
        );
    }
    if start < 8 || start >= footer as u64 {
        return Err(
            mcap_validation_error(
                text::line("MCAP summary start ").num(start).add(" is outside ").num(8).add(
                    "..",
                ).num(footer as u64),
                path,
            ),
        );
    }
    if offsets != 0 && (offsets < start || offsets >= footer as u64) {
        return Err(
            mcap_validation_error(
                text::line("MCAP summary-offset start ").num(offsets).add(" is outside ").num(
                    start,
                ).add("..").num(footer as u64),
                path,
            ),
        );
    }
    let size: u64 = footer as u64 - start;
    if size > MAX_MCAP_SUMMARY_BYTES {
        return Err(
            mcap_resource_error(
                text::line("MCAP summary is ").num(size).add(" bytes; maximum is ").num(
                    MAX_MCAP_SUMMARY_BYTES,
                ),
                path,
            ),
        );
    }
    Ok(start as usize)
}

fn summary_opcode(op: u8) -> (r: bool)
    ensures
        r == is_summary_opcode(op),
{
    op == OP_SCHEMA || op == OP_CHANNEL || op == OP_CHUNK_INDEX || op == OP_ATTACHMENT_INDEX || op
        == OP_STATISTICS || op == OP_METADATA_INDEX || op == OP_SUMMARY_OFFSET
}

fn tally_record(t: SummaryTally, op: u8, size: u64, path: &str) -> (r: Result<
    SummaryTally,
    ImportError,
>)
    requires
        tally_bounded(t),
        size <= MAX_MCAP_SUMMARY_RECORD_BYTES,
    ensures
        import::outcome(r) == count_record(t, op, size as nat, path@),
        r matches Ok(next) ==> tally_bounded(next),
{
    let mut next: SummaryTally = t;
    next.records = t.records + 1;
    if next.records > MAX_MCAP_SUMMARY_RECORDS {
        return Err(
            mcap_resource_error(
                text::line("MCAP summary has more than ").num(
                    MAX_MCAP_SUMMARY_RECORDS as u64,
                ).add(" records"),
                path,
            ),
        );
    }
    if op == OP_CHUNK_INDEX {
        next.chunk_indexes = t.chunk_indexes + 1;
        if next.chunk_indexes > MAX_MCAP_CHUNKS {
            return Err(
                mcap_resource_error(
                    text::line("MCAP summary has more than ").num(MAX_MCAP_CHUNKS as u64).add(
                        " chunk indexes",
                    ),
                    path,
                ),
            );
        }
    } else if op == OP_SCHEMA {
        next.schemas = t.schemas + 1;
        next.schema_bytes = t.schema_bytes + size;
        if next.schemas > MAX_MCAP_SCHEMAS || next.schema_bytes > MAX_MCAP_TOTAL_SCHEMA_BYTES {
            return Err(
                mcap_resource_error(
                    text::line("MCAP summary schema budget exceeds ").num(
                        MAX_MCAP_SCHEMAS as u64,
                    ).add(" records or ").num(MAX_MCAP_TOTAL_SCHEMA_BYTES).add(" bytes"),
                    path,
                ),
            );
        }
    } else if op == OP_ATTACHMENT_INDEX {
        next.attachment_indexes = t.attachment_indexes + 1;
        if next.attachment_indexes > MAX_MCAP_ATTACHMENTS {
            return Err(
                mcap_resource_error(
                    text::line("MCAP has more than ").num(MAX_MCAP_ATTACHMENTS as u64).add(
                        " attachment indexes",
                    ),
                    path,
                ),
            );
        }
    } else if op == OP_METADATA_INDEX {
        next.metadata_indexes = t.metadata_indexes + 1;
        if next.metadata_indexes > MAX_MCAP_METADATA_RECORDS {
            return Err(
                mcap_resource_error(
                    text::line("MCAP has more than ").num(MAX_MCAP_METADATA_RECORDS as u64).add(
                        " metadata indexes",
                    ),
                    path,
                ),
            );
        }
    }
    Ok(next)
}

/// Checks the summary section of an MCAP file before anything of it is allocated.
pub fn preflight_mcap_summary(bytes: &[u8], path: &str) -> (r: Result<(), ImportError>)
    ensures
        import::outcome(r) == preflight_outcome(bytes@, path@),
{
    let start: usize = match check_footer(bytes, path) {
        Ok(start) => start,
        Err(e) => {
            return Err(e);
        },
    };
    let n: usize = bytes.len();
    let end: usize = n - FOOTER_AND_MAGIC_BYTES;
    let mut tally = SummaryTally {
        records: 0,
        chunk_indexes: 0,
        schemas: 0,
        schema_bytes: 0,
        attachment_indexes: 0,
        metadata_indexes: 0,
    };
    let mut cursor: usize = start;
    while cursor < end
        invariant
            n == bytes@.len(),
            end == footer_start(bytes@.len()),
            n == end + FOOTER_AND_MAGIC_BYTES,
            start <= cursor <= end,
            tally_bounded(tally),
            footer_check(bytes@, path@) == Ok::<nat, ImportErrorView>(start as nat),
            scan_summary(bytes@, start as int, end as int, empty_tally(), path@) == scan_summary(
                bytes@,
                cursor as int,
                end as int,
                tally,
                path@,
            ),
        decreases end - cursor,
    {
        let opcode: u8 = bytes[cursor];
        if !summary_opcode(opcode) {
            return Err(
                mcap_validation_error(
                    text::line("MCAP summary contains non-summary opcode 0x").hex(opcode),
                    path,
                ),
            );
        }
        let size: u64 = bytes::read_le_u64(bytes, cursor + 1);
        if size > MAX_MCAP_SUMMARY_RECORD_BYTES {
            return Err(
                mcap_resource_error(
                    text::line("MCAP summary record declares ").num(size).add(
                        " bytes; maximum is ",
                    ).num(MAX_MCAP_SUMMARY_RECORD_BYTES),
                    path,
                ),
            );
        }
        if size > (end - cursor) as u64 || RECORD_HEADER_BYTES as u64 > (end - cursor) as u64
            - size {
            return Err(
                mcap_validation_error(
                    text::line("MCAP summary record extends into the footer"),
                    path,
                ),
            );
        }
        match tally_record(tally, opcode, size, path) {
            Ok(next) => {
                tally = next;
            },
            Err(e) => {
                return Err(e);
            },
        }
        cursor = cursor + RECORD_HEADER_BYTES + size as usize;
    }
    if tally.chunk_indexes == 0 {
        return Err(
            mcap_validation_error(text::line("MCAP summary contains no chunk indexes"), path),
        );
    }
    Ok(())
}

proof fn lemma_scan_bounded(s: Seq<u8>, cursor: int, end: int, t: SummaryTally, path: Seq<char>)
    requires
        tally_bounded(t),
    ensures
        scan_summary(s, cursor, end, t, path) matches Ok(after) ==> tally_bounded(after),
    decreases end - cursor,
{
    if cursor < end && cursor + RECORD_HEADER_BYTES <= s.len() && is_summary_opcode(s[cursor]) {
        let size = bytes::le_u64(s, cursor + 1);
        if size <= MAX_MCAP_SUMMARY_RECORD_BYTES && cursor + RECORD_HEADER_BYTES + size <= end {
            match count_record(t, s[cursor], size, path) {
                Ok(next) => {
                    lemma_scan_bounded(s, cursor + RECORD_HEADER_BYTES + size, end, next, path);
                },
                Err(_) => {},
            }
        }
    }
}

/// A summary section that passes holds at least one chunk index and stays within every budget.
pub proof fn law_preflight_bounds_the_summary(s: Seq<u8>, path: Seq<char>)
    requires
        preflight_outcome(s, path) is Ok,
    ensures
        footer_check(s, path) matches Ok(start) && footer_start(s.len()) - start
            <= MAX_MCAP_SUMMARY_BYTES && (scan_summary(
            s,
            start as int,
            footer_start(s.len()),
            empty_tally(),
            path,
        ) matches Ok(t) && tally_bounded(t) && t.chunk_indexes > 0),
{
    let start = footer_check(s, path)->Ok_0;
    lemma_scan_bounded(s, start as int, footer_start(s.len()), empty_tally(), path);
}

/// Where a chunk record stands and what the summary says of it.
pub struct ChunkIndex {
    pub message_start_time: u64,
    pub message_end_time: u64,
    pub chunk_start_offset: u64,
    pub chunk_length: u64,
    pub compression: String,
    pub compressed_size: u64,
    pub uncompressed_size: u64,
}

pub struct ChunkIndexView {
    pub message_start_time: u64,
    pub message_end_time: u64,
    pub chunk_start_offset: u64,
    pub chunk_length: u64,
    pub compression: Seq<char>,
    pub compressed_size: u64,
    pub uncompressed_size: u64,
}

impl View for ChunkIndex {
    type V = ChunkIndexView;

    open spec fn view(&self) -> ChunkIndexView {
        ChunkIndexView {
            message_start_time: self.message_start_time,
            message_end_time: self.message_end_time,
            chunk_start_offset: self.chunk_start_offset,
            chunk_length: self.chunk_length,
            compression: self.compression@,
            compressed_size: self.compressed_size,
            uncompressed_size: self.uncompressed_size,
        }
    }
}

/// Where an attachment record stands and what the summary says of it.
pub struct AttachmentIndex {
    pub offset: u64,
    pub length: u64,
    pub log_time: u64,
    pub create_time: u64,
    pub data_size: u64,
    pub name: String,
    pub media_type: String,
}

pub struct AttachmentIndexView {
    pub offset: u64,
    pub length: u64,
    pub log_time: u64,
    pub create_time: u64,
    pub data_size: u64,
    pub name: Seq<char>,
    pub media_type: Seq<char>,
}

impl View for AttachmentIndex {
    type V = AttachmentIndexView;

    open spec fn view(&self) -> AttachmentIndexView {
        AttachmentIndexView {
            offset: self.offset,
            length: self.length,
            log_time: self.log_time,
            create_time: self.create_time,
            data_size: self.data_size,
            name: self.name@,
            media_type: self.media_type@,
        }
    }
}

/// Where a metadata record stands and what the summary says of it.
pub struct MetadataIndex {
    pub offset: u64,
    pub length: u64,
    pub name: String,
}

pub struct MetadataIndexView {
    pub offset: u64,
    pub length: u64,
    pub name: Seq<char>,
}

impl View for MetadataIndex {
    type V = MetadataIndexView;

    open spec fn view(&self) -> MetadataIndexView {
        MetadataIndexView { offset: self.offset, length: self.length, name: self.name@ }
    }
}

/// The parsed summary section of an MCAP file, as far as the limits read it.
pub struct McapSummary {
    /// How many messages the file holds, if it says so.
    pub message_count: Option<u64>,
    /// The identifier of each schema and the size of its data.
    pub schemas: Vec<(u64, u64)>,
    /// The topic of each channel.
    pub topics: Vec<String>,
    pub chunk_indexes: Vec<ChunkIndex>,
    pub attachment_indexes: Vec<AttachmentIndex>,
    pub metadata_indexes: Vec<MetadataIndex>,
}

/// Schemas and channels have no order of their own.
pub struct McapSummaryView {
    pub message_count: Option<u64>,
    pub schemas: Multiset<(u64, u64)>,
    pub topics: Multiset<Seq<char>>,
    pub chunk_indexes: Seq<ChunkIndexView>,
    pub attachment_indexes: Seq<AttachmentIndexView>,
    pub metadata_indexes: Seq<MetadataIndexView>,
}

impl View for McapSummary {
    type V = McapSummaryView;

    open spec fn view(&self) -> McapSummaryView {
        McapSummaryView {
            message_count: self.message_count,
            schemas: self.schemas@.to_multiset(),
            topics: table::views(self.topics@).to_multiset(),
            chunk_indexes: table::views(self.chunk_indexes@),
            attachment_indexes: table::views(self.attachment_indexes@),
            metadata_indexes: table::views(self.metadata_indexes@),
        }
    }
}

/// The part of a summary that says what the file holds.
pub struct SummaryHead {
    pub message_count: Option<u64>,
    pub schemas: Vec<(u64, u64)>,
    pub topics: Vec<String>,
    pub chunk_indexes: Vec<ChunkIndex>,
}

/// The part of a summary that points to the records beside the messages.
pub struct SummaryIndexes {
    pub attachment_indexes: Vec<AttachmentIndex>,
    pub metadata_indexes: Vec<MetadataIndex>,
}

pub open spec fn is_head(h: SummaryHead, v: McapSummaryView) -> bool {
    &&& h.message_count == v.message_count
    &&& h.schemas@.to_multiset() == v.schemas
    &&& table::views(h.topics@).to_multiset() == v.topics
    &&& table::views(h.chunk_indexes@) == v.chunk_indexes
}

pub open spec fn is_indexes(x: SummaryIndexes, v: McapSummaryView) -> bool {
    &&& table::views(x.attachment_indexes@) == v.attachment_indexes
    &&& table::views(x.metadata_indexes@) == v.metadata_indexes
}

/// What reading the summary section of a file gives, or the message of the failure.
pub uninterp spec fn summary_read(bytes: Seq<u8>) -> Result<Option<McapSummaryView>, Seq<char>>;

/// `mcap::Summary::read` decodes the summary section of the file; what it finds, or an error's
/// message, is only named. This hands out what the file holds: the message count of its
/// statistics, and, in no particular order, the size of each schema and the topic of each
/// channel. The outside function slices some records without a check that have no place in a
/// summary section, so the section has to hold summary records only, up to the footer.
#[verifier::external_body]
fn read_summary_head(bytes: &[u8]) -> (r: Result<Option<SummaryHead>, String>)
    requires
        exists|path: Seq<char>| preflight_outcome(bytes@, path) is Ok,
    ensures
        match (r, summary_read(bytes@)) {
            (Ok(Some(head)), Ok(Some(v))) => is_head(head, v),
            (Ok(None), Ok(None)) => true,
            (Err(message), Err(m)) => message@ == m,
            _ => false,
        },
{
    let read = ::mcap::Summary::read(bytes).map_err(|e| e.to_string())?;
    Ok(read.map(|s| SummaryHead {
        message_count: s.stats.map(|t| t.message_count),
        schemas: s.schemas.values().map(|x| (x.id as u64, x.data.len() as u64)).collect(),
        topics: s.channels.values().map(|x| x.topic.clone()).collect(),
        chunk_indexes: s.chunk_indexes.into_iter().map(|c| ChunkIndex {
            message_start_time: c.message_start_time, message_end_time: c.message_end_time,
            chunk_start_offset: c.chunk_start_offset, chunk_length: c.chunk_length,
            compression: c.compression, compressed_size: c.compressed_size,
            uncompressed_size: c.uncompressed_size,
        }).collect(),
    }))
}

/// `mcap::Summary::read` again, under the same name and with the same condition: this hands out
/// the attachment and the metadata indexes, in the order of the file.
#[verifier::external_body]
fn read_summary_indexes(bytes: &[u8]) -> (r: Result<Option<SummaryIndexes>, String>)
    requires
        exists|path: Seq<char>| preflight_outcome(bytes@, path) is Ok,
    ensures
        match (r, summary_read(bytes@)) {
            (Ok(Some(indexes)), Ok(Some(v))) => is_indexes(indexes, v),
            (Ok(None), Ok(None)) => true,
            (Err(message), Err(m)) => message@ == m,
            _ => false,
        },
{
    let read = ::mcap::Summary::read(bytes).map_err(|e| e.to_string())?;
    Ok(read.map(|s| SummaryIndexes {
        attachment_indexes: s.attachment_indexes.into_iter().map(|a| AttachmentIndex {
            offset: a.offset, length: a.length, log_time: a.log_time,
            create_time: a.create_time, data_size: a.data_size,
            name: a.name, media_type: a.media_type,
        }).collect(),
        metadata_indexes: s.metadata_indexes.into_iter().map(|m| MetadataIndex {
            offset: m.offset, length: m.length, name: m.name,
        }).collect(),
    }))
}

/// Reads the summary section of a file whose framing has been checked.
pub fn read_summary(bytes: &[u8], path: &str) -> (r: Result<Option<McapSummary>, String>)
    requires
        preflight_outcome(bytes@, path@) is Ok,
    ensures
        match (r, summary_read(bytes@)) {
            (Ok(Some(summary)), Ok(Some(v))) => summary@ == v,
            (Ok(None), Ok(None)) => true,
            (Err(message), Err(m)) => message@ == m,
            _ => false,
        },
{
    let head = match read_summary_head(bytes) {
        Ok(Some(head)) => head,
        Ok(None) => {
            return Ok(None);
        },
        Err(message) => {
            return Err(message);
        },
    };
    match read_summary_indexes(bytes) {
        Ok(Some(indexes)) => Ok(
            Some(
                McapSummary {
                    message_count: head.message_count,
                    schemas: head.schemas,
                    topics: head.topics,
                    chunk_indexes: head.chunk_indexes,
                    attachment_indexes: indexes.attachment_indexes,
                    metadata_indexes: indexes.metadata_indexes,
                },
            ),
        ),
        Ok(None) => Ok(None),
        Err(message) => Err(message),
    }
}

/// What an attachment record says of itself: its two times, its name, its media type and the
/// size of its data.
pub type AttachmentFacts = (u64, u64, Seq<char>, Seq<char>, nat);

/// An attachment record as it was read.
pub struct AttachmentRecord {
    pub log_time: u64,
    pub create_time: u64,
    pub name: String,
    pub media_type: String,
    pub data_size: usize,
}

pub open spec fn attachment_facts(r: Result<AttachmentRecord, String>) -> Result<
    AttachmentFacts,
    Seq<char>,
> {
    match r {
        Ok(a) => Ok((a.log_time, a.create_time, a.name@, a.media_type@, a.data_size as nat)),
        Err(message) => Err(message@),
    }
}

/// What reading the attachment record at `offset` gives, or the message of the failure.
pub uninterp spec fn attachment_read(bytes: Seq<u8>, offset: u64, length: u64) -> Result<
    AttachmentFacts,
    Seq<char>,
>;

/// Whether the body of an attachment record of `size` bytes at `at` either ends before its
/// header does, or leaves room for the checksum behind the header.
pub open spec fn attachment_framed(s: Seq<u8>, at: int, size: int) -> bool {
    size < 20 || {
        let n = bytes::le_u32(s, at + 16);
        size < 24 + n || {
            let m = bytes::le_u32(s, at + 20 + n);
            size < 32 + n + m || size >= 36 + n + m
        }
    }
}

/// `mcap::read::attachment` reads the record that the index points to and nothing else of the
/// file; its result, an error's message too, is only named. It takes the kind and the length of
/// the record from the record's own header, slices an attachment without a check where no
/// checksum follows its header, and adds offset and length without a check. So the record has to
/// be an attachment of the length that the index gives, with room for a checksum, inside the
/// file.
#[verifier::external_body]
fn read_attachment(bytes: &[u8], index: &AttachmentIndex) -> (r: Result<AttachmentRecord, String>)
    requires
        index.length >= RECORD_HEADER_BYTES,
        index.offset + index.length <= bytes@.len(),
        bytes@[index.offset as int] == OP_ATTACHMENT,
        RECORD_HEADER_BYTES + bytes::le_u64(bytes@, index.offset + 1) == index.length,
        attachment_framed(
            bytes@,
            index.offset + RECORD_HEADER_BYTES,
            index.length - RECORD_HEADER_BYTES,
        ),
    ensures
        attachment_facts(r) == attachment_read(bytes@, index.offset, index.length),
{
    let index = ::mcap::records::AttachmentIndex {
        offset: index.offset,
        length: index.length,
        log_time: index.log_time,
        create_time: index.create_time,
        data_size: index.data_size,
        name: index.name.clone(),
        media_type: index.media_type.clone(),
    };
    let a = ::mcap::read::attachment(bytes, &index).map_err(|e| e.to_string())?;
    let (log_time, create_time, data_size) = (a.log_time, a.create_time, a.data.len());
    Ok(AttachmentRecord { log_time, create_time, name: a.name, media_type: a.media_type, data_size })
}

/// What an optional name stands for, or the message of the failure.
pub open spec fn metadata_name(r: Result<String, String>) -> Result<Seq<char>, Seq<char>> {
    match r {
        Ok(name) => Ok(name@),
        Err(message) => Err(message@),
    }
}

/// The name in the metadata record at `offset`, or the message of the failure.
pub uninterp spec fn metadata_read(bytes: Seq<u8>, offset: u64, length: u64) -> Result<
    Seq<char>,
    Seq<char>,
>;

/// `mcap::read::metadata` reads the record that the index points to and nothing else of the
/// file; the name in it, or an error's message, is only named. It takes the kind and the length
/// of the record from the record's own header, and where that is another kind of record it may
/// slice it without a check; it also adds offset and length without a check. So the record has
/// to be a metadata record of the length that the index gives, inside the file.
#[verifier::external_body]
fn read_metadata(bytes: &[u8], index: &MetadataIndex) -> (r: Result<String, String>)
    requires
        index.length >= RECORD_HEADER_BYTES,
        index.offset + index.length <= bytes@.len(),
        bytes@[index.offset as int] == OP_METADATA,
        RECORD_HEADER_BYTES + bytes::le_u64(bytes@, index.offset + 1) == index.length,
    ensures
        metadata_name(r) == metadata_read(bytes@, index.offset, index.length),
{
    let index = ::mcap::records::MetadataIndex {
        offset: index.offset,
        length: index.length,
        name: index.name.clone(),
    };
    ::mcap::read::metadata(bytes, &index).map(|m| m.name).map_err(|e| e.to_string())
}

/// Why `len` bytes at `offset` cannot be taken from a file of `size` bytes.
pub open spec fn span_failure(size: nat, offset: nat, len: nat, path: Seq<char>) -> Option<
    ImportErrorView,
> {
    if offset + len > u64::MAX {
        Some(validation_failure("MCAP byte span overflow"@, path))
    } else if offset > usize::MAX {
        Some(
            validation_failure(
                "MCAP byte offset does not fit memory: "@ + conversion_failure(),
                path,
            ),
        )
    } else if offset + len > usize::MAX {
        Some(
            validation_failure("MCAP byte end does not fit memory: "@ + conversion_failure(), path),
        )
    } else if offset + len > size {
        Some(
            validation_failure(
                "MCAP byte span "@ + text::decimal(offset) + ".."@ + text::decimal(offset + len)
                    + " exceeds file size "@ + text::decimal(size),
                path,
            ),
        )
    } else {
        None
    }
}

/// Checks that `len` bytes can be taken from the file at `offset`.
fn mcap_slice(bytes: &[u8], offset: u64, len: u64, path: &str) -> (r: Result<(), ImportError>)
    ensures
        match r {
            Ok(()) => span_failure(bytes@.len(), offset as nat, len as nat, path@) is None && offset
                + len <= bytes@.len(),
            Err(e) => span_failure(bytes@.len(), offset as nat, len as nat, path@) == Some(e@),
        },
{
    let size: usize = bytes.len();
    if len > u64::MAX - offset {
        return Err(mcap_validation_error(text::line("MCAP byte span overflow"), path));
    }
    let end: u64 = offset + len;
    if offset > usize::MAX as u64 {
        return Err(
            mcap_validation_error(
                text::line("MCAP byte offset does not fit memory: ").add(
                    "out of range integral type conversion attempted",
                ),
                path,
            ),
        );
    }
    if end > usize::MAX as u64 {
        return Err(
            mcap_validation_error(
                text::line("MCAP byte end does not fit memory: ").add(
                    "out of range integral type conversion attempted",
                ),
                path,
            ),
        );
    }
    if end > size as u64 {
        return Err(
            mcap_validation_error(
                text::line("MCAP byte span ").num(offset).add("..").num(end).add(
                    " exceeds file size ",
                ).num(size as u64),
                path,
            ),
        );
    }
    Ok(())
}

/// Why the record that an index points to is not the one it describes.
pub open spec fn record_failure(
    s: Seq<u8>,
    offset: u64,
    length: u64,
    opcode: u8,
    label: Seq<char>,
    max_length: u64,
    path: Seq<char>,
) -> Option<ImportErrorView> {
    if length < RECORD_HEADER_BYTES || length > max_length {
        Some(
            resource_failure(
                "MCAP "@ + label + " record is "@ + text::decimal(length as nat)
                    + " bytes; maximum is "@ + text::decimal(max_length as nat),
                path,
            ),
        )
    } else if span_failure(s.len(), offset as nat, RECORD_HEADER_BYTES as nat, path) is Some {
        span_failure(s.len(), offset as nat, RECORD_HEADER_BYTES as nat, path)
    } else if s[offset as int] != opcode {
        Some(
            validation_failure(
                "MCAP "@ + label + " index points to opcode 0x"@ + text::hex_text(
                    seq![s[offset as int]],
                ) + ", expected 0x"@ + text::hex_text(seq![opcode]),
                path,
            ),
        )
    } else {
        let actual = RECORD_HEADER_BYTES + bytes::le_u64(s, offset + 1);
        if actual > u64::MAX {
            Some(validation_failure("MCAP "@ + label + " length overflow"@, path))
        } else if actual != length {
            Some(
                validation_failure(
                    "MCAP "@ + label + " record length "@ + text::decimal(actual as nat)
                        + " disagrees with index "@ + text::decimal(length as nat),
                    path,
                ),
            )
        } else if offset + length > u64::MAX {
            Some(validation_failure("MCAP "@ + label + " end overflow"@, path))
        } else {
            span_failure(s.len(), offset as nat, length as nat, path)
        }
    }
}

/// The span of the record that an index points to, once the record agrees with the index.
fn inspect_mcap_indexed_record(
    bytes: &[u8],
    offset: u64,
    length: u64,
    opcode: u8,
    label: &str,
    max_length: u64,
    path: &str,
) -> (r: Result<(u64, u64), ImportError>)
    ensures
        match r {
            Ok(span) => record_failure(
                bytes@,
                offset,
                length,
                opcode,
                label@,
                max_length,
                path@,
            ) is None && span.0 == offset && span.1 == offset + length && span.1 <= bytes@.len()
                && length >= RECORD_HEADER_BYTES,
            Err(e) => record_failure(bytes@, offset, length, opcode, label@, max_length, path@)
                == Some(e@),
        },
{
    if length < RECORD_HEADER_BYTES as u64 || length > max_length {
        return Err(
            mcap_resource_error(
                text::line("MCAP ").add(label).add(" record is ").num(length).add(
                    " bytes; maximum is ",
                ).num(max_length),
                path,
            ),
        );
    }
    match mcap_slice(bytes, offset, RECORD_HEADER_BYTES as u64, path) {
        Ok(()) => {},
        Err(e) => {
            return Err(e);
        },
    }
    let found: u8 = bytes[offset as usize];
    if found != opcode {
        return Err(
            mcap_validation_error(
                text::line("MCAP ").add(label).add(" index points to opcode 0x").hex(found).add(
                    ", expected 0x",
                ).hex(opcode),
                path,
            ),
        );
    }
    let body_size: u64 = bytes::read_le_u64(bytes, offset as usize + 1);
    if body_size > u64::MAX - RECORD_HEADER_BYTES as u64 {
        return Err(
            mcap_validation_error(text::line("MCAP ").add(label).add(" length overflow"), path),
        );
    }
    let actual: u64 = RECORD_HEADER_BYTES as u64 + body_size;
    if actual != length {
        return Err(
            mcap_validation_error(
                text::line("MCAP ").add(label).add(" record length ").num(actual).add(
                    " disagrees with index ",
                ).num(length),
                path,
            ),
        );
    }
    if length > u64::MAX - offset {
        return Err(
            mcap_validation_error(text::line("MCAP ").add(label).add(" end overflow"), path),
        );
    }
    match mcap_slice(bytes, offset, length, path) {
        Ok(()) => {},
        Err(e) => {
            return Err(e);
        },
    }
    Ok((offset, offset + length))
}

/// What a chunk record says of itself.
pub struct InspectedMcapChunk {
    pub record_end: u64,
    pub compression: String,
    pub compressed_size: u64,
    pub uncompressed_size: u64,
}

pub struct InspectedMcapChunkView {
    pub record_end: u64,
    pub compression: Seq<char>,
    pub compressed_size: u64,
    pub uncompressed_size: u64,
}

impl View for InspectedMcapChunk {
    type V = InspectedMcapChunkView;

    open spec fn view(&self) -> InspectedMcapChunkView {
        InspectedMcapChunkView {
            record_end: self.record_end,
            compression: self.compression@,
            compressed_size: self.compressed_size,
            uncompressed_size: self.uncompressed_size,
        }
    }
}

/// The part of a chunk record behind its fixed header, which starts at `name_start`.
pub open spec fn chunk_payload_check(
    s: Seq<u8>,
    index: ChunkIndexView,
    body_start: int,
    name_len: nat,
    record_end: int,
    path: Seq<char>,
) -> Result<InspectedMcapChunkView, ImportErrorView> {
    let name_start = body_start + 32;
    let name = s.subrange(name_start, name_start + name_len);
    let size_at = name_start + name_len;
    if span_failure(s.len(), name_start as nat, name_len, path) is Some {
        Err(span_failure(s.len(), name_start as nat, name_len, path)->Some_0)
    } else if !valid_utf8(name) {
        Err(
            validation_failure("MCAP compression is not UTF-8: "@ + text::utf8_failure(name), path),
        )
    } else if span_failure(s.len(), size_at as nat, 8, path) is Some {
        Err(span_failure(s.len(), size_at as nat, 8, path)->Some_0)
    } else {
        let compressed = bytes::le_u64(s, size_at);
        let data_end = size_at + 8 + compressed;
        let start_time = bytes::le_u64(s, body_start);
        let end_time = bytes::le_u64(s, body_start + 8);
        let uncompressed = bytes::le_u64(s, body_start + 16);
        let compression = decode_utf8(name);
        if data_end > u64::MAX {
            Err(validation_failure("MCAP chunk data span overflow"@, path))
        } else if data_end != record_end {
            Err(
                validation_failure(
                    "MCAP chunk payload ends at "@ + text::decimal(data_end as nat)
                        + ", but indexed record ends at "@ + text::decimal(record_end as nat),
                    path,
                ),
            )
        } else if span_failure(s.len(), (size_at + 8) as nat, compressed, path) is Some {
            Err(span_failure(s.len(), (size_at + 8) as nat, compressed, path)->Some_0)
        } else if start_time != index.message_start_time || end_time != index.message_end_time
            || uncompressed != index.uncompressed_size || compressed != index.compressed_size
            || compression != index.compression {
            Err(
                validation_failure(
                    "MCAP chunk header disagrees with index: actual=("@ + text::decimal(start_time)
                        + ","@ + text::decimal(end_time) + ","@ + text::decimal(uncompressed)
                        + ","@ + text::decimal(compressed) + ","@ + text::debug_text(compression)
                        + "), index=("@ + text::decimal(index.message_start_time as nat) + ","@
                        + text::decimal(index.message_end_time as nat) + ","@ + text::decimal(
                        index.uncompressed_size as nat,
                    ) + ","@ + text::decimal(index.compressed_size as nat) + ","@
                        + text::debug_text(index.compression) + ")"@,
                    path,
                ),
            )
        } else {
            Ok(
                InspectedMcapChunkView {
                    record_end: record_end as u64,
                    compression,
                    compressed_size: compressed as u64,
                    uncompressed_size: uncompressed as u64,
                },
            )
        }
    }
}

/// What the chunk record at an index says of itself, or how it disagrees with the index.
pub open spec fn chunk_check(s: Seq<u8>, index: ChunkIndexView, path: Seq<char>) -> Result<
    InspectedMcapChunkView,
    ImportErrorView,
> {
    let start = index.chunk_start_offset;
    let body_start = start + RECORD_HEADER_BYTES;
    if body_start > u64::MAX {
        Err(validation_failure("MCAP chunk record offset overflow"@, path))
    } else if span_failure(s.len(), start as nat, RECORD_HEADER_BYTES as nat, path) is Some {
        Err(span_failure(s.len(), start as nat, RECORD_HEADER_BYTES as nat, path)->Some_0)
    } else if s[start as int] != OP_CHUNK {
        Err(
            validation_failure(
                "MCAP chunk index points to opcode 0x"@ + text::hex_text(seq![s[start as int]])
                    + ", not CHUNK"@,
                path,
            ),
        )
    } else {
        let record_size = RECORD_HEADER_BYTES + bytes::le_u64(s, start + 1);
        if record_size > u64::MAX {
            Err(validation_failure("MCAP chunk record length overflow"@, path))
        } else if record_size != index.chunk_length {
            Err(
                validation_failure(
                    "MCAP chunk record length "@ + text::decimal(record_size as nat)
                        + " disagrees with index "@ + text::decimal(index.chunk_length as nat),
                    path,
                ),
            )
        } else if start + record_size > u64::MAX {
            Err(validation_failure("MCAP chunk end offset overflow"@, path))
        } else if span_failure(s.len(), body_start as nat, 32, path) is Some {
            Err(span_failure(s.len(), body_start as nat, 32, path)->Some_0)
        } else if bytes::le_u32(s, body_start + 28) > 64 {
            Err(
                validation_failure(
                    "MCAP compression name is "@ + text::decimal(bytes::le_u32(s, body_start + 28))
                        + " bytes; maximum is 64"@,
                    path,
                ),
            )
        } else {
            chunk_payload_check(
                s,
                index,
                body_start,
                bytes::le_u32(s, body_start + 28),
                start + record_size,
                path,
            )
        }
    }
}

fn inspect_chunk_payload(
    bytes: &[u8],
    index: &ChunkIndex,
    body_start: u64,
    name_len: u64,
    record_end: u64,
    path: &str,
) -> (r: Result<InspectedMcapChunk, ImportError>)
    requires
        body_start + 32 <= bytes@.len(),
        name_len <= 64,
    ensures
        match r {
            Ok(chunk) => chunk_payload_check(
                bytes@,
                index@,
                body_start as int,
                name_len as nat,
                record_end as int,
                path@,
            ) == Ok::<InspectedMcapChunkView, ImportErrorView>(chunk@),
            Err(e) => chunk_payload_check(
                bytes@,
                index@,
                body_start as int,
                name_len as nat,
                record_end as int,
                path@,
            ) == Err::<InspectedMcapChunkView, ImportErrorView>(e@),
        },
{
    let size: usize = bytes.len();
    let name_start: u64 = body_start + 32;
    match mcap_slice(bytes, name_start, name_len, path) {
        Ok(()) => {},
        Err(e) => {
            return Err(e);
        },
    }
    let size_at: u64 = name_start + name_len;
    let name = bytes::slice_between(bytes, name_start as usize, size_at as usize);
    let compression = match text::utf8_text(name) {
        Ok(s) => s,
        Err(message) => {
            return Err(
                mcap_validation_error(
                    text::line("MCAP compression is not UTF-8: ").add(message.as_str()),
                    path,
                ),
            );
        },
    };
    match mcap_slice(bytes, size_at, 8, path) {
        Ok(()) => {},
        Err(e) => {
            return Err(e);
        },
    }
    let start_time: u64 = bytes::read_le_u64(bytes, body_start as usize);
    let end_time: u64 = bytes::read_le_u64(bytes, body_start as usize + 8);
    let uncompressed: u64 = bytes::read_le_u64(bytes, body_start as usize + 16);
    let compressed: u64 = bytes::read_le_u64(bytes, size_at as usize);
    let data_start: u64 = size_at + 8;
    if compressed > u64::MAX - data_start {
        return Err(mcap_validation_error(text::line("MCAP chunk data span overflow"), path));
    }
    let data_end: u64 = data_start + compressed;
    if data_end != record_end {
        return Err(
            mcap_validation_error(
                text::line("MCAP chunk payload ends at ").num(data_end).add(
                    ", but indexed record ends at ",
                ).num(record_end),
                path,
            ),
        );
    }
    match mcap_slice(bytes, data_start, compressed, path) {
        Ok(()) => {},
        Err(e) => {
            return Err(e);
        },
    }
    if start_time != index.message_start_time || end_time != index.message_end_time || uncompressed
        != index.uncompressed_size || compressed != index.compressed_size || !text::same(
        compression.as_str(),
        index.compression.as_str(),
    ) {
        let actual_name = text::quoted(compression.as_str());
        let index_name = text::quoted(index.compression.as_str());
        return Err(
            mcap_validation_error(
                text::line("MCAP chunk header disagrees with index: actual=(").num(start_time).add(
                    ",",
                ).num(end_time).add(",").num(uncompressed).add(",").num(compressed).add(",").add(
                    actual_name.as_str(),
                ).add("), index=(").num(index.message_start_time).add(",").num(
                    index.message_end_time,
                ).add(",").num(index.uncompressed_size).add(",").num(index.compressed_size).add(
                    ",",
                ).add(index_name.as_str()).add(")"),
                path,
            ),
        );
    }
    Ok(
        InspectedMcapChunk {
            record_end,
            compression,
            compressed_size: compressed,
            uncompressed_size: uncompressed,
        },
    )
}

/// Reads the header of the chunk record at an index and holds it against the index.
pub fn inspect_mcap_chunk(bytes: &[u8], index: &ChunkIndex, path: &str) -> (r: Result<
    InspectedMcapChunk,
    ImportError,
>)
    ensures
        match r {
            Ok(chunk) => chunk_check(bytes@, index@, path@) == Ok::<
                InspectedMcapChunkView,
                ImportErrorView,
            >(chunk@),
            Err(e) => chunk_check(bytes@, index@, path@) == Err::<
                InspectedMcapChunkView,
                ImportErrorView,
            >(e@),
        },
{
    let size: usize = bytes.len();
    let start: u64 = index.chunk_start_offset;
    if start > u64::MAX - RECORD_HEADER_BYTES as u64 {
        return Err(mcap_validation_error(text::line("MCAP chunk record offset overflow"), path));
    }
    let body_start: u64 = start + RECORD_HEADER_BYTES as u64;
    match mcap_slice(bytes, start, RECORD_HEADER_BYTES as u64, path) {
        Ok(()) => {},
        Err(e) => {
            return Err(e);
        },
    }
    let opcode: u8 = bytes[start as usize];
    if opcode != OP_CHUNK {
        return Err(
            mcap_validation_error(
                text::line("MCAP chunk index points to opcode 0x").hex(opcode).add(", not CHUNK"),
                path,
            ),
        );
    }
    let body_size: u64 = bytes::read_le_u64(bytes, start as usize + 1);
    if body_size > u64::MAX - RECORD_HEADER_BYTES as u64 {
        return Err(mcap_validation_error(text::line("MCAP chunk record length overflow"), path));
    }
    let record_size: u64 = RECORD_HEADER_BYTES as u64 + body_size;
    if record_size != index.chunk_length {
        return Err(
            mcap_validation_error(
                text::line("MCAP chunk record length ").num(record_size).add(
                    " disagrees with index ",
                ).num(index.chunk_length),
                path,
            ),
        );
    }
    if record_size > u64::MAX - start {
        return Err(mcap_validation_error(text::line("MCAP chunk end offset overflow"), path));
    }
    match mcap_slice(bytes, body_start, 32, path) {
        Ok(()) => {},
        Err(e) => {
            return Err(e);
        },
    }
    let name_len: u32 = bytes::read_le_u32(bytes, body_start as usize + 28);
    if name_len > 64 {
        return Err(
            mcap_validation_error(
                text::line("MCAP compression name is ").num(name_len as u64).add(
                    " bytes; maximum is 64",
                ),
                path,
            ),
        );
    }
    inspect_chunk_payload(bytes, index, body_start, name_len as u64, start + record_size, path)
}

/// `value` moved to the nearest number between `low` and `high`.
pub open spec fn clamped(value: int, low: int, high: int) -> int {
    if value < low {
        low
    } else if value > high {
        high
    } else {
        value
    }
}

fn scaled_limit(limit: u64, factor: u64, low: u64, high: u64) -> (r: u64)
    requires
        low <= high,
    ensures
        r == clamped(limit * factor, low as int, high as int),
{
    match limit.checked_mul(factor) {
        None => high,
        Some(value) => if value < low {
            low
        } else if value > high {
            high
        } else {
            value
        },
    }
}

/// The most uncompressed bytes that an output of this size may come from.
pub open spec fn uncompressed_limit(output_limit: u64) -> int {
    clamped(output_limit * 32, 67_108_864, MAX_MCAP_TOTAL_UNCOMPRESSED_BYTES as int)
}

/// The most attachment bytes that an output of this size may come with.
pub open spec fn attachment_limit(output_limit: u64) -> int {
    clamped(output_limit * 4, 8_388_608, MAX_MCAP_TOTAL_ATTACHMENT_BYTES as int)
}

/// Why the schemas of a summary, each with its identifier and its size, exceed their budget.
pub open spec fn schema_failure(schemas: Seq<(u64, u64)>, i: int, total: nat, path: Seq<char>) -> Option<
    ImportErrorView,
>
    decreases schemas.len() - i,
{
    if i < 0 || i >= schemas.len() {
        if total > MAX_MCAP_TOTAL_SCHEMA_BYTES {
            Some(
                resource_failure(
                    "MCAP schemas contain "@ + text::decimal(total) + " bytes; maximum is "@
                        + text::decimal(MAX_MCAP_TOTAL_SCHEMA_BYTES as nat),
                    path,
                ),
            )
        } else {
            None
        }
    } else if schemas[i].1 > MAX_MCAP_SUMMARY_RECORD_BYTES {
        Some(
            resource_failure(
                "MCAP schema is "@ + text::decimal(schemas[i].1 as nat) + " bytes; maximum is "@
                    + text::decimal(MAX_MCAP_SUMMARY_RECORD_BYTES as nat),
                path,
            ),
        )
    } else {
        schema_failure(schemas, i + 1, total + schemas[i].1 as nat, path)
    }
}

/// Why one chunk exceeds the limits that hold for each chunk.
pub open spec fn chunk_limit_failure(
    chunk: InspectedMcapChunkView,
    total_limit: int,
    path: Seq<char>,
) -> Option<ImportErrorView> {
    if chunk.uncompressed_size > MAX_MCAP_CHUNK_UNCOMPRESSED_BYTES || chunk.uncompressed_size
        > total_limit {
        Some(
            resource_failure(
                "MCAP chunk declares "@ + text::decimal(chunk.uncompressed_size as nat)
                    + " uncompressed bytes; per-chunk limit is "@ + text::decimal(
                    if MAX_MCAP_CHUNK_UNCOMPRESSED_BYTES <= total_limit {
                        MAX_MCAP_CHUNK_UNCOMPRESSED_BYTES as nat
                    } else {
                        total_limit as nat
                    },
                ),
                path,
            ),
        )
    } else if chunk.compressed_size == 0 || chunk.uncompressed_size > chunk.compressed_size
        * MAX_MCAP_COMPRESSION_RATIO {
        Some(
            resource_failure(
                "MCAP codec "@ + text::debug_text(chunk.compression)
                    + " exceeds compression ratio "@ + text::decimal(
                    MAX_MCAP_COMPRESSION_RATIO as nat,
                ) + ":1"@,
                path,
            ),
        )
    } else {
        None
    }
}

/// The uncompressed bytes of all chunks and their spans, or what is wrong with the first bad one.
pub open spec fn chunks_check(
    s: Seq<u8>,
    chunks: Seq<ChunkIndexView>,
    i: int,
    total: nat,
    spans: Seq<(u64, u64)>,
    total_limit: int,
    path: Seq<char>,
) -> Result<(nat, Seq<(u64, u64)>), ImportErrorView>
    decreases chunks.len() - i,
{
    if i < 0 || i >= chunks.len() {
        Ok((total, spans))
    } else {
        match chunk_check(s, chunks[i], path) {
            Err(e) => Err(e),
            Ok(chunk) => match chunk_limit_failure(chunk, total_limit, path) {
                Some(e) => Err(e),
                None => chunks_check(
                    s,
                    chunks,
                    i + 1,
                    total + chunk.uncompressed_size as nat,
                    spans.push((chunks[i].chunk_start_offset, chunk.record_end)),
                    total_limit,
                    path,
                ),
            },
        }
    }
}

/// Why an attachment record is not the one that its index describes.
pub open spec fn attachment_failure(
    s: Seq<u8>,
    index: AttachmentIndexView,
    path: Seq<char>,
) -> Option<ImportErrorView> {
    let max_record = (MAX_MCAP_ATTACHMENT_DATA_BYTES + MAX_MCAP_ATTACHMENT_OVERHEAD_BYTES) as u64;
    let framing = record_failure(
        s,
        index.offset,
        index.length,
        OP_ATTACHMENT,
        "attachment"@,
        max_record,
        path,
    );
    if framing is Some {
        framing
    } else if !attachment_framed(
        s,
        index.offset + RECORD_HEADER_BYTES,
        index.length - RECORD_HEADER_BYTES,
    ) {
        Some(validation_failure("MCAP attachment record has no room for its checksum"@, path))
    } else {
        match attachment_read(s, index.offset, index.length) {
            Err(message) => Some(
                validation_failure("MCAP attachment index is invalid: "@ + message, path),
            ),
            Ok(facts) => if facts.4 != index.data_size || facts.0 != index.log_time || facts.1
                != index.create_time || facts.2 != index.name || facts.3 != index.media_type {
                Some(
                    validation_failure("MCAP attachment record disagrees with its index"@, path),
                )
            } else {
                None
            },
        }
    }
}

/// The spans with those of the attachments added, or what is wrong with the first bad one.
pub open spec fn attachments_check(
    s: Seq<u8>,
    list: Seq<AttachmentIndexView>,
    i: int,
    total: nat,
    spans: Seq<(u64, u64)>,
    total_limit: int,
    path: Seq<char>,
) -> Result<Seq<(u64, u64)>, ImportErrorView>
    decreases list.len() - i,
{
    if i < 0 || i >= list.len() {
        Ok(spans)
    } else if list[i].data_size > MAX_MCAP_ATTACHMENT_DATA_BYTES {
        Err(
            resource_failure(
                "MCAP attachment declares "@ + text::decimal(list[i].data_size as nat)
                    + " data bytes; maximum is "@ + text::decimal(
                    MAX_MCAP_ATTACHMENT_DATA_BYTES as nat,
                ),
                path,
            ),
        )
    } else if total + list[i].data_size > total_limit {
        Err(
            resource_failure(
                "MCAP attachments contain "@ + text::decimal(total + list[i].data_size as nat)
                    + " bytes; request-linked maximum is "@ + text::decimal(total_limit as nat),
                path,
            ),
        )
    } else {
        match attachment_failure(s, list[i], path) {
            Some(e) => Err(e),
            None => attachments_check(
                s,
                list,
                i + 1,
                total + list[i].data_size as nat,
                spans.push((list[i].offset, (list[i].offset + list[i].length) as u64)),
                total_limit,
                path,
            ),
        }
    }
}

/// Why a metadata record is not the one that its index describes.
pub open spec fn metadata_failure(s: Seq<u8>, index: MetadataIndexView, path: Seq<char>) -> Option<
    ImportErrorView,
> {
    let framing = record_failure(
        s,
        index.offset,
        index.length,
        OP_METADATA,
        "metadata"@,
        MAX_MCAP_METADATA_RECORD_BYTES,
        path,
    );
    if framing is Some {
        framing
    } else {
        match metadata_read(s, index.offset, index.length) {
            Err(message) => Some(
                validation_failure("MCAP metadata index is invalid: "@ + message, path),
            ),
            Ok(name) => if name != index.name {
                Some(validation_failure("MCAP metadata record disagrees with its index"@, path))
            } else {
                None
            },
        }
    }
}

/// The spans with those of the metadata added, or what is wrong with the first bad one.
pub open spec fn metadata_check(
    s: Seq<u8>,
    list: Seq<MetadataIndexView>,
    i: int,
    total: nat,
    spans: Seq<(u64, u64)>,
    path: Seq<char>,
) -> Result<Seq<(u64, u64)>, ImportErrorView>
    decreases list.len() - i,
{
    if i < 0 || i >= list.len() {
        Ok(spans)
    } else if total + list[i].length > u64::MAX {
        Err(resource_failure("MCAP metadata byte count overflow"@, path))
    } else if total + list[i].length > MAX_MCAP_TOTAL_METADATA_BYTES {
        Err(
            resource_failure(
                "MCAP metadata records contain "@ + text::decimal(total + list[i].length as nat)
                    + " bytes; maximum is "@ + text::decimal(MAX_MCAP_TOTAL_METADATA_BYTES as nat),
                path,
            ),
        )
    } else {
        match metadata_failure(s, list[i], path) {
            Some(e) => Err(e),
            None => metadata_check(
                s,
                list,
                i + 1,
                total + list[i].length as nat,
                spans.push((list[i].offset, (list[i].offset + list[i].length) as u64)),
                path,
            ),
        }
    }
}

pub open spec fn span_text(span: (u64, u64)) -> Seq<char> {
    "("@ + text::decimal(span.0 as nat) + ", "@ + text::decimal(span.1 as nat) + ")"@
}

/// Whether the spans share no byte, or the first two neighbours that do.
pub open spec fn overlap_check(spans: Seq<(u64, u64)>, path: Seq<char>) -> Result<
    (),
    ImportErrorView,
> {
    let sorted = spans::arranged(spans);
    match spans::overlap_from(sorted, 0) {
        None => Ok(()),
        Some(i) => Err(
            import::import_error(
                ImportErrorCode::ValidationFailed,
                "The MCAP chunk indexes contain overlapping byte spans."@,
                "MCAP chunk spans overlap: "@ + span_text(sorted[i]) + " and "@ + span_text(
                    sorted[i + 1],
                ) + "\nFile path: "@ + path,
            ),
        ),
    }
}

/// Whether a summary has no more entries of a kind than allowed.
pub open spec fn entry_count_failure(summary: McapSummaryView, path: Seq<char>) -> Option<
    ImportErrorView,
> {
    if summary.chunk_indexes.len() > MAX_MCAP_CHUNKS {
        Some(
            resource_failure(
                "MCAP has "@ + text::decimal(summary.chunk_indexes.len()) + " chunks; maximum is "@
                    + text::decimal(MAX_MCAP_CHUNKS as nat),
                path,
            ),
        )
    } else if summary.schemas.len() > MAX_MCAP_SCHEMAS {
        Some(
            resource_failure(
                "MCAP has more than "@ + text::decimal(MAX_MCAP_SCHEMAS as nat) + " schemas"@,
                path,
            ),
        )
    } else if schema_failure(spans::in_order(summary.schemas), 0, 0, path) is Some {
        schema_failure(spans::in_order(summary.schemas), 0, 0, path)
    } else if summary.attachment_indexes.len() > MAX_MCAP_ATTACHMENTS {
        Some(
            resource_failure(
                "MCAP has more than "@ + text::decimal(MAX_MCAP_ATTACHMENTS as nat)
                    + " attachments"@,
                path,
            ),
        )
    } else if summary.metadata_indexes.len() > MAX_MCAP_METADATA_RECORDS {
        Some(
            resource_failure(
                "MCAP has more than "@ + text::decimal(MAX_MCAP_METADATA_RECORDS as nat)
                    + " metadata records"@,
                path,
            ),
        )
    } else {
        None
    }
}

/// The byte spans that the records of a summary take, or the first rule that one breaks.
pub open spec fn resource_spans(
    summary: McapSummaryView,
    s: Seq<u8>,
    output_limit: u64,
    path: Seq<char>,
) -> Result<Seq<(u64, u64)>, ImportErrorView> {
    let total_limit = uncompressed_limit(output_limit);
    if entry_count_failure(summary, path) is Some {
        Err(entry_count_failure(summary, path)->Some_0)
    } else {
        match chunks_check(s, summary.chunk_indexes, 0, 0, Seq::empty(), total_limit, path) {
            Err(e) => Err(e),
            Ok((total, spans)) => if total > total_limit {
                Err(
                    resource_failure(
                        "MCAP declares "@ + text::decimal(total)
                            + " uncompressed bytes; request-linked limit is "@ + text::decimal(
                            total_limit as nat,
                        ),
                        path,
                    ),
                )
            } else {
                match attachments_check(
                    s,
                    summary.attachment_indexes,
                    0,
                    0,
                    spans,
                    attachment_limit(output_limit),
                    path,
                ) {
                    Err(e) => Err(e),
                    Ok(spans) => metadata_check(s, summary.metadata_indexes, 0, 0, spans, path),
                }
            },
        }
    }
}

/// Whether the records of a summary agree with the file and stay within the limits of a request.
pub open spec fn resources_outcome(
    summary: McapSummaryView,
    s: Seq<u8>,
    output_limit: u64,
    path: Seq<char>,
) -> Result<(), ImportErrorView> {
    match resource_spans(summary, s, output_limit, path) {
        Err(e) => Err(e),
        Ok(spans) => overlap_check(spans, path),
    }
}

fn check_schemas(schemas: &Vec<(u64, u64)>, path: &str) -> (r: Result<(), ImportError>)
    requires
        schemas@.len() <= MAX_MCAP_SCHEMAS,
    ensures
        match r {
            Ok(()) => schema_failure(schemas@, 0, 0, path@) is None,
            Err(e) => schema_failure(schemas@, 0, 0, path@) == Some(e@),
        },
{
    let mut total: u64 = 0;
    let mut i: usize = 0;
    while i < schemas.len()
        invariant
            i <= schemas@.len() <= MAX_MCAP_SCHEMAS,
            total <= i * MAX_MCAP_SUMMARY_RECORD_BYTES,
            schema_failure(schemas@, 0, 0, path@) == schema_failure(
                schemas@,
                i as int,
                total as nat,
                path@,
            ),
        decreases schemas@.len() - i,
    {
        let size: u64 = schemas[i].1;
        if size > MAX_MCAP_SUMMARY_RECORD_BYTES {
            return Err(
                mcap_resource_error(
                    text::line("MCAP schema is ").num(size).add(" bytes; maximum is ").num(
                        MAX_MCAP_SUMMARY_RECORD_BYTES,
                    ),
                    path,
                ),
            );
        }
        total = total + size;
        i = i + 1;
    }
    if total > MAX_MCAP_TOTAL_SCHEMA_BYTES {
        return Err(
            mcap_resource_error(
                text::line("MCAP schemas contain ").num(total).add(" bytes; maximum is ").num(
                    MAX_MCAP_TOTAL_SCHEMA_BYTES,
                ),
                path,
            ),
        );
    }
    Ok(())
}

fn check_entry_counts(summary: &McapSummary, path: &str) -> (r: Result<(), ImportError>)
    ensures
        match r {
            Ok(()) => entry_count_failure(summary@, path@) is None && summary.chunk_indexes@.len()
                <= MAX_MCAP_CHUNKS,
            Err(e) => entry_count_failure(summary@, path@) == Some(e@),
        },
{
    if summary.chunk_indexes.len() > MAX_MCAP_CHUNKS {
        return Err(
            mcap_resource_error(
                text::line("MCAP has ").num(summary.chunk_indexes.len() as u64).add(
                    " chunks; maximum is ",
                ).num(MAX_MCAP_CHUNKS as u64),
                path,
            ),
        );
    }
    let schemas = spans::sort_spans(&summary.schemas);
    proof {
        summary.schemas@.to_multiset_ensures();
        schemas@.to_multiset_ensures();
    }
    if summary.schemas.len() > MAX_MCAP_SCHEMAS {
        return Err(
            mcap_resource_error(
                text::line("MCAP has more than ").num(MAX_MCAP_SCHEMAS as u64).add(" schemas"),
                path,
            ),
        );
    }
    match check_schemas(&schemas, path) {
        Ok(()) => {},
        Err(e) => {
            return Err(e);
        },
    }
    if summary.attachment_indexes.len() > MAX_MCAP_ATTACHMENTS {
        return Err(
            mcap_resource_error(
                text::line("MCAP has more than ").num(MAX_MCAP_ATTACHMENTS as u64).add(
                    " attachments",
                ),
                path,
            ),
        );
    }
    if summary.metadata_indexes.len() > MAX_MCAP_METADATA_RECORDS {
        return Err(
            mcap_resource_error(
                text::line("MCAP has more than ").num(MAX_MCAP_METADATA_RECORDS as u64).add(
                    " metadata records",
                ),
                path,
            ),
        );
    }
    Ok(())
}

fn check_chunk_limits(chunk: &InspectedMcapChunk, total_limit: u64, path: &str) -> (r: Result<
    (),
    ImportError,
>)
    ensures
        match r {
            Ok(()) => chunk_limit_failure(chunk@, total_limit as int, path@) is None,
            Err(e) => chunk_limit_failure(chunk@, total_limit as int, path@) == Some(e@),
        },
{
    if chunk.uncompressed_size > MAX_MCAP_CHUNK_UNCOMPRESSED_BYTES || chunk.uncompressed_size
        > total_limit {
        let limit: u64 = if MAX_MCAP_CHUNK_UNCOMPRESSED_BYTES <= total_limit {
            MAX_MCAP_CHUNK_UNCOMPRESSED_BYTES
        } else {
            total_limit
        };
        return Err(
            mcap_resource_error(
                text::line("MCAP chunk declares ").num(chunk.uncompressed_size).add(
                    " uncompressed bytes; per-chunk limit is ",
                ).num(limit),
                path,
            ),
        );
    }
    let beyond = match chunk.compressed_size.checked_mul(MAX_MCAP_COMPRESSION_RATIO) {
        Some(allowed) => chunk.uncompressed_size > allowed,
        None => false,
    };
    if chunk.compressed_size == 0 || beyond {
        let codec = text::quoted(chunk.compression.as_str());
        return Err(
            mcap_resource_error(
                text::line("MCAP codec ").add(codec.as_str()).add(
                    " exceeds compression ratio ",
                ).num(MAX_MCAP_COMPRESSION_RATIO).add(":1"),
                path,
            ),
        );
    }
    Ok(())
}

fn check_chunks(bytes: &[u8], chunks: &Vec<ChunkIndex>, total_limit: u64, path: &str) -> (r: Result<
    (u64, Vec<(u64, u64)>),
    ImportError,
>)
    requires
        chunks@.len() <= MAX_MCAP_CHUNKS,
    ensures
        match r {
            Ok((total, spans)) => chunks_check(
                bytes@,
                table::views(chunks@),
                0,
                0,
                Seq::empty(),
                total_limit as int,
                path@,
            ) == Ok::<(nat, Seq<(u64, u64)>), ImportErrorView>((total as nat, spans@)),
            Err(e) => chunks_check(
                bytes@,
                table::views(chunks@),
                0,
                0,
                Seq::empty(),
                total_limit as int,
                path@,
            ) == Err::<(nat, Seq<(u64, u64)>), ImportErrorView>(e@),
        },
{
    let mut total: u64 = 0;
    let mut spans: Vec<(u64, u64)> = Vec::new();
    let mut i: usize = 0;
    let ghost views = table::views(chunks@);
    while i < chunks.len()
        invariant
            i <= chunks@.len() <= MAX_MCAP_CHUNKS,
            views == table::views(chunks@),
            total <= i * MAX_MCAP_CHUNK_UNCOMPRESSED_BYTES,
            chunks_check(bytes@, views, 0, 0, Seq::empty(), total_limit as int, path@)
                == chunks_check(
                bytes@,
                views,
                i as int,
                total as nat,
                spans@,
                total_limit as int,
                path@,
            ),
        decreases chunks@.len() - i,
    {
        assert(views[i as int] == chunks@[i as int]@);
        let chunk = match inspect_mcap_chunk(bytes, &chunks[i], path) {
            Ok(chunk) => chunk,
            Err(e) => {
                return Err(e);
            },
        };
        match check_chunk_limits(&chunk, total_limit, path) {
            Ok(()) => {},
            Err(e) => {
                return Err(e);
            },
        }
        total = total + chunk.uncompressed_size;
        spans.push((chunks[i].chunk_start_offset, chunk.record_end));
        i = i + 1;
    }
    Ok((total, spans))
}

fn framed_attachment(bytes: &[u8], at: usize, size: usize) -> (r: bool)
    requires
        at + size <= bytes@.len(),
    ensures
        r == attachment_framed(bytes@, at as int, size as int),
{
    let total: usize = bytes.len();
    if size < 20 {
        return true;
    }
    let n: u32 = bytes::read_le_u32(bytes, at + 16);
    if ((size - 20) as u64) < 4 + n as u64 {
        return true;
    }
    let m: u32 = bytes::read_le_u32(bytes, at + 20 + n as usize);
    let header: u64 = 32 + n as u64 + m as u64;
    (size as u64) < header || size as u64 >= header + 4
}

fn check_attachment(bytes: &[u8], index: &AttachmentIndex, path: &str) -> (r: Result<
    (u64, u64),
    ImportError,
>)
    ensures
        match r {
            Ok(span) => attachment_failure(bytes@, index@, path@) is None && span == (
                index.offset,
                (index.offset + index.length) as u64,
            ),
            Err(e) => attachment_failure(bytes@, index@, path@) == Some(e@),
        },
{
    let max_record: u64 = MAX_MCAP_ATTACHMENT_DATA_BYTES + MAX_MCAP_ATTACHMENT_OVERHEAD_BYTES;
    let span = match inspect_mcap_indexed_record(
        bytes,
        index.offset,
        index.length,
        OP_ATTACHMENT,
        "attachment",
        max_record,
        path,
    ) {
        Ok(span) => span,
        Err(e) => {
            return Err(e);
        },
    };
    let size: usize = bytes.len();
    if !framed_attachment(
        bytes,
        index.offset as usize + RECORD_HEADER_BYTES,
        (index.length - RECORD_HEADER_BYTES as u64) as usize,
    ) {
        return Err(
            mcap_validation_error(
                text::line("MCAP attachment record has no room for its checksum"),
                path,
            ),
        );
    }
    match read_attachment(bytes, index) {
        Err(message) => Err(
            mcap_validation_error(
                text::line("MCAP attachment index is invalid: ").add(message.as_str()),
                path,
            ),
        ),
        Ok(record) => {
            if record.data_size as u64 != index.data_size || record.log_time != index.log_time
                || record.create_time != index.create_time || !text::same(
                record.name.as_str(),
                index.name.as_str(),
            ) || !text::same(record.media_type.as_str(), index.media_type.as_str()) {
                return Err(
                    mcap_validation_error(
                        text::line("MCAP attachment record disagrees with its index"),
                        path,
                    ),
                );
            }
            Ok(span)
        },
    }
}

fn check_attachments(
    bytes: &[u8],
    list: &Vec<AttachmentIndex>,
    spans: Vec<(u64, u64)>,
    total_limit: u64,
    path: &str,
) -> (r: Result<Vec<(u64, u64)>, ImportError>)
    requires
        total_limit <= MAX_MCAP_TOTAL_ATTACHMENT_BYTES,
    ensures
        match r {
            Ok(after) => attachments_check(
                bytes@,
                table::views(list@),
                0,
                0,
                spans@,
                total_limit as int,
                path@,
            ) == Ok::<Seq<(u64, u64)>, ImportErrorView>(after@),
            Err(e) => attachments_check(
                bytes@,
                table::views(list@),
                0,
                0,
                spans@,
                total_limit as int,
                path@,
            ) == Err::<Seq<(u64, u64)>, ImportErrorView>(e@),
        },
{
    let ghost views = table::views(list@);
    let ghost start = spans@;
    let mut all: Vec<(u64, u64)> = spans;
    let mut total: u64 = 0;
    let mut i: usize = 0;
    while i < list.len()
        invariant
            i <= list@.len(),
            views == table::views(list@),
            total <= total_limit <= MAX_MCAP_TOTAL_ATTACHMENT_BYTES,
            attachments_check(bytes@, views, 0, 0, start, total_limit as int, path@)
                == attachments_check(
                bytes@,
                views,
                i as int,
                total as nat,
                all@,
                total_limit as int,
                path@,
            ),
            start == spans@,
        decreases list@.len() - i,
    {
        assert(views[i as int] == list@[i as int]@);
        let data_size: u64 = list[i].data_size;
        if data_size > MAX_MCAP_ATTACHMENT_DATA_BYTES {
            return Err(
                mcap_resource_error(
                    text::line("MCAP attachment declares ").num(data_size).add(
                        " data bytes; maximum is ",
                    ).num(MAX_MCAP_ATTACHMENT_DATA_BYTES),
                    path,
                ),
            );
        }
        let next: u64 = total + data_size;
        if next > total_limit {
            return Err(
                mcap_resource_error(
                    text::line("MCAP attachments contain ").num(next).add(
                        " bytes; request-linked maximum is ",
                    ).num(total_limit),
                    path,
                ),
            );
        }
        let span = match check_attachment(bytes, &list[i], path) {
            Ok(span) => span,
            Err(e) => {
                return Err(e);
            },
        };
        all.push(span);
        total = next;
        i = i + 1;
    }
    Ok(all)
}

fn check_metadata_record(bytes: &[u8], index: &MetadataIndex, path: &str) -> (r: Result<
    (u64, u64),
    ImportError,
>)
    ensures
        match r {
            Ok(span) => metadata_failure(bytes@, index@, path@) is None && span == (
                index.offset,
                (index.offset + index.length) as u64,
            ),
            Err(e) => metadata_failure(bytes@, index@, path@) == Some(e@),
        },
{
    let span = match inspect_mcap_indexed_record(
        bytes,
        index.offset,
        index.length,
        OP_METADATA,
        "metadata",
        MAX_MCAP_METADATA_RECORD_BYTES,
        path,
    ) {
        Ok(span) => span,
        Err(e) => {
            return Err(e);
        },
    };
    match read_metadata(bytes, index) {
        Err(message) => Err(
            mcap_validation_error(
                text::line("MCAP metadata index is invalid: ").add(message.as_str()),
                path,
            ),
        ),
        Ok(name) => {
            if !text::same(name.as_str(), index.name.as_str()) {
                return Err(
                    mcap_validation_error(
                        text::line("MCAP metadata record disagrees with its index"),
                        path,
                    ),
                );
            }
            Ok(span)
        },
    }
}

fn check_metadata(
    bytes: &[u8],
    list: &Vec<MetadataIndex>,
    spans: Vec<(u64, u64)>,
    path: &str,
) -> (r: Result<Vec<(u64, u64)>, ImportError>)
    ensures
        match r {
            Ok(after) => metadata_check(bytes@, table::views(list@), 0, 0, spans@, path@) == Ok::<
                Seq<(u64, u64)>,
                ImportErrorView,
            >(after@),
            Err(e) => metadata_check(bytes@, table::views(list@), 0, 0, spans@, path@) == Err::<
                Seq<(u64, u64)>,
                ImportErrorView,
            >(e@),
        },
{
    let ghost views = table::views(list@);
    let ghost start = spans@;
    let mut all: Vec<(u64, u64)> = spans;
    let mut total: u64 = 0;
    let mut i: usize = 0;
    while i < list.len()
        invariant
            i <= list@.len(),
            views == table::views(list@),
            total <= MAX_MCAP_TOTAL_METADATA_BYTES,
            metadata_check(bytes@, views, 0, 0, start, path@) == metadata_check(
                bytes@,
                views,
                i as int,
                total as nat,
                all@,
                path@,
            ),
            start == spans@,
        decreases list@.len() - i,
    {
        assert(views[i as int] == list@[i as int]@);
        let next: u64 = match total.checked_add(list[i].length) {
            Some(next) => next,
            None => {
                return Err(
                    mcap_resource_error(text::line("MCAP metadata byte count overflow"), path),
                );
            },
        };
        if next > MAX_MCAP_TOTAL_METADATA_BYTES {
            return Err(
                mcap_resource_error(
                    text::line("MCAP metadata records contain ").num(next).add(
                        " bytes; maximum is ",
                    ).num(MAX_MCAP_TOTAL_METADATA_BYTES),
                    path,
                ),
            );
        }
        let span = match check_metadata_record(bytes, &list[i], path) {
            Ok(span) => span,
            Err(e) => {
                return Err(e);
            },
        };
        all.push(span);
        total = next;
        i = i + 1;
    }
    Ok(all)
}

fn span_line(before: text::Line, span: (u64, u64)) -> (r: text::Line)
    ensures
        r@ == before@ + span_text(span),
{
    let r = before.add("(").num(span.0).add(", ").num(span.1).add(")");
    assert(r@ =~= before@ + span_text(span));
    r
}

fn check_overlap(spans: &Vec<(u64, u64)>, path: &str) -> (r: Result<(), ImportError>)
    ensures
        import::outcome(r) == overlap_check(spans@, path@),
{
    let sorted = spans::sort_spans(spans);
    match spans::find_overlap(&sorted) {
        None => Ok(()),
        Some(i) => {
            let first = span_line(text::line("MCAP chunk spans overlap: "), sorted[i]).add(" and ");
            let detail = span_line(first, sorted[i + 1]).add("\nFile path: ").add(path).done();
            Err(
                ImportError::new(
                    ImportErrorCode::ValidationFailed,
                    "The MCAP chunk indexes contain overlapping byte spans.",
                    detail,
                ),
            )
        },
    }
}

/// Holds every indexed record of an MCAP file against its index and against the limits that
/// follow from the output limit of the request.
pub fn validate_mcap_resources(
    summary: &McapSummary,
    bytes: &[u8],
    output_limit: u64,
    path: &str,
) -> (r: Result<(), ImportError>)
    ensures
        import::outcome(r) == resources_outcome(summary@, bytes@, output_limit, path@),
{
    match check_entry_counts(summary, path) {
        Ok(()) => {},
        Err(e) => {
            return Err(e);
        },
    }
    let total_limit: u64 = scaled_limit(
        output_limit,
        32,
        67_108_864,
        MAX_MCAP_TOTAL_UNCOMPRESSED_BYTES,
    );
    let (total, spans) = match check_chunks(bytes, &summary.chunk_indexes, total_limit, path) {
        Ok(found) => found,
        Err(e) => {
            return Err(e);
        },
    };
    if total > total_limit {
        return Err(
            mcap_resource_error(
                text::line("MCAP declares ").num(total).add(
                    " uncompressed bytes; request-linked limit is ",
                ).num(total_limit),
                path,
            ),
        );
    }
    let attachment_total: u64 = scaled_limit(
        output_limit,
        4,
        8_388_608,
        MAX_MCAP_TOTAL_ATTACHMENT_BYTES,
    );
    let spans = match check_attachments(
        bytes,
        &summary.attachment_indexes,
        spans,
        attachment_total,
        path,
    ) {
        Ok(spans) => spans,
        Err(e) => {
            return Err(e);
        },
    };
    let spans = match check_metadata(bytes, &summary.metadata_indexes, spans, path) {
        Ok(spans) => spans,
        Err(e) => {
            return Err(e);
        },
    };
    check_overlap(&spans, path)
}

pub open spec fn forward(spans: Seq<(u64, u64)>) -> bool {
    forall|k: int| 0 <= k < spans.len() ==> (#[trigger] spans[k]).0 < spans[k].1
}

/// The data of the first `n` attachments, in bytes.
pub open spec fn attachment_bytes(list: Seq<AttachmentIndexView>, n: int) -> nat
    decreases n,
{
    if n <= 0 {
        0
    } else {
        attachment_bytes(list, n - 1) + list[n - 1].data_size as nat
    }
}

/// The first `n` metadata records, in bytes.
pub open spec fn metadata_bytes(list: Seq<MetadataIndexView>, n: int) -> nat
    decreases n,
{
    if n <= 0 {
        0
    } else {
        metadata_bytes(list, n - 1) + list[n - 1].length as nat
    }
}

/// What the first `n` chunks say that they unpack to, in bytes.
pub open spec fn chunk_bytes(list: Seq<ChunkIndexView>, n: int) -> nat
    decreases n,
{
    if n <= 0 {
        0
    } else {
        chunk_bytes(list, n - 1) + list[n - 1].uncompressed_size as nat
    }
}

proof fn lemma_chunks_forward(
    s: Seq<u8>,
    chunks: Seq<ChunkIndexView>,
    i: int,
    total: nat,
    spans: Seq<(u64, u64)>,
    total_limit: int,
    path: Seq<char>,
)
    requires
        forward(spans),
        0 <= i <= chunks.len(),
        total == chunk_bytes(chunks, i),
    ensures
        chunks_check(s, chunks, i, total, spans, total_limit, path) matches Ok((sum, after))
            ==> forward(after) && sum == chunk_bytes(chunks, chunks.len() as int),
    decreases chunks.len() - i,
{
    if i < chunks.len() {
        match chunk_check(s, chunks[i], path) {
            Ok(chunk) => {
                assert(chunk.uncompressed_size == chunks[i].uncompressed_size);
                if chunk_limit_failure(chunk, total_limit, path) is None {
                    lemma_chunks_forward(
                        s,
                        chunks,
                        i + 1,
                        total + chunk.uncompressed_size as nat,
                        spans.push((chunks[i].chunk_start_offset, chunk.record_end)),
                        total_limit,
                        path,
                    );
                }
            },
            Err(_) => {},
        }
    }
}

proof fn lemma_attachments_forward(
    s: Seq<u8>,
    list: Seq<AttachmentIndexView>,
    i: int,
    total: nat,
    spans: Seq<(u64, u64)>,
    total_limit: int,
    path: Seq<char>,
)
    requires
        forward(spans),
        0 <= i <= list.len(),
        total == attachment_bytes(list, i),
        total <= total_limit,
    ensures
        attachments_check(s, list, i, total, spans, total_limit, path) matches Ok(after)
            ==> forward(after) && attachment_bytes(list, list.len() as int) <= total_limit,
    decreases list.len() - i,
{
    if i < list.len() && total + list[i].data_size <= total_limit && attachment_failure(
        s,
        list[i],
        path,
    ) is None {
        lemma_attachments_forward(
            s,
            list,
            i + 1,
            total + list[i].data_size as nat,
            spans.push((list[i].offset, (list[i].offset + list[i].length) as u64)),
            total_limit,
            path,
        );
    }
}

proof fn lemma_metadata_forward(
    s: Seq<u8>,
    list: Seq<MetadataIndexView>,
    i: int,
    total: nat,
    spans: Seq<(u64, u64)>,
    path: Seq<char>,
)
    requires
        forward(spans),
        0 <= i <= list.len(),
        total == metadata_bytes(list, i),
        total <= MAX_MCAP_TOTAL_METADATA_BYTES,
    ensures
        metadata_check(s, list, i, total, spans, path) matches Ok(after) ==> forward(after)
            && metadata_bytes(list, list.len() as int) <= MAX_MCAP_TOTAL_METADATA_BYTES,
    decreases list.len() - i,
{
    if i < list.len() && total + list[i].length <= MAX_MCAP_TOTAL_METADATA_BYTES
        && metadata_failure(s, list[i], path) is None {
        lemma_metadata_forward(
            s,
            list,
            i + 1,
            total + list[i].length as nat,
            spans.push((list[i].offset, (list[i].offset + list[i].length) as u64)),
            path,
        );
    }
}

/// The records of an accepted file share no byte. Its chunks unpack to no more than the limit
/// that follows from the output limit, its attachments hold no more than theirs, and its metadata
/// no more than the fixed one.
pub proof fn law_accepted_resources_are_disjoint_and_bounded(
    summary: McapSummaryView,
    s: Seq<u8>,
    output_limit: u64,
    path: Seq<char>,
)
    requires
        resources_outcome(summary, s, output_limit, path) is Ok,
    ensures
        resource_spans(summary, s, output_limit, path) matches Ok(spans) && spans::disjoint(spans),
        chunk_bytes(summary.chunk_indexes, summary.chunk_indexes.len() as int)
            <= uncompressed_limit(output_limit) <= MAX_MCAP_TOTAL_UNCOMPRESSED_BYTES,
        attachment_bytes(summary.attachment_indexes, summary.attachment_indexes.len() as int)
            <= attachment_limit(output_limit) <= MAX_MCAP_TOTAL_ATTACHMENT_BYTES,
        metadata_bytes(summary.metadata_indexes, summary.metadata_indexes.len() as int)
            <= MAX_MCAP_TOTAL_METADATA_BYTES,
{
    let limit = uncompressed_limit(output_limit);
    lemma_chunks_forward(s, summary.chunk_indexes, 0, 0, Seq::empty(), limit, path);
    let (_, first) = chunks_check(s, summary.chunk_indexes, 0, 0, Seq::empty(), limit, path)->Ok_0;
    lemma_attachments_forward(
        s,
        summary.attachment_indexes,
        0,
        0,
        first,
        attachment_limit(output_limit),
        path,
    );
    let second = attachments_check(
        s,
        summary.attachment_indexes,
        0,
        0,
        first,
        attachment_limit(output_limit),
        path,
    )->Ok_0;
    lemma_metadata_forward(s, summary.metadata_indexes, 0, 0, second, path);
    spans::lemma_disjoint_either_way(resource_spans(summary, s, output_limit, path)->Ok_0);
}

/// A chunk is accepted exactly if a chunk record of the indexed length stands at the indexed place,
/// its payload ends where the record does, and its times, its sizes and its compression are those
/// that the index gives; what is then known of it is what the index gives.
pub proof fn law_chunks_agree_with_their_index(s: Seq<u8>, index: ChunkIndexView, path: Seq<char>)
    requires
        s.len() <= usize::MAX,
    ensures
        ({
            let at = index.chunk_start_offset as int;
            let name_len = bytes::le_u32(s, at + 37);
            let name = s.subrange(at + 41, at + 41 + name_len);
            &&& chunk_check(s, index, path) is Ok <==> {
                &&& at + 41 <= s.len() && s[at] == 6
                &&& 9 + bytes::le_u64(s, at + 1) == index.chunk_length
                &&& at + index.chunk_length <= s.len()
                &&& name_len <= 64 && at + 49 + name_len <= s.len() && valid_utf8(name)
                &&& at + index.chunk_length == at + 49 + name_len + index.compressed_size
                &&& bytes::le_u64(s, at + 41 + name_len) == index.compressed_size
                &&& bytes::le_u64(s, at + 9) == index.message_start_time
                &&& bytes::le_u64(s, at + 17) == index.message_end_time
                &&& bytes::le_u64(s, at + 25) == index.uncompressed_size
                &&& decode_utf8(name) == index.compression
            }
            &&& chunk_check(s, index, path) matches Ok(chunk) ==> {
                &&& chunk.record_end == index.chunk_start_offset + index.chunk_length
                &&& chunk.compressed_size == index.compressed_size
                &&& chunk.uncompressed_size == index.uncompressed_size
                &&& chunk.compression == index.compression
            }
        }),
{
}

/// A chunk may unpack to at most a thousand times its packed size, to at most 64 megabytes and to
/// no more than all chunks together may.
pub proof fn law_chunks_unpack_within_limits(
    chunk: InspectedMcapChunkView,
    total_limit: int,
    path: Seq<char>,
)
    ensures
        chunk_limit_failure(chunk, total_limit, path) is None <==> chunk.compressed_size > 0
            && chunk.uncompressed_size <= chunk.compressed_size * 1_000 && chunk.uncompressed_size
            <= 67_108_864 && chunk.uncompressed_size <= total_limit,
{
}

/// An indexed record is there exactly if its opcode stands at the indexed place, its own length is
/// the indexed one, it is no longer than its kind may be, and it lies within the file.
pub proof fn law_indexed_records_are_there(
    s: Seq<u8>,
    offset: u64,
    length: u64,
    opcode: u8,
    label: Seq<char>,
    max_length: u64,
    path: Seq<char>,
)
    requires
        s.len() <= usize::MAX,
    ensures
        record_failure(s, offset, length, opcode, label, max_length, path) is None <==> {
            &&& 9 <= length <= max_length
            &&& offset + length <= s.len()
            &&& s[offset as int] == opcode
            &&& 9 + bytes::le_u64(s, offset + 1) == length
        },
{
}

proof fn lemma_attachment_bytes(list: Seq<AttachmentIndexView>, a: int, b: int)
    requires
        0 <= a <= b,
    ensures
        attachment_bytes(list, a) <= attachment_bytes(list, b),
    decreases b - a,
{
    if a < b {
        lemma_attachment_bytes(list, a, b - 1);
    }
}

proof fn lemma_attachments_agree(
    s: Seq<u8>,
    list: Seq<AttachmentIndexView>,
    i: int,
    spans: Seq<(u64, u64)>,
    total_limit: int,
    path: Seq<char>,
)
    requires
        0 <= i <= list.len(),
        attachment_bytes(list, i) <= total_limit,
    ensures
        attachments_check(s, list, i, attachment_bytes(list, i), spans, total_limit, path) is Ok
            <==> attachment_bytes(list, list.len() as int) <= total_limit && forall|k: int|
            i <= k < list.len() ==> (#[trigger] list[k]).data_size <= MAX_MCAP_ATTACHMENT_DATA_BYTES
                && attachment_failure(s, list[k], path) is None,
    decreases list.len() - i,
{
    if i < list.len() {
        lemma_attachment_bytes(list, i + 1, list.len() as int);
        assert(attachment_bytes(list, i + 1) == attachment_bytes(list, i) + list[i].data_size);
        if list[i].data_size <= MAX_MCAP_ATTACHMENT_DATA_BYTES && attachment_bytes(list, i)
            + list[i].data_size <= total_limit && attachment_failure(s, list[i], path) is None {
            lemma_attachments_agree(
                s,
                list,
                i + 1,
                spans.push((list[i].offset, (list[i].offset + list[i].length) as u64)),
                total_limit,
                path,
            );
        }
    }
}

/// Attachments are accepted exactly if each is no larger than one may be and is the record that
/// its index describes, and all of them together keep to the limit.
pub proof fn law_attachments_agree_with_their_index(
    s: Seq<u8>,
    list: Seq<AttachmentIndexView>,
    spans: Seq<(u64, u64)>,
    total_limit: int,
    path: Seq<char>,
)
    requires
        0 <= total_limit,
    ensures
        attachments_check(s, list, 0, 0, spans, total_limit, path) is Ok <==> attachment_bytes(
            list,
            list.len() as int,
        ) <= total_limit && forall|k: int|
            0 <= k < list.len() ==> (#[trigger] list[k]).data_size <= MAX_MCAP_ATTACHMENT_DATA_BYTES
                && attachment_failure(s, list[k], path) is None,
{
    lemma_attachments_agree(s, list, 0, spans, total_limit, path);
}

/// An attachment is the one that its index describes only if its record is there and is read as one
/// with the indexed size, times, name and media type.
pub proof fn law_attachments_are_read_as_indexed(
    s: Seq<u8>,
    index: AttachmentIndexView,
    path: Seq<char>,
)
    requires
        s.len() <= usize::MAX,
    ensures
        attachment_failure(s, index, path) is None ==> {
            &&& 9 <= index.length && index.offset + index.length <= s.len()
            &&& s[index.offset as int] == 9
            &&& 9 + bytes::le_u64(s, index.offset + 1) == index.length
            &&& attachment_read(s, index.offset, index.length) == Ok::<
                (u64, u64, Seq<char>, Seq<char>, nat),
                Seq<char>,
            >(
                (
                    index.log_time,
                    index.create_time,
                    index.name,
                    index.media_type,
                    index.data_size as nat,
                ),
            )
        },
{
}

/// A metadata record is the one that its index describes exactly if it is there, is not too long
/// and is read with the indexed name.
pub proof fn law_metadata_are_read_as_indexed(
    s: Seq<u8>,
    index: MetadataIndexView,
    path: Seq<char>,
)
    requires
        s.len() <= usize::MAX,
    ensures
        metadata_failure(s, index, path) is None <==> {
            &&& 9 <= index.length <= MAX_MCAP_METADATA_RECORD_BYTES
            &&& index.offset + index.length <= s.len()
            &&& s[index.offset as int] == 12
            &&& 9 + bytes::le_u64(s, index.offset + 1) == index.length
            &&& metadata_read(s, index.offset, index.length) == Ok::<Seq<char>, Seq<char>>(
                index.name,
            )
        },
{
}

/// The footer of a file is accepted exactly if the file ends with a footer record and the closing
/// bytes, and the footer gives a summary within the file that is not too long; the summary starts
/// where it says.
pub proof fn law_footers_give_the_summary(s: Seq<u8>, path: Seq<char>)
    requires
        s.len() <= usize::MAX,
    ensures
        ({
            let footer = s.len() - 37;
            let start = bytes::le_u64(s, footer + 9);
            let offsets = bytes::le_u64(s, footer + 17);
            &&& footer_check(s, path) is Ok <==> {
                &&& s.len() >= 45
                &&& s.subrange(s.len() - 8, s.len() as int) == seq![
                    0x89u8,
                    0x4du8,
                    0x43u8,
                    0x41u8,
                    0x50u8,
                    0x30u8,
                    0x0du8,
                    0x0au8,
                ]
                &&& s[footer] == 2 && bytes::le_u64(s, footer + 1) == 20
                &&& 8 <= start < footer && footer - start <= MAX_MCAP_SUMMARY_BYTES
                &&& offsets == 0 || start <= offsets < footer
            }
            &&& footer_check(s, path) matches Ok(at) ==> at == start
        }),
{
}

proof fn lemma_chunk_size(s: Seq<u8>, index: ChunkIndexView, path: Seq<char>)
    ensures
        chunk_check(s, index, path) matches Ok(chunk) ==> chunk.uncompressed_size
            == index.uncompressed_size,
{
}

#[verifier::rlimit(60)]
#[verifier::spinoff_prover]
proof fn lemma_chunks_agree(
    s: Seq<u8>,
    list: Seq<ChunkIndexView>,
    i: int,
    spans: Seq<(u64, u64)>,
    total_limit: int,
    path: Seq<char>,
)
    requires
        0 <= i <= list.len(),
    ensures
        chunks_check(s, list, i, chunk_bytes(list, i), spans, total_limit, path) is Ok <==> forall|
            k: int,
        |
            i <= k < list.len() ==> chunk_check(s, #[trigger] list[k], path) is Ok
                && chunk_limit_failure(chunk_check(s, list[k], path)->Ok_0, total_limit, path)
                is None,
        chunks_check(s, list, i, chunk_bytes(list, i), spans, total_limit, path) matches Ok(r)
            ==> r.0 == chunk_bytes(list, list.len() as int),
    decreases list.len() - i,
{
    if i < list.len() {
        lemma_chunk_size(s, list[i], path);
        match chunk_check(s, list[i], path) {
            Ok(chunk) => {
                assert(chunk_bytes(list, i + 1) == chunk_bytes(list, i) + chunk.uncompressed_size);
                if chunk_limit_failure(chunk, total_limit, path) is None {
                    lemma_chunks_agree(
                        s,
                        list,
                        i + 1,
                        spans.push((list[i].chunk_start_offset, chunk.record_end)),
                        total_limit,
                        path,
                    );
                }
            },
            Err(_) => {},
        }
    }
}

/// Chunks are accepted exactly if each agrees with its index and keeps to the limits of a chunk;
/// together they then unpack to the sum of the indexed sizes.
pub proof fn law_all_chunks_agree_with_their_index(
    s: Seq<u8>,
    list: Seq<ChunkIndexView>,
    total_limit: int,
    path: Seq<char>,
)
    requires
        s.len() <= usize::MAX,
    ensures
        chunks_check(s, list, 0, 0, Seq::empty(), total_limit, path) is Ok <==> forall|k: int|
            0 <= k < list.len() ==> chunk_check(s, #[trigger] list[k], path) is Ok
                && list[k].compressed_size > 0 && list[k].uncompressed_size
                <= list[k].compressed_size * 1_000 && list[k].uncompressed_size <= 67_108_864
                && list[k].uncompressed_size <= total_limit,
        chunks_check(s, list, 0, 0, Seq::empty(), total_limit, path) matches Ok(r) ==> r.0
            == chunk_bytes(list, list.len() as int),
{
    lemma_chunks_agree(s, list, 0, Seq::empty(), total_limit, path);
    assert forall|k: int| 0 <= k < list.len() implies (chunk_check(s, #[trigger] list[k], path)
        is Ok && chunk_limit_failure(chunk_check(s, list[k], path)->Ok_0, total_limit, path)
        is None) == (chunk_check(s, list[k], path) is Ok && list[k].compressed_size > 0
        && list[k].uncompressed_size <= list[k].compressed_size * 1_000
        && list[k].uncompressed_size <= 67_108_864 && list[k].uncompressed_size <= total_limit) by {
        law_chunks_agree_with_their_index(s, list[k], path);
    }
}

proof fn lemma_metadata_bytes(list: Seq<MetadataIndexView>, a: int, b: int)
    requires
        0 <= a <= b,
    ensures
        metadata_bytes(list, a) <= metadata_bytes(list, b),
    decreases b - a,
{
    if a < b {
        lemma_metadata_bytes(list, a, b - 1);
    }
}

proof fn lemma_metadata_agree(
    s: Seq<u8>,
    list: Seq<MetadataIndexView>,
    i: int,
    spans: Seq<(u64, u64)>,
    path: Seq<char>,
)
    requires
        0 <= i <= list.len(),
        metadata_bytes(list, i) <= 16_777_216,
    ensures
        metadata_check(s, list, i, metadata_bytes(list, i), spans, path) is Ok <==> metadata_bytes(
            list,
            list.len() as int,
        ) <= 16_777_216 && forall|k: int|
            i <= k < list.len() ==> metadata_failure(s, #[trigger] list[k], path) is None,
    decreases list.len() - i,
{
    if i < list.len() {
        lemma_metadata_bytes(list, i + 1, list.len() as int);
        assert(metadata_bytes(list, i + 1) == metadata_bytes(list, i) + list[i].length);
        if metadata_bytes(list, i) + list[i].length <= 16_777_216 && metadata_failure(
            s,
            list[i],
            path,
        ) is None {
            lemma_metadata_agree(
                s,
                list,
                i + 1,
                spans.push((list[i].offset, (list[i].offset + list[i].length) as u64)),
                path,
            );
        }
    }
}

/// Metadata records are accepted exactly if each is the one that its index describes and all of
/// them together have at most sixteen megabytes.
pub proof fn law_all_metadata_agree_with_their_index(
    s: Seq<u8>,
    list: Seq<MetadataIndexView>,
    spans: Seq<(u64, u64)>,
    path: Seq<char>,
)
    ensures
        metadata_check(s, list, 0, 0, spans, path) is Ok <==> metadata_bytes(
            list,
            list.len() as int,
        ) <= 16_777_216 && forall|k: int|
            0 <= k < list.len() ==> metadata_failure(s, #[trigger] list[k], path) is None,
{
    lemma_metadata_agree(s, list, 0, spans, path);
}

/// One more record of a summary is counted exactly if its kind has room for it, and it counts for
/// its kind alone.
pub proof fn law_summary_records_are_counted(t: SummaryTally, op: u8, size: nat, path: Seq<char>)
    requires
        tally_bounded(t),
    ensures
        count_record(t, op, size, path) is Ok <==> {
            &&& t.records < 131_072
            &&& op == 8 ==> t.chunk_indexes < 65_536
            &&& op == 3 ==> t.schemas < 4_096 && t.schema_bytes + size <= 33_554_432
            &&& op == 10 ==> t.attachment_indexes < 1_024
            &&& op == 13 ==> t.metadata_indexes < 4_096
        },
        count_record(t, op, size, path) matches Ok(after) ==> {
            &&& after.records == t.records + 1
            &&& after.chunk_indexes == t.chunk_indexes + if op == 8 {
                1int
            } else {
                0
            }
            &&& after.schemas == t.schemas + if op == 3 {
                1int
            } else {
                0
            }
            &&& after.schema_bytes == t.schema_bytes + if op == 3 {
                size as int
            } else {
                0
            }
            &&& after.attachment_indexes == t.attachment_indexes + if op == 10 {
                1int
            } else {
                0
            }
            &&& after.metadata_indexes == t.metadata_indexes + if op == 13 {
                1int
            } else {
                0
            }
        },
{
}

} // verus!
