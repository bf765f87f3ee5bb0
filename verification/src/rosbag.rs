//! ROS 2 bags in ZIP archives: what may be extracted, and which segments are imported.

use crate::bytes;
use crate::catalog::Marker;
use crate::import;
use crate::import::{ImportError, ImportErrorCode, ImportErrorView};
use crate::mcap_limits;
use crate::names;
use crate::rrd_wire;
use crate::table;
use crate::table::Table;
use crate::text;
use vstd::prelude::*;

verus! {

pub const MAX_ARCHIVE_ENTRIES: usize = 4_096;
pub const MAX_CENTRAL_DIRECTORY_BYTES: u64 = 33_554_432;
pub const HARD_MAX_ARCHIVE_EXPANDED_BYTES: u64 = 2_147_483_648;
pub const MIN_ARCHIVE_EXPANDED_BYTES: u64 = 67_108_864;
pub const MAX_ARCHIVE_COMPRESSION_RATIO: u64 = 1000;
pub const MAX_METADATA_BYTES: u64 = 1_048_576;
pub const RATIO_FREE_BYTES: u64 = 1_048_576;
pub const MAX_METADATA_LINES: usize = 100_000;
pub const MAX_BAG_SEGMENTS: usize = 128;
pub const MAX_CONVERTED_DEPTH: usize = 8;
pub const EOCD_MIN_BYTES: u64 = 22;
pub const MAX_EOCD_BYTES: u64 = 65_557;
pub const ZIP64_LOCATOR_BYTES: u64 = 20;
pub const ZIP64_EOCD_MIN_BYTES: usize = 56;

pub open spec fn limit_failure(detail: Seq<char>) -> ImportErrorView {
    import::import_error(
        ImportErrorCode::ResourceLimitExceeded,
        "The ROS 2 bag archive exceeds the safe extraction limits."@,
        detail,
    )
}

pub fn archive_limit_error(detail: text::Line) -> (r: ImportError)
    ensures
        r@ == limit_failure(detail@),
{
    ImportError::new(
        ImportErrorCode::ResourceLimitExceeded,
        "The ROS 2 bag archive exceeds the safe extraction limits.",
        detail.done(),
    )
}

pub open spec fn metadata_failure(detail: Seq<char>) -> ImportErrorView {
    import::import_error(
        ImportErrorCode::ValidationFailed,
        "The ROS 2 metadata.yaml structure is invalid."@,
        detail,
    )
}

pub fn metadata_error(detail: text::Line) -> (r: ImportError)
    ensures
        r@ == metadata_failure(detail@),
{
    ImportError::new(
        ImportErrorCode::ValidationFailed,
        "The ROS 2 metadata.yaml structure is invalid.",
        detail.done(),
    )
}

/// How much an archive may expand to: four times the output, within bounds.
pub open spec fn expanded_limit(max_output_bytes: u64) -> u64 {
    if max_output_bytes * 4 < MIN_ARCHIVE_EXPANDED_BYTES {
        MIN_ARCHIVE_EXPANDED_BYTES
    } else if max_output_bytes * 4 > HARD_MAX_ARCHIVE_EXPANDED_BYTES {
        HARD_MAX_ARCHIVE_EXPANDED_BYTES
    } else {
        (max_output_bytes * 4) as u64
    }
}

pub fn archive_expanded_limit(max_output_bytes: u64) -> (r: u64)
    ensures
        r == expanded_limit(max_output_bytes),
{
    let wanted: u64 = match max_output_bytes.checked_mul(4) {
        Some(n) => n,
        None => u64::MAX,
    };
    if wanted < MIN_ARCHIVE_EXPANDED_BYTES {
        MIN_ARCHIVE_EXPANDED_BYTES
    } else if wanted > HARD_MAX_ARCHIVE_EXPANDED_BYTES {
        HARD_MAX_ARCHIVE_EXPANDED_BYTES
    } else {
        wanted
    }
}

/// Whether four bytes open a ZIP record of an archive.
pub open spec fn is_zip_magic(b: Seq<u8>) -> bool {
    b.len() == 4 && b[0] == 0x50 && b[1] == 0x4b && ((b[2] == 3 && b[3] == 4) || (b[2] == 5 && b[3]
        == 6) || (b[2] == 7 && b[3] == 8))
}

/// Checks the first four bytes of an archive.
pub fn validate_zip_magic(prefix: &[u8]) -> (r: Result<(), ImportError>)
    ensures
        rrd_wire::fault(r) == if is_zip_magic(prefix@) {
            None
        } else {
            Some(
                import::import_error(
                    ImportErrorCode::ValidationFailed,
                    "The declared ROS 2 bag ZIP does not match the file contents."@,
                    "ZIP magic mismatch: "@ + text::hex_list(prefix@),
                ),
            )
        },
{
    if prefix.len() == 4 && prefix[0] == 0x50 && prefix[1] == 0x4b && ((prefix[2] == 3 && prefix[3]
        == 4) || (prefix[2] == 5 && prefix[3] == 6) || (prefix[2] == 7 && prefix[3] == 8)) {
        return Ok(());
    }
    let shown = text::hex_list_text(prefix);
    Err(
        ImportError::new(
            ImportErrorCode::ValidationFailed,
            "The declared ROS 2 bag ZIP does not match the file contents.",
            text::line("ZIP magic mismatch: ").add(shown.as_str()).done(),
        ),
    )
}

/// Whether an end-of-central-directory record stands at `i`, whose comment ends the tail.
pub open spec fn eocd_at(tail: Seq<u8>, i: int) -> bool {
    0 <= i && i + 22 <= tail.len() && tail[i] == 0x50 && tail[i + 1] == 0x4b && tail[i + 2] == 5
        && tail[i + 3] == 6 && i + 22 + bytes::le_u16(tail, i + 20) == tail.len()
}

/// The last end-of-central-directory record at or before `i`.
pub open spec fn eocd_upto(tail: Seq<u8>, i: int) -> Option<int>
    decreases i + 1,
{
    if i < 0 {
        None
    } else if eocd_at(tail, i) {
        Some(i)
    } else {
        eocd_upto(tail, i - 1)
    }
}

/// The central directory that an archive declares.
#[derive(Clone, Copy, Debug, PartialEq, Eq, Structural)]
pub struct ZipDirectory {
    pub entries: u64,
    pub size: u64,
    pub offset: u64,
}

/// What the end of an archive says.
#[derive(Clone, Copy, Debug, PartialEq, Eq, Structural)]
pub enum ZipTail {
    /// The directory itself, and where the record stands that names it.
    Plain { directory: ZipDirectory, eocd_offset: u64 },
    /// That a ZIP64 locator stands at an offset, before the record.
    Zip64 { locator_offset: u64, eocd_offset: u64 },
}

pub open spec fn tail_start(file_size: u64) -> int {
    if file_size <= MAX_EOCD_BYTES {
        0
    } else {
        file_size - MAX_EOCD_BYTES
    }
}

/// What the last bytes of an archive say.
pub open spec fn zip_tail(tail: Seq<u8>, file_size: u64) -> Result<ZipTail, ImportErrorView> {
    if file_size < EOCD_MIN_BYTES {
        Err(metadata_failure("ZIP is too small to contain an end-of-directory record"@))
    } else {
        match eocd_upto(tail, tail.len() - 22) {
            None => Err(metadata_failure("ZIP end-of-central-directory record was not found"@)),
            Some(i) => {
                let eocd = (tail_start(file_size) + i) as u64;
                let disk = bytes::le_u16(tail, i + 4);
                let central_disk = bytes::le_u16(tail, i + 6);
                let on_disk = bytes::le_u16(tail, i + 8);
                let total = bytes::le_u16(tail, i + 10);
                let size = bytes::le_u32(tail, i + 12);
                let offset = bytes::le_u32(tail, i + 16);
                if total == u16::MAX || size == u32::MAX || offset == u32::MAX {
                    if eocd < ZIP64_LOCATOR_BYTES {
                        Err(metadata_failure("ZIP64 locator offset underflow"@))
                    } else {
                        Ok(
                            ZipTail::Zip64 {
                                locator_offset: (eocd - ZIP64_LOCATOR_BYTES) as u64,
                                eocd_offset: eocd,
                            },
                        )
                    }
                } else if disk != 0 || central_disk != 0 || on_disk != total {
                    Err(metadata_failure("Multi-disk ZIP archives are not supported"@))
                } else {
                    Ok(
                        ZipTail::Plain {
                            directory: ZipDirectory {
                                entries: total as u64,
                                size: size as u64,
                                offset: offset as u64,
                            },
                            eocd_offset: eocd,
                        },
                    )
                }
            },
        }
    }
}

fn find_eocd(tail: &[u8]) -> (r: Option<usize>)
    requires
        tail@.len() >= 22,
    ensures
        match r {
            Some(i) => eocd_upto(tail@, tail@.len() - 22) == Some(i as int) && i + 22
                <= tail@.len(),
            None => eocd_upto(tail@, tail@.len() - 22) is None,
        },
{
    let n: usize = tail.len();
    let mut next: usize = n - 22 + 1;
    while next > 0
        invariant
            n == tail@.len(),
            n >= 22,
            next <= n - 22 + 1,
            eocd_upto(tail@, n - 22) == eocd_upto(tail@, next - 1),
        decreases next,
    {
        let i: usize = next - 1;
        if tail[i] == 0x50 && tail[i + 1] == 0x4b && tail[i + 2] == 5 && tail[i + 3] == 6 {
            let comment: u16 = bytes::read_le_u16(tail, i + 20);
            if comment as usize == n - i - 22 {
                assert(eocd_at(tail@, i as int));
                return Some(i);
            }
        }
        assert(!eocd_at(tail@, i as int));
        next = i;
    }
    None
}

/// Reads the last bytes of an archive, as far as a comment can reach.
pub fn read_zip_tail(tail: &[u8], file_size: u64) -> (r: Result<ZipTail, ImportError>)
    requires
        file_size >= EOCD_MIN_BYTES ==> tail@.len() == file_size - tail_start(file_size),
    ensures
        import::outcome(r) == zip_tail(tail@, file_size),
{
    if file_size < EOCD_MIN_BYTES {
        return Err(
            metadata_error(text::line("ZIP is too small to contain an end-of-directory record")),
        );
    }
    let size: usize = tail.len();
    let i: usize = match find_eocd(tail) {
        Some(i) => i,
        None => {
            return Err(
                metadata_error(text::line("ZIP end-of-central-directory record was not found")),
            );
        },
    };
    let eocd: u64 = file_size - size as u64 + i as u64;
    let disk: u16 = bytes::read_le_u16(tail, i + 4);
    let central_disk: u16 = bytes::read_le_u16(tail, i + 6);
    let on_disk: u16 = bytes::read_le_u16(tail, i + 8);
    let total: u16 = bytes::read_le_u16(tail, i + 10);
    let central_size: u32 = bytes::read_le_u32(tail, i + 12);
    let offset: u32 = bytes::read_le_u32(tail, i + 16);
    if total == u16::MAX || central_size == u32::MAX || offset == u32::MAX {
        if eocd < ZIP64_LOCATOR_BYTES {
            return Err(metadata_error(text::line("ZIP64 locator offset underflow")));
        }
        return Ok(
            ZipTail::Zip64 { locator_offset: eocd - ZIP64_LOCATOR_BYTES, eocd_offset: eocd },
        );
    }
    if disk != 0 || central_disk != 0 || on_disk != total {
        return Err(metadata_error(text::line("Multi-disk ZIP archives are not supported")));
    }
    Ok(
        ZipTail::Plain {
            directory: ZipDirectory {
                entries: total as u64,
                size: central_size as u64,
                offset: offset as u64,
            },
            eocd_offset: eocd,
        },
    )
}

/// Where a ZIP64 locator says that the ZIP64 record stands.
pub open spec fn locator_target(b: Seq<u8>) -> Result<nat, ImportErrorView> {
    if !(b[0] == 0x50 && b[1] == 0x4b && b[2] == 6 && b[3] == 7) {
        Err(metadata_failure("ZIP64 locator signature is missing"@))
    } else {
        Ok(bytes::le_u64(b, 8))
    }
}

/// Reads a ZIP64 locator.
pub fn read_zip64_locator(locator: &[u8]) -> (r: Result<u64, ImportError>)
    requires
        locator@.len() == ZIP64_LOCATOR_BYTES,
    ensures
        match locator_target(locator@) {
            Ok(at) => r matches Ok(found) && found == at,
            Err(e) => r matches Err(f) && f@ == e,
        },
{
    if !(locator[0] == 0x50 && locator[1] == 0x4b && locator[2] == 6 && locator[3] == 7) {
        return Err(metadata_error(text::line("ZIP64 locator signature is missing")));
    }
    Ok(bytes::read_le_u64(locator, 8))
}

/// The directory that a ZIP64 record declares.
pub open spec fn zip64_directory(b: Seq<u8>) -> Result<ZipDirectory, ImportErrorView> {
    if !(b[0] == 0x50 && b[1] == 0x4b && b[2] == 6 && b[3] == 6) {
        Err(metadata_failure("ZIP64 EOCD signature is missing"@))
    } else if bytes::le_u64(b, 4) < 44 || bytes::le_u64(b, 4) > MAX_CENTRAL_DIRECTORY_BYTES {
        Err(
            limit_failure(
                "ZIP64 EOCD record size "@ + text::decimal(bytes::le_u64(b, 4))
                    + " is outside safe limits"@,
            ),
        )
    } else if bytes::le_u64(b, 24) != bytes::le_u64(b, 32) {
        Err(metadata_failure("Multi-disk ZIP64 archives are not supported"@))
    } else {
        Ok(
            ZipDirectory {
                entries: bytes::le_u64(b, 32) as u64,
                size: bytes::le_u64(b, 40) as u64,
                offset: bytes::le_u64(b, 48) as u64,
            },
        )
    }
}

/// Reads the fixed part of a ZIP64 record.
pub fn read_zip64_record(record: &[u8]) -> (r: Result<ZipDirectory, ImportError>)
    requires
        record@.len() == ZIP64_EOCD_MIN_BYTES,
    ensures
        import::outcome(r) == zip64_directory(record@),
{
    if !(record[0] == 0x50 && record[1] == 0x4b && record[2] == 6 && record[3] == 6) {
        return Err(metadata_error(text::line("ZIP64 EOCD signature is missing")));
    }
    let size: u64 = bytes::read_le_u64(record, 4);
    if size < 44 || size > MAX_CENTRAL_DIRECTORY_BYTES {
        return Err(
            archive_limit_error(
                text::line("ZIP64 EOCD record size ").num(size).add(" is outside safe limits"),
            ),
        );
    }
    let on_disk: u64 = bytes::read_le_u64(record, 24);
    let entries: u64 = bytes::read_le_u64(record, 32);
    let central_size: u64 = bytes::read_le_u64(record, 40);
    let offset: u64 = bytes::read_le_u64(record, 48);
    if on_disk != entries {
        return Err(metadata_error(text::line("Multi-disk ZIP64 archives are not supported")));
    }
    Ok(ZipDirectory { entries, size: central_size, offset })
}

/// The fault of a central directory in a file whose end record stands at `eocd_offset`.
pub open spec fn directory_failure(d: ZipDirectory, file_size: u64, eocd_offset: u64) -> Option<
    ImportErrorView,
> {
    if d.entries == 0 || d.entries > MAX_ARCHIVE_ENTRIES {
        Some(
            limit_failure(
                "ZIP central directory declares "@ + text::decimal(d.entries as nat)
                    + " entries; maximum is "@ + text::decimal(MAX_ARCHIVE_ENTRIES as nat),
            ),
        )
    } else if d.size == 0 || d.size > MAX_CENTRAL_DIRECTORY_BYTES {
        Some(
            limit_failure(
                "ZIP central directory is "@ + text::decimal(d.size as nat)
                    + " bytes; maximum is "@ + text::decimal(MAX_CENTRAL_DIRECTORY_BYTES as nat),
            ),
        )
    } else if d.offset + d.size > u64::MAX {
        Some(limit_failure("ZIP central-directory span overflow"@))
    } else if d.offset + d.size > file_size || d.offset + d.size > eocd_offset {
        Some(
            metadata_failure(
                "ZIP central-directory span "@ + text::decimal(d.offset as nat) + ".."@
                    + text::decimal((d.offset + d.size) as nat) + " exceeds file bounds"@,
            ),
        )
    } else {
        None
    }
}

/// Checks the central directory of an archive before it is read.
pub fn validate_zip_directory_bounds(d: ZipDirectory, file_size: u64, eocd_offset: u64) -> (r:
    Result<(), ImportError>)
    ensures
        rrd_wire::fault(r) == directory_failure(d, file_size, eocd_offset),
{
    if d.entries == 0 || d.entries > MAX_ARCHIVE_ENTRIES as u64 {
        return Err(
            archive_limit_error(
                text::line("ZIP central directory declares ").num(d.entries).add(
                    " entries; maximum is ",
                ).num(MAX_ARCHIVE_ENTRIES as u64),
            ),
        );
    }
    if d.size == 0 || d.size > MAX_CENTRAL_DIRECTORY_BYTES {
        return Err(
            archive_limit_error(
                text::line("ZIP central directory is ").num(d.size).add(
                    " bytes; maximum is ",
                ).num(MAX_CENTRAL_DIRECTORY_BYTES),
            ),
        );
    }
    let end: u64 = match d.offset.checked_add(d.size) {
        Some(end) => end,
        None => {
            return Err(archive_limit_error(text::line("ZIP central-directory span overflow")));
        },
    };
    if end > file_size || end > eocd_offset {
        return Err(
            metadata_error(
                text::line("ZIP central-directory span ").num(d.offset).add("..").num(end).add(
                    " exceeds file bounds",
                ),
            ),
        );
    }
    Ok(())
}

/// One entry of an archive.
#[derive(Debug)]
pub struct ArchiveEntry {
    /// The name as it stands in the archive.
    pub name: String,
    /// The path below the extraction root, where the name stays below it.
    pub enclosed: Option<String>,
    pub unix_mode: Option<u32>,
    pub size: u64,
    pub compressed_size: u64,
    pub is_dir: bool,
}

#[verifier::ext_equal]
pub struct ArchiveEntryView {
    pub name: Seq<char>,
    pub enclosed: Option<Seq<char>>,
    pub unix_mode: Option<u32>,
    pub size: u64,
    pub compressed_size: u64,
    pub is_dir: bool,
}

impl View for ArchiveEntry {
    type V = ArchiveEntryView;

    open spec fn view(&self) -> ArchiveEntryView {
        ArchiveEntryView {
            name: self.name@,
            enclosed: table::view_option(self.enclosed),
            unix_mode: self.unix_mode,
            size: self.size,
            compressed_size: self.compressed_size,
            is_dir: self.is_dir,
        }
    }
}

/// What has been extracted of an archive so far.
#[derive(Debug)]
pub struct Extraction {
    pub limit: u64,
    pub declared: u64,
    pub extracted: u64,
    pub paths: Table<Marker>,
    pub metadata: Vec<String>,
    pub mcap: Vec<String>,
    pub db3: Vec<String>,
}

#[verifier::ext_equal]
pub struct ExtractionView {
    pub limit: u64,
    pub declared: u64,
    pub extracted: u64,
    pub paths: Map<Seq<char>, ()>,
    pub metadata: Seq<Seq<char>>,
    pub mcap: Seq<Seq<char>>,
    pub db3: Seq<Seq<char>>,
}

impl View for Extraction {
    type V = ExtractionView;

    open spec fn view(&self) -> ExtractionView {
        ExtractionView {
            limit: self.limit,
            declared: self.declared,
            extracted: self.extracted,
            paths: self.paths@,
            metadata: table::views(self.metadata@),
            mcap: table::views(self.mcap@),
            db3: table::views(self.db3@),
        }
    }
}

impl Extraction {
    /// Begins to extract an archive for an output of at most `max_output_bytes`.
    pub fn new(max_output_bytes: u64) -> (r: Self)
        ensures
            r@ == (ExtractionView {
                limit: expanded_limit(max_output_bytes),
                declared: 0,
                extracted: 0,
                paths: Map::empty(),
                metadata: Seq::empty(),
                mcap: Seq::empty(),
                db3: Seq::empty(),
            }),
    {
        let r = Extraction {
            limit: archive_expanded_limit(max_output_bytes),
            declared: 0,
            extracted: 0,
            paths: Table::new(),
            metadata: Vec::new(),
            mcap: Vec::new(),
            db3: Vec::new(),
        };
        proof {
            assert(table::views(r.metadata@) =~= Seq::<Seq<char>>::empty());
            assert(table::views(r.mcap@) =~= Seq::<Seq<char>>::empty());
            assert(table::views(r.db3@) =~= Seq::<Seq<char>>::empty());
        }
        r
    }
}

/// The fault of the number of entries of an archive.
pub open spec fn count_failure(entries: nat) -> Option<ImportErrorView> {
    if entries == 0 || entries > MAX_ARCHIVE_ENTRIES {
        Some(
            import::import_error(
                ImportErrorCode::ResourceLimitExceeded,
                "The ROS 2 bag archive has an unsupported number of entries."@,
                "ZIP contains "@ + text::decimal(entries) + " entries; maximum is "@
                    + text::decimal(MAX_ARCHIVE_ENTRIES as nat),
            ),
        )
    } else {
        None
    }
}

pub fn check_entry_count(entries: usize) -> (r: Result<(), ImportError>)
    ensures
        rrd_wire::fault(r) == count_failure(entries as nat),
{
    if entries == 0 || entries > MAX_ARCHIVE_ENTRIES {
        return Err(
            ImportError::new(
                ImportErrorCode::ResourceLimitExceeded,
                "The ROS 2 bag archive has an unsupported number of entries.",
                text::line("ZIP contains ").num(entries as u64).add(" entries; maximum is ").num(
                    MAX_ARCHIVE_ENTRIES as u64,
                ).done(),
            ),
        );
    }
    Ok(())
}

pub open spec fn invalid_archive(reason: Seq<char>, detail: Seq<char>) -> ImportErrorView {
    import::import_error(ImportErrorCode::ValidationFailed, reason, detail)
}

/// Whether a mode is that of a symbolic link.
pub open spec fn is_link_mode(mode: Option<u32>) -> bool {
    match mode {
        Some(m) => (m / 0x1000) % 0x10 == 0xa,
        None => false,
    }
}

/// The fault of the next entry of an archive.
pub open spec fn entry_failure(x: ExtractionView, e: ArchiveEntryView) -> Option<ImportErrorView> {
    match e.enclosed {
        None => Some(
            invalid_archive(
                "The ROS 2 bag archive contains an unsafe path."@,
                "ZIP path traversal entry rejected: "@ + text::debug_text(e.name),
            ),
        ),
        Some(path) => if text::parts(path, '/').contains("_rms_converted"@) {
            Some(
                invalid_archive(
                    "The ROS 2 bag archive contains a reserved path."@,
                    "ZIP entry uses reserved importer path: "@ + path,
                ),
            )
        } else if is_link_mode(e.unix_mode) {
            Some(
                invalid_archive(
                    "The ROS 2 bag archive contains a symbolic link."@,
                    "ZIP symbolic link entry rejected: "@ + path,
                ),
            )
        } else if x.declared + e.size > u64::MAX {
            Some(limit_failure("ZIP expanded-size counter overflow"@))
        } else if x.declared + e.size > x.limit {
            Some(
                limit_failure(
                    "ZIP declares "@ + text::decimal((x.declared + e.size) as nat)
                        + " expanded bytes; request-linked limit is "@ + text::decimal(
                        x.limit as nat,
                    ),
                ),
            )
        } else if e.compressed_size > 0 && e.size > RATIO_FREE_BYTES && e.size / e.compressed_size
            > MAX_ARCHIVE_COMPRESSION_RATIO {
            Some(
                limit_failure(
                    "ZIP entry compression ratio exceeds "@ + text::decimal(
                        MAX_ARCHIVE_COMPRESSION_RATIO as nat,
                    ) + ":1: "@ + path,
                ),
            )
        } else if x.paths.contains_key(path) {
            Some(
                invalid_archive(
                    "The ROS 2 bag archive contains duplicate paths."@,
                    "Duplicate ZIP entry: "@ + path,
                ),
            )
        } else {
            None
        },
    }
}

/// What has been extracted once the next entry is let in.
pub open spec fn with_entry(x: ExtractionView, e: ArchiveEntryView) -> ExtractionView {
    ExtractionView {
        declared: (x.declared + e.size) as u64,
        paths: x.paths.insert(e.enclosed->Some_0, ()),
        ..x
    }
}

pub open spec fn has_part(path: Seq<char>, name: Seq<char>) -> bool {
    text::parts(path, '/').contains(name)
}

fn contains_part(path: &str, name: &str) -> (r: bool)
    ensures
        r == has_part(path@, name@),
{
    let all = text::split_all(path, '/');
    table::is_listed(&all, name)
}

/// Lets the next entry of an archive in, or says why not. What is returned is the path below
/// the extraction root.
pub fn accept_entry(x: &mut Extraction, e: &ArchiveEntry) -> (r: Result<String, ImportError>)
    ensures
        match entry_failure(old(x)@, e@) {
            Some(f) => (r matches Err(g) && g@ == f) && final(x)@ == old(x)@,
            None => (r matches Ok(path) && Some(path@) == e@.enclosed) && final(x)@ == with_entry(
                old(x)@,
                e@,
            ),
        },
{
    let path = match &e.enclosed {
        Some(path) => path.clone(),
        None => {
            let shown = text::quoted(e.name.as_str());
            return Err(
                ImportError::new(
                    ImportErrorCode::ValidationFailed,
                    "The ROS 2 bag archive contains an unsafe path.",
                    text::line("ZIP path traversal entry rejected: ").add(shown.as_str()).done(),
                ),
            );
        },
    };
    if contains_part(path.as_str(), "_rms_converted") {
        return Err(
            ImportError::new(
                ImportErrorCode::ValidationFailed,
                "The ROS 2 bag archive contains a reserved path.",
                text::line("ZIP entry uses reserved importer path: ").add(path.as_str()).done(),
            ),
        );
    }
    let is_link = match e.unix_mode {
        Some(m) => (m / 0x1000) % 0x10 == 0xa,
        None => false,
    };
    if is_link {
        return Err(
            ImportError::new(
                ImportErrorCode::ValidationFailed,
                "The ROS 2 bag archive contains a symbolic link.",
                text::line("ZIP symbolic link entry rejected: ").add(path.as_str()).done(),
            ),
        );
    }
    let declared: u64 = match x.declared.checked_add(e.size) {
        Some(n) => n,
        None => {
            return Err(archive_limit_error(text::line("ZIP expanded-size counter overflow")));
        },
    };
    if declared > x.limit {
        return Err(
            archive_limit_error(
                text::line("ZIP declares ").num(declared).add(
                    " expanded bytes; request-linked limit is ",
                ).num(x.limit),
            ),
        );
    }
    if e.compressed_size > 0 && e.size > RATIO_FREE_BYTES && e.size / e.compressed_size
        > MAX_ARCHIVE_COMPRESSION_RATIO {
        return Err(
            archive_limit_error(
                text::line("ZIP entry compression ratio exceeds ").num(
                    MAX_ARCHIVE_COMPRESSION_RATIO,
                ).add(":1: ").add(path.as_str()),
            ),
        );
    }
    if x.paths.contains(path.as_str()) {
        return Err(
            ImportError::new(
                ImportErrorCode::ValidationFailed,
                "The ROS 2 bag archive contains duplicate paths.",
                text::line("Duplicate ZIP entry: ").add(path.as_str()).done(),
            ),
        );
    }
    x.declared = declared;
    let _ = x.paths.insert(path.clone(), Marker {  });
    Ok(path)
}

/// Counts a piece of an entry that was extracted. `copied` is how much of the entry came before.
pub fn count_piece(x: &mut Extraction, declared_size: u64, copied: u64, count: u64) -> (r: Result<
    u64,
    ImportError,
>)
    ensures
        if copied + count > u64::MAX {
            (r matches Err(e) && e@ == limit_failure("ZIP entry byte counter overflow"@))
                && final(x)@ == old(x)@
        } else if old(x)@.extracted + count > u64::MAX {
            (r matches Err(e) && e@ == limit_failure("ZIP extracted-size counter overflow"@))
                && final(x)@ == old(x)@
        } else if copied + count > declared_size || old(x)@.extracted + count > old(x)@.limit {
            (r matches Err(e) && e@ == limit_failure(
                "ZIP extracted "@ + text::decimal((old(x)@.extracted + count) as nat)
                    + " bytes; request-linked limit is "@ + text::decimal(old(x)@.limit as nat),
            )) && final(x)@ == old(x)@
        } else {
            (r matches Ok(n) && n == copied + count) && final(x)@ == (ExtractionView {
                extracted: (old(x)@.extracted + count) as u64,
                ..old(x)@
            })
        },
{
    let copied: u64 = match copied.checked_add(count) {
        Some(n) => n,
        None => {
            return Err(archive_limit_error(text::line("ZIP entry byte counter overflow")));
        },
    };
    let extracted: u64 = match x.extracted.checked_add(count) {
        Some(n) => n,
        None => {
            return Err(archive_limit_error(text::line("ZIP extracted-size counter overflow")));
        },
    };
    if copied > declared_size || extracted > x.limit {
        return Err(
            archive_limit_error(
                text::line("ZIP extracted ").num(extracted).add(
                    " bytes; request-linked limit is ",
                ).num(x.limit),
            ),
        );
    }
    x.extracted = extracted;
    Ok(copied)
}

/// What an extracted file is to the bag.
pub open spec fn with_file(x: ExtractionView, path: Seq<char>) -> ExtractionView {
    if names::base_name(path) == Some("metadata.yaml"@) {
        ExtractionView { metadata: x.metadata.push(path), ..x }
    } else if names::lower_extension(path) == Some("mcap"@) {
        ExtractionView { mcap: x.mcap.push(path), ..x }
    } else if names::lower_extension(path) == Some("db3"@) {
        ExtractionView { db3: x.db3.push(path), ..x }
    } else {
        x
    }
}

pub open spec fn truncated_entry(path: Seq<char>, declared: u64, copied: u64) -> ImportErrorView {
    invalid_archive(
        "A ROS 2 bag archive entry is truncated."@,
        "ZIP entry "@ + path + " declared "@ + text::decimal(declared as nat)
            + " bytes but extracted "@ + text::decimal(copied as nat),
    )
}

/// Takes note of an entry that was extracted to its end.
pub fn finish_entry(x: &mut Extraction, path: &str, declared_size: u64, copied: u64) -> (r: Result<
    (),
    ImportError,
>)
    ensures
        if copied != declared_size {
            (r matches Err(e) && e@ == truncated_entry(path@, declared_size, copied)) && final(x)@
                == old(x)@
        } else {
            r is Ok && final(x)@ == with_file(old(x)@, path@)
        },
{
    if copied != declared_size {
        return Err(
            ImportError::new(
                ImportErrorCode::ValidationFailed,
                "A ROS 2 bag archive entry is truncated.",
                text::line("ZIP entry ").add(path).add(" declared ").num(declared_size).add(
                    " bytes but extracted ",
                ).num(copied).done(),
            ),
        );
    }
    let base = names::file_name(path);
    let extension = names::lowered_extension(path);
    let owned = path.to_owned();
    if table::is_text(&base, "metadata.yaml") {
        proof {
            table::lemma_views_push(x.metadata@, owned);
        }
        x.metadata.push(owned);
    } else if table::is_text(&extension, "mcap") {
        proof {
            table::lemma_views_push(x.mcap@, owned);
        }
        x.mcap.push(owned);
    } else if table::is_text(&extension, "db3") {
        proof {
            table::lemma_views_push(x.db3@, owned);
        }
        x.db3.push(owned);
    }
    Ok(())
}

/// An extraction that lets an entry in never declares more than its limit, and never lets a path
/// in twice.
pub proof fn law_extraction_stays_within_its_limit(x: ExtractionView, e: ArchiveEntryView)
    requires
        entry_failure(x, e) is None,
    ensures
        with_entry(x, e).declared <= x.limit,
        !x.paths.contains_key(e.enclosed->Some_0),
        entry_failure(with_entry(x, e), e) is Some,
{
}

/// Checks the size of a metadata file before it is read.
pub fn check_metadata_size(size: u64) -> (r: Result<(), ImportError>)
    ensures
        rrd_wire::fault(r) == if size > MAX_METADATA_BYTES {
            Some(
                limit_failure(
                    "metadata.yaml is "@ + text::decimal(size as nat) + " bytes; maximum is "@
                        + text::decimal(MAX_METADATA_BYTES as nat),
                ),
            )
        } else {
            None
        },
{
    if size > MAX_METADATA_BYTES {
        return Err(
            archive_limit_error(
                text::line("metadata.yaml is ").num(size).add(" bytes; maximum is ").num(
                    MAX_METADATA_BYTES,
                ),
            ),
        );
    }
    Ok(())
}

/// What stands between two equal quotes around a text.
pub open spec fn unquoted(s: Seq<char>, quote: char) -> Option<Seq<char>> {
    if s.len() >= 2 && s[0] == quote && s.last() == quote {
        Some(s.subrange(1, s.len() - 1))
    } else {
        None
    }
}

pub open spec fn starts_special(s: Seq<char>) -> bool {
    s.len() > 0 && (s[0] == '&' || s[0] == '*' || s[0] == '!' || s[0] == '[' || s[0] == '{')
}

/// The plain value of a scalar in the metadata.
pub open spec fn scalar(raw: Seq<char>, field: Seq<char>) -> Result<Seq<char>, ImportErrorView> {
    let value = text::trim(raw);
    let escaped = metadata_failure("Escaped quoted scalars are not supported in "@ + field);
    let plain = if value.len() == 0 || starts_special(value) || text::contains_text(value, " #"@) {
        Err(
            metadata_failure(
                "Unsupported YAML scalar in "@ + field + ": "@ + text::debug_text(value),
            ),
        )
    } else if unquoted(value, '"') is Some {
        let inner = unquoted(value, '"')->Some_0;
        if names::has_char(inner, '\\') || names::has_char(inner, '"') {
            Err(escaped)
        } else {
            Ok(inner)
        }
    } else if unquoted(value, '\'') is Some {
        let inner = unquoted(value, '\'')->Some_0;
        if names::has_char(inner, '\'') {
            Err(escaped)
        } else {
            Ok(inner)
        }
    } else {
        Ok(value)
    };
    match plain {
        Err(e) => Err(e),
        Ok(v) => if v.len() == 0 {
            Err(metadata_failure("Empty scalar in "@ + field))
        } else {
            Ok(v)
        },
    }
}

pub open spec fn text_outcome(r: Result<String, ImportError>) -> Result<Seq<char>, ImportErrorView> {
    match r {
        Ok(s) => Ok(s@),
        Err(e) => Err(e@),
    }
}

fn strip_quotes(value: &str, quote: char) -> (r: Option<String>)
    ensures
        table::view_option(r) == unquoted(value@, quote),
{
    let v = text::chars_of(value);
    let n: usize = v.len();
    if n >= 2 && v[0] == quote && v[n - 1] == quote {
        return Some(text::string_between(v.as_slice(), 1, n - 1));
    }
    None
}

fn escaped_error(field: &str) -> (r: ImportError)
    ensures
        r@ == metadata_failure("Escaped quoted scalars are not supported in "@ + field@),
{
    metadata_error(text::line("Escaped quoted scalars are not supported in ").add(field))
}

/// Reads a scalar of the metadata.
pub fn parse_metadata_scalar(raw: &str, field: &str) -> (r: Result<String, ImportError>)
    ensures
        text_outcome(r) == scalar(raw@, field@),
{
    let value = text::trimmed(raw);
    let v = text::chars_of(value.as_str());
    let special = v.len() > 0 && (v[0] == '&' || v[0] == '*' || v[0] == '!' || v[0] == '[' || v[0]
        == '{');
    if v.len() == 0 || special || text::contains(value.as_str(), " #") {
        let shown = text::quoted(value.as_str());
        return Err(
            metadata_error(
                text::line("Unsupported YAML scalar in ").add(field).add(": ").add(shown.as_str()),
            ),
        );
    }
    let plain = match strip_quotes(value.as_str(), '"') {
        Some(inner) => {
            if names::contains_char(inner.as_str(), '\\') || names::contains_char(
                inner.as_str(),
                '"',
            ) {
                return Err(escaped_error(field));
            }
            inner
        },
        None => match strip_quotes(value.as_str(), '\'') {
            Some(inner) => {
                if names::contains_char(inner.as_str(), '\'') {
                    return Err(escaped_error(field));
                }
                inner
            },
            None => value,
        },
    };
    if plain.as_str().is_empty() {
        return Err(metadata_error(text::line("Empty scalar in ").add(field)));
    }
    Ok(plain)
}

/// How many spaces a line begins with.
pub open spec fn indent(s: Seq<char>) -> nat
    decreases s.len(),
{
    if s.len() > 0 && s[0] == ' ' {
        1 + indent(s.drop_first())
    } else {
        0
    }
}

pub fn leading_spaces(line: &str) -> (r: usize)
    ensures
        r == indent(line@),
{
    let v = text::chars_of(line);
    let mut i: usize = 0;
    assert(line@.skip(0) =~= line@);
    while i < v.len() && v[i] == ' '
        invariant
            i <= v@.len(),
            v@ == line@,
            indent(line@) == i + indent(line@.skip(i as int)),
        decreases v@.len() - i,
    {
        assert(line@.skip(i as int).drop_first() =~= line@.skip(i + 1));
        i = i + 1;
    }
    i
}

pub open spec fn is_plain_path_char(c: char) -> bool {
    text::is_alphanumeric(c) || c == '/' || c == '_' || c == '-' || c == '.'
}

pub open spec fn is_step(part: Seq<char>) -> bool {
    part.len() == 0 || part == "."@ || part == ".."@
}

/// A segment path that stays below the bag and is made of plain characters.
pub open spec fn safe_segment(value: Seq<char>) -> bool {
    &&& !names::has_char(value, '\\')
    &&& !(value.len() > 0 && value[0] == '/')
    &&& !names::has_char(value, ':')
    &&& forall|i: int|
        0 <= i < text::parts(value, '/').len() ==> !is_step(#[trigger] text::parts(value, '/')[i])
    &&& forall|i: int| 0 <= i < value.len() ==> is_plain_path_char(#[trigger] value[i])
}

fn has_step(parts: &Vec<String>) -> (r: bool)
    ensures
        r == !(forall|i: int|
            0 <= i < parts@.len() ==> !is_step(#[trigger] table::views(parts@)[i])),
{
    let ghost views = table::views(parts@);
    let mut i: usize = 0;
    while i < parts.len()
        invariant
            i <= parts@.len(),
            views == table::views(parts@),
            forall|j: int| 0 <= j < i ==> !is_step(#[trigger] views[j]),
        decreases parts@.len() - i,
    {
        assert(views[i as int] == parts@[i as int]@);
        if parts[i].as_str().is_empty() || text::same(parts[i].as_str(), ".") || text::same(
            parts[i].as_str(),
            "..",
        ) {
            assert(is_step(views[i as int]));
            return true;
        }
        i = i + 1;
    }
    false
}

fn only_plain(v: &Vec<char>) -> (r: bool)
    ensures
        r == (forall|i: int| 0 <= i < v@.len() ==> is_plain_path_char(#[trigger] v@[i])),
{
    let mut i: usize = 0;
    while i < v.len()
        invariant
            i <= v@.len(),
            forall|j: int| 0 <= j < i ==> is_plain_path_char(#[trigger] v@[j]),
        decreases v@.len() - i,
    {
        let c: char = v[i];
        let plain = ('0' <= c && c <= '9') || ('a' <= c && c <= 'z') || ('A' <= c && c <= 'Z') || c
            == '/' || c == '_' || c == '-' || c == '.';
        if !plain {
            assert(!is_plain_path_char(v@[i as int]));
            return false;
        }
        i = i + 1;
    }
    true
}

/// Checks the path of a segment.
pub fn validate_relative_segment(value: &str) -> (r: Result<(), ImportError>)
    ensures
        rrd_wire::fault(r) == if safe_segment(value@) {
            None
        } else {
            Some(
                metadata_failure(
                    "Unsafe relative_file_paths item: "@ + text::debug_text(value@),
                ),
            )
        },
{
    let v = text::chars_of(value);
    let parts = text::split_all(value, '/');
    if names::contains_char(value, '\\') || (v.len() > 0 && v[0] == '/') || names::contains_char(
        value,
        ':',
    ) || has_step(&parts) || !only_plain(&v) {
        let shown = text::quoted(value);
        return Err(
            metadata_error(
                text::line("Unsafe relative_file_paths item: ").add(shown.as_str()),
            ),
        );
    }
    Ok(())
}

/// The metadata of a bag, as far as it is needed.
#[derive(Debug)]
pub struct RosbagMetadata {
    pub storage_identifier: String,
    pub relative_file_paths: Vec<String>,
}

#[verifier::ext_equal]
pub struct RosbagMetadataView {
    pub storage_identifier: Seq<char>,
    pub relative_file_paths: Seq<Seq<char>>,
}

impl View for RosbagMetadata {
    type V = RosbagMetadataView;

    open spec fn view(&self) -> RosbagMetadataView {
        RosbagMetadataView {
            storage_identifier: self.storage_identifier@,
            relative_file_paths: table::views(self.relative_file_paths@),
        }
    }
}

/// The storage identifier and the line of the path list, from line `i` on.
pub open spec fn keys_from(
    lines: Seq<Seq<char>>,
    i: int,
    storage: Option<Seq<char>>,
    list: Option<int>,
) -> Result<(Option<Seq<char>>, Option<int>), ImportErrorView>
    decreases lines.len() - i,
{
    if i < 0 || i >= lines.len() {
        Ok((storage, list))
    } else {
        let trimmed = text::trim(lines[i]);
        let found = match text::after_prefix(trimmed, "storage_identifier:"@) {
            None => Ok(storage),
            Some(value) => if storage is Some {
                Err(metadata_failure("Duplicate storage_identifier keys"@))
            } else {
                match scalar(value, "storage_identifier"@) {
                    Err(e) => Err(e),
                    Ok(v) => Ok(Some(v)),
                }
            },
        };
        match found {
            Err(e) => Err(e),
            Ok(s) => if trimmed == "relative_file_paths:"@ {
                if list is Some {
                    Err(metadata_failure("Duplicate relative_file_paths keys"@))
                } else {
                    keys_from(lines, i + 1, s, Some(i))
                }
            } else {
                keys_from(lines, i + 1, s, list)
            },
        }
    }
}

/// The paths of the list from line `i` on.
pub open spec fn list_from(lines: Seq<Seq<char>>, i: int, base: nat, done: Seq<Seq<char>>) -> Result<
    Seq<Seq<char>>,
    ImportErrorView,
>
    decreases lines.len() - i,
{
    if i < 0 || i >= lines.len() {
        Ok(done)
    } else {
        let trimmed = text::trim(lines[i]);
        if trimmed.len() == 0 || trimmed[0] == '#' {
            list_from(lines, i + 1, base, done)
        } else {
            match text::after_prefix(trimmed, "- "@) {
                None => if indent(lines[i]) <= base {
                    Ok(done)
                } else {
                    Err(
                        metadata_failure(
                            "relative_file_paths must be a flat YAML sequence of scalar paths"@,
                        ),
                    )
                },
                Some(value) => if indent(lines[i]) < base {
                    Ok(done)
                } else if done.len() >= MAX_BAG_SEGMENTS {
                    Err(limit_failure("metadata.yaml lists more than 128 bag segments"@))
                } else {
                    match scalar(value, "relative_file_paths item"@) {
                        Err(e) => Err(e),
                        Ok(path) => if !safe_segment(path) {
                            Err(
                                metadata_failure(
                                    "Unsafe relative_file_paths item: "@ + text::debug_text(path),
                                ),
                            )
                        } else if done.contains(path) {
                            Err(
                                metadata_failure(
                                    "Duplicate relative_file_paths item: "@ + text::debug_text(
                                        path,
                                    ),
                                ),
                            )
                        } else {
                            list_from(lines, i + 1, base, done.push(path))
                        },
                    }
                },
            }
        }
    }
}

/// What the metadata of a bag says.
pub open spec fn metadata_outcome(metadata: Seq<char>) -> Result<
    RosbagMetadataView,
    ImportErrorView,
> {
    let lines = text::lines(metadata);
    if lines.len() > MAX_METADATA_LINES {
        Err(limit_failure("metadata.yaml has too many lines"@))
    } else if exists|i: int| 0 <= i < lines.len() && names::has_char(#[trigger] lines[i], '\t') {
        Err(metadata_failure("Tabs are not accepted in metadata.yaml indentation"@))
    } else {
        match keys_from(lines, 0, None, None) {
            Err(e) => Err(e),
            Ok((None, _)) => Err(
                metadata_failure("Missing storage_identifier in metadata.yaml"@),
            ),
            Ok((_, None)) => Err(
                metadata_failure("Missing relative_file_paths in metadata.yaml"@),
            ),
            Ok((Some(storage), Some(at))) => if indent(lines[at]) > 64 {
                Err(metadata_failure("relative_file_paths nesting exceeds 64 spaces"@))
            } else {
                match list_from(lines, at + 1, indent(lines[at]), Seq::empty()) {
                    Err(e) => Err(e),
                    Ok(paths) => if paths.len() == 0 {
                        Err(metadata_failure("relative_file_paths is empty"@))
                    } else {
                        Ok(
                            RosbagMetadataView {
                                storage_identifier: storage,
                                relative_file_paths: paths,
                            },
                        )
                    },
                }
            },
        }
    }
}

fn any_tab(lines: &Vec<String>) -> (r: bool)
    ensures
        r == exists|i: int|
            0 <= i < lines@.len() && names::has_char(#[trigger] table::views(lines@)[i], '\t'),
{
    let ghost views = table::views(lines@);
    let mut i: usize = 0;
    while i < lines.len()
        invariant
            i <= lines@.len(),
            views == table::views(lines@),
            forall|j: int| 0 <= j < i ==> !names::has_char(#[trigger] views[j], '\t'),
        decreases lines@.len() - i,
    {
        assert(views[i as int] == lines@[i as int]@);
        if names::contains_char(lines[i].as_str(), '\t') {
            assert(names::has_char(views[i as int], '\t'));
            return true;
        }
        i = i + 1;
    }
    false
}

fn find_keys(lines: &Vec<String>) -> (r: Result<(Option<String>, Option<usize>), ImportError>)
    ensures
        match keys_from(table::views(lines@), 0, None, None) {
            Ok((storage, list)) => r matches Ok(found) && table::view_option(found.0) == storage
                && crate::csv_import::as_int(found.1) == list && (found.1 matches Some(at)
                ==> at < lines@.len()),
            Err(e) => r matches Err(f) && f@ == e,
        },
{
    let ghost views = table::views(lines@);
    let mut storage: Option<String> = None;
    let mut list: Option<usize> = None;
    let mut i: usize = 0;
    while i < lines.len()
        invariant
            i <= lines@.len(),
            views == table::views(lines@),
            list matches Some(at) ==> at < lines@.len(),
            keys_from(views, 0, None, None) == keys_from(
                views,
                i as int,
                table::view_option(storage),
                crate::csv_import::as_int(list),
            ),
        decreases lines@.len() - i,
    {
        assert(views[i as int] == lines@[i as int]@);
        let trimmed = text::trimmed(lines[i].as_str());
        match text::strip_prefix(trimmed.as_str(), "storage_identifier:") {
            Some(value) => {
                if storage.is_some() {
                    return Err(metadata_error(text::line("Duplicate storage_identifier keys")));
                }
                match parse_metadata_scalar(value.as_str(), "storage_identifier") {
                    Ok(v) => {
                        storage = Some(v);
                    },
                    Err(e) => {
                        return Err(e);
                    },
                }
            },
            None => {},
        }
        if text::same(trimmed.as_str(), "relative_file_paths:") {
            if list.is_some() {
                return Err(metadata_error(text::line("Duplicate relative_file_paths keys")));
            }
            list = Some(i);
        }
        i = i + 1;
    }
    Ok((storage, list))
}

fn read_list(lines: &Vec<String>, from: usize, base: usize) -> (r: Result<
    Vec<String>,
    ImportError,
>)
    requires
        from <= lines@.len(),
    ensures
        match list_from(table::views(lines@), from as int, base as nat, Seq::empty()) {
            Ok(paths) => r matches Ok(found) && table::views(found@) == paths,
            Err(e) => r matches Err(f) && f@ == e,
        },
{
    let ghost views = table::views(lines@);
    let mut done: Vec<String> = Vec::new();
    let mut i: usize = from;
    proof {
        assert(table::views(done@) =~= Seq::<Seq<char>>::empty());
    }
    while i < lines.len()
        invariant
            from <= i <= lines@.len(),
            views == table::views(lines@),
            list_from(views, from as int, base as nat, Seq::empty()) == list_from(
                views,
                i as int,
                base as nat,
                table::views(done@),
            ),
        decreases lines@.len() - i,
    {
        assert(views[i as int] == lines@[i as int]@);
        let trimmed = text::trimmed(lines[i].as_str());
        let v = text::chars_of(trimmed.as_str());
        if v.len() > 0 && v[0] != '#' {
            let spaces: usize = leading_spaces(lines[i].as_str());
            let value = match text::strip_prefix(trimmed.as_str(), "- ") {
                Some(value) => value,
                None => {
                    if spaces <= base {
                        return Ok(done);
                    }
                    return Err(
                        metadata_error(
                            text::line(
                                "relative_file_paths must be a flat YAML sequence of scalar paths",
                            ),
                        ),
                    );
                },
            };
            if spaces < base {
                return Ok(done);
            }
            if done.len() >= MAX_BAG_SEGMENTS {
                return Err(
                    archive_limit_error(
                        text::line("metadata.yaml lists more than 128 bag segments"),
                    ),
                );
            }
            let path = match parse_metadata_scalar(value.as_str(), "relative_file_paths item") {
                Ok(path) => path,
                Err(e) => {
                    return Err(e);
                },
            };
            match validate_relative_segment(path.as_str()) {
                Ok(()) => {},
                Err(e) => {
                    return Err(e);
                },
            }
            if table::is_listed(&done, path.as_str()) {
                let shown = text::quoted(path.as_str());
                return Err(
                    metadata_error(
                        text::line("Duplicate relative_file_paths item: ").add(shown.as_str()),
                    ),
                );
            }
            proof {
                table::lemma_views_push(done@, path);
            }
            done.push(path);
        }
        i = i + 1;
    }
    Ok(done)
}

/// Reads the metadata of a bag.
pub fn parse_metadata(metadata: &str) -> (r: Result<RosbagMetadata, ImportError>)
    ensures
        match metadata_outcome(metadata@) {
            Ok(m) => r matches Ok(found) && found@ == m,
            Err(e) => r matches Err(f) && f@ == e,
        },
{
    let lines = text::split_lines(metadata);
    let ghost views = table::views(lines@);
    if lines.len() > MAX_METADATA_LINES {
        return Err(archive_limit_error(text::line("metadata.yaml has too many lines")));
    }
    if any_tab(&lines) {
        return Err(
            metadata_error(text::line("Tabs are not accepted in metadata.yaml indentation")),
        );
    }
    let (storage, list) = match find_keys(&lines) {
        Ok(found) => found,
        Err(e) => {
            return Err(e);
        },
    };
    let storage_identifier = match storage {
        Some(s) => s,
        None => {
            return Err(
                metadata_error(text::line("Missing storage_identifier in metadata.yaml")),
            );
        },
    };
    let at: usize = match list {
        Some(at) => at,
        None => {
            return Err(
                metadata_error(text::line("Missing relative_file_paths in metadata.yaml")),
            );
        },
    };
    assert(views[at as int] == lines@[at as int]@);
    let base: usize = leading_spaces(lines[at].as_str());
    if base > 64 {
        return Err(
            metadata_error(text::line("relative_file_paths nesting exceeds 64 spaces")),
        );
    }
    let relative_file_paths = match read_list(&lines, at + 1, base) {
        Ok(paths) => paths,
        Err(e) => {
            return Err(e);
        },
    };
    if relative_file_paths.len() == 0 {
        return Err(metadata_error(text::line("relative_file_paths is empty")));
    }
    Ok(RosbagMetadata { storage_identifier, relative_file_paths })
}

/// The segments that metadata lists are few, safe and listed once each.
pub proof fn law_listed_segments_are_safe(metadata: Seq<char>)
    requires
        metadata_outcome(metadata) is Ok,
    ensures
        ({
            let paths = metadata_outcome(metadata)->Ok_0.relative_file_paths;
            &&& 0 < paths.len() <= MAX_BAG_SEGMENTS
            &&& forall|i: int| 0 <= i < paths.len() ==> safe_segment(#[trigger] paths[i])
            &&& paths.no_duplicates()
        }),
{
    let lines = text::lines(metadata);
    let at = keys_from(lines, 0, None, None)->Ok_0.1->Some_0;
    lemma_listed_safe(lines, at + 1, indent(lines[at]), Seq::empty());
}

proof fn lemma_listed_safe(lines: Seq<Seq<char>>, i: int, base: nat, done: Seq<Seq<char>>)
    requires
        done.len() <= MAX_BAG_SEGMENTS,
        forall|k: int| 0 <= k < done.len() ==> safe_segment(#[trigger] done[k]),
        done.no_duplicates(),
    ensures
        list_from(lines, i, base, done) matches Ok(paths) ==> paths.len() <= MAX_BAG_SEGMENTS && (
        forall|k: int| 0 <= k < paths.len() ==> safe_segment(#[trigger] paths[k]))
            && paths.no_duplicates(),
    decreases lines.len() - i,
{
    if 0 <= i < lines.len() {
        lemma_listed_safe(lines, i + 1, base, done);
        let trimmed = text::trim(lines[i]);
        match text::after_prefix(trimmed, "- "@) {
            Some(value) => {
                match scalar(value, "relative_file_paths item"@) {
                    Ok(path) => {
                        if safe_segment(path) && !done.contains(path) && done.len()
                            < MAX_BAG_SEGMENTS {
                            lemma_listed_safe(lines, i + 1, base, done.push(path));
                        }
                    },
                    Err(_) => {},
                }
            },
            None => {},
        }
    }
}

/// The path of the directory that holds a file, empty where there is none.
pub open spec fn directory_of(path: Seq<char>) -> Seq<char> {
    match path.index_of_last('/') {
        Some(i) => path.take(i),
        None => Seq::empty(),
    }
}

pub fn parent_of(path: &str) -> (r: String)
    ensures
        r@ == directory_of(path@),
{
    let v = text::chars_of(path);
    let n: usize = v.len();
    proof {
        path@.index_of_last_ensures('/');
    }
    let mut i: usize = n;
    while i > 0
        invariant
            i <= n,
            n == v@.len(),
            v@ == path@,
            forall|k: int| i <= k < n ==> path@[k] != '/',
        decreases i,
    {
        if v[i - 1] == '/' {
            let r = text::string_between(v.as_slice(), 0, i - 1);
            proof {
                path@.index_of_last_ensures('/');
                assert(path@[i - 1] == '/');
                assert(path@.contains('/'));
                assert(path@.index_of_last('/') == Some(i - 1));
                assert(r@ =~= path@.take(i - 1));
            }
            return r;
        }
        i = i - 1;
    }
    let r = String::new();
    proof {
        path@.index_of_last_ensures('/');
        assert(!path@.contains('/'));
        assert(r@ =~= Seq::<char>::empty());
    }
    r
}

/// A path below a directory.
pub open spec fn below(directory: Seq<char>, path: Seq<char>) -> Option<Seq<char>> {
    if directory.len() == 0 {
        Some(path)
    } else {
        text::after_prefix(path, directory + "/"@)
    }
}

pub fn relative_to(directory: &str, path: &str) -> (r: Option<String>)
    ensures
        table::view_option(r) == below(directory@, path@),
{
    if directory.is_empty() {
        return Some(path.to_owned());
    }
    let prefix = text::line(directory).add("/").done();
    text::strip_prefix(path, prefix.as_str())
}

/// The segments below the bag, by their path in the bag, from `i` on.
pub open spec fn actual_from(
    extract_root: Seq<char>,
    bag: Seq<char>,
    paths: Seq<Seq<char>>,
    i: int,
    m: Map<Seq<char>, Seq<char>>,
) -> Result<Map<Seq<char>, Seq<char>>, ImportErrorView>
    decreases paths.len() - i,
{
    if i < 0 || i >= paths.len() {
        Ok(m)
    } else {
        match below(bag, paths[i]) {
            None => Err(
                invalid_archive(
                    "The ROS 2 bag contains a segment outside the metadata directory."@,
                    "Unlisted bag segment is outside metadata root\nFile path: "@ + extract_root
                        + "/"@ + paths[i],
                ),
            ),
            Some(relative) => if m.contains_key(relative) {
                Err(
                    metadata_failure(
                        "Duplicate extracted bag segment: "@ + text::debug_text(relative),
                    ),
                )
            } else {
                actual_from(extract_root, bag, paths, i + 1, m.insert(relative, paths[i]))
            },
        }
    }
}

/// Whether the declared segments are exactly the actual ones.
pub open spec fn matches_declared(m: Map<Seq<char>, Seq<char>>, declared: Seq<Seq<char>>) -> bool {
    m.dom().len() == declared.len() && forall|i: int|
        0 <= i < declared.len() ==> m.contains_key(#[trigger] declared[i])
}

/// The files of the declared segments, in the order in which they are declared.
pub open spec fn declared_segments(
    extract_root: Seq<char>,
    bag: Seq<char>,
    declared: Seq<Seq<char>>,
    paths: Seq<Seq<char>>,
) -> Result<Seq<Seq<char>>, ImportErrorView> {
    match actual_from(extract_root, bag, paths, 0, Map::empty()) {
        Err(e) => Err(e),
        Ok(m) => if !matches_declared(m, declared) {
            Err(
                invalid_archive(
                    "ROS 2 metadata must list every bag segment exactly once."@,
                    "relative_file_paths mismatch; declared="@ + text::debug_list(declared)
                        + ", actual="@ + text::debug_list(crate::rrd_verify::keys_of(m)),
                ),
            )
        } else {
            Ok(declared.map_values(|d: Seq<char>| m[d]))
        },
    }
}

pub open spec fn texts_outcome(r: Result<Vec<String>, ImportError>) -> Result<
    Seq<Seq<char>>,
    ImportErrorView,
> {
    match r {
        Ok(v) => Ok(table::views(v@)),
        Err(e) => Err(e@),
    }
}

fn collect_actual(extract_root: &str, bag: &str, paths: &Vec<String>) -> (r: Result<
    Table<String>,
    ImportError,
>)
    ensures
        match actual_from(
            extract_root@,
            bag@,
            table::views(paths@),
            0,
            Map::empty(),
        ) {
            Ok(m) => r matches Ok(t) && t@ == m,
            Err(e) => r matches Err(f) && f@ == e,
        },
{
    let ghost views = table::views(paths@);
    let mut t: Table<String> = Table::new();
    let mut i: usize = 0;
    while i < paths.len()
        invariant
            i <= paths@.len(),
            views == table::views(paths@),
            actual_from(extract_root@, bag@, views, 0, Map::empty()) == actual_from(
                extract_root@,
                bag@,
                views,
                i as int,
                t@,
            ),
        decreases paths@.len() - i,
    {
        assert(views[i as int] == paths@[i as int]@);
        let relative = match relative_to(bag, paths[i].as_str()) {
            Some(relative) => relative,
            None => {
                return Err(
                    ImportError::new(
                        ImportErrorCode::ValidationFailed,
                        "The ROS 2 bag contains a segment outside the metadata directory.",
                        text::line("Unlisted bag segment is outside metadata root\nFile path: ").add(
                            extract_root,
                        ).add("/").add(paths[i].as_str()).done(),
                    ),
                );
            },
        };
        if t.contains(relative.as_str()) {
            let shown = text::quoted(relative.as_str());
            return Err(
                metadata_error(
                    text::line("Duplicate extracted bag segment: ").add(shown.as_str()),
                ),
            );
        }
        let _ = t.insert(relative, paths[i].clone());
        i = i + 1;
    }
    Ok(t)
}

fn list_text_keys(t: &Table<String>) -> (r: Vec<String>)
    ensures
        table::views(r@) == crate::rrd_verify::keys_of(t@),
{
    let n: usize = t.len();
    let ghost items = t.items();
    let mut r: Vec<String> = Vec::new();
    let mut i: usize = 0;
    while i < n
        invariant
            i <= n,
            n == items.len(),
            items == t.items(),
            r@.len() == i,
            forall|j: int| 0 <= j < i ==> (#[trigger] table::views(r@)[j]) == items[j].0,
        decreases n - i,
    {
        let key = t.key_at(i).clone();
        proof {
            table::lemma_views_push(r@, key);
        }
        r.push(key);
        i = i + 1;
    }
    proof {
        assert(table::views(r@) =~= crate::rrd_verify::keys_of(t@));
    }
    r
}

/// Finds the files of the declared segments, of which each must be there and no other.
pub fn validate_declared_segments(
    extract_root: &str,
    bag: &str,
    declared: &Vec<String>,
    paths: &Vec<String>,
) -> (r: Result<Vec<String>, ImportError>)
    ensures
        texts_outcome(r) == declared_segments(
            extract_root@,
            bag@,
            table::views(declared@),
            table::views(paths@),
        ),
{
    let ghost wanted = table::views(declared@);
    let actual = match collect_actual(extract_root, bag, paths) {
        Ok(t) => t,
        Err(e) => {
            return Err(e);
        },
    };
    let count: usize = actual.len();
    let mut found: Vec<String> = Vec::new();
    let mut complete = count == declared.len();
    let mut i: usize = 0;
    while i < declared.len()
        invariant
            i <= declared@.len(),
            wanted == table::views(declared@),
            count == actual@.dom().len(),
            complete == (count == wanted.len() && forall|j: int|
                0 <= j < i ==> actual@.contains_key(#[trigger] wanted[j])),
            complete ==> found@.len() == i && forall|j: int|
                0 <= j < i ==> (#[trigger] table::views(found@)[j]) == actual@[wanted[j]],
        decreases declared@.len() - i,
    {
        assert(wanted[i as int] == declared@[i as int]@);
        match actual.get(declared[i].as_str()) {
            Some(path) => {
                let one = path.clone();
                proof {
                    table::lemma_views_push(found@, one);
                }
                found.push(one);
            },
            None => {
                complete = false;
            },
        }
        i = i + 1;
    }
    if !complete {
        let keys = list_text_keys(&actual);
        let shown = text::quoted_list(declared);
        let listed = text::quoted_list(&keys);
        return Err(
            ImportError::new(
                ImportErrorCode::ValidationFailed,
                "ROS 2 metadata must list every bag segment exactly once.",
                text::line("relative_file_paths mismatch; declared=").add(shown.as_str()).add(
                    ", actual=",
                ).add(listed.as_str()).done(),
            ),
        );
    }
    proof {
        assert(table::views(found@) =~= wanted.map_values(|d: Seq<char>| actual@[d]));
    }
    Ok(found)
}

/// Whether a file has an extension, in upper or lower case.
pub open spec fn has_lower_extension(path: Seq<char>, expected: Seq<char>) -> bool {
    match names::extension(path) {
        Some(e) => text::lowercase(e) == text::lowercase(expected),
        None => false,
    }
}

pub fn has_extension(path: &str, expected: &str) -> (r: bool)
    ensures
        r == has_lower_extension(path@, expected@),
{
    match names::file_extension(path) {
        Some(e) => text::same_ignoring_case(e.as_str(), expected),
        None => false,
    }
}

pub open spec fn all_have(paths: Seq<Seq<char>>, extension: Seq<char>) -> bool {
    forall|i: int|
        0 <= i < paths.len() ==> has_lower_extension(#[trigger] paths[i], extension)
}

fn all_with(paths: &Vec<String>, extension: &str) -> (r: bool)
    ensures
        r == all_have(table::views(paths@), extension@),
{
    let ghost views = table::views(paths@);
    let mut i: usize = 0;
    while i < paths.len()
        invariant
            i <= paths@.len(),
            views == table::views(paths@),
            forall|j: int| 0 <= j < i ==> has_lower_extension(#[trigger] views[j], extension@),
        decreases paths@.len() - i,
    {
        assert(views[i as int] == paths@[i as int]@);
        if !has_extension(paths[i].as_str(), extension) {
            assert(!has_lower_extension(views[i as int], extension@));
            return false;
        }
        i = i + 1;
    }
    true
}

/// How the segments of a bag are imported.
#[derive(Debug)]
pub enum BagPlan {
    /// They are read as they are.
    Read(Vec<String>),
    /// They are converted first.
    Convert,
}

/// How the segments of a bag are imported: `None` where they are converted first.
pub open spec fn bag_plan(
    extract_root: Seq<char>,
    metadata_paths: Seq<Seq<char>>,
    metadata: Seq<char>,
    mcap: Seq<Seq<char>>,
    db3: Seq<Seq<char>>,
) -> Result<Option<Seq<Seq<char>>>, ImportErrorView> {
    if metadata_paths.len() != 1 {
        Err(
            invalid_archive(
                "A ROS 2 bag ZIP must contain exactly one metadata.yaml."@,
                "Found "@ + text::decimal(metadata_paths.len()) + " metadata.yaml files"@,
            ),
        )
    } else {
        match metadata_outcome(metadata) {
            Err(e) => Err(e),
            Ok(m) => match declared_segments(
                extract_root,
                directory_of(metadata_paths[0]),
                m.relative_file_paths,
                mcap + db3,
            ) {
                Err(e) => Err(e),
                Ok(ordered) => if m.storage_identifier == "mcap"@ {
                    if all_have(ordered, "mcap"@) {
                        Ok(Some(ordered))
                    } else {
                        Err(
                            invalid_archive(
                                "ROS 2 metadata storage and segment extensions disagree."@,
                                "storage_identifier=mcap requires only listed .mcap segments"@,
                            ),
                        )
                    }
                } else if m.storage_identifier == "sqlite3"@ {
                    if all_have(ordered, "db3"@) {
                        Ok(None)
                    } else {
                        Err(
                            invalid_archive(
                                "ROS 2 metadata storage and segment extensions disagree."@,
                                "storage_identifier=sqlite3 requires only listed .db3 segments"@,
                            ),
                        )
                    }
                } else {
                    Err(
                        import::import_error(
                            ImportErrorCode::UnsupportedFormat,
                            "The ROS 2 bag storage type is not supported."@,
                            "Unsupported storage_identifier "@ + text::debug_text(
                                m.storage_identifier,
                            ) + "; expected mcap or sqlite3"@,
                        ),
                    )
                },
            },
        }
    }
}

/// Checks that an archive holds exactly one metadata file.
pub fn metadata_path(x: &Extraction) -> (r: Result<String, ImportError>)
    ensures
        text_outcome(r) == if x@.metadata.len() == 1 {
            Ok::<Seq<char>, ImportErrorView>(x@.metadata[0])
        } else {
            Err(
                invalid_archive(
                    "A ROS 2 bag ZIP must contain exactly one metadata.yaml."@,
                    "Found "@ + text::decimal(x@.metadata.len()) + " metadata.yaml files"@,
                ),
            )
        },
{
    let count: usize = x.metadata.len();
    if count != 1 {
        return Err(
            ImportError::new(
                ImportErrorCode::ValidationFailed,
                "A ROS 2 bag ZIP must contain exactly one metadata.yaml.",
                text::line("Found ").num(count as u64).add(" metadata.yaml files").done(),
            ),
        );
    }
    Ok(x.metadata[0].clone())
}

/// Decides how the segments of an extracted bag are imported.
pub fn prepare_rosbag(x: &Extraction, extract_root: &str, metadata: &str) -> (r: Result<
    BagPlan,
    ImportError,
>)
    ensures
        match bag_plan(extract_root@, x@.metadata, metadata@, x@.mcap, x@.db3) {
            Ok(Some(paths)) => r matches Ok(BagPlan::Read(found)) && table::views(found@) == paths,
            Ok(None) => r matches Ok(BagPlan::Convert),
            Err(e) => r matches Err(f) && f@ == e,
        },
{
    let metadata_file = match metadata_path(x) {
        Ok(path) => path,
        Err(e) => {
            return Err(e);
        },
    };
    let m = match parse_metadata(metadata) {
        Ok(m) => m,
        Err(e) => {
            return Err(e);
        },
    };
    let bag = parent_of(metadata_file.as_str());
    let mut paths = table::copy_all(&x.mcap);
    let mut i: usize = 0;
    proof {
        assert(table::views(paths@) =~= x@.mcap + x@.db3.take(0));
    }
    while i < x.db3.len()
        invariant
            i <= x.db3@.len(),
            table::views(paths@) == x@.mcap + x@.db3.take(i as int),
        decreases x.db3@.len() - i,
    {
        let one = x.db3[i].clone();
        proof {
            assert(x@.db3[i as int] == one@);
            table::lemma_views_push(paths@, one);
            assert((x@.mcap + x@.db3.take(i as int)).push(one@) =~= x@.mcap + x@.db3.take(i + 1));
        }
        paths.push(one);
        i = i + 1;
    }
    proof {
        assert(x@.db3.take(i as int) =~= x@.db3);
    }
    let ordered = match validate_declared_segments(
        extract_root,
        bag.as_str(),
        &m.relative_file_paths,
        &paths,
    ) {
        Ok(ordered) => ordered,
        Err(e) => {
            return Err(e);
        },
    };
    if text::same(m.storage_identifier.as_str(), "mcap") {
        if !all_with(&ordered, "mcap") {
            return Err(
                ImportError::new(
                    ImportErrorCode::ValidationFailed,
                    "ROS 2 metadata storage and segment extensions disagree.",
                    "storage_identifier=mcap requires only listed .mcap segments".to_owned(),
                ),
            );
        }
        return Ok(BagPlan::Read(ordered));
    }
    if text::same(m.storage_identifier.as_str(), "sqlite3") {
        if !all_with(&ordered, "db3") {
            return Err(
                ImportError::new(
                    ImportErrorCode::ValidationFailed,
                    "ROS 2 metadata storage and segment extensions disagree.",
                    "storage_identifier=sqlite3 requires only listed .db3 segments".to_owned(),
                ),
            );
        }
        return Ok(BagPlan::Convert);
    }
    let shown = text::quoted(m.storage_identifier.as_str());
    Err(
        ImportError::new(
            ImportErrorCode::UnsupportedFormat,
            "The ROS 2 bag storage type is not supported.",
            text::line("Unsupported storage_identifier ").add(shown.as_str()).add(
                "; expected mcap or sqlite3",
            ).done(),
        ),
    )
}

/// The warning that goes with a bag that was converted.
pub fn conversion_warning() -> (r: String)
    ensures
        r@
            == "Converted sqlite3 ROS 2 bag storage to MCAP with the configured rosbags-convert worker tool"@,
{
    "Converted sqlite3 ROS 2 bag storage to MCAP with the configured rosbags-convert worker tool".to_owned()
}

/// The fault of the files that a conversion produced.
pub open spec fn converted_failure(sizes: Seq<u64>, limit: u64, directory: Seq<char>) -> Option<
    ImportErrorView,
> {
    if sizes.len() == 0 {
        Some(
            import::import_error(
                ImportErrorCode::ConversionFailed,
                "rosbags-convert produced no MCAP data."@,
                "No .mcap files found under "@ + directory,
            ),
        )
    } else if crate::storage::sum(sizes) > u64::MAX {
        Some(limit_failure("Converted MCAP size overflow"@))
    } else if crate::storage::sum(sizes) > limit {
        Some(
            limit_failure(
                "rosbags-convert produced "@ + text::decimal(crate::storage::sum(sizes))
                    + " bytes; request-linked limit is "@ + text::decimal(limit as nat),
            ),
        )
    } else {
        None
    }
}

/// Checks the files that a conversion produced.
pub fn check_converted(sizes: &Vec<u64>, limit: u64, directory: &str) -> (r: Result<
    (),
    ImportError,
>)
    ensures
        rrd_wire::fault(r) == converted_failure(sizes@, limit, directory@),
{
    if sizes.len() == 0 {
        return Err(
            ImportError::new(
                ImportErrorCode::ConversionFailed,
                "rosbags-convert produced no MCAP data.",
                text::line("No .mcap files found under ").add(directory).done(),
            ),
        );
    }
    let total: u64 = match crate::storage::directory_size(sizes) {
        Some(total) => total,
        None => {
            return Err(archive_limit_error(text::line("Converted MCAP size overflow")));
        },
    };
    if total > limit {
        return Err(
            archive_limit_error(
                text::line("rosbags-convert produced ").num(total).add(
                    " bytes; request-linked limit is ",
                ).num(limit),
            ),
        );
    }
    Ok(())
}

/// Checks a directory before it is searched for converted files.
pub fn check_walk(depth: usize, found: usize) -> (r: Result<(), ImportError>)
    ensures
        rrd_wire::fault(r) == if depth > MAX_CONVERTED_DEPTH || found > MAX_BAG_SEGMENTS {
            Some(limit_failure("Converted ROS bag directory is too deep or wide"@))
        } else {
            None
        },
{
    if depth > MAX_CONVERTED_DEPTH || found > MAX_BAG_SEGMENTS {
        return Err(
            archive_limit_error(text::line("Converted ROS bag directory is too deep or wide")),
        );
    }
    Ok(())
}

/// Decides whether a file of a converted bag is a segment.
pub fn is_converted_segment(path: &str, extension: &str, found: usize) -> (r: Result<
    bool,
    ImportError,
>)
    ensures
        import::outcome(r) == if !has_lower_extension(path@, extension@) {
            Ok::<bool, ImportErrorView>(false)
        } else if found >= MAX_BAG_SEGMENTS {
            Err(limit_failure("Converted ROS bag contains more than 128 MCAP segments"@))
        } else {
            Ok(true)
        },
{
    if !has_extension(path, extension) {
        return Ok(false);
    }
    if found >= MAX_BAG_SEGMENTS {
        return Err(
            archive_limit_error(
                text::line("Converted ROS bag contains more than 128 MCAP segments"),
            ),
        );
    }
    Ok(true)
}

/// Checks the first bytes of a bag segment.
pub fn validate_mcap_magic(prefix: &[u8], path: &str) -> (r: Result<(), ImportError>)
    ensures
        rrd_wire::fault(r) == if prefix@ == mcap_limits::magic() {
            None
        } else {
            Some(
                invalid_archive(
                    "A ROS 2 bag segment is not valid MCAP data."@,
                    "MCAP magic mismatch\nFile path: "@ + path@,
                ),
            )
        },
{
    let right = prefix.len() == 8 && mcap_limits::has_mcap_magic(prefix);
    proof {
        if right {
            assert(prefix@.subrange(0, 8) =~= prefix@);
        }
        if prefix@ == mcap_limits::magic() {
            assert(prefix@.subrange(0, 8) =~= prefix@);
        }
    }
    if right {
        return Ok(());
    }
    Err(
        ImportError::new(
            ImportErrorCode::ValidationFailed,
            "A ROS 2 bag segment is not valid MCAP data.",
            text::line("MCAP magic mismatch\nFile path: ").add(path).done(),
        ),
    )
}

proof fn lemma_after_prefix(s: Seq<char>, prefix: Seq<char>)
    ensures
        text::after_prefix(s, prefix) matches Some(rest) ==> s == prefix + rest,
{
    if text::starts_with(s, prefix) {
        assert(s =~= prefix + s.skip(prefix.len() as int));
    }
}

proof fn lemma_prefixed(prefix: Seq<char>, rest: Seq<char>)
    ensures
        text::after_prefix(prefix + rest, prefix) == Some(rest),
{
    let s = prefix + rest;
    assert(s.subrange(0, prefix.len() as int) =~= prefix);
    assert(s.skip(prefix.len() as int) =~= rest);
}

/// The path of a segment that is listed in the metadata file of a bag.
pub open spec fn segment_path(metadata_path: Seq<char>, listed: Seq<char>) -> Seq<char> {
    match metadata_path.index_of_last('/') {
        Some(i) if i > 0 => metadata_path.take(i) + "/"@ + listed,
        _ => listed,
    }
}

proof fn lemma_below(metadata_path: Seq<char>, path: Seq<char>, relative: Seq<char>)
    ensures
        below(directory_of(metadata_path), path) == Some(relative) <==> path == segment_path(
            metadata_path,
            relative,
        ),
{
    metadata_path.index_of_last_ensures('/');
    let bag = directory_of(metadata_path);
    if bag.len() > 0 {
        lemma_after_prefix(path, bag + "/"@);
        lemma_prefixed(bag + "/"@, relative);
    }
}

spec fn relatives_upto(bag: Seq<char>, paths: Seq<Seq<char>>, n: int, m: Map<Seq<char>, Seq<char>>) -> bool {
    &&& m.dom().finite()
    &&& m.dom().len() == n
    &&& forall|r: Seq<char>| #[trigger]
        m.contains_key(r) ==> below(bag, m[r]) == Some(r) && paths.contains(m[r])
    &&& forall|j: int|
        0 <= j < n ==> below(bag, #[trigger] paths[j]) is Some && m.contains_key(
            below(bag, paths[j])->Some_0,
        ) && m[below(bag, paths[j])->Some_0] == paths[j]
}

proof fn lemma_actual(
    extract_root: Seq<char>,
    bag: Seq<char>,
    paths: Seq<Seq<char>>,
    i: int,
    m: Map<Seq<char>, Seq<char>>,
)
    requires
        0 <= i <= paths.len(),
        relatives_upto(bag, paths, i, m),
    ensures
        actual_from(extract_root, bag, paths, i, m) matches Ok(out) ==> relatives_upto(
            bag,
            paths,
            paths.len() as int,
            out,
        ),
        (forall|j: int| i <= j < paths.len() ==> below(bag, #[trigger] paths[j]) is Some)
            && paths.no_duplicates() ==> actual_from(extract_root, bag, paths, i, m) is Ok,
    decreases paths.len() - i,
{
    if i < paths.len() {
        if below(bag, paths[i]) is Some {
            let relative = below(bag, paths[i])->Some_0;
            if !m.contains_key(relative) {
                let next = m.insert(relative, paths[i]);
                assert(paths.contains(paths[i]));
                assert(next.dom() =~= m.dom().insert(relative));
                lemma_actual(extract_root, bag, paths, i + 1, next);
            } else if paths.no_duplicates() {
                lemma_earlier(bag, paths, i, m, relative);
                let a = choose|a: int|
                    0 <= a < i && below(bag, #[trigger] paths[a]) == Some(relative);
                lemma_same_below(bag, paths[i], paths[a]);
            }
        }
    }
}

proof fn lemma_same_below(bag: Seq<char>, a: Seq<char>, b: Seq<char>)
    requires
        below(bag, a) is Some,
        below(bag, a) == below(bag, b),
    ensures
        a == b,
{
    lemma_after_prefix(a, bag + "/"@);
    lemma_after_prefix(b, bag + "/"@);
}

proof fn lemma_earlier(
    bag: Seq<char>,
    paths: Seq<Seq<char>>,
    n: int,
    m: Map<Seq<char>, Seq<char>>,
    relative: Seq<char>,
)
    requires
        0 <= n < paths.len(),
        paths.no_duplicates(),
        relatives_upto(bag, paths, n, m),
        m.contains_key(relative),
    ensures
        exists|a: int| 0 <= a < n && below(bag, #[trigger] paths[a]) == Some(relative),
{
    let first = paths.take(n);
    let found = first.map_values(|p: Seq<char>| below(bag, p)->Some_0);
    assert(found.no_duplicates()) by {
        assert forall|a: int, b: int| 0 <= a < found.len() && 0 <= b < found.len() && a != b implies found[a]
            != found[b] by {
            if found[a] == found[b] {
                assert(first[a] == paths[a] && first[b] == paths[b]);
                lemma_same_below(bag, paths[a], paths[b]);
            }
        }
    }
    found.unique_seq_to_set();
    assert(found.to_set().subset_of(m.dom())) by {
        assert forall|r: Seq<char>| found.to_set().contains(r) implies m.dom().contains(r) by {
            let a = choose|a: int| 0 <= a < found.len() && found[a] == r;
            assert(first[a] == paths[a]);
        }
    }
    vstd::set_lib::lemma_len_subset(found.to_set(), m.dom());
    if !found.to_set().contains(relative) {
        assert(found.to_set().subset_of(m.dom().remove(relative)));
        vstd::set_lib::lemma_len_subset(found.to_set(), m.dom().remove(relative));
    } else {
        let a = choose|a: int| 0 <= a < found.len() && found[a] == relative;
        assert(first[a] == paths[a]);
        assert(below(bag, paths[a]) == Some(relative));
    }
}

proof fn lemma_declared_are_all(m: Map<Seq<char>, Seq<char>>, declared: Seq<Seq<char>>, r: Seq<char>)
    requires
        m.dom().finite(),
        declared.no_duplicates(),
        matches_declared(m, declared),
        m.contains_key(r),
    ensures
        declared.contains(r),
{
    declared.unique_seq_to_set();
    assert(declared.to_set().subset_of(m.dom())) by {
        assert forall|x: Seq<char>| declared.to_set().contains(x) implies m.dom().contains(x) by {
            let a = choose|a: int| 0 <= a < declared.len() && declared[a] == x;
            assert(m.contains_key(declared[a]));
        }
    }
    vstd::set_lib::lemma_subset_equality(declared.to_set(), m.dom());
    assert(declared.to_set().contains(r));
}

/// What is read as it is, is the MCAP files that the metadata of an MCAP bag lists, in its order;
/// a bag of SQLite files is converted. Either way the metadata lists each extracted segment, and
/// no other.
pub proof fn law_bags_are_read_by_their_storage(
    extract_root: Seq<char>,
    metadata_paths: Seq<Seq<char>>,
    metadata: Seq<char>,
    mcap: Seq<Seq<char>>,
    db3: Seq<Seq<char>>,
)
    requires
        bag_plan(extract_root, metadata_paths, metadata, mcap, db3) is Ok,
    ensures
        metadata_paths.len() == 1,
        metadata_outcome(metadata) is Ok,
        ({
            let m = metadata_outcome(metadata)->Ok_0;
            let listed = m.relative_file_paths;
            let at = |k: int| segment_path(metadata_paths[0], listed[k]);
            &&& forall|k: int|
                0 <= k < listed.len() ==> (mcap + db3).contains(#[trigger] at(k))
            &&& forall|j: int|
                0 <= j < (mcap + db3).len() ==> exists|k: int|
                    0 <= k < listed.len() && (#[trigger] at(k)) == #[trigger] (mcap + db3)[j]
            &&& match bag_plan(extract_root, metadata_paths, metadata, mcap, db3)->Ok_0 {
                Some(paths) => {
                    &&& m.storage_identifier == "mcap"@
                    &&& paths.len() == listed.len()
                    &&& forall|k: int| 0 <= k < paths.len() ==> (#[trigger] paths[k]) == at(k)
                    &&& forall|k: int|
                        0 <= k < paths.len() ==> has_lower_extension(#[trigger] paths[k], "mcap"@)
                },
                None => {
                    &&& m.storage_identifier == "sqlite3"@
                    &&& forall|k: int|
                        0 <= k < listed.len() ==> has_lower_extension(#[trigger] at(k), "db3"@)
                },
            }
        }),
{
    let m = metadata_outcome(metadata)->Ok_0;
    let listed = m.relative_file_paths;
    let at = |k: int| segment_path(metadata_paths[0], listed[k]);
    let bag = directory_of(metadata_paths[0]);
    let paths = mcap + db3;
    let found = actual_from(extract_root, bag, paths, 0, Map::empty())->Ok_0;
    lemma_actual(extract_root, bag, paths, 0, Map::empty());
    law_listed_segments_are_safe(metadata);
    let ordered = listed.map_values(|d: Seq<char>| found[d]);
    assert forall|k: int| 0 <= k < listed.len() implies (#[trigger] ordered[k]) == at(k)
        && paths.contains(at(k)) by {
        assert(found.contains_key(listed[k]));
        lemma_below(metadata_paths[0], found[listed[k]], listed[k]);
    }
    assert forall|k: int| 0 <= k < listed.len() implies paths.contains(#[trigger] at(k)) by {
        assert(ordered[k] == at(k));
    }
    assert forall|j: int| 0 <= j < paths.len() implies exists|k: int|
        0 <= k < listed.len() && (#[trigger] at(k)) == #[trigger] paths[j] by {
        let r = below(bag, paths[j])->Some_0;
        lemma_declared_are_all(found, listed, r);
        let k = choose|k: int| 0 <= k < listed.len() && listed[k] == r;
        lemma_below(metadata_paths[0], paths[j], r);
        assert(at(k) == paths[j]);
    }
    assert(declared_segments(extract_root, bag, listed, paths) == Ok::<
        Seq<Seq<char>>,
        ImportErrorView,
    >(ordered));
    reveal_strlit("mcap");
    reveal_strlit("sqlite3");
    assert("mcap"@.len() != "sqlite3"@.len());
    if m.storage_identifier == "sqlite3"@ {
        assert forall|k: int| 0 <= k < listed.len() implies has_lower_extension(
            #[trigger] at(k),
            "db3"@,
        ) by {
            assert(ordered[k] == at(k));
        }
    }
}

/// A bag whose metadata lists exactly the extracted segments is accepted: it is read where they
/// are MCAP files and its storage is MCAP, and converted where they are SQLite files and its
/// storage is SQLite.
pub proof fn law_consistent_bags_are_accepted(
    extract_root: Seq<char>,
    metadata_path: Seq<char>,
    metadata: Seq<char>,
    mcap: Seq<Seq<char>>,
    db3: Seq<Seq<char>>,
)
    requires
        metadata_outcome(metadata) is Ok,
        (mcap + db3).no_duplicates(),
        ({
            let listed = metadata_outcome(metadata)->Ok_0.relative_file_paths;
            &&& forall|k: int|
                0 <= k < listed.len() ==> (mcap + db3).contains(
                    segment_path(metadata_path, #[trigger] listed[k]),
                )
            &&& forall|j: int|
                0 <= j < (mcap + db3).len() ==> exists|k: int|
                    0 <= k < listed.len() && segment_path(metadata_path, #[trigger] listed[k])
                        == #[trigger] (mcap + db3)[j]
        }),
    ensures
        ({
            let m = metadata_outcome(metadata)->Ok_0;
            let plan = bag_plan(extract_root, seq![metadata_path], metadata, mcap, db3);
            &&& m.storage_identifier == "mcap"@ && (forall|j: int|
                0 <= j < (mcap + db3).len() ==> has_lower_extension(
                    #[trigger] (mcap + db3)[j],
                    "mcap"@,
                )) ==> plan is Ok && plan->Ok_0 is Some
            &&& m.storage_identifier == "sqlite3"@ && (forall|j: int|
                0 <= j < (mcap + db3).len() ==> has_lower_extension(
                    #[trigger] (mcap + db3)[j],
                    "db3"@,
                )) ==> plan is Ok && plan->Ok_0 is None
        }),
{
    let m = metadata_outcome(metadata)->Ok_0;
    let listed = m.relative_file_paths;
    let metadata_paths = seq![metadata_path];
    let bag = directory_of(metadata_path);
    let paths = mcap + db3;
    assert forall|j: int| 0 <= j < paths.len() implies below(bag, #[trigger] paths[j]) is Some by {
        let k = choose|k: int|
            0 <= k < listed.len() && segment_path(metadata_path, #[trigger] listed[k]) == paths[j];
        lemma_below(metadata_path, paths[j], listed[k]);
    }
    lemma_actual(extract_root, bag, paths, 0, Map::empty());
    law_listed_segments_are_safe(metadata);
    let found = actual_from(extract_root, bag, paths, 0, Map::empty())->Ok_0;
    assert forall|k: int| 0 <= k < listed.len() implies found.contains_key(#[trigger] listed[k])
        && paths.contains(found[listed[k]]) by {
        let p = segment_path(metadata_path, listed[k]);
        let j = choose|j: int| 0 <= j < paths.len() && paths[j] == p;
        lemma_below(metadata_path, p, listed[k]);
        assert(below(bag, paths[j]) == Some(listed[k]));
    }
    assert(matches_declared(found, listed)) by {
        listed.unique_seq_to_set();
        assert(listed.to_set() =~= found.dom()) by {
            assert forall|r: Seq<char>| #[trigger] listed.to_set().contains(r) == found.dom().contains(
                r,
            ) by {
                if listed.to_set().contains(r) {
                    let k = choose|k: int| 0 <= k < listed.len() && listed[k] == r;
                    assert(found.contains_key(listed[k]));
                }
                if found.contains_key(r) {
                    let j = choose|j: int| 0 <= j < paths.len() && paths[j] == found[r];
                    let k = choose|k: int|
                        0 <= k < listed.len() && segment_path(metadata_path, #[trigger] listed[k])
                            == paths[j];
                    lemma_below(metadata_path, paths[j], listed[k]);
                    assert(listed[k] == r);
                }
            }
        }
    }
    let ordered = listed.map_values(|d: Seq<char>| found[d]);
    assert(declared_segments(extract_root, bag, listed, paths) == Ok::<
        Seq<Seq<char>>,
        ImportErrorView,
    >(ordered));
    assert forall|k: int| 0 <= k < ordered.len() implies exists|j: int|
        0 <= j < paths.len() && paths[j] == #[trigger] ordered[k] by {
        assert(found.contains_key(listed[k]));
    }
    reveal_strlit("mcap");
    reveal_strlit("sqlite3");
    assert("mcap"@.len() != "sqlite3"@.len());
}

/// An entry of an archive is let in exactly if its path stays below the archive and is not that of
/// the converted files, it is no link, the archive stays within its limit with it, it is not packed
/// more tightly than a thousand to one where it is large, and its path is new.
pub proof fn law_entries_are_let_in_if_safe(x: ExtractionView, e: ArchiveEntryView)
    requires
        x.declared <= x.limit,
    ensures
        entry_failure(x, e) is None <==> {
            &&& e.enclosed is Some
            &&& !text::parts(e.enclosed->Some_0, '/').contains("_rms_converted"@)
            &&& e.unix_mode is Some ==> (e.unix_mode->Some_0 / 4_096) % 16 != 10
            &&& x.declared + e.size <= x.limit
            &&& e.compressed_size == 0 || e.size <= 1_048_576 || e.size / e.compressed_size <= 1_000
            &&& !x.paths.contains_key(e.enclosed->Some_0)
        },
        with_entry(x, e).limit == x.limit,
        entry_failure(x, e) is None ==> with_entry(x, e).declared == x.declared + e.size
            && with_entry(x, e).paths.contains_key(e.enclosed->Some_0),
{
}

/// An extracted file is the metadata if it is named so, otherwise a segment of its extension,
/// otherwise nothing to the bag.
pub proof fn law_files_are_told_apart(x: ExtractionView, path: Seq<char>)
    ensures
        ({
            let after = with_file(x, path);
            let named = names::base_name(path) == Some("metadata.yaml"@);
            let extension = names::lower_extension(path);
            &&& after.metadata == if named {
                x.metadata.push(path)
            } else {
                x.metadata
            }
            &&& after.mcap == if !named && extension == Some("mcap"@) {
                x.mcap.push(path)
            } else {
                x.mcap
            }
            &&& after.db3 == if !named && extension == Some("db3"@) {
                x.db3.push(path)
            } else {
                x.db3
            }
            &&& after.paths == x.paths && after.declared == x.declared && after.limit == x.limit
        }),
{
    reveal_strlit("mcap");
    reveal_strlit("db3");
    assert("mcap"@.len() == 4 && "db3"@.len() == 3);
}

/// The directory of an archive is accepted exactly if it has one to 4096 entries, is neither empty
/// nor larger than 32 megabytes, and lies within the file before its end record.
pub proof fn law_directories_lie_within_the_archive(
    d: ZipDirectory,
    file_size: u64,
    eocd_offset: u64,
)
    ensures
        directory_failure(d, file_size, eocd_offset) is None <==> 1 <= d.entries <= 4_096 && 1
            <= d.size <= 33_554_432 && d.offset + d.size <= file_size && d.offset + d.size
            <= eocd_offset,
{
}

proof fn lemma_last_eocd(tail: Seq<u8>, i: int)
    ensures
        match eocd_upto(tail, i) {
            Some(k) => 0 <= k <= i && eocd_at(tail, k) && forall|j: int|
                k < j <= i ==> !#[trigger] eocd_at(tail, j),
            None => forall|j: int| 0 <= j <= i ==> !#[trigger] eocd_at(tail, j),
        },
    decreases i + 1,
{
    if i >= 0 && !eocd_at(tail, i) {
        lemma_last_eocd(tail, i - 1);
    }
}

/// The end record of an archive is the last one whose comment reaches to the end of the file; a
/// directory on one disk is where that record says, with as many entries as it says.
pub proof fn law_archives_end_with_their_record(tail: Seq<u8>, file_size: u64)
    requires
        tail.len() <= file_size,
        file_size <= 65_557 ==> tail.len() == file_size,
        file_size > 65_557 ==> tail.len() == 65_557,
    ensures
        zip_tail(tail, file_size) matches Ok(ZipTail::Plain { directory, eocd_offset }) ==> {
            let i = eocd_offset - (file_size - tail.len());
            &&& 0 <= i && i + 22 <= tail.len()
            &&& tail.subrange(i, i + 4) == seq![0x50u8, 0x4bu8, 5u8, 6u8]
            &&& i + 22 + bytes::le_u16(tail, i + 20) == tail.len()
            &&& directory.entries == bytes::le_u16(tail, i + 10)
            &&& directory.size == bytes::le_u32(tail, i + 12)
            &&& directory.offset == bytes::le_u32(tail, i + 16)
            &&& bytes::le_u16(tail, i + 4) == 0 && bytes::le_u16(tail, i + 6) == 0
            &&& bytes::le_u16(tail, i + 8) == bytes::le_u16(tail, i + 10)
            &&& forall|j: int| i < j && j + 22 <= tail.len() ==> !#[trigger] eocd_at(tail, j)
        },
{
    lemma_last_eocd(tail, tail.len() - 22);
    match eocd_upto(tail, tail.len() - 22) {
        Some(i) => {
            assert(tail.subrange(i, i + 4) =~= seq![0x50u8, 0x4bu8, 5u8, 6u8]);
        },
        None => {},
    }
}

/// Whether a line of the metadata gives a value behind a prefix.
pub open spec fn gives(line: Seq<char>, prefix: Seq<char>, field: Seq<char>, value: Seq<char>) -> bool {
    exists|raw: Seq<char>|
        text::trim(line) == #[trigger] (prefix + raw) && scalar(raw, field) == Ok::<
            Seq<char>,
            ImportErrorView,
        >(value)
}

proof fn lemma_keys(
    lines: Seq<Seq<char>>,
    i: int,
    storage: Option<Seq<char>>,
    list: Option<int>,
)
    requires
        0 <= i,
    ensures
        keys_from(lines, i, storage, list) matches Ok((s, l)) ==> {
            &&& s is Some && storage is None ==> exists|k: int|
                i <= k < lines.len() && gives(
                    #[trigger] lines[k],
                    "storage_identifier:"@,
                    "storage_identifier"@,
                    s->Some_0,
                )
            &&& storage is Some ==> s == storage
            &&& list is Some ==> l == list
            &&& l is Some && list is None ==> i <= l->Some_0 < lines.len() && text::trim(
                lines[l->Some_0],
            ) == "relative_file_paths:"@
        },
    decreases lines.len() - i,
{
    if i < lines.len() {
        let trimmed = text::trim(lines[i]);
        lemma_after_prefix(trimmed, "storage_identifier:"@);
        match text::after_prefix(trimmed, "storage_identifier:"@) {
            None => {
                lemma_keys(
                    lines,
                    i + 1,
                    storage,
                    if trimmed == "relative_file_paths:"@ {
                        Some(i)
                    } else {
                        list
                    },
                );
            },
            Some(value) => {
                if storage is None && scalar(value, "storage_identifier"@) is Ok {
                    let v = scalar(value, "storage_identifier"@)->Ok_0;
                    assert(trimmed == "storage_identifier:"@ + value);
                    assert(gives(lines[i], "storage_identifier:"@, "storage_identifier"@, v));
                    lemma_keys(
                        lines,
                        i + 1,
                        Some(v),
                        if trimmed == "relative_file_paths:"@ {
                            Some(i)
                        } else {
                            list
                        },
                    );
                }
            },
        }
    }
}

/// Whether a path is one of the items of a list in the metadata.
pub open spec fn is_item(lines: Seq<Seq<char>>, path: Seq<char>) -> bool {
    exists|k: int|
        0 <= k < lines.len() && gives(#[trigger] lines[k], "- "@, "relative_file_paths item"@, path)
}

proof fn lemma_items(lines: Seq<Seq<char>>, i: int, base: nat, done: Seq<Seq<char>>)
    requires
        0 <= i,
        forall|k: int| 0 <= k < done.len() ==> is_item(lines, #[trigger] done[k]),
    ensures
        list_from(lines, i, base, done) matches Ok(all) ==> forall|k: int|
            0 <= k < all.len() ==> is_item(lines, #[trigger] all[k]),
    decreases lines.len() - i,
{
    if i < lines.len() {
        let trimmed = text::trim(lines[i]);
        lemma_after_prefix(trimmed, "- "@);
        if trimmed.len() == 0 || trimmed[0] == '#' {
            lemma_items(lines, i + 1, base, done);
        } else {
            match text::after_prefix(trimmed, "- "@) {
                None => {},
                Some(value) => match scalar(value, "relative_file_paths item"@) {
                    Err(_) => {},
                    Ok(path) => {
                        assert(trimmed == "- "@ + value);
                        assert(gives(lines[i], "- "@, "relative_file_paths item"@, path));
                        assert(is_item(lines, path));
                        lemma_items(lines, i + 1, base, done.push(path));
                    },
                },
            }
        }
    }
}

/// What the metadata of a bag say stands in their lines: the storage behind its key, and each path
/// as an item of a list.
pub proof fn law_metadata_say_what_their_lines_say(metadata: Seq<char>)
    ensures
        metadata_outcome(metadata) matches Ok(m) ==> {
            let lines = text::lines(metadata);
            &&& exists|k: int|
                0 <= k < lines.len() && gives(
                    #[trigger] lines[k],
                    "storage_identifier:"@,
                    "storage_identifier"@,
                    m.storage_identifier,
                )
            &&& forall|i: int|
                0 <= i < m.relative_file_paths.len() ==> is_item(
                    lines,
                    #[trigger] m.relative_file_paths[i],
                )
            &&& exists|k: int|
                0 <= k < lines.len() && text::trim(#[trigger] lines[k]) == "relative_file_paths:"@
        },
{
    let lines = text::lines(metadata);
    lemma_keys(lines, 0, None, None);
    match keys_from(lines, 0, None, None) {
        Ok((Some(_), Some(at))) => {
            lemma_items(lines, at + 1, indent(lines[at]), Seq::empty());
            assert(text::trim(lines[at]) == "relative_file_paths:"@);
        },
        _ => {},
    }
}

/// A value in double or single quotes is read without them.
pub proof fn law_quoted_values_are_read(inner: Seq<char>, quote: char, field: Seq<char>)
    requires
        quote == '"' || quote == '\'',
        inner.len() > 0,
        !inner.contains(quote),
        quote == '"' ==> !inner.contains('\\'),
        !text::contains_text(seq![quote] + inner + seq![quote], " #"@),
    ensures
        scalar(seq![quote] + inner + seq![quote], field) == Ok::<Seq<char>, ImportErrorView>(inner),
{
    let value = seq![quote] + inner + seq![quote];
    assert(value.last() == quote && value[0] == quote);
    assert(!text::is_space(quote));
    assert(text::trim_start(value) == value);
    assert(text::trim_end(value) == value);
    assert(value.subrange(1, value.len() - 1) =~= inner);
}

/// What a conversion produced is accepted exactly if it is something and within the limit.
pub proof fn law_conversions_stay_within_their_limit(
    sizes: Seq<u64>,
    limit: u64,
    directory: Seq<char>,
)
    ensures
        converted_failure(sizes, limit, directory) is None <==> sizes.len() > 0
            && crate::storage::sum(sizes) <= limit,
{
}

/// An archive may expand to four times the size of the output, but always to 64 megabytes and never
/// to more than two gigabytes.
pub proof fn law_archives_expand_with_their_output(max_output_bytes: u64)
    ensures
        67_108_864 <= expanded_limit(max_output_bytes) <= 2_147_483_648,
        67_108_864 <= max_output_bytes * 4 <= 2_147_483_648 ==> expanded_limit(max_output_bytes)
            == max_output_bytes * 4,
        max_output_bytes * 4 < 67_108_864 ==> expanded_limit(max_output_bytes) == 67_108_864,
        max_output_bytes * 4 > 2_147_483_648 ==> expanded_limit(max_output_bytes) == 2_147_483_648,
{
}

} // verus!
