//! Conversion requests: what is accepted, and what a conversion comes to.

use crate::catalog::Marker;
use crate::csv_import;
use crate::hashing;
use crate::hashing::FileDigest;
use crate::import;
use crate::import::{
    ImportCancellation, ImportError, ImportErrorCode, ImportErrorView, ImportFormat, ImportResult,
    ImportResultView, TimelineDescriptor, TimelineDescriptorView, TimelineKind,
};
use crate::mcap_limits;
use crate::names;
use crate::rrd_places;
use crate::rrd_verify;
use crate::rrd_verify::{
    RrdFileView, TimelineSpan, TimelineSpanView, VerifiedRrd, VerifiedRrdView,
};
use crate::rrd_wire;
use crate::table;
use crate::table::Table;
use crate::text;
use vstd::multiset::Multiset;
use vstd::prelude::*;

verus! {

pub const MIN_OUTPUT_BYTES: u64 = 4_096;
pub const MAX_OUTPUT_BYTES: u64 = 68_719_476_736;
pub const MAX_SOURCE_BYTES: u64 = 17_179_869_184;
pub const MAX_CSV_SOURCE_BYTES: u64 = 67_108_864;
pub const MAX_VIDEO_SOURCE_BYTES: u64 = 2_147_483_648;

/// A blocking import request.
#[derive(Clone, Debug)]
pub struct ImportRequest {
    pub source_path: String,
    pub output_rrd_path: String,
    pub original_file_name: String,
    pub format: ImportFormat,
    /// Format-specific JSON. Only CSV accepts a mapping; other formats reject it.
    pub mapping: Option<Vec<u8>>,
    /// Hard cap applied while writing the RRD, including its footer.
    pub max_output_bytes: u64,
    /// Cooperative cancellation checked before commit and throughout conversion.
    pub cancellation: Option<ImportCancellation>,
}

/// What the file system says of the paths of a request.
#[derive(Debug)]
pub struct RequestFacts {
    /// Why the source cannot be inspected.
    pub source_fault: Option<String>,
    pub source_is_file: bool,
    pub source_len: u64,
    /// The source without links, or why it cannot be resolved.
    pub source_resolved: Result<String, String>,
    pub output_exists: bool,
    /// The directory of the output, where the path has one.
    pub output_parent: Option<String>,
    /// That directory without links, or why it cannot be resolved.
    pub parent_resolved: Result<String, String>,
    pub parent_is_dir: bool,
    /// The output below that directory, where the path has a file name.
    pub output_resolved: Option<String>,
}

/// A request that was checked.
#[derive(Debug)]
pub struct ValidatedRequest {
    pub source_path: String,
    pub output_path: String,
    pub recording_name: String,
    pub extension: String,
}

#[verifier::ext_equal]
pub struct ValidatedRequestView {
    pub source_path: Seq<char>,
    pub output_path: Seq<char>,
    pub recording_name: Seq<char>,
    pub extension: Seq<char>,
}

impl View for ValidatedRequest {
    type V = ValidatedRequestView;

    open spec fn view(&self) -> ValidatedRequestView {
        ValidatedRequestView {
            source_path: self.source_path@,
            output_path: self.output_path@,
            recording_name: self.recording_name@,
            extension: self.extension@,
        }
    }
}

pub open spec fn invalid(reason: Seq<char>, detail: Seq<char>) -> ImportErrorView {
    import::import_error(ImportErrorCode::InvalidRequest, reason, detail)
}

pub open spec fn io_failure(reason: Seq<char>, detail: Seq<char>) -> ImportErrorView {
    import::import_error(ImportErrorCode::Io, reason, detail)
}

pub open spec fn format_label(format: ImportFormat) -> Seq<char> {
    match format {
        ImportFormat::Rrd => "Rrd"@,
        ImportFormat::Mcap => "Mcap"@,
        ImportFormat::Ros2BagZip => "Ros2BagZip"@,
        ImportFormat::Csv => "Csv"@,
        ImportFormat::Video => "Video"@,
    }
}

fn format_text(format: ImportFormat) -> (r: &'static str)
    ensures
        r@ == format_label(format),
{
    match format {
        ImportFormat::Rrd => "Rrd",
        ImportFormat::Mcap => "Mcap",
        ImportFormat::Ros2BagZip => "Ros2BagZip",
        ImportFormat::Csv => "Csv",
        ImportFormat::Video => "Video",
    }
}

/// A base name without directory components.
pub open spec fn is_base_name(name: Seq<char>) -> bool {
    name.len() > 0 && !names::has_char(name, '/') && !names::has_char(name, '\\')
        && names::base_name(name) == Some(name)
}

/// Checks that a file name has no directory components.
pub fn validate_original_file_name(name: &str) -> (r: Result<(), ImportError>)
    ensures
        rrd_wire::fault(r) == if is_base_name(name@) {
            None
        } else {
            Some(
                invalid(
                    "The original file name must be a base name without directory components."@,
                    "Unsafe originalFileName rejected: "@ + text::debug_text(name@),
                ),
            )
        },
{
    let base = names::file_name(name);
    if name.is_empty() || names::contains_char(name, '/') || names::contains_char(name, '\\')
        || !table::is_text(&base, name) {
        let shown = text::quoted(name);
        return Err(
            ImportError::new(
                ImportErrorCode::InvalidRequest,
                "The original file name must be a base name without directory components.",
                text::line("Unsafe originalFileName rejected: ").add(shown.as_str()).done(),
            ),
        );
    }
    Ok(())
}

pub open spec fn extension_fits(format: ImportFormat, extension: Seq<char>) -> bool {
    match format {
        ImportFormat::Rrd => extension == "rrd"@,
        ImportFormat::Mcap => extension == "mcap"@,
        ImportFormat::Ros2BagZip => extension == "zip"@,
        ImportFormat::Csv => extension == "csv"@,
        ImportFormat::Video => extension == "mp4"@ || extension == "mov"@ || extension == "webm"@,
    }
}

pub open spec fn extension_failure(format: ImportFormat, extension: Seq<char>) -> Option<
    ImportErrorView,
> {
    if extension_fits(format, extension) {
        None
    } else {
        Some(
            import::import_error(
                ImportErrorCode::UnsupportedFormat,
                "The declared import format does not match the file extension."@,
                "Format "@ + format_label(format) + " does not accept extension "@
                    + text::debug_text(extension),
            ),
        )
    }
}

/// Checks that a format goes with a file extension.
pub fn validate_extension(format: ImportFormat, extension: &str) -> (r: Result<(), ImportError>)
    ensures
        rrd_wire::fault(r) == extension_failure(format, extension@),
{
    let fits = match format {
        ImportFormat::Rrd => text::same(extension, "rrd"),
        ImportFormat::Mcap => text::same(extension, "mcap"),
        ImportFormat::Ros2BagZip => text::same(extension, "zip"),
        ImportFormat::Csv => text::same(extension, "csv"),
        ImportFormat::Video => text::same(extension, "mp4") || text::same(extension, "mov")
            || text::same(extension, "webm"),
    };
    if fits {
        return Ok(());
    }
    let shown = text::quoted(extension);
    Err(
        ImportError::new(
            ImportErrorCode::UnsupportedFormat,
            "The declared import format does not match the file extension.",
            text::line("Format ").add(format_text(format)).add(" does not accept extension ").add(
                shown.as_str(),
            ).done(),
        ),
    )
}

pub open spec fn source_limit(format: ImportFormat) -> u64 {
    match format {
        ImportFormat::Csv => MAX_CSV_SOURCE_BYTES,
        ImportFormat::Video => MAX_VIDEO_SOURCE_BYTES,
        _ => MAX_SOURCE_BYTES,
    }
}

/// The fault of the limit, the mapping and the name of a request, or its file extension.
pub open spec fn named_request(r: ImportRequest) -> Result<Seq<char>, ImportErrorView> {
    if r.max_output_bytes < MIN_OUTPUT_BYTES || r.max_output_bytes > MAX_OUTPUT_BYTES {
        Err(
            invalid(
                "The requested output size limit is outside the supported range."@,
                "max_output_bytes="@ + text::decimal(r.max_output_bytes as nat)
                    + " is outside "@ + text::decimal(MIN_OUTPUT_BYTES as nat) + "..="@
                    + text::decimal(MAX_OUTPUT_BYTES as nat),
            ),
        )
    } else if r.format != ImportFormat::Csv && r.mapping is Some {
        Err(
            invalid(
                "A mapping can only be supplied for CSV imports."@,
                "Mapping supplied for format "@ + format_label(r.format),
            ),
        )
    } else if !is_base_name(r.original_file_name@) {
        Err(
            invalid(
                "The original file name must be a base name without directory components."@,
                "Unsafe originalFileName rejected: "@ + text::debug_text(r.original_file_name@),
            ),
        )
    } else {
        match names::lower_extension(r.original_file_name@) {
            None => Err(
                invalid(
                    "The original file name must include a supported extension."@,
                    "No UTF-8 extension in originalFileName="@ + text::debug_text(
                        r.original_file_name@,
                    ),
                ),
            ),
            Some(extension) => match extension_failure(r.format, extension) {
                Some(e) => Err(e),
                None => Ok(extension),
            },
        }
    }
}

/// The fault of the source of a request, or the source without links.
pub open spec fn resolved_source(r: ImportRequest, f: RequestFacts) -> Result<
    Seq<char>,
    ImportErrorView,
> {
    let path = r.source_path@;
    if f.source_fault is Some {
        Err(
            io_failure(
                "The uploaded source file is not available."@,
                "Failed to inspect source: "@ + f.source_fault->Some_0@ + "\nFile path: "@ + path,
            ),
        )
    } else if !f.source_is_file {
        Err(
            import::import_error(
                ImportErrorCode::ValidationFailed,
                "The import source must be a regular file, not a directory or symbolic link."@,
                "Source is not a regular file: "@ + path,
            ),
        )
    } else if f.source_len == 0 || f.source_len > source_limit(r.format) {
        Err(
            import::import_error(
                ImportErrorCode::ResourceLimitExceeded,
                "The source file is empty or exceeds the import size limit."@,
                "Source size "@ + text::decimal(f.source_len as nat) + " is outside 1..="@
                    + text::decimal(source_limit(r.format) as nat) + "\nFile path: "@ + path,
            ),
        )
    } else {
        match f.source_resolved {
            Ok(resolved) => Ok(resolved@),
            Err(cause) => Err(
                io_failure(
                    "The uploaded source file could not be resolved."@,
                    "Failed to canonicalize source: "@ + cause@ + "\nFile path: "@ + path,
                ),
            ),
        }
    }
}

/// The fault of the output of a request, or the output without links.
pub open spec fn resolved_output(r: ImportRequest, f: RequestFacts) -> Result<
    Seq<char>,
    ImportErrorView,
> {
    let path = r.output_rrd_path@;
    if names::extension(path) != Some("rrd"@) {
        Err(
            invalid(
                "The destination file must use the .rrd extension."@,
                "Invalid output extension: "@ + path,
            ),
        )
    } else if f.output_exists {
        Err(
            invalid(
                "The destination recording already exists."@,
                "Refusing to overwrite output: "@ + path,
            ),
        )
    } else if f.output_parent is None {
        Err(
            invalid(
                "The destination path has no parent directory."@,
                "Output has no parent: "@ + path,
            ),
        )
    } else {
        match f.parent_resolved {
            Err(cause) => Err(
                io_failure(
                    "The destination directory is not available."@,
                    "Failed to resolve output directory: "@ + cause@ + "\nDirectory: "@
                        + f.output_parent->Some_0@,
                ),
            ),
            Ok(parent) => if !f.parent_is_dir {
                Err(
                    invalid(
                        "The destination parent is not a directory."@,
                        "Output parent is not a directory: "@ + parent@,
                    ),
                )
            } else {
                match f.output_resolved {
                    None => Err(
                        invalid(
                            "The destination RRD path has no file name."@,
                            "Output has no file name: "@ + path,
                        ),
                    ),
                    Some(resolved) => Ok(resolved@),
                }
            },
        }
    }
}

/// A checked request, or why it is refused.
pub open spec fn checked_request(r: ImportRequest, f: RequestFacts) -> Result<
    ValidatedRequestView,
    ImportErrorView,
> {
    match named_request(r) {
        Err(e) => Err(e),
        Ok(extension) => match resolved_source(r, f) {
            Err(e) => Err(e),
            Ok(source) => match resolved_output(r, f) {
                Err(e) => Err(e),
                Ok(output) => if output == source {
                    Err(
                        invalid(
                            "The source and destination paths must be different."@,
                            "Source and destination resolve to "@ + source,
                        ),
                    )
                } else {
                    Ok(
                        ValidatedRequestView {
                            source_path: source,
                            output_path: output,
                            recording_name: match names::stem(r.original_file_name@) {
                                Some(s) => s,
                                None => "rms_import"@,
                            },
                            extension,
                        },
                    )
                },
            },
        },
    }
}

fn check_name(r: &ImportRequest) -> (result: Result<String, ImportError>)
    ensures
        crate::rosbag::text_outcome(result) == named_request(*r),
{
    if r.max_output_bytes < MIN_OUTPUT_BYTES || r.max_output_bytes > MAX_OUTPUT_BYTES {
        return Err(
            ImportError::new(
                ImportErrorCode::InvalidRequest,
                "The requested output size limit is outside the supported range.",
                text::line("max_output_bytes=").num(r.max_output_bytes).add(" is outside ").num(
                    MIN_OUTPUT_BYTES,
                ).add("..=").num(MAX_OUTPUT_BYTES).done(),
            ),
        );
    }
    if r.format != ImportFormat::Csv && r.mapping.is_some() {
        return Err(
            ImportError::new(
                ImportErrorCode::InvalidRequest,
                "A mapping can only be supplied for CSV imports.",
                text::line("Mapping supplied for format ").add(format_text(r.format)).done(),
            ),
        );
    }
    match validate_original_file_name(r.original_file_name.as_str()) {
        Ok(()) => {},
        Err(e) => {
            return Err(e);
        },
    }
    let extension = match names::lowered_extension(r.original_file_name.as_str()) {
        Some(e) => e,
        None => {
            let shown = text::quoted(r.original_file_name.as_str());
            return Err(
                ImportError::new(
                    ImportErrorCode::InvalidRequest,
                    "The original file name must include a supported extension.",
                    text::line("No UTF-8 extension in originalFileName=").add(
                        shown.as_str(),
                    ).done(),
                ),
            );
        },
    };
    match validate_extension(r.format, extension.as_str()) {
        Ok(()) => Ok(extension),
        Err(e) => Err(e),
    }
}

fn check_source(r: &ImportRequest, f: &RequestFacts) -> (result: Result<String, ImportError>)
    ensures
        crate::rosbag::text_outcome(result) == resolved_source(*r, *f),
{
    let path = r.source_path.as_str();
    match &f.source_fault {
        Some(cause) => {
            return Err(
                ImportError::new(
                    ImportErrorCode::Io,
                    "The uploaded source file is not available.",
                    text::line("Failed to inspect source: ").add(cause.as_str()).add(
                        "\nFile path: ",
                    ).add(path).done(),
                ),
            );
        },
        None => {},
    }
    if !f.source_is_file {
        return Err(
            ImportError::new(
                ImportErrorCode::ValidationFailed,
                "The import source must be a regular file, not a directory or symbolic link.",
                text::line("Source is not a regular file: ").add(path).done(),
            ),
        );
    }
    let limit: u64 = match r.format {
        ImportFormat::Csv => MAX_CSV_SOURCE_BYTES,
        ImportFormat::Video => MAX_VIDEO_SOURCE_BYTES,
        _ => MAX_SOURCE_BYTES,
    };
    if f.source_len == 0 || f.source_len > limit {
        return Err(
            ImportError::new(
                ImportErrorCode::ResourceLimitExceeded,
                "The source file is empty or exceeds the import size limit.",
                text::line("Source size ").num(f.source_len).add(" is outside 1..=").num(
                    limit,
                ).add("\nFile path: ").add(path).done(),
            ),
        );
    }
    match &f.source_resolved {
        Ok(resolved) => Ok(resolved.clone()),
        Err(cause) => Err(
            ImportError::new(
                ImportErrorCode::Io,
                "The uploaded source file could not be resolved.",
                text::line("Failed to canonicalize source: ").add(cause.as_str()).add(
                    "\nFile path: ",
                ).add(path).done(),
            ),
        ),
    }
}

fn check_output(r: &ImportRequest, f: &RequestFacts) -> (result: Result<String, ImportError>)
    ensures
        crate::rosbag::text_outcome(result) == resolved_output(*r, *f),
{
    let path = r.output_rrd_path.as_str();
    let extension = names::file_extension(path);
    if !table::is_text(&extension, "rrd") {
        return Err(
            ImportError::new(
                ImportErrorCode::InvalidRequest,
                "The destination file must use the .rrd extension.",
                text::line("Invalid output extension: ").add(path).done(),
            ),
        );
    }
    if f.output_exists {
        return Err(
            ImportError::new(
                ImportErrorCode::InvalidRequest,
                "The destination recording already exists.",
                text::line("Refusing to overwrite output: ").add(path).done(),
            ),
        );
    }
    let parent_name = match &f.output_parent {
        Some(p) => p,
        None => {
            return Err(
                ImportError::new(
                    ImportErrorCode::InvalidRequest,
                    "The destination path has no parent directory.",
                    text::line("Output has no parent: ").add(path).done(),
                ),
            );
        },
    };
    let parent = match &f.parent_resolved {
        Ok(p) => p,
        Err(cause) => {
            return Err(
                ImportError::new(
                    ImportErrorCode::Io,
                    "The destination directory is not available.",
                    text::line("Failed to resolve output directory: ").add(cause.as_str()).add(
                        "\nDirectory: ",
                    ).add(parent_name.as_str()).done(),
                ),
            );
        },
    };
    if !f.parent_is_dir {
        return Err(
            ImportError::new(
                ImportErrorCode::InvalidRequest,
                "The destination parent is not a directory.",
                text::line("Output parent is not a directory: ").add(parent.as_str()).done(),
            ),
        );
    }
    match &f.output_resolved {
        Some(resolved) => Ok(resolved.clone()),
        None => Err(
            ImportError::new(
                ImportErrorCode::InvalidRequest,
                "The destination RRD path has no file name.",
                text::line("Output has no file name: ").add(path).done(),
            ),
        ),
    }
}

/// Checks a request against what the file system says of its paths.
pub fn validate_request(r: &ImportRequest, f: &RequestFacts) -> (result: Result<
    ValidatedRequest,
    ImportError,
>)
    ensures
        match checked_request(*r, *f) {
            Ok(v) => result matches Ok(found) && found@ == v,
            Err(e) => result matches Err(g) && g@ == e,
        },
{
    let extension = match check_name(r) {
        Ok(extension) => extension,
        Err(e) => {
            return Err(e);
        },
    };
    let source_path = match check_source(r, f) {
        Ok(path) => path,
        Err(e) => {
            return Err(e);
        },
    };
    let output_path = match check_output(r, f) {
        Ok(path) => path,
        Err(e) => {
            return Err(e);
        },
    };
    if text::same(output_path.as_str(), source_path.as_str()) {
        return Err(
            ImportError::new(
                ImportErrorCode::InvalidRequest,
                "The source and destination paths must be different.",
                text::line("Source and destination resolve to ").add(source_path.as_str()).done(),
            ),
        );
    }
    let recording_name = match names::file_stem(r.original_file_name.as_str()) {
        Some(s) => s,
        None => "rms_import".to_owned(),
    };
    Ok(ValidatedRequest { source_path, output_path, recording_name, extension })
}

/// A request that passes is of a known format, and its output neither exists nor is its source.
pub proof fn law_accepted_requests_write_elsewhere(r: ImportRequest, f: RequestFacts)
    requires
        checked_request(r, f) is Ok,
    ensures
        ({
            let v = checked_request(r, f)->Ok_0;
            &&& extension_fits(r.format, v.extension)
            &&& v.output_path != v.source_path
            &&& !f.output_exists
            &&& 0 < f.source_len <= source_limit(r.format)
            &&& r.format != ImportFormat::Csv ==> r.mapping is None
        }),
{
}

pub open spec fn invalid_file(reason: Seq<char>, detail: Seq<char>) -> ImportErrorView {
    import::import_error(ImportErrorCode::ValidationFailed, reason, detail)
}

/// The fault of the first bytes of a video.
pub open spec fn mismatch(expected: Seq<char>, actual: Seq<u8>) -> ImportErrorView {
    invalid_file(
        "The declared video format does not match the file contents."@,
        "Expected "@ + expected + " signature, got "@ + text::hex_list(actual),
    )
}

pub fn format_mismatch(expected: &str, actual: &[u8]) -> (r: ImportError)
    ensures
        r@ == mismatch(expected@, actual@),
{
    let shown = text::hex_list_text(actual);
    ImportError::new(
        ImportErrorCode::ValidationFailed,
        "The declared video format does not match the file contents.",
        text::line("Expected ").add(expected).add(" signature, got ").add(shown.as_str()).done(),
    )
}

/// How many first bytes of a video tell its format.
pub fn video_prefix_len(extension: &str) -> (r: usize)
    ensures
        r == if extension@ == "webm"@ {
            4int
        } else {
            12int
        },
{
    if text::same(extension, "webm") {
        4
    } else {
        12
    }
}

pub open spec fn is_ebml(b: Seq<u8>) -> bool {
    b.len() == 4 && b[0] == 0x1a && b[1] == 0x45 && b[2] == 0xdf && b[3] == 0xa3
}

pub open spec fn has_ftyp(b: Seq<u8>) -> bool {
    b.len() >= 8 && b[4] == 0x66 && b[5] == 0x74 && b[6] == 0x79 && b[7] == 0x70
}

/// The fault of the first bytes of a video with an extension.
pub open spec fn video_failure(prefix: Seq<u8>, extension: Seq<char>) -> Option<ImportErrorView> {
    if extension == "mp4"@ || extension == "mov"@ {
        if has_ftyp(prefix) {
            None
        } else {
            Some(mismatch("ISO-BMFF ftyp"@, prefix))
        }
    } else if extension == "webm"@ {
        if is_ebml(prefix) {
            None
        } else {
            Some(mismatch("WebM EBML"@, prefix))
        }
    } else {
        Some(
            import::import_error(
                ImportErrorCode::UnsupportedFormat,
                "Only MP4, MOV, and WebM video files are supported."@,
                "Unsupported video extension: "@ + text::debug_text(extension),
            ),
        )
    }
}

/// Checks the first bytes of an MP4 or MOV file.
pub fn validate_iso_bmff(prefix: &[u8]) -> (r: Result<(), ImportError>)
    ensures
        rrd_wire::fault(r) == if has_ftyp(prefix@) {
            None
        } else {
            Some(mismatch("ISO-BMFF ftyp"@, prefix@))
        },
{
    if prefix.len() >= 8 && prefix[4] == 0x66 && prefix[5] == 0x74 && prefix[6] == 0x79 && prefix[7]
        == 0x70 {
        return Ok(());
    }
    Err(format_mismatch("ISO-BMFF ftyp", prefix))
}

/// Checks the first bytes of a video against its extension.
pub fn validate_video_magic(prefix: &[u8], extension: &str) -> (r: Result<(), ImportError>)
    ensures
        rrd_wire::fault(r) == video_failure(prefix@, extension@),
{
    if text::same(extension, "mp4") || text::same(extension, "mov") {
        return validate_iso_bmff(prefix);
    }
    if text::same(extension, "webm") {
        if prefix.len() == 4 && prefix[0] == 0x1a && prefix[1] == 0x45 && prefix[2] == 0xdf
            && prefix[3] == 0xa3 {
            return Ok(());
        }
        return Err(format_mismatch("WebM EBML", prefix));
    }
    let shown = text::quoted(extension);
    Err(
        ImportError::new(
            ImportErrorCode::UnsupportedFormat,
            "Only MP4, MOV, and WebM video files are supported.",
            text::line("Unsupported video extension: ").add(shown.as_str()).done(),
        ),
    )
}

/// Whether a video is converted before it is imported.
pub fn needs_transcoding(extension: &str) -> (r: bool)
    ensures
        r == (extension@ != "mp4"@),
{
    !text::same(extension, "mp4")
}

/// The entity that a video becomes.
pub open spec fn video_entity(file_name: Seq<char>) -> Seq<char> {
    "video/"@ + match names::stem(file_name) {
        Some(s) => if s.len() == 0 {
            "recording"@
        } else {
            csv_import::segment(s)
        },
        None => "recording"@,
    }
}

/// Names the entity that a video becomes.
pub fn video_entity_path(original_file_name: &str) -> (r: String)
    ensures
        r@ == video_entity(original_file_name@),
{
    let segment = match names::file_stem(original_file_name) {
        Some(s) => {
            if s.as_str().is_empty() {
                "recording".to_owned()
            } else {
                csv_import::sanitize_segment(s.as_str())
            }
        },
        None => "recording".to_owned(),
    };
    text::line("video/").add(segment.as_str()).done()
}

/// Checks that a video gave more than its own description.
pub fn check_video_chunks(count: usize) -> (r: Result<(), ImportError>)
    ensures
        rrd_wire::fault(r) == if count < 2 {
            Some(
                invalid_file(
                    "The video contains no readable frame timeline."@,
                    "Video importer emitted only "@ + text::decimal(count as nat) + " chunk(s)"@,
                ),
            )
        } else {
            None
        },
{
    if count < 2 {
        return Err(
            ImportError::new(
                ImportErrorCode::ValidationFailed,
                "The video contains no readable frame timeline.",
                text::line("Video importer emitted only ").num(count as u64).add(
                    " chunk(s)",
                ).done(),
            ),
        );
    }
    Ok(())
}

/// What a conversion says of its recording.
#[derive(Debug)]
pub struct ConversionHints {
    pub default_timeline: Option<String>,
    pub warnings: Vec<String>,
    pub topics: Vec<String>,
}

#[verifier::ext_equal]
pub struct ConversionHintsView {
    pub default_timeline: Option<Seq<char>>,
    pub warnings: Seq<Seq<char>>,
    pub topics: Seq<Seq<char>>,
}

impl View for ConversionHints {
    type V = ConversionHintsView;

    open spec fn view(&self) -> ConversionHintsView {
        ConversionHintsView {
            default_timeline: table::view_option(self.default_timeline),
            warnings: table::views(self.warnings@),
            topics: table::views(self.topics@),
        }
    }
}

impl Default for ConversionHints {
    fn default() -> (r: Self)
        ensures
            r@ == (ConversionHintsView {
                default_timeline: None,
                warnings: Seq::empty(),
                topics: Seq::empty(),
            }),
    {
        let r = ConversionHints {
            default_timeline: None,
            warnings: Vec::new(),
            topics: Vec::new(),
        };
        proof {
            assert(table::views(r.warnings@) =~= Seq::<Seq<char>>::empty());
            assert(table::views(r.topics@) =~= Seq::<Seq<char>>::empty());
        }
        r
    }
}

/// What a video says of its recording; `topic` is the path of its entity.
pub fn video_hints(extension: &str, topic: String) -> (r: ConversionHints)
    ensures
        r@ == (ConversionHintsView {
            default_timeline: Some("video"@),
            warnings: if extension@ == "mp4"@ {
                Seq::empty()
            } else {
                seq!["Transcoded "@ + extension@ + " video to MP4 for Rerun playback"@]
            },
            topics: seq![topic@],
        }),
{
    let ghost name = topic@;
    let mut warnings: Vec<String> = Vec::new();
    if !text::same(extension, "mp4") {
        let warning = text::line("Transcoded ").add(extension).add(
            " video to MP4 for Rerun playback",
        ).done();
        warnings.push(warning);
    }
    let mut topics: Vec<String> = Vec::new();
    topics.push(topic);
    let r = ConversionHints { default_timeline: Some("video".to_owned()), warnings, topics };
    proof {
        assert(r@.topics =~= seq![name]);
        assert(r@.warnings =~= if extension@ == "mp4"@ {
            Seq::empty()
        } else {
            seq!["Transcoded "@ + extension@ + " video to MP4 for Rerun playback"@]
        });
    }
    r
}

/// What MCAP files say of their recording.
pub fn mcap_hints(topics: Vec<String>, warnings: Vec<String>) -> (r: ConversionHints)
    ensures
        r@ == (ConversionHintsView {
            default_timeline: Some("message_log_time"@),
            warnings: table::views(warnings@),
            topics: table::views(topics@),
        }),
{
    ConversionHints { default_timeline: Some("message_log_time".to_owned()), warnings, topics }
}

/// Checks an MCAP file before it is read.
pub fn check_mcap_file(is_file: bool, len: u64, path: &str) -> (r: Result<(), ImportError>)
    ensures
        rrd_wire::fault(r) == if !is_file || len < 8 {
            Some(
                invalid_file(
                    "The MCAP source is not a regular MCAP file."@,
                    "Invalid MCAP file metadata\nFile path: "@ + path@,
                ),
            )
        } else {
            None
        },
{
    if !is_file || len < 8 {
        return Err(
            ImportError::new(
                ImportErrorCode::ValidationFailed,
                "The MCAP source is not a regular MCAP file.",
                text::line("Invalid MCAP file metadata\nFile path: ").add(path).done(),
            ),
        );
    }
    Ok(())
}

/// The fault of an MCAP file before its summary is decoded.
pub open spec fn mcap_preflight_failure(s: Seq<u8>, path: Seq<char>) -> Option<ImportErrorView> {
    if !crate::bytes::bytes_at(s, mcap_limits::magic(), 0) {
        Some(
            invalid_file(
                "The declared MCAP format does not match the file contents."@,
                "MCAP magic mismatch\nFile path: "@ + path,
            ),
        )
    } else {
        match mcap_limits::preflight_outcome(s, path) {
            Err(e) => Some(e),
            Ok(_) => None,
        }
    }
}

/// Checks the signature and the summary section of an MCAP file, before its summary is decoded.
pub fn preflight_mcap(source: &[u8], path: &str) -> (r: Result<(), ImportError>)
    ensures
        rrd_wire::fault(r) == mcap_preflight_failure(source@, path@),
{
    if !mcap_limits::has_mcap_magic(source) {
        return Err(
            ImportError::new(
                ImportErrorCode::ValidationFailed,
                "The declared MCAP format does not match the file contents.",
                text::line("MCAP magic mismatch\nFile path: ").add(path).done(),
            ),
        );
    }
    mcap_limits::preflight_mcap_summary(source, path)
}

/// The fault of an MCAP file with this many messages and channels: there is nothing to replay.
pub open spec fn contents_failure(
    message_count: Option<u64>,
    channel_count: int,
    path: Seq<char>,
) -> Option<ImportErrorView> {
    if message_count == Some(0u64) || channel_count == 0 {
        Some(
            invalid_file(
                "The MCAP contains no channels or messages to Replay."@,
                "Empty MCAP summary\nFile path: "@ + path,
            ),
        )
    } else {
        None
    }
}

/// Checks that an MCAP file has something to replay.
pub fn check_mcap_contents(message_count: Option<u64>, channel_count: u64, path: &str) -> (r: Result<
    (),
    ImportError,
>)
    ensures
        rrd_wire::fault(r) == contents_failure(message_count, channel_count as int, path@),
{
    let empty = match message_count {
        Some(n) => n == 0,
        None => false,
    };
    if empty || channel_count == 0 {
        return Err(
            ImportError::new(
                ImportErrorCode::ValidationFailed,
                "The MCAP contains no channels or messages to Replay.",
                text::line("Empty MCAP summary\nFile path: ").add(path).done(),
            ),
        );
    }
    Ok(())
}

/// What an unreadable summary is answered.
pub open spec fn summary_unread(cause: Seq<char>, path: Seq<char>) -> ImportErrorView {
    invalid_file(
        "The MCAP header or summary is invalid."@,
        "Failed to inspect MCAP: "@ + cause + "\nFile path: "@ + path,
    )
}

fn summary_error(cause: &str, path: &str) -> (r: ImportError)
    ensures
        r@ == summary_unread(cause@, path@),
{
    ImportError::new(
        ImportErrorCode::ValidationFailed,
        "The MCAP header or summary is invalid.",
        text::line("Failed to inspect MCAP: ").add(cause).add("\nFile path: ").add(path).done(),
    )
}

/// The topics of a file with this summary, in order and once each, or what it is refused for.
pub open spec fn summary_outcome(
    v: mcap_limits::McapSummaryView,
    s: Seq<u8>,
    output_limit: u64,
    path: Seq<char>,
) -> Result<Seq<Seq<char>>, ImportErrorView> {
    match contents_failure(v.message_count, v.topics.len() as int, path) {
        Some(e) => Err(e),
        None => match mcap_limits::resources_outcome(v, s, output_limit, path) {
            Err(e) => Err(e),
            Ok(_) => Ok(rrd_verify::keys_of(topic_set(v.topics))),
        },
    }
}

/// The set of the topics of some channels.
pub open spec fn topic_set(topics: Multiset<Seq<char>>) -> Map<Seq<char>, ()> {
    Map::new(|k: Seq<char>| topics.contains(k), |k: Seq<char>| ())
}

/// Holds a summary against its file and lists the topics that it names.
pub fn check_mcap_summary(
    summary: &mcap_limits::McapSummary,
    source: &[u8],
    output_limit: u64,
    path: &str,
) -> (r: Result<Vec<String>, ImportError>)
    ensures
        crate::rosbag::texts_outcome(r) == summary_outcome(summary@, source@, output_limit, path@),
{
    proof {
        table::views(summary.topics@).to_multiset_ensures();
    }
    match check_mcap_contents(summary.message_count, summary.topics.len() as u64, path) {
        Ok(()) => {},
        Err(e) => {
            return Err(e);
        },
    }
    match mcap_limits::validate_mcap_resources(summary, source, output_limit, path) {
        Ok(()) => {},
        Err(e) => {
            return Err(e);
        },
    }
    let set: Table<Marker> = crate::rrd_manifest::set_of_names(&summary.topics);
    proof {
        let names = table::views(summary.topics@);
        assert forall|k: Seq<char>| names.contains(k) <==> names.to_multiset().contains(k) by {
            names.to_multiset_ensures();
        }
        assert(crate::rrd_manifest::name_set(names) =~= topic_set(names.to_multiset()));
    }
    Ok(rrd_verify::list_keys(&set))
}

/// The topics of an MCAP file, in order and once each, or what it is refused for.
pub open spec fn inspect_outcome(s: Seq<u8>, output_limit: u64, path: Seq<char>) -> Result<
    Seq<Seq<char>>,
    ImportErrorView,
> {
    match mcap_preflight_failure(s, path) {
        Some(e) => Err(e),
        None => match mcap_limits::summary_read(s) {
            Err(cause) => Err(summary_unread(cause, path)),
            Ok(None) => Err(summary_unread("there is no summary"@, path)),
            Ok(Some(v)) => summary_outcome(v, s, output_limit, path),
        },
    }
}

/// Checks an MCAP file from its signature to the records that its summary lists, and gives its
/// topics.
pub fn inspect_mcap(source: &[u8], output_limit: u64, path: &str) -> (r: Result<
    Vec<String>,
    ImportError,
>)
    ensures
        crate::rosbag::texts_outcome(r) == inspect_outcome(source@, output_limit, path@),
{
    match preflight_mcap(source, path) {
        Ok(()) => {},
        Err(e) => {
            return Err(e);
        },
    }
    match mcap_limits::read_summary(source, path) {
        Err(cause) => Err(summary_error(cause.as_str(), path)),
        Ok(None) => Err(summary_error("there is no summary", path)),
        Ok(Some(summary)) => check_mcap_summary(&summary, source, output_limit, path),
    }
}

/// An accepted MCAP file has a summary whose records agree with the file and stay within the
/// limits of the request, and its topics are those of its channels, in order and once each.
pub proof fn law_accepted_files_list_their_channels(s: Seq<u8>, output_limit: u64, path: Seq<char>)
    ensures
        inspect_outcome(s, output_limit, path) matches Ok(topics) ==> {
            &&& mcap_limits::preflight_outcome(s, path) is Ok
            &&& mcap_limits::summary_read(s) matches Ok(Some(v)) && mcap_limits::resources_outcome(
                v,
                s,
                output_limit,
                path,
            ) is Ok && forall|t: Seq<char>| #[trigger]
                topics.contains(t) <==> v.topics.contains(t)
            &&& forall|i: int, j: int|
                0 <= i < j < topics.len() ==> text::less(#[trigger] topics[i], #[trigger] topics[j])
        },
{
    if inspect_outcome(s, output_limit, path) is Ok {
        let topics = inspect_outcome(s, output_limit, path)->Ok_0;
        let v = mcap_limits::summary_read(s)->Ok_0->Some_0;
        let set = topic_set(v.topics);
        assert(set.dom() =~= v.topics.dom());
        table::lemma_items_exist(set);
        let items = table::items_of(set);
        table::lemma_items_all(items);
        assert(forall|i: int| 0 <= i < items.len() ==> (#[trigger] topics[i]) == items[i].0);
        assert forall|t: Seq<char>| #[trigger] topics.contains(t) <==> v.topics.contains(t) by {
            if topics.contains(t) {
                let i = choose|i: int| 0 <= i < topics.len() && topics[i] == t;
                assert(set.contains_key(items[i].0));
            }
            if v.topics.contains(t) {
                assert(set.contains_key(t));
                let i = table::key_index(items, t);
                assert(topics[i] == t);
            }
        }
    }
}

/// The topics of all MCAP files of an import, in order and once each, if they gave any data.
pub fn import_mcap_files(topics: &Vec<String>, emitted_chunks: usize) -> (r: Result<
    Vec<String>,
    ImportError,
>)
    ensures
        crate::rosbag::texts_outcome(r) == if emitted_chunks == 0 {
            Err::<Seq<Seq<char>>, ImportErrorView>(
                invalid_file(
                    "The MCAP decoder produced no Replay data."@,
                    "Rerun MCAP importer emitted zero chunks"@,
                ),
            )
        } else {
            Ok(rrd_verify::keys_of(crate::rrd_manifest::name_set(table::views(topics@))))
        },
{
    if emitted_chunks == 0 {
        return Err(
            ImportError::new(
                ImportErrorCode::ValidationFailed,
                "The MCAP decoder produced no Replay data.",
                "Rerun MCAP importer emitted zero chunks".to_owned(),
            ),
        );
    }
    let set: Table<Marker> = crate::rrd_manifest::set_of_names(topics);
    Ok(rrd_verify::list_keys(&set))
}

/// Checks that a recording has data before it is finished.
pub fn check_written(chunk_count: usize) -> (r: Result<(), ImportError>)
    ensures
        rrd_wire::fault(r) == if chunk_count == 0 {
            Some(
                invalid_file(
                    "The importer produced no Replay data."@,
                    "Recording writer received zero chunks"@,
                ),
            )
        } else {
            None
        },
{
    if chunk_count == 0 {
        return Err(
            ImportError::new(
                ImportErrorCode::ValidationFailed,
                "The importer produced no Replay data.",
                "Recording writer received zero chunks".to_owned(),
            ),
        );
    }
    Ok(())
}

/// The fault of a copy whose next piece could not be written.
pub fn copy_error(cause: &str, limit_exceeded: bool, limit: u64) -> (r: ImportError)
    ensures
        r@ == if limit_exceeded {
            import::import_error(
                ImportErrorCode::ResourceLimitExceeded,
                "The converted recording exceeds its output size limit."@,
                "RRD copy exceeded "@ + text::decimal(limit as nat) + " bytes"@,
            )
        } else {
            io_failure(
                "The destination recording could not be written."@,
                "Failed while copying RRD: "@ + cause@,
            )
        },
{
    if limit_exceeded {
        ImportError::new(
            ImportErrorCode::ResourceLimitExceeded,
            "The converted recording exceeds its output size limit.",
            text::line("RRD copy exceeded ").num(limit).add(" bytes").done(),
        )
    } else {
        ImportError::new(
            ImportErrorCode::Io,
            "The destination recording could not be written.",
            text::line("Failed while copying RRD: ").add(cause).done(),
        )
    }
}

/// How long a timeline lasts and how fast it runs.
#[derive(Clone, Copy, Debug, PartialEq, Eq, Structural)]
pub struct TimelineMeasure {
    /// The bits of an IEEE 754 double.
    pub duration_seconds: Option<u64>,
    /// The bits of an IEEE 754 double.
    pub fps: Option<u64>,
}

/// A timeline with its measure; only a sequence has a rate.
pub open spec fn measured(t: TimelineSpanView, m: TimelineMeasure) -> TimelineDescriptorView {
    TimelineDescriptorView {
        name: t.name,
        kind: t.kind,
        start: t.start,
        end: t.end,
        duration_seconds: m.duration_seconds,
        fps: if t.kind == TimelineKind::Sequence {
            m.fps
        } else {
            None
        },
    }
}

/// The measure at `i`; a timeline beyond them has none.
pub open spec fn measure_at(measures: Seq<TimelineMeasure>, i: int) -> TimelineMeasure {
    if 0 <= i < measures.len() {
        measures[i]
    } else {
        TimelineMeasure { duration_seconds: None, fps: None }
    }
}

/// The timelines of a recording, each with the measure at its place.
pub open spec fn measured_timelines(
    spans: Seq<TimelineSpanView>,
    measures: Seq<TimelineMeasure>,
) -> Seq<TimelineDescriptorView> {
    Seq::new(spans.len(), |i: int| measured(spans[i], measure_at(measures, i)))
}

fn describe_timelines(spans: &Vec<TimelineSpan>, measures: &Vec<TimelineMeasure>) -> (r: Vec<
    TimelineDescriptor,
>)
    ensures
        table::views(r@) == measured_timelines(table::views(spans@), measures@),
{
    let ghost all = measured_timelines(table::views(spans@), measures@);
    let mut r: Vec<TimelineDescriptor> = Vec::new();
    let mut i: usize = 0;
    proof {
        assert(table::views(r@) =~= all.take(0));
    }
    while i < spans.len()
        invariant
            i <= spans@.len(),
            all == measured_timelines(table::views(spans@), measures@),
            table::views(r@) == all.take(i as int),
        decreases spans@.len() - i,
    {
        let span = &spans[i];
        let measure = if i < measures.len() {
            measures[i]
        } else {
            TimelineMeasure { duration_seconds: None, fps: None }
        };
        let one = TimelineDescriptor {
            name: span.name.clone(),
            kind: span.kind,
            start: span.start.clone(),
            end: span.end.clone(),
            duration_seconds: measure.duration_seconds,
            fps: if span.kind == TimelineKind::Sequence {
                measure.fps
            } else {
                None
            },
        };
        proof {
            assert(table::views(spans@)[i as int] == spans@[i as int]@);
            table::lemma_views_push(r@, one);
            assert(all.take(i + 1) =~= all.take(i as int).push(one@));
        }
        r.push(one);
        i = i + 1;
    }
    proof {
        assert(all.take(spans@.len() as int) =~= all);
    }
    r
}

/// What is known of a recording once it was written and verified.
#[derive(Debug)]
pub struct WrittenRecording {
    /// The bytes that were imported.
    pub source: FileDigest,
    /// The bytes that were written.
    pub content: FileDigest,
    pub rrd_version: String,
    pub verified: VerifiedRrd,
    /// The measures of the timelines of `verified`, in their order.
    pub measures: Vec<TimelineMeasure>,
    /// The bits of an IEEE 754 double.
    pub duration_seconds: u64,
    /// Whether the directory of the recording was made durable.
    pub directory_synced: bool,
}

pub open spec fn sync_warning() -> Seq<char> {
    "The recording was committed, but crash-durable directory sync was unavailable on this worker."@
}

/// The result of an import that was written, verified and committed.
pub open spec fn import_result(output_path: Seq<char>, w: WrittenRecording, hints: ConversionHintsView) -> ImportResultView {
    ImportResultView {
        rrd_path: output_path,
        source_sha256: hashing::sha256_hex(w.source@),
        content_sha256: hashing::sha256_hex(w.content@),
        size_bytes: w.content@.len() as u64,
        rrd_version: w.rrd_version@,
        footer_verified: true,
        timelines: measured_timelines(w.verified@.timelines, w.measures@),
        default_timeline: w.verified@.default_timeline,
        duration_seconds: w.duration_seconds,
        warnings: if w.directory_synced {
            hints.warnings
        } else {
            hints.warnings.push(sync_warning())
        },
        entity_paths: w.verified@.entity_paths,
        entity_descriptors: w.verified@.entity_descriptors,
        topics: hints.topics,
    }
}

/// Puts the result of an import together.
pub fn run_import(request: &ValidatedRequest, w: WrittenRecording, hints: ConversionHints) -> (r:
    ImportResult)
    ensures
        r@ == import_result(request@.output_path, w, hints@),
{
    let mut warnings = hints.warnings;
    if !w.directory_synced {
        let warning =
            "The recording was committed, but crash-durable directory sync was unavailable on this worker.".to_owned();
        proof {
            table::lemma_views_push(warnings@, warning);
        }
        warnings.push(warning);
    }
    let timelines = describe_timelines(&w.verified.timelines, &w.measures);
    let size_bytes: u64 = w.content.size_bytes();
    ImportResult {
        rrd_path: request.output_path.clone(),
        source_sha256: w.source.finish(),
        content_sha256: w.content.finish(),
        size_bytes,
        rrd_version: w.rrd_version,
        footer_verified: true,
        timelines,
        default_timeline: w.verified.default_timeline,
        duration_seconds: w.duration_seconds,
        warnings,
        entity_paths: w.verified.entity_paths,
        entity_descriptors: w.verified.entity_descriptors,
        topics: hints.topics,
    }
}

/// The result of an import whose recording was verified, under whatever path it was written
/// first, opens with one of its timelines, and it lists the entities that a later inspection
/// finds where the recording lies in the end.
pub proof fn law_import_results_hold_what_was_verified(
    f: RrdFileView,
    hint: Option<Seq<char>>,
    path: Seq<char>,
    output_path: Seq<char>,
    w: WrittenRecording,
    hints: ConversionHintsView,
)
    requires
        rrd_verify::rrd_outcome(f, hint, path) == Ok::<VerifiedRrdView, ImportErrorView>(
            w.verified@,
        ),
    ensures
        ({
            let r = import_result(output_path, w, hints);
            &&& exists|k: int|
                0 <= k < r.timelines.len() && (#[trigger] r.timelines[k]).name == r.default_timeline
            &&& rrd_verify::rrd_outcome(f, None, r.rrd_path) matches Ok(again) && again.entity_paths
                == r.entity_paths && again.entity_descriptors == r.entity_descriptors
        }),
{
    rrd_verify::law_recordings_open_with_a_listed_timeline(f, hint, path);
    rrd_places::law_inspection_finds_what_verification_found(f, hint, path, output_path);
    let r = import_result(output_path, w, hints);
    let spans = w.verified@.timelines;
    let k = choose|k: int|
        0 <= k < spans.len() && (#[trigger] spans[k]).name == w.verified@.default_timeline;
    assert(r.timelines[k].name == r.default_timeline);
}

/// A timeline as it is listed, but for its measure.
pub open spec fn extent(t: TimelineDescriptorView) -> (Seq<char>, TimelineKind, Seq<char>, Seq<char>) {
    (t.name, t.kind, t.start, t.end)
}

/// Importing the recording of an earlier import, which copies it as it is, gives a recording with
/// the same bytes, the same entities and the same timelines; where the timelines are measured
/// alike they are the same in every respect.
pub proof fn law_imported_recordings_can_be_imported(
    f: RrdFileView,
    hint: Option<Seq<char>>,
    path: Seq<char>,
    again: Seq<char>,
    output_path: Seq<char>,
    w: WrittenRecording,
    hints: ConversionHintsView,
    copy_path: Seq<char>,
    copy: WrittenRecording,
    copy_hints: ConversionHintsView,
)
    requires
        rrd_verify::rrd_outcome(f, hint, path) == Ok::<VerifiedRrdView, ImportErrorView>(
            w.verified@,
        ),
        rrd_verify::rrd_outcome(f, None, again) == Ok::<VerifiedRrdView, ImportErrorView>(
            copy.verified@,
        ),
        copy.source@ == w.content@,
        copy.content@ == copy.source@,
    ensures
        ({
            let a = import_result(output_path, w, hints);
            let b = import_result(copy_path, copy, copy_hints);
            &&& b.content_sha256 == a.content_sha256
            &&& b.source_sha256 == a.content_sha256
            &&& b.size_bytes == a.size_bytes
            &&& b.entity_paths == a.entity_paths
            &&& b.entity_descriptors == a.entity_descriptors
            &&& b.timelines.len() == a.timelines.len()
            &&& forall|i: int|
                0 <= i < a.timelines.len() ==> extent(#[trigger] b.timelines[i]) == extent(
                    a.timelines[i],
                )
            &&& copy.measures@ == w.measures@ ==> b.timelines == a.timelines
        }),
{
    rrd_places::law_inspection_finds_what_verification_found(f, hint, path, again);
    let s = f.stores[rrd_verify::first_recording(f.stores, 0)->Some_0];
    assert(rrd_verify::summary(s, hint, path) == Ok::<VerifiedRrdView, ImportErrorView>(
        w.verified@,
    ));
    assert(rrd_verify::summary(s, None, again) == Ok::<VerifiedRrdView, ImportErrorView>(
        copy.verified@,
    ));
    assert(copy.verified@.timelines == w.verified@.timelines);
}

/// A request is accepted exactly if its limit is in range, only a CSV file comes with a mapping, its
/// file name is a bare name with an extension of its format, its source is a file of a size that the
/// format allows, its destination is a new recording in a directory, and the two differ.
pub proof fn law_requests_are_accepted_if_in_order(r: ImportRequest, f: RequestFacts)
    ensures
        ({
            let name = r.original_file_name@;
            let extension = names::lower_extension(name);
            &&& checked_request(r, f) is Ok <==> {
                &&& 4_096 <= r.max_output_bytes <= 68_719_476_736
                &&& r.mapping is Some ==> r.format == ImportFormat::Csv
                &&& name.len() > 0 && !names::has_char(name, '/') && !names::has_char(name, '\\')
                    && names::base_name(name) == Some(name)
                &&& extension is Some
                &&& r.format == ImportFormat::Rrd ==> extension == Some("rrd"@)
                &&& r.format == ImportFormat::Mcap ==> extension == Some("mcap"@)
                &&& r.format == ImportFormat::Ros2BagZip ==> extension == Some("zip"@)
                &&& r.format == ImportFormat::Csv ==> extension == Some("csv"@)
                &&& r.format == ImportFormat::Video ==> extension == Some("mp4"@) || extension
                    == Some("mov"@) || extension == Some("webm"@)
                &&& f.source_fault is None && f.source_is_file && f.source_len > 0
                &&& r.format == ImportFormat::Csv ==> f.source_len <= 67_108_864
                &&& r.format == ImportFormat::Video ==> f.source_len <= 2_147_483_648
                &&& f.source_len <= 17_179_869_184
                &&& f.source_resolved is Ok
                &&& names::extension(r.output_rrd_path@) == Some("rrd"@)
                &&& !f.output_exists && f.output_parent is Some && f.parent_resolved is Ok
                    && f.parent_is_dir && f.output_resolved is Some
                &&& f.output_resolved->Some_0@ != f.source_resolved->Ok_0@
            }
            &&& checked_request(r, f) matches Ok(v) ==> {
                &&& v.source_path == f.source_resolved->Ok_0@
                &&& v.output_path == f.output_resolved->Some_0@
                &&& Some(v.extension) == extension
                &&& names::stem(name) is Some ==> v.recording_name == names::stem(name)->Some_0
            }
        }),
{
}

/// A video is accepted exactly if it starts as a file with its extension does.
pub proof fn law_videos_start_with_their_signature(prefix: Seq<u8>, extension: Seq<char>)
    ensures
        video_failure(prefix, extension) is None <==> {
            ||| (extension == "mp4"@ || extension == "mov"@) && prefix.len() >= 8
                && prefix.subrange(4, 8) == seq![0x66u8, 0x74u8, 0x79u8, 0x70u8]
            ||| extension == "webm"@ && prefix == seq![0x1au8, 0x45u8, 0xdfu8, 0xa3u8]
        },
{
    reveal_strlit("mp4");
    reveal_strlit("mov");
    reveal_strlit("webm");
    assert("mp4"@.len() == 3 && "mov"@.len() == 3 && "webm"@.len() == 4);
    if prefix.len() >= 8 {
        let part = prefix.subrange(4, 8);
        assert(part[0] == prefix[4] && part[1] == prefix[5] && part[2] == prefix[6] && part[3]
            == prefix[7]);
        if has_ftyp(prefix) {
            assert(part =~= seq![0x66u8, 0x74u8, 0x79u8, 0x70u8]);
        }
    }
    if is_ebml(prefix) {
        assert(prefix =~= seq![0x1au8, 0x45u8, 0xdfu8, 0xa3u8]);
    }
}

/// There is something to replay in a file exactly if it has a channel and does not say that it has
/// no messages.
pub proof fn law_files_hold_something_to_replay(
    message_count: Option<u64>,
    channel_count: int,
    path: Seq<char>,
)
    ensures
        contents_failure(message_count, channel_count, path) is None <==> channel_count != 0 && (
        message_count is None || message_count->Some_0 > 0),
{
}

/// The result of an import tells of the bytes that were written and of those that they were made
/// from, lists each timeline with its own extent and measure, and warns where the directory was
/// not made durable.
pub proof fn law_results_tell_of_what_was_written(
    output_path: Seq<char>,
    w: WrittenRecording,
    hints: ConversionHintsView,
    i: int,
)
    requires
        w.content@.len() <= u64::MAX,
    ensures
        ({
            let r = import_result(output_path, w, hints);
            &&& r.rrd_path == output_path
            &&& r.source_sha256 == hashing::sha256_hex(w.source@)
            &&& r.content_sha256 == hashing::sha256_hex(w.content@)
            &&& r.size_bytes == w.content@.len()
            &&& r.rrd_version == w.rrd_version@ && r.footer_verified
            &&& r.default_timeline == w.verified@.default_timeline
            &&& r.duration_seconds == w.duration_seconds
            &&& r.entity_paths == w.verified@.entity_paths
            &&& r.entity_descriptors == w.verified@.entity_descriptors
            &&& r.topics == hints.topics
            &&& w.directory_synced ==> r.warnings == hints.warnings
            &&& !w.directory_synced ==> r.warnings.len() == hints.warnings.len() + 1
                && r.warnings.drop_last() == hints.warnings
            &&& r.timelines.len() == w.verified@.timelines.len()
            &&& 0 <= i < r.timelines.len() ==> {
                let t = w.verified@.timelines[i];
                let m = w.measures@[i];
                &&& r.timelines[i].name == t.name && r.timelines[i].kind == t.kind
                    && r.timelines[i].start == t.start && r.timelines[i].end == t.end
                &&& i < w.measures@.len() ==> r.timelines[i].duration_seconds
                    == m.duration_seconds
                &&& i < w.measures@.len() && t.kind == TimelineKind::Sequence
                    ==> r.timelines[i].fps == m.fps
                &&& t.kind != TimelineKind::Sequence ==> r.timelines[i].fps is None
            }
        }),
{
    assert(hints.warnings.push(sync_warning()).drop_last() =~= hints.warnings);
}

} // verus!
