//! The outside tools that conversions run: their arguments, their limits and what they come to.

use crate::import;
use crate::import::{ImportError, ImportErrorCode, ImportErrorView};
use crate::rrd_wire;
use crate::search;
use crate::table;
use crate::text;
use vstd::prelude::*;

verus! {

pub const TOOL_TIMEOUT_MS: u64 = 600_000;
pub const TOOL_PROBE_TIMEOUT_MS: u64 = 5_000;
pub const MAX_TOOL_DIAGNOSTIC_BYTES: usize = 16_384;
pub const MAX_TOOL_DIAGNOSTIC_DISK_BYTES: u64 = 16_777_216;
pub const MAX_TOOL_OUTPUT_DEPTH: usize = 8;
pub const MAX_TOOL_OUTPUT_ENTRIES: usize = 4_096;

fn with(mut args: Vec<String>, s: &str) -> (r: Vec<String>)
    ensures
        table::views(r@) == table::views(args@).push(s@),
{
    let one = s.to_owned();
    proof {
        table::lemma_views_push(args@, one);
    }
    args.push(one);
    args
}

fn none() -> (r: Vec<String>)
    ensures
        table::views(r@) == Seq::<Seq<char>>::empty(),
{
    let r: Vec<String> = Vec::new();
    assert(table::views(r@) =~= Seq::<Seq<char>>::empty());
    r
}

/// The arguments with which ffmpeg makes a video an MP4 of at most `max_bytes`.
pub fn transcode_args(source: &str, output: &str, max_bytes: u64) -> (r: Vec<String>)
    ensures
        table::views(r@) == seq![
            "-nostdin"@,
            "-hide_banner"@,
            "-loglevel"@,
            "error"@,
            "-y"@,
            "-i"@,
            source@,
            "-map"@,
            "0:v:0"@,
            "-an"@,
            "-c:v"@,
            "libx264"@,
            "-pix_fmt"@,
            "yuv420p"@,
            "-bf"@,
            "0"@,
            "-movflags"@,
            "+faststart"@,
            "-fs"@,
            text::decimal(max_bytes as nat),
            output@,
        ],
{
    let limit = text::decimal_text(max_bytes);
    let a = with(with(with(with(none(), "-nostdin"), "-hide_banner"), "-loglevel"), "error");
    let b = with(with(with(with(a, "-y"), "-i"), source), "-map");
    let c = with(with(with(with(b, "0:v:0"), "-an"), "-c:v"), "libx264");
    let d = with(with(with(with(c, "-pix_fmt"), "yuv420p"), "-bf"), "0");
    let e = with(with(with(with(d, "-movflags"), "+faststart"), "-fs"), limit.as_str());
    with(e, output)
}

/// The arguments with which rosbags-convert makes a bag an MCAP bag.
pub fn convert_args(source: &str, output_dir: &str) -> (r: Vec<String>)
    ensures
        table::views(r@) == seq![
            "--src"@,
            source@,
            "--dst"@,
            output_dir@,
            "--dst-storage"@,
            "mcap"@,
            "--dst-version"@,
            "9"@,
        ],
{
    let a = with(with(with(with(none(), "--src"), source), "--dst"), output_dir);
    with(with(with(with(a, "--dst-storage"), "mcap"), "--dst-version"), "9")
}

/// Whether a tool may see an environment variable.
pub open spec fn may_see(name: Seq<char>) -> bool {
    name == "SystemRoot"@ || name == "WINDIR"@ || name == "ComSpec"@ || name == "PATH"@ || name
        == "PATHEXT"@ || name == "TEMP"@ || name == "TMP"@ || name == "TMPDIR"@ || name == "HOME"@
        || name == "USERPROFILE"@ || name == "LANG"@ || name == "LC_ALL"@
}

pub fn is_allowed_variable(name: &str) -> (r: bool)
    ensures
        r == may_see(name@),
{
    text::same(name, "SystemRoot") || text::same(name, "WINDIR") || text::same(name, "ComSpec")
        || text::same(name, "PATH") || text::same(name, "PATHEXT") || text::same(name, "TEMP")
        || text::same(name, "TMP") || text::same(name, "TMPDIR") || text::same(name, "HOME")
        || text::same(name, "USERPROFILE") || text::same(name, "LANG") || text::same(
        name,
        "LC_ALL",
    )
}

/// What is to be done about a tool that is being probed.
#[derive(Clone, Copy, Debug, PartialEq, Eq, Structural)]
pub enum ProbeStep {
    Wait,
    GiveUp,
    Done(bool),
}

/// Decides about a tool that is being probed: `exited` says how it ended, if it has.
pub fn probe_step(exited: Option<bool>, failed: bool, elapsed_ms: u64) -> (r: ProbeStep)
    ensures
        r == if failed {
            ProbeStep::GiveUp
        } else {
            match exited {
                Some(success) => ProbeStep::Done(success),
                None => if elapsed_ms < TOOL_PROBE_TIMEOUT_MS {
                    ProbeStep::Wait
                } else {
                    ProbeStep::GiveUp
                },
            }
        },
{
    if failed {
        return ProbeStep::GiveUp;
    }
    match exited {
        Some(success) => ProbeStep::Done(success),
        None => {
            if elapsed_ms < TOOL_PROBE_TIMEOUT_MS {
                ProbeStep::Wait
            } else {
                ProbeStep::GiveUp
            }
        },
    }
}

/// A look at a tool that is running.
#[derive(Debug)]
pub struct ToolSample {
    pub exited: bool,
    pub cancelled: bool,
    /// How much it has written to its diagnostics, or why that is not known.
    pub diagnostics: Result<u64, String>,
    /// How much it has produced, or why that is refused.
    pub produced: Result<u64, ImportError>,
    pub elapsed_ms: u64,
}

/// What a tool is run under.
#[derive(Debug)]
pub struct ToolRun {
    pub executable: String,
    pub user_reason: String,
    pub diagnostic_path: String,
    pub output_path: String,
    pub max_output_bytes: u64,
    pub timeout_ms: u64,
}

pub open spec fn resource(reason: Seq<char>, detail: Seq<char>) -> ImportErrorView {
    import::import_error(ImportErrorCode::ResourceLimitExceeded, reason, detail)
}

pub open spec fn conversion(reason: Seq<char>, detail: Seq<char>) -> ImportErrorView {
    import::import_error(ImportErrorCode::ConversionFailed, reason, detail)
}

/// The fault of what a tool has produced.
pub open spec fn produced_failure(run: ToolRun, produced: Result<u64, ImportError>) -> Option<
    ImportErrorView,
> {
    match produced {
        Err(e) => Some(e@),
        Ok(n) => if n > run.max_output_bytes {
            Some(
                resource(
                    "The import tool exceeded its temporary output size limit."@,
                    "Tool generated "@ + text::decimal(n as nat) + " bytes; limit is "@
                        + text::decimal(run.max_output_bytes as nat) + "\nPath: "@
                        + run.output_path@,
                ),
            )
        } else {
            None
        },
    }
}

/// Why a running tool must be stopped.
pub open spec fn stop_reason(run: ToolRun, s: ToolSample) -> Option<ImportErrorView> {
    if s.exited {
        None
    } else if s.cancelled {
        Some(import::cancelled_error())
    } else if s.diagnostics is Err {
        Some(
            conversion(
                run.user_reason@,
                "Failed to monitor tool diagnostic output: "@ + s.diagnostics->Err_0@
                    + "\nFile path: "@ + run.diagnostic_path@,
            ),
        )
    } else if s.diagnostics->Ok_0 > MAX_TOOL_DIAGNOSTIC_DISK_BYTES {
        Some(
            resource(
                "The import tool exceeded its diagnostic output limit."@,
                "Tool diagnostic output exceeded "@ + text::decimal(
                    MAX_TOOL_DIAGNOSTIC_DISK_BYTES as nat,
                ) + " bytes: "@ + run.executable@,
            ),
        )
    } else if produced_failure(run, s.produced) is Some {
        produced_failure(run, s.produced)
    } else if s.elapsed_ms >= run.timeout_ms {
        Some(
            resource(
                "The import tool exceeded its 10 minute execution limit."@,
                "Timed out while running "@ + run.executable@,
            ),
        )
    } else {
        None
    }
}

fn check_produced(run: &ToolRun, produced: Result<u64, ImportError>) -> (r: Result<(), ImportError>)
    ensures
        rrd_wire::fault(r) == produced_failure(*run, produced),
{
    match produced {
        Err(e) => Err(e),
        Ok(n) => {
            if n > run.max_output_bytes {
                return Err(
                    ImportError::new(
                        ImportErrorCode::ResourceLimitExceeded,
                        "The import tool exceeded its temporary output size limit.",
                        text::line("Tool generated ").num(n).add(" bytes; limit is ").num(
                            run.max_output_bytes,
                        ).add("\nPath: ").add(run.output_path.as_str()).done(),
                    ),
                );
            }
            Ok(())
        },
    }
}

/// Looks at a running tool. It goes on, has ended, or must be stopped with an error.
pub fn watch_tool(run: &ToolRun, s: ToolSample) -> (r: Result<bool, ImportError>)
    ensures
        match stop_reason(*run, s) {
            Some(e) => r matches Err(f) && f@ == e,
            None => r matches Ok(ended) && ended == s.exited,
        },
{
    if s.exited {
        return Ok(true);
    }
    if s.cancelled {
        return Err(ImportError::cancelled());
    }
    match s.diagnostics {
        Err(cause) => {
            return Err(
                ImportError::new(
                    ImportErrorCode::ConversionFailed,
                    run.user_reason.as_str(),
                    text::line("Failed to monitor tool diagnostic output: ").add(
                        cause.as_str(),
                    ).add("\nFile path: ").add(run.diagnostic_path.as_str()).done(),
                ),
            );
        },
        Ok(n) => {
            if n > MAX_TOOL_DIAGNOSTIC_DISK_BYTES {
                return Err(
                    ImportError::new(
                        ImportErrorCode::ResourceLimitExceeded,
                        "The import tool exceeded its diagnostic output limit.",
                        text::line("Tool diagnostic output exceeded ").num(
                            MAX_TOOL_DIAGNOSTIC_DISK_BYTES,
                        ).add(" bytes: ").add(run.executable.as_str()).done(),
                    ),
                );
            }
        },
    }
    match check_produced(run, s.produced) {
        Ok(()) => {},
        Err(e) => {
            return Err(e);
        },
    }
    if s.elapsed_ms >= run.timeout_ms {
        return Err(
            ImportError::new(
                ImportErrorCode::ResourceLimitExceeded,
                "The import tool exceeded its 10 minute execution limit.",
                text::line("Timed out while running ").add(run.executable.as_str()).done(),
            ),
        );
    }
    Ok(false)
}

/// The end of what a tool wrote to its diagnostics.
pub open spec fn tail_of(diagnostics: Seq<u8>) -> Seq<u8> {
    if diagnostics.len() > MAX_TOOL_DIAGNOSTIC_BYTES {
        diagnostics.skip(diagnostics.len() - MAX_TOOL_DIAGNOSTIC_BYTES)
    } else {
        diagnostics
    }
}

pub fn diagnostic_tail(diagnostics: &[u8]) -> (r: &[u8])
    ensures
        r@ == tail_of(diagnostics@),
{
    let n: usize = diagnostics.len();
    if n > MAX_TOOL_DIAGNOSTIC_BYTES {
        let r = crate::bytes::slice_between(diagnostics, n - MAX_TOOL_DIAGNOSTIC_BYTES, n);
        assert(r@ =~= tail_of(diagnostics@));
        return r;
    }
    diagnostics
}

/// The fault of a tool that has ended, with the text of its exit status and what it printed.
pub open spec fn end_failure(
    run: ToolRun,
    diagnostics: Result<u64, String>,
    produced: Result<u64, ImportError>,
    success: bool,
    status: Seq<char>,
    printed: Seq<u8>,
) -> Option<ImportErrorView> {
    if diagnostics is Err {
        Some(
            conversion(
                run.user_reason@,
                "Failed to inspect completed tool diagnostic output: "@ + diagnostics->Err_0@
                    + "\nFile path: "@ + run.diagnostic_path@,
            ),
        )
    } else if diagnostics->Ok_0 > MAX_TOOL_DIAGNOSTIC_DISK_BYTES {
        Some(
            resource(
                "The import tool exceeded its diagnostic output limit."@,
                "Tool diagnostic output is "@ + text::decimal(diagnostics->Ok_0 as nat)
                    + " bytes; maximum is "@ + text::decimal(
                    MAX_TOOL_DIAGNOSTIC_DISK_BYTES as nat,
                ),
            ),
        )
    } else if produced_failure(run, produced) is Some {
        produced_failure(run, produced)
    } else if success {
        None
    } else {
        Some(
            conversion(
                run.user_reason@,
                run.executable@ + " exited with "@ + status + "; diagnostic tail:\n"@
                    + search::lossy_text(tail_of(printed)),
            ),
        )
    }
}

/// Judges a tool that has ended.
pub fn finish_tool(
    run: &ToolRun,
    diagnostics: Result<u64, String>,
    produced: Result<u64, ImportError>,
    success: bool,
    status: &str,
    printed: &[u8],
) -> (r: Result<(), ImportError>)
    ensures
        rrd_wire::fault(r) == end_failure(*run, diagnostics, produced, success, status@, printed@),
{
    match diagnostics {
        Err(cause) => {
            return Err(
                ImportError::new(
                    ImportErrorCode::ConversionFailed,
                    run.user_reason.as_str(),
                    text::line("Failed to inspect completed tool diagnostic output: ").add(
                        cause.as_str(),
                    ).add("\nFile path: ").add(run.diagnostic_path.as_str()).done(),
                ),
            );
        },
        Ok(n) => {
            if n > MAX_TOOL_DIAGNOSTIC_DISK_BYTES {
                return Err(
                    ImportError::new(
                        ImportErrorCode::ResourceLimitExceeded,
                        "The import tool exceeded its diagnostic output limit.",
                        text::line("Tool diagnostic output is ").num(n).add(
                            " bytes; maximum is ",
                        ).num(MAX_TOOL_DIAGNOSTIC_DISK_BYTES).done(),
                    ),
                );
            }
        },
    }
    match check_produced(run, produced) {
        Ok(()) => {},
        Err(e) => {
            return Err(e);
        },
    }
    if success {
        return Ok(());
    }
    let tail = search::read_lossy(diagnostic_tail(printed));
    Err(
        ImportError::new(
            ImportErrorCode::ConversionFailed,
            run.user_reason.as_str(),
            text::line(run.executable.as_str()).add(" exited with ").add(status).add(
                "; diagnostic tail:\n",
            ).add(tail.as_str()).done(),
        ),
    )
}

/// What stands at a path that a tool has produced.
#[derive(Clone, Copy, Debug, PartialEq, Eq, Structural)]
pub enum OutputKind {
    /// Nothing any more: short-lived files may vanish while they are counted.
    Missing,
    Link,
    File(u64),
    Directory,
    Other,
}

/// What a path that a tool has produced counts for: nothing of its own for a directory, which is
/// walked.
pub open spec fn counted_output(kind: OutputKind, depth: usize, entries: usize, path: Seq<char>) -> Result<
    Option<u64>,
    ImportErrorView,
> {
    if depth > MAX_TOOL_OUTPUT_DEPTH || entries > MAX_TOOL_OUTPUT_ENTRIES {
        Err(
            resource(
                "The import tool created an unexpectedly deep or wide output tree."@,
                "Tool output tree limit exceeded\nPath: "@ + path,
            ),
        )
    } else {
        match kind {
            OutputKind::Missing => Ok(Some(0u64)),
            OutputKind::Link => Err(
                import::import_error(
                    ImportErrorCode::ValidationFailed,
                    "The import tool produced a symbolic link."@,
                    "Tool output symlink rejected\nPath: "@ + path,
                ),
            ),
            OutputKind::File(n) => Ok(Some(n)),
            OutputKind::Directory => Ok(None),
            OutputKind::Other => Err(
                import::import_error(
                    ImportErrorCode::ValidationFailed,
                    "The import tool produced an unsupported filesystem object."@,
                    "Unsupported tool output object\nPath: "@ + path,
                ),
            ),
        }
    }
}

/// Counts a path that a tool has produced, after `entries` others.
pub fn count_output(kind: OutputKind, depth: usize, entries: usize, path: &str) -> (r: Result<
    Option<u64>,
    ImportError,
>)
    ensures
        import::outcome(r) == counted_output(kind, depth, entries, path@),
{
    if depth > MAX_TOOL_OUTPUT_DEPTH || entries > MAX_TOOL_OUTPUT_ENTRIES {
        return Err(
            ImportError::new(
                ImportErrorCode::ResourceLimitExceeded,
                "The import tool created an unexpectedly deep or wide output tree.",
                text::line("Tool output tree limit exceeded\nPath: ").add(path).done(),
            ),
        );
    }
    match kind {
        OutputKind::Missing => Ok(Some(0u64)),
        OutputKind::Link => Err(
            ImportError::new(
                ImportErrorCode::ValidationFailed,
                "The import tool produced a symbolic link.",
                text::line("Tool output symlink rejected\nPath: ").add(path).done(),
            ),
        ),
        OutputKind::File(n) => Ok(Some(n)),
        OutputKind::Directory => Ok(None),
        OutputKind::Other => Err(
            ImportError::new(
                ImportErrorCode::ValidationFailed,
                "The import tool produced an unsupported filesystem object.",
                text::line("Unsupported tool output object\nPath: ").add(path).done(),
            ),
        ),
    }
}

/// Adds what an entry of a directory counts for.
pub fn add_output(total: u64, size: u64, path: &str) -> (r: Result<u64, ImportError>)
    ensures
        import::outcome(r) == if total + size > u64::MAX {
            Err::<u64, ImportErrorView>(
                resource(
                    "The import tool output size overflowed its accounting limit."@,
                    "Tool output size overflow\nPath: "@ + path@,
                ),
            )
        } else {
            Ok((total + size) as u64)
        },
{
    match total.checked_add(size) {
        Some(n) => Ok(n),
        None => Err(
            ImportError::new(
                ImportErrorCode::ResourceLimitExceeded,
                "The import tool output size overflowed its accounting limit.",
                text::line("Tool output size overflow\nPath: ").add(path).done(),
            ),
        ),
    }
}

/// A tool that is cancelled, or whose output or time runs over, is stopped at the next look.
pub proof fn law_unbounded_tools_are_stopped(run: ToolRun, s: ToolSample)
    requires
        !s.exited,
        s.cancelled || s.elapsed_ms >= run.timeout_ms || (s.produced matches Ok(n) && n
            > run.max_output_bytes) || (s.diagnostics matches Ok(n) && n
            > MAX_TOOL_DIAGNOSTIC_DISK_BYTES),
    ensures
        stop_reason(run, s) is Some,
{
}

/// A tool runs on exactly as long as it is not cancelled, its diagnostics and what it produces are
/// known and within their limits, and its time is not up; one that has ended is not stopped.
pub proof fn law_tools_run_within_their_limits(run: ToolRun, s: ToolSample)
    ensures
        stop_reason(run, s) is None <==> s.exited || {
            &&& !s.cancelled
            &&& s.diagnostics is Ok && s.diagnostics->Ok_0 <= 16_777_216
            &&& s.produced is Ok && s.produced->Ok_0 <= run.max_output_bytes
            &&& s.elapsed_ms < run.timeout_ms
        },
{
}

/// A tool that has ended did its work exactly if it says so, and its diagnostics and what it
/// produced are known and within their limits.
pub proof fn law_ended_tools_succeed_within_their_limits(
    run: ToolRun,
    diagnostics: Result<u64, String>,
    produced: Result<u64, ImportError>,
    success: bool,
    status: Seq<char>,
    printed: Seq<u8>,
)
    ensures
        end_failure(run, diagnostics, produced, success, status, printed) is None <==> {
            &&& success
            &&& diagnostics is Ok && diagnostics->Ok_0 <= 16_777_216
            &&& produced is Ok && produced->Ok_0 <= run.max_output_bytes
        },
{
}

/// What is shown of a tool's diagnostics is their end, at most sixteen kilobytes of it, and all of
/// it where it is no longer.
pub proof fn law_diagnostics_end_as_they_were_printed(printed: Seq<u8>)
    ensures
        tail_of(printed).len() == if printed.len() <= 16_384 {
            printed.len() as int
        } else {
            16_384
        },
        forall|i: int|
            0 <= i < tail_of(printed).len() ==> #[trigger] tail_of(printed)[i] == printed[printed.len()
                - tail_of(printed).len() + i],
{
}

/// Only files count towards what a tool has produced, each with its own size; links and other
/// objects are refused, and so is a tree deeper than eight levels or wider than 4096 entries.
pub proof fn law_outputs_count_their_files(
    kind: OutputKind,
    depth: usize,
    entries: usize,
    path: Seq<char>,
)
    ensures
        counted_output(kind, depth, entries, path) is Ok <==> depth <= 8 && entries <= 4_096
            && kind !is Link && kind !is Other,
        counted_output(kind, depth, entries, path) matches Ok(counted) ==> match kind {
            OutputKind::File(n) => counted == Some(n),
            OutputKind::Missing => counted == Some(0u64),
            _ => counted is None,
        },
{
}

} // verus!
