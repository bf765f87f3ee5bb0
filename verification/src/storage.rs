//! The storage of imported files: its quota, its paths and what is sent from it.

use crate::api;
use crate::api::{ApiError, ApiErrorKind};
use crate::discovery_rules;
use crate::names;
use crate::table;
use crate::text;
use crate::uploads;
use vstd::prelude::*;
use vstd::string::*;
use vstd::utf8::*;

verus! {

pub const DEFAULT_STORAGE_QUOTA_BYTES: u64 = 21_474_836_480;

/// How much of the storage is in use.
#[derive(Debug)]
pub struct StorageUse {
    pub used_bytes: u64,
    pub quota_bytes: u64,
}

/// Whether a reservation fits.
pub open spec fn fits(s: StorageUse, additional: u64) -> bool {
    s.used_bytes + additional <= u64::MAX && s.used_bytes + additional <= s.quota_bytes
}

pub open spec fn reserved(s: StorageUse, additional: u64) -> StorageUse {
    if fits(s, additional) {
        StorageUse { used_bytes: (s.used_bytes + additional) as u64, quota_bytes: s.quota_bytes }
    } else {
        s
    }
}

pub open spec fn released(s: StorageUse, bytes: u64) -> StorageUse {
    StorageUse {
        used_bytes: if s.used_bytes >= bytes {
            (s.used_bytes - bytes) as u64
        } else {
            0
        },
        quota_bytes: s.quota_bytes,
    }
}

pub open spec fn quota_failure(s: StorageUse) -> api::ApiErrorView {
    uploads::too_large(
        "RMS storage has reached its "@ + text::decimal(s.quota_bytes as nat) + " byte quota."@,
    )
}

impl StorageUse {
    pub fn new(used_bytes: u64, quota_bytes: u64) -> (r: Self)
        ensures
            r.used_bytes == used_bytes,
            r.quota_bytes == quota_bytes,
    {
        StorageUse { used_bytes, quota_bytes }
    }

    /// Takes room from the quota, if there is enough.
    pub fn reserve_bytes(&mut self, additional_bytes: u64) -> (r: bool)
        ensures
            r == fits(*old(self), additional_bytes),
            *final(self) == reserved(*old(self), additional_bytes),
    {
        match self.used_bytes.checked_add(additional_bytes) {
            Some(next) => {
                if next > self.quota_bytes {
                    return false;
                }
                self.used_bytes = next;
                true
            },
            None => false,
        }
    }

    /// Gives room back.
    pub fn release_bytes(&mut self, bytes: u64)
        ensures
            *final(self) == released(*old(self), bytes),
    {
        self.used_bytes = self.used_bytes.saturating_sub(bytes);
    }

    /// Takes room from the quota or says why not.
    pub fn reserve(&mut self, bytes: u64) -> (r: Result<(), ApiError>)
        ensures
            discovery_rules::checked(
                r,
                if fits(*old(self), bytes) {
                    None
                } else {
                    Some(quota_failure(*old(self)))
                },
            ),
            *final(self) == reserved(*old(self), bytes),
    {
        if self.reserve_bytes(bytes) {
            return Ok(());
        }
        let message = text::line("RMS storage has reached its ").num(self.quota_bytes).add(
            " byte quota.",
        ).done();
        Err(ApiError::new(ApiErrorKind::PayloadTooLarge, message.as_str()))
    }

    /// Keeps of a reservation only what a file really takes.
    pub fn keep_actual(&mut self, reserved_bytes: u64, actual_bytes: u64)
        ensures
            *final(self) == released(
                *old(self),
                if reserved_bytes >= actual_bytes {
                    (reserved_bytes - actual_bytes) as u64
                } else {
                    0
                },
            ),
    {
        self.release_bytes(reserved_bytes.saturating_sub(actual_bytes));
    }
}

/// A reservation never takes the storage over its quota, and releasing it undoes it.
pub proof fn law_reservations_stay_within_the_quota(s: StorageUse, bytes: u64)
    ensures
        fits(s, bytes) ==> reserved(s, bytes).used_bytes <= s.quota_bytes,
        s.used_bytes <= s.quota_bytes ==> reserved(s, bytes).used_bytes <= s.quota_bytes
            && released(s, bytes).used_bytes <= s.quota_bytes,
        fits(s, bytes) ==> released(reserved(s, bytes), bytes) == s,
{
}

/// What all reservations of an upload come to.
#[derive(Debug)]
pub struct UploadReservation {
    pub reserved_bytes: u64,
}

impl UploadReservation {
    pub fn new() -> (r: Self)
        ensures
            r.reserved_bytes == 0,
    {
        UploadReservation { reserved_bytes: 0 }
    }

    /// Reserves room for one more chunk of an upload.
    pub fn reserve(&mut self, storage: &mut StorageUse, bytes: u64) -> (r: Result<(), ApiError>)
        ensures
            discovery_rules::checked(
                r,
                if fits(*old(storage), bytes) {
                    None
                } else {
                    Some(quota_failure(*old(storage)))
                },
            ),
            *final(storage) == reserved(*old(storage), bytes),
            r is Ok ==> final(self).reserved_bytes == if old(self).reserved_bytes + bytes
                <= u64::MAX {
                old(self).reserved_bytes + bytes
            } else {
                u64::MAX as int
            },
            r is Err ==> *final(self) == *old(self),
    {
        match storage.reserve(bytes) {
            Ok(()) => {},
            Err(e) => {
                return Err(e);
            },
        }
        self.reserved_bytes = self.reserved_bytes.saturating_add(bytes);
        Ok(())
    }
}

pub open spec fn source_path(import_id: Seq<char>) -> Seq<char> {
    "imports/"@ + import_id + "/source/upload.bin"@
}

/// Where an uploaded file is kept, below the storage root.
pub fn relative_source_path(import_id: &str) -> (r: String)
    ensures
        r@ == source_path(import_id@),
{
    text::line("imports/").add(import_id).add("/source/upload.bin").done()
}

pub open spec fn rrd_path(import_id: Seq<char>) -> Seq<char> {
    "imports/"@ + import_id + "/recording.rrd"@
}

/// Where a converted recording is kept, below the storage root.
pub fn relative_rrd_path(import_id: &str) -> (r: String)
    ensures
        r@ == rrd_path(import_id@),
{
    text::line("imports/").add(import_id).add("/recording.rrd").done()
}

/// Whether a segment of a path that starts at `i` is a step up.
pub open spec fn steps_up_at(s: Seq<char>, i: int) -> bool {
    0 <= i && i + 2 <= s.len() && s[i] == '.' && s[i + 1] == '.' && (i == 0 || s[i - 1] == '/') && (i
        + 2 == s.len() || s[i + 2] == '/')
}

/// A path that stays below where it starts: it is not absolute, does not begin with the current
/// directory, and never steps up.
pub open spec fn stays_below(s: Seq<char>) -> bool {
    &&& s.len() == 0 || s[0] != '/'
    &&& !(s.len() > 0 && s[0] == '.' && (s.len() == 1 || s[1] == '/'))
    &&& forall|i: int| !(#[trigger] steps_up_at(s, i))
}

/// Whether an artifact path may be used below the storage root.
pub fn validate_relative_path(path: &str) -> (r: bool)
    ensures
        r == stays_below(path@),
{
    let v = text::chars_of(path);
    let n: usize = v.len();
    if n == 0 {
        return true;
    }
    if v[0] == '/' {
        return false;
    }
    if v[0] == '.' && (n == 1 || v[1] == '/') {
        return false;
    }
    let mut i: usize = 0;
    while n >= 2 && i <= n - 2
        invariant
            n == v@.len(),
            v@ == path@,
            i <= n,
            forall|j: int| j < i ==> !(#[trigger] steps_up_at(path@, j)),
        decreases n - i,
    {
        if v[i] == '.' && v[i + 1] == '.' && (i == 0 || v[i - 1] == '/') && (i == n - 2 || v[i + 2]
            == '/') {
            assert(steps_up_at(path@, i as int));
            return false;
        }
        i = i + 1;
    }
    true
}

/// A path below the storage root that was made for an import stays there.
pub proof fn law_import_paths_stay_below_the_root(import_id: Seq<char>)
    requires
        safe_id(import_id),
    ensures
        stays_below(source_path(import_id)),
        stays_below(rrd_path(import_id)),
{
    reveal_strlit("imports/");
    reveal_strlit("/source/upload.bin");
    reveal_strlit("/recording.rrd");
    reveal_strlit(".");
    reveal_strlit("..");
    lemma_inner_path(import_id, "/source/upload.bin"@);
    lemma_inner_path(import_id, "/recording.rrd"@);
}

proof fn lemma_inner_path(id: Seq<char>, tail: Seq<char>)
    requires
        safe_id(id),
        tail.len() > 3,
        tail[0] == '/',
        tail[1] != '.',
        forall|i: int| 0 <= i < tail.len() - 1 ==> !(#[trigger] tail[i] == '.' && tail[i + 1] == '.'),
    ensures
        stays_below("imports/"@ + id + tail),
{
    reveal_strlit("imports/");
    reveal_strlit("..");
    let s = "imports/"@ + id + tail;
    assert forall|i: int| !(#[trigger] steps_up_at(s, i)) by {
        if steps_up_at(s, i) {
            let n = id.len();
            if i < 7 {
                assert(s[i] == "imports/"@[i]);
            } else if i == 7 {
                assert(s[7] == '/');
            } else if i < 8 + n {
                assert(s[i] == id[i - 8]);
                if i > 8 {
                    assert(s[i - 1] == id[i - 9]);
                    assert(names::has_char(id, '/'));
                } else if n >= 2 {
                    assert(s[9] == id[1]);
                    if n == 2 {
                        assert(id =~= ".."@);
                    } else {
                        assert(s[10] == id[2]);
                        assert(names::has_char(id, '/'));
                    }
                } else {
                    assert(s[9] == tail[0]);
                }
            } else {
                assert(s[i] == tail[i - 8 - n]);
                assert(s[i + 1] == tail[i + 1 - 8 - n]);
            }
        }
    }
}

/// An import identifier that is a single path component.
pub open spec fn safe_id(id: Seq<char>) -> bool {
    id.len() > 0 && !names::has_char(id, '/') && !names::has_char(id, '\\') && id != "."@ && id
        != ".."@
}

pub fn validate_import_id(import_id: &str) -> (r: bool)
    ensures
        r == safe_id(import_id@),
{
    !import_id.is_empty() && !names::contains_char(import_id, '/') && !names::contains_char(
        import_id,
        '\\',
    ) && !text::same(import_id, ".") && !text::same(import_id, "..")
}

/// The bytes of a file, first and last, that a range header asks for.
pub open spec fn requested_range(value: Seq<char>, total: u64) -> Option<(u64, u64)> {
    match text::after_prefix(value, "bytes="@) {
        None => None,
        Some(range) => if total == 0 || names::has_char(range, ',') {
            None
        } else {
            match text::cut(range, '-') {
                None => None,
                Some((first, last)) => if first.len() == 0 {
                    suffix_range(last, total)
                } else {
                    inner_range(first, last, total)
                },
            }
        },
    }
}

/// The last bytes of a file, as many as the text says.
pub open spec fn suffix_range(last: Seq<char>, total: u64) -> Option<(u64, u64)> {
    match text::number_read(last, u64::MAX as nat) {
        None => None,
        Some(n) => if n == 0 {
            None
        } else if n <= total {
            Some(((total - n) as u64, (total - 1) as u64))
        } else {
            Some((0, (total - 1) as u64))
        },
    }
}

/// The bytes of a file from the first to the last that the texts say.
pub open spec fn inner_range(first: Seq<char>, last: Seq<char>, total: u64) -> Option<(u64, u64)> {
    match text::number_read(first, u64::MAX as nat) {
        None => None,
        Some(start) => if start >= total {
            None
        } else {
            let end: Option<nat> = if last.len() == 0 {
                Some((total - 1) as nat)
            } else {
                match text::number_read(last, u64::MAX as nat) {
                    None => None,
                    Some(e) => if e < total {
                        Some(e)
                    } else {
                        Some((total - 1) as nat)
                    },
                }
            };
            match end {
                None => None,
                Some(e) => if e < start {
                    None
                } else {
                    Some((start as u64, e as u64))
                },
            }
        },
    }
}

/// Reads a range header for a file of `total_len` bytes.
pub fn parse_range(value: &str, total_len: u64) -> (r: Option<(u64, u64)>)
    ensures
        r == requested_range(value@, total_len),
{
    let range = match text::strip_prefix(value, "bytes=") {
        Some(range) => range,
        None => {
            return None;
        },
    };
    if total_len == 0 || names::contains_char(range.as_str(), ',') {
        return None;
    }
    let (first, last) = match text::split_once(range.as_str(), '-') {
        Some(parts) => parts,
        None => {
            return None;
        },
    };
    if first.as_str().is_empty() {
        return match text::parse_number(last.as_str(), u64::MAX) {
            None => None,
            Some(n) => {
                if n == 0 {
                    None
                } else {
                    Some((total_len.saturating_sub(n), total_len - 1))
                }
            },
        };
    }
    let start: u64 = match text::parse_number(first.as_str(), u64::MAX) {
        Some(n) => n,
        None => {
            return None;
        },
    };
    if start >= total_len {
        return None;
    }
    let end: u64 = if last.as_str().is_empty() {
        total_len - 1
    } else {
        match text::parse_number(last.as_str(), u64::MAX) {
            Some(n) => {
                if n < total_len {
                    n
                } else {
                    total_len - 1
                }
            },
            None => {
                return None;
            },
        }
    };
    if end < start {
        return None;
    }
    Some((start, end))
}

/// A range that is sent lies within the file.
pub proof fn law_ranges_lie_within_the_file(value: Seq<char>, total: u64)
    ensures
        match requested_range(value, total) {
            Some((start, end)) => start <= end < total,
            None => true,
        },
{
}

/// What of a file is sent.
#[derive(Clone, Copy, Debug, PartialEq, Eq, Structural)]
pub enum FileRange {
    Whole,
    Part { start: u64, end: u64 },
    Unsatisfiable,
}

pub open spec fn tag_text(digest: Seq<char>) -> Seq<char> {
    "\"sha256:"@ + digest + "\""@
}

/// The entity tag of a file with the given digest.
pub fn etag(digest: &str) -> (r: String)
    ensures
        r@ == tag_text(digest@),
{
    text::line("\"sha256:").add(digest).add("\"").done()
}

pub open spec fn range_to_send(
    range: Option<Seq<u8>>,
    if_range: Option<Seq<u8>>,
    digest: Seq<char>,
    total: u64,
) -> FileRange {
    match range {
        None => FileRange::Whole,
        Some(bytes) => if !(if_range is None || if_range == Some(encode_utf8(tag_text(digest)))) {
            FileRange::Whole
        } else if !discovery_rules::all_visible(bytes) {
            FileRange::Whole
        } else {
            match requested_range(discovery_rules::ascii_text(bytes), total) {
                Some((start, end)) => FileRange::Part { start, end },
                None => FileRange::Unsatisfiable,
            }
        },
    }
}

/// Decides what of a file is sent: a range only where it is of the file that the client knows.
pub fn choose_range(
    range: &Option<Vec<u8>>,
    if_range: &Option<Vec<u8>>,
    digest: &str,
    total_len: u64,
) -> (r: FileRange)
    ensures
        r == range_to_send(
            discovery_rules::raw_view(*range),
            discovery_rules::raw_view(*if_range),
            digest@,
            total_len,
        ),
{
    let bytes = match range {
        None => {
            return FileRange::Whole;
        },
        Some(bytes) => bytes,
    };
    let tag = etag(digest);
    let matches = match if_range {
        None => true,
        Some(wanted) => text::same_bytes(wanted.as_slice(), tag.as_str().as_bytes()),
    };
    if !matches {
        return FileRange::Whole;
    }
    match discovery_rules::visible_text(bytes.as_slice()) {
        None => FileRange::Whole,
        Some(s) => match parse_range(s.as_str(), total_len) {
            Some((start, end)) => FileRange::Part { start, end },
            None => FileRange::Unsatisfiable,
        },
    }
}

/// The head of a file response.
#[derive(Debug)]
pub struct FileHead {
    pub status: u16,
    pub content_range: Option<String>,
    pub content_length: u64,
    pub cache_control: &'static str,
    pub etag: String,
}

pub open spec fn range_status(range: FileRange) -> u16 {
    match range {
        FileRange::Whole => 200,
        FileRange::Part { .. } => 206,
        FileRange::Unsatisfiable => 416,
    }
}

pub open spec fn range_text(range: FileRange, total: u64) -> Option<Seq<char>> {
    match range {
        FileRange::Whole => None,
        FileRange::Part { start, end } => Some(
            "bytes "@ + text::decimal(start as nat) + "-"@ + text::decimal(end as nat) + "/"@
                + text::decimal(total as nat),
        ),
        FileRange::Unsatisfiable => Some("bytes */"@ + text::decimal(total as nat)),
    }
}

pub open spec fn range_len(range: FileRange, total: u64) -> int {
    match range {
        FileRange::Whole => total as int,
        FileRange::Part { start, end } => end - start + 1,
        FileRange::Unsatisfiable => 0,
    }
}

/// Writes the head of a file response.
pub fn file_head(range: FileRange, total_len: u64, digest: &str, immutable: bool) -> (r: FileHead)
    requires
        range matches FileRange::Part { start, end } ==> start <= end < total_len,
    ensures
        r.status == range_status(range),
        table::view_option(r.content_range) == range_text(range, total_len),
        r.content_length == range_len(range, total_len),
        r.cache_control@ == if immutable {
            "private, max-age=31536000, immutable"@
        } else {
            "private, no-store"@
        },
        r.etag@ == tag_text(digest@),
{
    let (status, content_range, content_length) = match range {
        FileRange::Whole => (200u16, None, total_len),
        FileRange::Part { start, end } => (
            206u16,
            Some(
                text::line("bytes ").num(start).add("-").num(end).add("/").num(total_len).done(),
            ),
            end - start + 1,
        ),
        FileRange::Unsatisfiable => (
            416u16,
            Some(text::line("bytes */").num(total_len).done()),
            0u64,
        ),
    };
    let cache_control = if immutable {
        "private, max-age=31536000, immutable"
    } else {
        "private, no-store"
    };
    FileHead { status, content_range, content_length, cache_control, etag: etag(digest) }
}

/// What to do at startup with an entry of the trash or of the imports.
#[derive(Clone, Copy, Debug, PartialEq, Eq, Structural)]
pub enum RecoveryAction {
    Keep,
    Restore,
    Remove,
}

/// A trashed import whose deletion was never recorded comes back; all else goes.
pub fn recover_trash(referenced: bool, original_exists: bool) -> (r: RecoveryAction)
    ensures
        r == if referenced && !original_exists {
            RecoveryAction::Restore
        } else {
            RecoveryAction::Remove
        },
{
    if referenced && !original_exists {
        RecoveryAction::Restore
    } else {
        RecoveryAction::Remove
    }
}

/// An import directory that the registry does not know goes.
pub fn recover_import(referenced: bool) -> (r: RecoveryAction)
    ensures
        r == if referenced {
            RecoveryAction::Keep
        } else {
            RecoveryAction::Remove
        },
{
    if referenced {
        RecoveryAction::Keep
    } else {
        RecoveryAction::Remove
    }
}

pub open spec fn sum(sizes: Seq<u64>) -> nat
    decreases sizes.len(),
{
    if sizes.len() == 0 {
        0
    } else {
        sum(sizes.drop_last()) + sizes.last() as nat
    }
}

proof fn lemma_sum_grows(sizes: Seq<u64>, i: int)
    requires
        0 <= i <= sizes.len(),
    ensures
        sum(sizes.take(i)) <= sum(sizes),
    decreases sizes.len() - i,
{
    if i < sizes.len() {
        lemma_sum_grows(sizes, i + 1);
        assert(sizes.take(i + 1).drop_last() =~= sizes.take(i));
    } else {
        assert(sizes.take(i) =~= sizes);
    }
}

/// The size of a directory from the sizes of its entries, if it is representable.
pub fn directory_size(sizes: &Vec<u64>) -> (r: Option<u64>)
    ensures
        match r {
            Some(total) => total == sum(sizes@),
            None => sum(sizes@) > u64::MAX,
        },
{
    let mut total: u64 = 0;
    let mut i: usize = 0;
    while i < sizes.len()
        invariant
            i <= sizes@.len(),
            total == sum(sizes@.take(i as int)),
        decreases sizes@.len() - i,
    {
        proof {
            assert(sizes@.take(i + 1).drop_last() =~= sizes@.take(i as int));
            lemma_sum_grows(sizes@, i + 1);
        }
        match total.checked_add(sizes[i]) {
            Some(next) => {
                total = next;
            },
            None => {
                return None;
            },
        }
        i = i + 1;
    }
    proof {
        assert(sizes@.take(i as int) =~= sizes@);
    }
    Some(total)
}

/// A configured amount, or the default where none was given that is a number above zero.
pub open spec fn configured(value: Option<Seq<char>>, default: u64) -> nat {
    match value {
        Some(s) => match text::number_read(s, u64::MAX as nat) {
            Some(n) => if n > 0 {
                n
            } else {
                default as nat
            },
            None => default as nat,
        },
        None => default as nat,
    }
}

pub fn configured_amount(value: &Option<String>, default_amount: u64) -> (r: u64)
    ensures
        r == configured(table::view_option(*value), default_amount),
{
    match value {
        Some(s) => match text::parse_number(s.as_str(), u64::MAX) {
            Some(n) => {
                if n > 0 {
                    n
                } else {
                    default_amount
                }
            },
            None => default_amount,
        },
        None => default_amount,
    }
}

proof fn lemma_no_dash(s: Seq<char>)
    requires
        text::all_digits(s),
    ensures
        !s.contains('-'),
        !s.contains(','),
{
    if s.contains('-') {
        let i = choose|i: int| 0 <= i < s.len() && s[i] == '-';
        assert(text::is_digit(s[i]));
    }
    if s.contains(',') {
        let i = choose|i: int| 0 <= i < s.len() && s[i] == ',';
        assert(text::is_digit(s[i]));
    }
}

proof fn lemma_read_range(first: Seq<char>, last: Seq<char>, total: u64)
    requires
        text::all_digits(first),
        text::all_digits(last),
        total > 0,
    ensures
        requested_range("bytes="@ + (first + seq!['-'] + last), total) == if first.len() == 0 {
            suffix_range(last, total)
        } else {
            inner_range(first, last, total)
        },
{
    let range = first + seq!['-'] + last;
    let prefix = "bytes="@;
    let value = prefix + range;
    lemma_no_dash(first);
    lemma_no_dash(last);
    assert(value.subrange(0, prefix.len() as int) =~= prefix);
    assert(value.skip(prefix.len() as int) =~= range);
    assert(!names::has_char(range, ',')) by {
        assert forall|i: int| 0 <= i < range.len() implies range[i] != ',' by {
            if i < first.len() {
                assert(range[i] == first[i]);
                assert(first.contains(first[i]));
            } else if i > first.len() {
                assert(range[i] == last[i - first.len() - 1]);
                assert(last.contains(last[i - first.len() - 1]));
            }
        }
    }
    let at = first.len() as int;
    range.index_of_first_ensures('-');
    assert(range[at] == '-');
    assert(range.contains('-'));
    let found = range.index_of_first('-')->Some_0;
    assert(found == at) by {
        if found < at {
            assert(range[found] == first[found]);
            assert(first.contains(first[found]));
        }
    }
    assert(range.take(at) =~= first);
    assert(range.skip(at + 1) =~= last);
}

/// A range of bytes from one place to another gives just those, cut at the end of the file; one
/// that is open at its end gives all from there; and one that has only an end gives that many of
/// the last bytes.
pub proof fn law_ranges_give_what_they_name(first: u64, last: u64, total: u64)
    requires
        total > 0,
    ensures
        requested_range(
            "bytes="@ + (text::decimal(first as nat) + seq!['-'] + text::decimal(last as nat)),
            total,
        ) == if first <= last && first < total {
            Some(
                (
                    first,
                    if last < total {
                        last
                    } else {
                        (total - 1) as u64
                    },
                ),
            )
        } else {
            None
        },
        requested_range(
            "bytes="@ + (text::decimal(first as nat) + seq!['-'] + Seq::<char>::empty()),
            total,
        ) == if first < total {
            Some((first, (total - 1) as u64))
        } else {
            None
        },
        requested_range(
            "bytes="@ + (Seq::<char>::empty() + seq!['-'] + text::decimal(last as nat)),
            total,
        ) == if last == 0 {
            None
        } else if last <= total {
            Some(((total - last) as u64, (total - 1) as u64))
        } else {
            Some((0u64, (total - 1) as u64))
        },
{
    let a = text::decimal(first as nat);
    let b = text::decimal(last as nat);
    let none = Seq::<char>::empty();
    text::law_written_numbers_read_back(first as nat, u64::MAX as nat);
    text::law_written_numbers_read_back(last as nat, u64::MAX as nat);
    lemma_read_range(a, b, total);
    lemma_read_range(a, none, total);
    lemma_read_range(none, b, total);
}

/// A part of a file is sent only where one was asked for, and only of the file that it was asked
/// of: where the file has changed since, the whole is sent. The answer says what it holds: its
/// status, its length and its place.
pub proof fn law_parts_are_sent_of_the_same_file(
    range: Option<Seq<u8>>,
    if_range: Option<Seq<u8>>,
    digest: Seq<char>,
    total: u64,
)
    ensures
        ({
            let sent = range_to_send(range, if_range, digest, total);
            &&& range is None ==> sent == FileRange::Whole
            &&& if_range is Some && if_range != Some(encode_utf8("\"sha256:"@ + digest + "\""@))
                ==> sent == FileRange::Whole
            &&& sent matches FileRange::Part { start, end } ==> start <= end < total && range_len(
                sent,
                total,
            ) == end - start + 1
            &&& sent == FileRange::Whole <==> range_status(sent) == 200
            &&& sent is Part <==> range_status(sent) == 206
            &&& sent == FileRange::Unsatisfiable <==> range_status(sent) == 416
            &&& sent == FileRange::Whole ==> range_len(sent, total) == total && range_text(
                sent,
                total,
            ) is None
            &&& sent == FileRange::Unsatisfiable ==> range_len(sent, total) == 0
        }),
{
    if range is Some && discovery_rules::all_visible(range->Some_0) {
        law_ranges_lie_within_the_file(discovery_rules::ascii_text(range->Some_0), total);
    }
}

/// A reservation takes exactly its bytes where they fit into the quota, and nothing where not; a
/// release gives exactly its bytes back.
pub proof fn law_reservations_count_their_bytes(s: StorageUse, bytes: u64)
    ensures
        reserved(s, bytes).quota_bytes == s.quota_bytes,
        s.used_bytes + bytes <= s.quota_bytes ==> reserved(s, bytes).used_bytes == s.used_bytes
            + bytes,
        s.used_bytes + bytes > s.quota_bytes ==> reserved(s, bytes) == s,
        bytes <= s.used_bytes ==> released(s, bytes).used_bytes == s.used_bytes - bytes,
        bytes > s.used_bytes ==> released(s, bytes).used_bytes == 0,
{
}

/// The files of two imports never share a path, nor do the upload and the recording of one.
pub proof fn law_imports_have_their_own_files(a: Seq<char>, b: Seq<char>)
    requires
        !a.contains('/'),
        !b.contains('/'),
    ensures
        source_path(a) == source_path(b) ==> a == b,
        rrd_path(a) == rrd_path(b) ==> a == b,
        source_path(a) != rrd_path(b),
{
    reveal_strlit("imports/");
    reveal_strlit("/source/upload.bin");
    reveal_strlit("/recording.rrd");
    assert("imports/"@.len() == 8 && "/source/upload.bin"@.len() == 18 && "/recording.rrd"@.len()
        == 14);
    if source_path(a) == source_path(b) {
        assert(a =~= source_path(a).subrange(8, source_path(a).len() - 18));
        assert(b =~= source_path(b).subrange(8, source_path(b).len() - 18));
    }
    if rrd_path(a) == rrd_path(b) {
        assert(a =~= rrd_path(a).subrange(8, rrd_path(a).len() - 14));
        assert(b =~= rrd_path(b).subrange(8, rrd_path(b).len() - 14));
    }
    if source_path(a) == rrd_path(b) {
        let s = source_path(a);
        let r = rrd_path(b);
        assert(s[s.len() - 1] == "/source/upload.bin"@[17]);
        assert(r[r.len() - 1] == "/recording.rrd"@[13]);
        assert("/source/upload.bin"@[17] == 'n' && "/recording.rrd"@[13] == 'd');
    }
}

/// A configured amount is taken where it is a number above zero, and the default otherwise.
pub proof fn law_configured_amounts_are_positive(n: nat, default: u64)
    requires
        n <= u64::MAX,
    ensures
        configured(Some(text::decimal(n)), default) == if n > 0 {
            n
        } else {
            default as nat
        },
        configured(None, default) == default,
{
    text::law_written_numbers_read_back(n, u64::MAX as nat);
}

} // verus!
