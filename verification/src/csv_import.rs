//! CSV sources: bounds, columns, timelines and the plan by which they become series.

use crate::import;
use crate::import::{ImportError, ImportErrorCode, ImportErrorView};
use crate::table;
use crate::text;
use vstd::arithmetic::power::*;
use vstd::prelude::*;

verus! {

pub const MAX_CSV_COLUMNS: usize = 256;
pub const MAX_CSV_ROWS: usize = 1_000_000;
pub const MAX_CSV_RECORD_BYTES: usize = 1_048_576;
pub const MAX_CSV_FIELD_BYTES: usize = 262_144;
pub const CSV_BATCH_ROWS: usize = 4_096;

#[derive(Clone, Copy, Debug, PartialEq, Eq, Structural)]
pub enum CsvTimelineKind {
    Sequence,
    Timestamp,
    Duration,
}

#[derive(Clone, Copy, Debug, PartialEq, Eq, Structural)]
pub enum CsvTimeUnit {
    Ns,
    Us,
    Ms,
    S,
}

impl Default for CsvTimeUnit {
    fn default() -> (r: Self)
        ensures
            r == CsvTimeUnit::Ns,
    {
        CsvTimeUnit::Ns
    }
}

/// How many nanoseconds a unit has.
pub open spec fn unit_scale(unit: CsvTimeUnit) -> i64 {
    match unit {
        CsvTimeUnit::Ns => 1,
        CsvTimeUnit::Us => 1_000,
        CsvTimeUnit::Ms => 1_000_000,
        CsvTimeUnit::S => 1_000_000_000,
    }
}

impl CsvTimeUnit {
    pub fn scale(self) -> (r: i64)
        ensures
            r == unit_scale(self),
    {
        match self {
            CsvTimeUnit::Ns => 1,
            CsvTimeUnit::Us => 1_000,
            CsvTimeUnit::Ms => 1_000_000,
            CsvTimeUnit::S => 1_000_000_000,
        }
    }
}

/// How many decimal places the scale stands for.
pub open spec fn places(scale: int) -> nat
    decreases scale,
{
    if scale < 10 {
        0
    } else {
        1 + places(scale / 10)
    }
}

pub open spec fn zeros(n: nat) -> Seq<char> {
    Seq::new(n, |i: int| '0')
}

/// The digits of a fraction, cut or filled up with zeros to `d` places.
pub open spec fn at_places(fraction: Seq<char>, d: nat) -> Seq<char> {
    if fraction.len() > d {
        fraction.take(d as int)
    } else {
        fraction + zeros((d - fraction.len()) as nat)
    }
}

/// The sign, the whole part and the fraction of a decimal number.
pub open spec fn decimal_parts(raw: Seq<char>) -> (bool, Seq<char>, Seq<char>) {
    let (negative, unsigned) = match text::after_prefix(raw, "-"@) {
        Some(rest) => (true, rest),
        None => (false, raw),
    };
    match text::cut(unsigned, '.') {
        Some((whole, fraction)) => (negative, whole, fraction),
        None => (negative, unsigned, Seq::empty()),
    }
}

/// A decimal number in units of one part in `scale`, if it is a whole number of them and fits.
pub open spec fn decimal_scaled(raw: Seq<char>, scale: int) -> Option<int> {
    let (negative, whole, fraction) = decimal_parts(raw);
    let d = places(scale);
    if whole.len() == 0 || !text::all_digits(whole) || !text::all_digits(fraction) {
        None
    } else if exists|i: int| d <= i < fraction.len() && #[trigger] fraction[i] != '0' {
        None
    } else {
        let size = text::digits_value(whole) * scale + text::digits_value(at_places(fraction, d));
        let value = if negative {
            -size
        } else {
            size
        };
        if i64::MIN <= value <= i64::MAX {
            Some(value)
        } else {
            None
        }
    }
}

fn digits_only(v: &Vec<char>) -> (r: bool)
    ensures
        r == text::all_digits(v@),
{
    let mut i: usize = 0;
    while i < v.len()
        invariant
            i <= v@.len(),
            forall|j: int| 0 <= j < i ==> text::is_digit(#[trigger] v@[j]),
        decreases v@.len() - i,
    {
        if !('0' <= v[i] && v[i] <= '9') {
            assert(!text::is_digit(v@[i as int]));
            return false;
        }
        i = i + 1;
    }
    true
}

fn count_places(scale: i64) -> (r: usize)
    requires
        scale > 0,
    ensures
        r == places(scale as int),
        r <= 18,
{
    let mut rest: i64 = scale;
    let mut n: usize = 0;
    proof {
        lemma_pow0(10);
    }
    while rest >= 10
        invariant
            0 < rest,
            places(scale as int) == n + places(rest as int),
            n <= 18,
            pow(10, n as nat) * rest <= i64::MAX,
            pow(10, n as nat) > 0,
        decreases rest,
    {
        proof {
            lemma_pow_step(n as nat, rest as int);
            lemma_pow_bound(n as nat);
        }
        rest = rest / 10;
        n = n + 1;
    }
    n
}

proof fn lemma_pow_step(n: nat, rest: int)
    requires
        rest >= 10,
        pow(10, n) > 0,
        pow(10, n) * rest <= i64::MAX,
    ensures
        pow(10, n + 1) * (rest / 10) <= i64::MAX,
        pow(10, n + 1) > 0,
        pow(10, n) <= i64::MAX / 10,
{
    lemma_pow1(10);
    lemma_pow_adds(10, n, 1);
    let p = pow(10, n);
    assert(pow(10, n + 1) == p * 10);
    assert(p * 10 * (rest / 10) <= p * rest) by (nonlinear_arith)
        requires
            p > 0,
            rest >= 10,
    ;
    assert(p * 10 <= p * rest) by (nonlinear_arith)
        requires
            p > 0,
            rest >= 10,
    ;
}

proof fn lemma_pow_bound(n: nat)
    requires
        pow(10, n) <= i64::MAX / 10,
    ensures
        n < 18,
{
    if n >= 18 {
        lemma_pow_increases(10, 18, n);
        assert(pow(10, 18) == 1_000_000_000_000_000_000) by {
            reveal(pow);
            reveal_with_fuel(pow, 19);
        }
    }
}

proof fn lemma_digits_bound(s: Seq<char>, i: int)
    requires
        text::all_digits(s),
        0 <= i <= s.len(),
        i <= 18,
    ensures
        text::digits_value(s.take(i)) < pow(10, i as nat),
        pow(10, i as nat) <= 1_000_000_000_000_000_000,
    decreases i,
{
    assert(pow(10, 18) == 1_000_000_000_000_000_000) by {
        reveal(pow);
        reveal_with_fuel(pow, 19);
    }
    lemma_pow_increases(10, i as nat, 18);
    if i == 0 {
        lemma_pow0(10);
        assert(s.take(0).len() == 0);
    } else {
        lemma_digits_bound(s, i - 1);
        assert(s.take(i).drop_last() =~= s.take(i - 1));
        assert(s.take(i).last() == s[i - 1]);
        assert(text::is_digit(s[i - 1]));
        lemma_pow1(10);
        lemma_pow_adds(10, (i - 1) as nat, 1);
        assert(pow(10, i as nat) == pow(10, (i - 1) as nat) * 10);
    }
}

/// The number that the first `d` digits of a fraction write.
fn fraction_value(fraction: &Vec<char>, d: usize) -> (r: u64)
    requires
        text::all_digits(fraction@),
        d <= 18,
    ensures
        r == text::digits_value(at_places(fraction@, d as nat)),
{
    let ghost padded = at_places(fraction@, d as nat);
    let mut value: u64 = 0;
    let mut i: usize = 0;
    assert(padded.len() == d);
    assert(text::all_digits(padded)) by {
        assert forall|j: int| 0 <= j < padded.len() implies text::is_digit(#[trigger] padded[j]) by {
            if j < fraction@.len() {
                assert(padded[j] == fraction@[j]);
            }
        }
    }
    assert(padded.take(0).len() == 0);
    while i < d
        invariant
            i <= d,
            d <= 18,
            padded.len() == d,
            padded == at_places(fraction@, d as nat),
            text::all_digits(padded),
            value == text::digits_value(padded.take(i as int)),
        decreases d - i,
    {
        proof {
            lemma_digits_bound(padded, i as int);
            lemma_digits_bound(padded, i + 1);
            assert(padded.take(i + 1).drop_last() =~= padded.take(i as int));
            assert(padded.take(i + 1).last() == padded[i as int]);
            assert(text::is_digit(padded[i as int]));
        }
        let digit: u64 = if i < fraction.len() {
            assert(padded[i as int] == fraction@[i as int]);
            (fraction[i] as u8 - 48u8) as u64
        } else {
            0
        };
        value = value * 10 + digit;
        i = i + 1;
    }
    proof {
        assert(padded.take(d as int) =~= padded);
    }
    value
}

/// Reads a decimal number in units of one part in `scale`.
pub fn parse_decimal_scaled(raw: &str, scale: i64) -> (r: Option<i64>)
    requires
        scale > 0,
    ensures
        match r {
            Some(v) => decimal_scaled(raw@, scale as int) == Some(v as int),
            None => decimal_scaled(raw@, scale as int) is None,
        },
{
    let (negative, unsigned) = match text::strip_prefix(raw, "-") {
        Some(rest) => (true, rest),
        None => (false, raw.to_owned()),
    };
    let (whole, fraction) = match text::split_once(unsigned.as_str(), '.') {
        Some(parts) => parts,
        None => (unsigned, "".to_owned()),
    };
    proof {
        reveal_strlit("");
        assert(""@ =~= Seq::<char>::empty());
        assert((negative, whole@, fraction@) == decimal_parts(raw@));
    }
    let whole_chars = text::chars_of(whole.as_str());
    let fraction_chars = text::chars_of(fraction.as_str());
    if whole_chars.len() == 0 || !digits_only(&whole_chars) || !digits_only(&fraction_chars) {
        return None;
    }
    let d: usize = count_places(scale);
    let mut i: usize = d;
    while i < fraction_chars.len()
        invariant
            d <= i,
            fraction_chars@ == fraction@,
            forall|j: int| d <= j < i && j < fraction@.len() ==> #[trigger] fraction@[j] == '0',
            (negative, whole@, fraction@) == decimal_parts(raw@),
            d == places(scale as int),
        decreases fraction_chars@.len() - i,
    {
        if fraction_chars[i] != '0' {
            assert(fraction@[i as int] != '0');
            return None;
        }
        i = i + 1;
    }
    let part: u64 = fraction_value(&fraction_chars, d);
    assert(text::is_digit(whole@[0]));
    let w: u64 = match text::parse_number(whole.as_str(), u64::MAX) {
        Some(w) => w,
        None => {
            proof {
                let value = text::digits_value(whole@);
                assert(value > u64::MAX);
                assert(value * scale >= value) by (nonlinear_arith)
                    requires
                        scale >= 1,
                ;
            }
            return None;
        },
    };
    proof {
        assert(w * scale <= 0xffff_ffff_ffff_ffff * 0x7fff_ffff_ffff_ffff) by (nonlinear_arith)
            requires
                0 <= w <= 0xffff_ffff_ffff_ffff,
                0 <= scale <= 0x7fff_ffff_ffff_ffff,
        ;
    }
    let size: u128 = (w as u128) * (scale as u128) + (part as u128);
    if negative {
        if size > 0x8000_0000_0000_0000u128 {
            return None;
        }
        if size == 0x8000_0000_0000_0000u128 {
            return Some(i64::MIN);
        }
        Some(-(size as i64))
    } else {
        if size > 0x7fff_ffff_ffff_ffffu128 {
            return None;
        }
        Some(size as i64)
    }
}

proof fn lemma_digits_concat(a: Seq<char>, b: Seq<char>)
    ensures
        text::digits_value(a + b) == text::digits_value(a) * pow(10, b.len())
            + text::digits_value(b),
    decreases b.len(),
{
    if b.len() == 0 {
        lemma_pow0(10);
        assert(a + b =~= a);
        assert(text::digits_value(a) * 1 == text::digits_value(a));
    } else {
        let c = b.drop_last();
        lemma_digits_concat(a, c);
        assert((a + b).drop_last() =~= a + c);
        assert((a + b).last() == b.last());
        lemma_pow1(10);
        lemma_pow_adds(10, c.len(), 1);
        let x = text::digits_value(a) as int;
        let p = pow(10, c.len());
        assert(pow(10, b.len()) == p * 10);
        assert((x * p) * 10 == x * (p * 10)) by (nonlinear_arith);
    }
}

proof fn lemma_zeros_value(n: nat)
    ensures
        text::digits_value(zeros(n)) == 0,
    decreases n,
{
    if n > 0 {
        lemma_zeros_value((n - 1) as nat);
        assert(zeros(n).drop_last() =~= zeros((n - 1) as nat));
        assert(zeros(n).last() == '0');
    }
}

proof fn lemma_places(d: nat)
    ensures
        places(pow(10, d)) == d,
        pow(10, d) > 0,
    decreases d,
{
    lemma_pow_positive(10, d);
    if d == 0 {
        lemma_pow0(10);
    } else {
        let e = (d - 1) as nat;
        lemma_places(e);
        lemma_pow1(10);
        lemma_pow_adds(10, e, 1);
        assert(pow(10, d) == pow(10, e) * 10);
        assert(pow(10, d) / 10 == pow(10, e));
    }
}

/// Scaling a decimal number by a power of ten is exact: the scaled number is to the power of ten
/// what the number without its point is to that of its places.
pub proof fn law_decimal_scaling_is_exact(raw: Seq<char>, d: nat)
    requires
        decimal_scaled(raw, pow(10, d)) is Some,
    ensures
        ({
            let (negative, whole, fraction) = decimal_parts(raw);
            let value = decimal_scaled(raw, pow(10, d))->Some_0;
            let size = if negative {
                -value
            } else {
                value
            };
            size * pow(10, fraction.len()) == text::digits_value(whole + fraction) * pow(10, d)
        }),
{
    let (negative, whole, fraction) = decimal_parts(raw);
    let k = fraction.len();
    lemma_places(d);
    lemma_digits_concat(whole, fraction);
    let w = text::digits_value(whole) as int;
    let f = text::digits_value(fraction) as int;
    let pd = pow(10, d);
    let pk = pow(10, k);
    if k <= d {
        let pad = (d - k) as nat;
        lemma_digits_concat(fraction, zeros(pad));
        lemma_zeros_value(pad);
        lemma_pow_adds(10, pad, k);
        if k == d {
            assert(at_places(fraction, d) =~= fraction + zeros(pad));
        }
        let pp = pow(10, pad);
        assert((w * pd + f * pp) * pk == (w * pk + f) * pd) by (nonlinear_arith)
            requires
                pd == pp * pk,
        ;
    } else {
        let rest = (k - d) as nat;
        let kept = fraction.take(d as int);
        assert(fraction =~= kept + zeros(rest));
        lemma_digits_concat(kept, zeros(rest));
        lemma_zeros_value(rest);
        lemma_pow_adds(10, d, rest);
        let g = text::digits_value(kept) as int;
        let pr = pow(10, rest);
        assert(f == g * pr);
        assert((w * pd + g) * pk == (w * pk + f) * pd) by (nonlinear_arith)
            requires
                pk == pd * pr,
                f == g * pr,
        ;
    }
}

pub open spec fn kind_label(kind: CsvTimelineKind) -> Seq<char> {
    match kind {
        CsvTimelineKind::Sequence => "Sequence"@,
        CsvTimelineKind::Timestamp => "Timestamp"@,
        CsvTimelineKind::Duration => "Duration"@,
    }
}

pub open spec fn unit_label(unit: CsvTimeUnit) -> Seq<char> {
    match unit {
        CsvTimeUnit::Ns => "Ns"@,
        CsvTimeUnit::Us => "Us"@,
        CsvTimeUnit::Ms => "Ms"@,
        CsvTimeUnit::S => "S"@,
    }
}

/// The time that a field of the timeline column writes.
pub open spec fn timeline_value(raw: Seq<char>, kind: CsvTimelineKind, unit: CsvTimeUnit) -> Option<int> {
    let trimmed = text::trim(raw);
    let value = match kind {
        CsvTimelineKind::Sequence => text::signed_read(trimmed),
        _ => decimal_scaled(trimmed, unit_scale(unit) as int),
    };
    if value == Some(i64::MIN as int) {
        None
    } else {
        value
    }
}

pub open spec fn timeline_failure(raw: Seq<char>, kind: CsvTimelineKind, unit: CsvTimeUnit) -> ImportErrorView {
    import::import_error(
        ImportErrorCode::ValidationFailed,
        "A CSV timeline value is invalid or outside the int64 range."@,
        "Failed to parse CSV timeline value "@ + text::debug_text(text::trim(raw)) + " as "@
            + kind_label(kind) + "/"@ + unit_label(unit),
    )
}

/// Reads a field of the timeline column.
pub fn parse_timeline(raw: &str, kind: CsvTimelineKind, unit: CsvTimeUnit) -> (r: Result<
    i64,
    ImportError,
>)
    ensures
        match timeline_value(raw@, kind, unit) {
            Some(v) => r matches Ok(found) && found == v,
            None => r matches Err(e) && e@ == timeline_failure(raw@, kind, unit),
        },
{
    let trimmed = text::trimmed(raw);
    let value = match kind {
        CsvTimelineKind::Sequence => text::parse_signed(trimmed.as_str()),
        _ => parse_decimal_scaled(trimmed.as_str(), unit.scale()),
    };
    match value {
        Some(v) => {
            if v != i64::MIN {
                return Ok(v);
            }
        },
        None => {},
    }
    let kind_text = match kind {
        CsvTimelineKind::Sequence => "Sequence",
        CsvTimelineKind::Timestamp => "Timestamp",
        CsvTimelineKind::Duration => "Duration",
    };
    let unit_text = match unit {
        CsvTimeUnit::Ns => "Ns",
        CsvTimeUnit::Us => "Us",
        CsvTimeUnit::Ms => "Ms",
        CsvTimeUnit::S => "S",
    };
    let shown = text::quoted(trimmed.as_str());
    Err(
        ImportError::new(
            ImportErrorCode::ValidationFailed,
            "A CSV timeline value is invalid or outside the int64 range.",
            text::line("Failed to parse CSV timeline value ").add(shown.as_str()).add(" as ").add(
                kind_text,
            ).add("/").add(unit_text).done(),
        ),
    )
}

/// Where a scan of a CSV source stands.
#[derive(Clone, Copy, Debug, PartialEq, Eq, Structural)]
pub struct CsvScan {
    pub record_bytes: usize,
    pub field_bytes: usize,
    pub in_quotes: bool,
    pub after_quote: bool,
}

pub open spec fn scan_start() -> CsvScan {
    CsvScan { record_bytes: 0, field_bytes: 0, in_quotes: false, after_quote: false }
}

pub open spec fn scan_failure() -> ImportErrorView {
    import::import_error(
        ImportErrorCode::ResourceLimitExceeded,
        "A CSV row or field exceeds the import size limit."@,
        "Bounded CSV preflight exceeded row limit "@ + text::decimal(MAX_CSV_RECORD_BYTES as nat)
            + " or field limit "@ + text::decimal(MAX_CSV_FIELD_BYTES as nat),
    )
}

/// The scan after one more byte, if no row or field has become too long.
pub open spec fn scan_step(s: CsvScan, byte: u8) -> Option<CsvScan> {
    let counted = CsvScan {
        record_bytes: (s.record_bytes + 1) as usize,
        field_bytes: (s.field_bytes + 1) as usize,
        ..s
    };
    if s.record_bytes + 1 > MAX_CSV_RECORD_BYTES || s.field_bytes + 1 > MAX_CSV_FIELD_BYTES {
        None
    } else if s.in_quotes {
        if byte == 34 {
            Some(CsvScan { in_quotes: false, after_quote: true, ..counted })
        } else {
            Some(counted)
        }
    } else if s.after_quote && byte == 34 {
        Some(CsvScan { in_quotes: true, after_quote: false, ..counted })
    } else if !s.after_quote && byte == 34 && counted.field_bytes == 1 {
        Some(CsvScan { in_quotes: true, ..counted })
    } else if byte == 44 {
        Some(CsvScan { field_bytes: 0, after_quote: false, ..counted })
    } else if byte == 10 {
        Some(CsvScan { record_bytes: 0, field_bytes: 0, after_quote: false, ..counted })
    } else {
        Some(CsvScan { after_quote: false, ..counted })
    }
}

/// The scan after the bytes from `i` on.
pub open spec fn scan_from(b: Seq<u8>, i: int, s: CsvScan) -> Option<CsvScan>
    decreases b.len() - i,
{
    if i < 0 || i >= b.len() {
        Some(s)
    } else {
        match scan_step(s, b[i]) {
            None => None,
            Some(t) => scan_from(b, i + 1, t),
        }
    }
}

impl CsvScan {
    pub fn new() -> (r: Self)
        ensures
            r == scan_start(),
            r.record_bytes <= MAX_CSV_RECORD_BYTES,
            r.field_bytes <= MAX_CSV_FIELD_BYTES,
    {
        CsvScan { record_bytes: 0, field_bytes: 0, in_quotes: false, after_quote: false }
    }
}

/// Scans one more piece of a CSV source for rows and fields that are too long.
pub fn validate_csv_source_bounded(start: CsvScan, bytes: &[u8]) -> (r: Result<
    CsvScan,
    ImportError,
>)
    requires
        start.record_bytes <= MAX_CSV_RECORD_BYTES,
        start.field_bytes <= MAX_CSV_FIELD_BYTES,
    ensures
        match scan_from(bytes@, 0, start) {
            Some(t) => r matches Ok(found) && found == t && t.record_bytes <= MAX_CSV_RECORD_BYTES
                && t.field_bytes <= MAX_CSV_FIELD_BYTES,
            None => r matches Err(e) && e@ == scan_failure(),
        },
{
    let n: usize = bytes.len();
    let mut s = start;
    let mut i: usize = 0;
    while i < n
        invariant
            n == bytes@.len(),
            i <= n,
            s.record_bytes <= MAX_CSV_RECORD_BYTES,
            s.field_bytes <= MAX_CSV_FIELD_BYTES,
            scan_from(bytes@, 0, start) == scan_from(bytes@, i as int, s),
        decreases n - i,
    {
        let byte: u8 = bytes[i];
        s.record_bytes = s.record_bytes + 1;
        s.field_bytes = s.field_bytes + 1;
        if s.record_bytes > MAX_CSV_RECORD_BYTES || s.field_bytes > MAX_CSV_FIELD_BYTES {
            return Err(
                ImportError::new(
                    ImportErrorCode::ResourceLimitExceeded,
                    "A CSV row or field exceeds the import size limit.",
                    text::line("Bounded CSV preflight exceeded row limit ").num(
                        MAX_CSV_RECORD_BYTES as u64,
                    ).add(" or field limit ").num(MAX_CSV_FIELD_BYTES as u64).done(),
                ),
            );
        }
        if s.in_quotes {
            if byte == 34 {
                s.in_quotes = false;
                s.after_quote = true;
            }
        } else if s.after_quote && byte == 34 {
            s.in_quotes = true;
            s.after_quote = false;
        } else if !s.after_quote && byte == 34 && s.field_bytes == 1 {
            s.in_quotes = true;
        } else {
            s.after_quote = false;
            if byte == 44 {
                s.field_bytes = 0;
            } else if byte == 10 {
                s.record_bytes = 0;
                s.field_bytes = 0;
            }
        }
        i = i + 1;
    }
    Ok(s)
}

proof fn lemma_scan_parts(a: Seq<u8>, b: Seq<u8>, i: int, s: CsvScan)
    requires
        0 <= i <= a.len(),
    ensures
        scan_from(a + b, i, s) == match scan_from(a, i, s) {
            Some(t) => scan_from(b, 0, t),
            None => None,
        },
    decreases a.len() - i,
{
    if i < a.len() {
        assert((a + b)[i] == a[i]);
        match scan_step(s, a[i]) {
            Some(t) => {
                lemma_scan_parts(a, b, i + 1, t);
            },
            None => {},
        }
    } else {
        lemma_scan_shift(a, b, 0, s);
    }
}

proof fn lemma_scan_shift(a: Seq<u8>, b: Seq<u8>, k: int, s: CsvScan)
    requires
        0 <= k <= b.len(),
    ensures
        scan_from(a + b, a.len() + k, s) == scan_from(b, k, s),
    decreases b.len() - k,
{
    if k < b.len() {
        assert((a + b)[a.len() + k] == b[k]);
        match scan_step(s, b[k]) {
            Some(t) => {
                lemma_scan_shift(a, b, k + 1, t);
            },
            None => {},
        }
    }
}

/// A source may be scanned in pieces: the pieces come to what the whole comes to.
pub proof fn law_scanning_in_pieces_is_scanning_the_whole(a: Seq<u8>, b: Seq<u8>, s: CsvScan)
    ensures
        scan_from(a + b, 0, s) == match scan_from(a, 0, s) {
            Some(t) => scan_from(b, 0, t),
            None => None,
        },
{
    lemma_scan_parts(a, b, 0, s);
}

/// A CSV source: its header and the rows before the first fault, if there is one.
#[derive(Debug)]
pub struct CsvTable {
    pub headers: Vec<String>,
    pub rows: Vec<Vec<String>>,
    /// Why reading stopped before the end.
    pub fault: Option<String>,
}

#[verifier::ext_equal]
pub struct CsvTableView {
    pub headers: Seq<Seq<char>>,
    pub rows: Seq<Seq<Seq<char>>>,
    pub fault: Option<Seq<char>>,
}

pub open spec fn row_views(rows: Seq<Vec<String>>) -> Seq<Seq<Seq<char>>> {
    rows.map_values(|r: Vec<String>| table::views(r@))
}

impl View for CsvTable {
    type V = CsvTableView;

    open spec fn view(&self) -> CsvTableView {
        CsvTableView {
            headers: table::views(self.headers@),
            rows: row_views(self.rows@),
            fault: table::view_option(self.fault),
        }
    }
}

/// Every row has a field for every header.
pub open spec fn is_rectangular(t: CsvTableView) -> bool {
    forall|i: int| 0 <= i < t.rows.len() ==> (#[trigger] t.rows[i]).len() == t.headers.len()
}

/// What the `csv` reader makes of a source, of whose rows it reads at most `max_rows`, or why it
/// cannot read the header.
pub uninterp spec fn csv_read(source: Seq<u8>, max_rows: nat) -> Result<CsvTableView, Seq<char>>;

/// `csv::Reader` with a header row, trimmed fields and rows of one length: the header, and the
/// rows up to a limit or to the first fault. What they hold follows from the bytes alone and is
/// only named. Rows of another length than the header are such a fault, so the rows that are
/// returned all have a field for every header.
#[verifier::external_body]
fn read_csv(source: &[u8], max_rows: usize) -> (r: Result<CsvTable, String>)
    ensures
        match r {
            Ok(t) => csv_read(source@, max_rows as nat) == Ok::<CsvTableView, Seq<char>>(t@)
                && is_rectangular(t@) && t.rows@.len() <= max_rows,
            Err(e) => csv_read(source@, max_rows as nat) == Err::<CsvTableView, Seq<char>>(e@),
        },
{
    let mut builder = csv::ReaderBuilder::new();
    builder.has_headers(true).flexible(false).trim(csv::Trim::All);
    let mut reader = builder.from_reader(source);
    let headers = match reader.headers() {
        Ok(record) => record.iter().map(str::to_owned).collect(),
        Err(e) => return Err(e.to_string()),
    };
    let mut t = CsvTable { headers, rows: Vec::new(), fault: None };
    for record in reader.records().take(max_rows) {
        match record {
            Ok(row) => t.rows.push(row.iter().map(str::to_owned).collect()),
            Err(e) => return Ok(CsvTable { fault: Some(e.to_string()), ..t }),
        }
    }
    Ok(t)
}

pub open spec fn csv_failure(cause: Seq<char>, path: Seq<char>) -> ImportErrorView {
    import::import_error(
        ImportErrorCode::ValidationFailed,
        "The CSV is not valid UTF-8 tabular data with a consistent row shape."@,
        "CSV parser failed: "@ + cause + "\nFile path: "@ + path,
    )
}

pub fn csv_validation_error(cause: &str, path: &str) -> (r: ImportError)
    ensures
        r@ == csv_failure(cause@, path@),
{
    ImportError::new(
        ImportErrorCode::ValidationFailed,
        "The CSV is not valid UTF-8 tabular data with a consistent row shape.",
        text::line("CSV parser failed: ").add(cause).add("\nFile path: ").add(path).done(),
    )
}

/// Reads a CSV source, of whose rows one more than the limit is enough to refuse it.
pub fn csv_reader(source: &[u8], path: &str) -> (r: Result<CsvTable, ImportError>)
    ensures
        match csv_read(source@, (MAX_CSV_ROWS + 1) as nat) {
            Ok(t) => r matches Ok(found) && found@ == t && is_rectangular(t),
            Err(e) => r matches Err(f) && f@ == csv_failure(e, path@),
        },
{
    match read_csv(source, MAX_CSV_ROWS + 1) {
        Ok(t) => Ok(t),
        Err(e) => Err(csv_validation_error(e.as_str(), path)),
    }
}

/// Whether a character is alphabetic or numeric.
pub uninterp spec fn is_word_char(c: char) -> bool;

/// `char::is_alphanumeric` depends on the character alone; which characters it holds of is only
/// named.
#[verifier::external_body]
fn word_char(c: char) -> (r: bool)
    ensures
        r == is_word_char(c),
{
    c.is_alphanumeric()
}

pub open spec fn segment_char(c: char) -> char {
    if is_word_char(c) || c == '_' || c == '-' {
        c
    } else {
        '_'
    }
}

/// The path segment that a header becomes: at most 64 plain characters.
pub open spec fn segment(header: Seq<char>) -> Seq<char> {
    let kept = if header.len() > 64 {
        header.take(64)
    } else {
        header
    };
    if kept.len() == 0 {
        "column"@
    } else {
        kept.map_values(|c: char| segment_char(c))
    }
}

/// Makes a header a path segment.
pub fn sanitize_segment(header: &str) -> (r: String)
    ensures
        r@ == segment(header@),
{
    let v = text::chars_of(header);
    let n: usize = if v.len() > 64 {
        64
    } else {
        v.len()
    };
    if n == 0 {
        return "column".to_owned();
    }
    let mut out: Vec<char> = Vec::new();
    let mut i: usize = 0;
    while i < n
        invariant
            i <= n,
            n <= v@.len(),
            v@ == header@,
            out@.len() == i,
            forall|j: int| 0 <= j < i ==> #[trigger] out@[j] == segment_char(header@[j]),
        decreases n - i,
    {
        let c: char = v[i];
        if word_char(c) || c == '_' || c == '-' {
            out.push(c);
        } else {
            out.push('_');
        }
        i = i + 1;
    }
    let r = text::string_of(out.as_slice());
    proof {
        assert(r@ =~= segment(header@));
    }
    r
}

/// The frame rate of a sequence timeline.
#[derive(Clone, Debug)]
pub struct CsvFps {
    /// The bits of an IEEE 754 double.
    pub bits: u64,
    /// The number in decimal.
    pub text: String,
    /// Whether it is finite and above zero.
    pub is_positive: bool,
}

/// The column that a timeline is read from.
#[derive(Clone, Debug)]
pub struct CsvTimelineMapping {
    pub column: String,
    pub name: String,
    /// Why the name cannot be that of a timeline.
    pub name_fault: Option<String>,
    pub kind: CsvTimelineKind,
    pub unit: CsvTimeUnit,
    pub fps: Option<CsvFps>,
}

/// The name of a timeline that was mapped without one.
pub fn default_timeline_name() -> (r: String)
    ensures
        r@ == "time"@,
{
    "time".to_owned()
}

/// A column that becomes a series.
#[derive(Clone, Debug)]
pub struct CsvColumnMapping {
    pub column: String,
    pub entity_path: String,
    /// Why the path cannot be that of an entity.
    pub path_fault: Option<String>,
    pub unit: Option<String>,
}

#[derive(Clone, Debug)]
pub struct CsvMapping {
    pub timeline: Option<CsvTimelineMapping>,
    pub entity_path_prefix: Option<String>,
    /// Why the prefix cannot be that of an entity path.
    pub prefix_fault: Option<String>,
    pub columns: Vec<CsvColumnMapping>,
}

impl Default for CsvMapping {
    /// Every column of numbers, below the usual prefix.
    fn default() -> (r: Self)
        ensures
            r.timeline is None,
            r.entity_path_prefix is None,
            r.prefix_fault is None,
            r.columns@.len() == 0,
    {
        CsvMapping {
            timeline: None,
            entity_path_prefix: None,
            prefix_fault: None,
            columns: Vec::new(),
        }
    }
}

/// A column of the plan.
#[derive(Debug)]
pub struct PlannedColumn {
    pub source_index: usize,
    pub source_name: String,
    /// The entity path below the prefix.
    pub suffix: String,
    pub unit: Option<String>,
}

#[verifier::ext_equal]
pub struct PlannedColumnView {
    pub source_index: usize,
    pub source_name: Seq<char>,
    pub suffix: Seq<char>,
    pub unit: Option<Seq<char>>,
}

impl View for PlannedColumn {
    type V = PlannedColumnView;

    open spec fn view(&self) -> PlannedColumnView {
        PlannedColumnView {
            source_index: self.source_index,
            source_name: self.source_name@,
            suffix: self.suffix@,
            unit: table::view_option(self.unit),
        }
    }
}

pub open spec fn field_bytes(fields: Seq<Seq<char>>) -> nat
    decreases fields.len(),
{
    if fields.len() == 0 {
        0
    } else {
        field_bytes(fields.drop_last()) + text::byte_len(fields.last())
    }
}

pub open spec fn long_field(fields: Seq<Seq<char>>) -> bool {
    exists|i: int|
        0 <= i < fields.len() && text::byte_len(#[trigger] fields[i]) > MAX_CSV_FIELD_BYTES
}

pub open spec fn record_failure(fields: Seq<Seq<char>>) -> Option<ImportErrorView> {
    if field_bytes(fields) > MAX_CSV_RECORD_BYTES || long_field(fields) {
        Some(
            import::import_error(
                ImportErrorCode::ResourceLimitExceeded,
                "A CSV row or field exceeds the import size limit."@,
                "CSV record size is "@ + text::decimal(field_bytes(fields))
                    + " bytes; row limit is "@ + text::decimal(MAX_CSV_RECORD_BYTES as nat)
                    + " and field limit is "@ + text::decimal(MAX_CSV_FIELD_BYTES as nat),
            ),
        )
    } else {
        None
    }
}

/// Checks the size of a record and of its fields.
pub fn validate_record_size(fields: &Vec<String>) -> (r: Result<(), ImportError>)
    ensures
        crate::rrd_wire::fault(r) == record_failure(table::views(fields@)),
{
    let ghost views = table::views(fields@);
    let mut total: u128 = 0;
    let mut long = false;
    let mut i: usize = 0;
    assert(views.take(0).len() == 0);
    while i < fields.len()
        invariant
            i <= fields@.len(),
            views == table::views(fields@),
            total == field_bytes(views.take(i as int)),
            total <= i * 0xffff_ffff_ffff_ffff,
            long == exists|j: int|
                0 <= j < i && text::byte_len(#[trigger] views[j]) > MAX_CSV_FIELD_BYTES,
        decreases fields@.len() - i,
    {
        let size: usize = text::utf8_size(fields[i].as_str());
        proof {
            assert(views[i as int] == fields@[i as int]@);
            assert(views.take(i + 1).drop_last() =~= views.take(i as int));
            assert(views.take(i + 1).last() == views[i as int]);
            assert(i * 0xffff_ffff_ffff_ffff + 0xffff_ffff_ffff_ffff == (i + 1)
                * 0xffff_ffff_ffff_ffff) by (nonlinear_arith);
            assert(i * 0xffff_ffff_ffff_ffff <= 0xffff_ffff_ffff_fffe * 0xffff_ffff_ffff_ffff)
                by (nonlinear_arith)
                requires
                    i <= 0xffff_ffff_ffff_fffe,
            ;
        }
        total = total + size as u128;
        if size > MAX_CSV_FIELD_BYTES {
            long = true;
        }
        i = i + 1;
    }
    proof {
        assert(views.take(i as int) =~= views);
    }
    if total > MAX_CSV_RECORD_BYTES as u128 || long {
        return Err(
            ImportError::new(
                ImportErrorCode::ResourceLimitExceeded,
                "A CSV row or field exceeds the import size limit.",
                text::line("CSV record size is ").wide(total).add(" bytes; row limit is ").num(
                    MAX_CSV_RECORD_BYTES as u64,
                ).add(" and field limit is ").num(MAX_CSV_FIELD_BYTES as u64).done(),
            ),
        );
    }
    Ok(())
}

/// The first position at or after `i` of a name.
pub open spec fn position_from(names: Seq<Seq<char>>, name: Seq<char>, i: int) -> Option<int>
    decreases names.len() - i,
{
    if i < 0 || i >= names.len() {
        None
    } else if names[i] == name {
        Some(i)
    } else {
        position_from(names, name, i + 1)
    }
}

pub open spec fn missing_column(name: Seq<char>) -> ImportErrorView {
    import::import_error(
        ImportErrorCode::InvalidRequest,
        "The CSV mapping references a column that is not present."@,
        "CSV column not found: "@ + text::debug_text(name),
    )
}

/// Where a header stands.
pub fn header_index(headers: &Vec<String>, name: &str) -> (r: Result<usize, ImportError>)
    ensures
        match position_from(table::views(headers@), name@, 0) {
            Some(i) => r matches Ok(found) && found == i && found < headers@.len(),
            None => r matches Err(e) && e@ == missing_column(name@),
        },
{
    let ghost views = table::views(headers@);
    let mut i: usize = 0;
    while i < headers.len()
        invariant
            i <= headers@.len(),
            views == table::views(headers@),
            position_from(views, name@, 0) == position_from(views, name@, i as int),
        decreases headers@.len() - i,
    {
        assert(views[i as int] == headers@[i as int]@);
        if text::same(headers[i].as_str(), name) {
            return Ok(i);
        }
        i = i + 1;
    }
    let shown = text::quoted(name);
    Err(
        ImportError::new(
            ImportErrorCode::InvalidRequest,
            "The CSV mapping references a column that is not present.",
            text::line("CSV column not found: ").add(shown.as_str()).done(),
        ),
    )
}

/// The fault of the headers from `i` on: an empty one, or one that came before.
pub open spec fn headers_failure_from(headers: Seq<Seq<char>>, i: int) -> Option<ImportErrorView>
    decreases headers.len() - i,
{
    if i < 0 || i >= headers.len() {
        None
    } else if headers[i].len() == 0 || headers.take(i).contains(headers[i]) {
        Some(
            import::import_error(
                ImportErrorCode::ValidationFailed,
                "CSV headers must be non-empty and unique."@,
                "Invalid or duplicate CSV header: "@ + text::debug_text(headers[i]),
            ),
        )
    } else {
        headers_failure_from(headers, i + 1)
    }
}

/// The fault of a header row.
pub open spec fn headers_failure(headers: Seq<Seq<char>>) -> Option<ImportErrorView> {
    match record_failure(headers) {
        Some(e) => Some(e),
        None => if headers.len() == 0 || headers.len() > MAX_CSV_COLUMNS {
            Some(
                import::import_error(
                    ImportErrorCode::ResourceLimitExceeded,
                    "The CSV header has an unsupported number of columns."@,
                    "CSV has "@ + text::decimal(headers.len()) + " columns; allowed range is 1..="@
                        + text::decimal(MAX_CSV_COLUMNS as nat),
                ),
            )
        } else {
            headers_failure_from(headers, 0)
        },
    }
}

fn came_before(headers: &Vec<String>, i: usize) -> (r: bool)
    requires
        i < headers@.len(),
    ensures
        r == table::views(headers@).take(i as int).contains(table::views(headers@)[i as int]),
{
    let ghost views = table::views(headers@);
    assert(views[i as int] == headers@[i as int]@);
    let mut j: usize = 0;
    while j < i
        invariant
            j <= i,
            i < headers@.len(),
            views == table::views(headers@),
            forall|k: int| 0 <= k < j ==> views[k] != views[i as int],
        decreases i - j,
    {
        assert(views[j as int] == headers@[j as int]@);
        assert(views[i as int] == headers@[i as int]@);
        if text::same(headers[j].as_str(), headers[i].as_str()) {
            assert(views.take(i as int)[j as int] == views[i as int]);
            return true;
        }
        j = j + 1;
    }
    false
}

/// Checks a header row.
pub fn check_headers(headers: &Vec<String>) -> (r: Result<(), ImportError>)
    ensures
        crate::rrd_wire::fault(r) == headers_failure(table::views(headers@)),
{
    let ghost views = table::views(headers@);
    match validate_record_size(headers) {
        Ok(()) => {},
        Err(e) => {
            return Err(e);
        },
    }
    let n: usize = headers.len();
    if n == 0 || n > MAX_CSV_COLUMNS {
        return Err(
            ImportError::new(
                ImportErrorCode::ResourceLimitExceeded,
                "The CSV header has an unsupported number of columns.",
                text::line("CSV has ").num(n as u64).add(" columns; allowed range is 1..=").num(
                    MAX_CSV_COLUMNS as u64,
                ).done(),
            ),
        );
    }
    let mut i: usize = 0;
    while i < n
        invariant
            i <= n,
            n == headers@.len(),
            n <= MAX_CSV_COLUMNS,
            n > 0,
            views == table::views(headers@),
            record_failure(views) is None,
            headers_failure_from(views, 0) == headers_failure_from(views, i as int),
        decreases n - i,
    {
        assert(views[i as int] == headers@[i as int]@);
        if headers[i].as_str().is_empty() || came_before(headers, i) {
            let shown = text::quoted(headers[i].as_str());
            return Err(
                ImportError::new(
                    ImportErrorCode::ValidationFailed,
                    "CSV headers must be non-empty and unique.",
                    text::line("Invalid or duplicate CSV header: ").add(shown.as_str()).done(),
                ),
            );
        }
        i = i + 1;
    }
    Ok(())
}

/// The frame rate that a plan goes by, by its text: one frame a second for plain rows.
pub open spec fn plan_fps(m: CsvMapping) -> Option<(Seq<char>, bool)> {
    match m.timeline {
        None => Some(("1"@, true)),
        Some(t) => match t.fps {
            Some(f) => Some((f.text@, f.is_positive)),
            None => None,
        },
    }
}

pub open spec fn plan_kind(m: CsvMapping) -> CsvTimelineKind {
    match m.timeline {
        None => CsvTimelineKind::Sequence,
        Some(t) => t.kind,
    }
}

pub open spec fn plan_unit(m: CsvMapping) -> CsvTimeUnit {
    match m.timeline {
        None => CsvTimeUnit::Ns,
        Some(t) => t.unit,
    }
}

/// The column of the timeline, or why it, its name or its frame rate cannot be used.
pub open spec fn timeline_column(headers: Seq<Seq<char>>, m: CsvMapping) -> Result<
    Option<int>,
    ImportErrorView,
> {
    let column = match m.timeline {
        None => Ok(None),
        Some(t) => match position_from(headers, t.column@, 0) {
            Some(i) => Ok(Some(i)),
            None => Err(missing_column(t.column@)),
        },
    };
    match column {
        Err(e) => Err(e),
        Ok(c) => if m.timeline is Some && m.timeline->Some_0.name_fault is Some {
            Err(
                import::import_error(
                    ImportErrorCode::InvalidRequest,
                    "The CSV timeline name is invalid."@,
                    "Invalid CSV timeline name "@ + text::debug_text(m.timeline->Some_0.name@)
                        + ": "@ + m.timeline->Some_0.name_fault->Some_0@,
                ),
            )
        } else {
            match plan_fps(m) {
                Some((shown, positive)) => if plan_kind(m) != CsvTimelineKind::Sequence
                    || !positive {
                    Err(
                        import::import_error(
                            ImportErrorCode::InvalidRequest,
                            "CSV FPS must be a positive finite value on a sequence timeline."@,
                            "Invalid CSV timeline FPS: "@ + shown,
                        ),
                    )
                } else {
                    Ok(c)
                },
                None => Ok(c),
            }
        },
    }
}

fn find_timeline(headers: &Vec<String>, m: &CsvMapping) -> (r: Result<Option<usize>, ImportError>)
    ensures
        match timeline_column(table::views(headers@), *m) {
            Ok(Some(i)) => r matches Ok(Some(found)) && found == i && found < headers@.len(),
            Ok(None) => r matches Ok(None),
            Err(e) => r matches Err(f) && f@ == e,
        },
{
    match &m.timeline {
        None => Ok(None),
        Some(t) => {
            let column: usize = match header_index(headers, t.column.as_str()) {
                Ok(i) => i,
                Err(e) => {
                    return Err(e);
                },
            };
            match &t.name_fault {
                Some(fault) => {
                    let shown = text::quoted(t.name.as_str());
                    return Err(
                        ImportError::new(
                            ImportErrorCode::InvalidRequest,
                            "The CSV timeline name is invalid.",
                            text::line("Invalid CSV timeline name ").add(shown.as_str()).add(
                                ": ",
                            ).add(fault.as_str()).done(),
                        ),
                    );
                },
                None => {},
            }
            match &t.fps {
                Some(f) => {
                    if t.kind != CsvTimelineKind::Sequence || !f.is_positive {
                        return Err(
                            ImportError::new(
                                ImportErrorCode::InvalidRequest,
                                "CSV FPS must be a positive finite value on a sequence timeline.",
                                text::line("Invalid CSV timeline FPS: ").add(
                                    f.text.as_str(),
                                ).done(),
                            ),
                        );
                    }
                },
                None => {},
            }
            Ok(Some(column))
        },
    }
}

pub open spec fn mapped_names(m: CsvMapping) -> Seq<Seq<char>> {
    m.columns@.map_values(|c: CsvColumnMapping| c.column@)
}

/// The first mapped name at or after `i` that is no header.
pub open spec fn unknown_from(headers: Seq<Seq<char>>, names: Seq<Seq<char>>, i: int) -> Option<
    Seq<char>,
>
    decreases names.len() - i,
{
    if i < 0 || i >= names.len() {
        None
    } else if position_from(headers, names[i], 0) is None {
        Some(names[i])
    } else {
        unknown_from(headers, names, i + 1)
    }
}

/// The positions of the mapped names.
pub open spec fn positions(headers: Seq<Seq<char>>, names: Seq<Seq<char>>) -> Seq<int> {
    names.map_values(|n: Seq<char>| position_from(headers, n, 0)->Some_0)
}

/// The fault of the mapped columns from `i` on: the timeline, or one that is mapped already.
pub open spec fn mapped_failure_from(
    at: Seq<int>,
    names: Seq<Seq<char>>,
    timeline: Option<int>,
    i: int,
) -> Option<ImportErrorView>
    decreases at.len() - i,
{
    if i < 0 || i >= at.len() {
        None
    } else if timeline == Some(at[i]) {
        Some(
            import::import_error(
                ImportErrorCode::InvalidRequest,
                "The CSV timeline column cannot also be imported as a value series."@,
                "CSV column "@ + text::debug_text(names[i])
                    + " is mapped as both timeline and value"@,
            ),
        )
    } else if at.take(i).contains(at[i]) {
        Some(
            import::import_error(
                ImportErrorCode::InvalidRequest,
                "Each CSV source column can only be mapped once."@,
                "Duplicate mapping for CSV column "@ + text::debug_text(names[i]),
            ),
        )
    } else {
        mapped_failure_from(at, names, timeline, i + 1)
    }
}

/// The positions of the mapped columns, or why they cannot be mapped.
pub open spec fn mapped_columns(headers: Seq<Seq<char>>, names: Seq<Seq<char>>, timeline: Option<int>) -> Result<
    Seq<int>,
    ImportErrorView,
> {
    match unknown_from(headers, names, 0) {
        Some(name) => Err(missing_column(name)),
        None => match mapped_failure_from(positions(headers, names), names, timeline, 0) {
            Some(e) => Err(e),
            None => Ok(positions(headers, names)),
        },
    }
}

pub open spec fn as_ints(v: Seq<usize>) -> Seq<int> {
    v.map_values(|x: usize| x as int)
}

pub open spec fn as_int(o: Option<usize>) -> Option<int> {
    match o {
        Some(x) => Some(x as int),
        None => None,
    }
}

fn find_mapped(headers: &Vec<String>, m: &CsvMapping, timeline: Option<usize>) -> (r: Result<
    Vec<usize>,
    ImportError,
>)
    ensures
        match mapped_columns(table::views(headers@), mapped_names(*m), as_int(timeline)) {
            Ok(at) => r matches Ok(found) && as_ints(found@) == at && forall|i: int|
                0 <= i < found@.len() ==> (#[trigger] found@[i]) < headers@.len(),
            Err(e) => r matches Err(f) && f@ == e,
        },
{
    let ghost views = table::views(headers@);
    let ghost names = mapped_names(*m);
    let mut at: Vec<usize> = Vec::new();
    let mut i: usize = 0;
    while i < m.columns.len()
        invariant
            i <= m.columns@.len(),
            views == table::views(headers@),
            names == mapped_names(*m),
            at@.len() == i,
            unknown_from(views, names, 0) == unknown_from(views, names, i as int),
            forall|j: int|
                0 <= j < i ==> (#[trigger] at@[j]) < headers@.len() && position_from(
                    views,
                    names[j],
                    0,
                ) == Some(at@[j] as int),
        decreases m.columns@.len() - i,
    {
        assert(names[i as int] == m.columns@[i as int].column@);
        match header_index(headers, m.columns[i].column.as_str()) {
            Ok(found) => {
                at.push(found);
            },
            Err(e) => {
                return Err(e);
            },
        }
        i = i + 1;
    }
    let ghost wanted = positions(views, names);
    proof {
        assert(as_ints(at@) =~= wanted);
    }
    let mut k: usize = 0;
    while k < at.len()
        invariant
            k <= at@.len(),
            at@.len() == m.columns@.len(),
            names == mapped_names(*m),
            views == table::views(headers@),
            as_ints(at@) == wanted,
            wanted == positions(views, names),
            unknown_from(views, names, 0) is None,
            mapped_failure_from(wanted, names, as_int(timeline), 0) == mapped_failure_from(
                wanted,
                names,
                as_int(timeline),
                k as int,
            ),
        decreases at@.len() - k,
    {
        assert(names[k as int] == m.columns@[k as int].column@);
        assert(wanted[k as int] == at@[k as int]);
        let is_timeline = match timeline {
            Some(t) => t == at[k],
            None => false,
        };
        if is_timeline {
            let shown = text::quoted(m.columns[k].column.as_str());
            return Err(
                ImportError::new(
                    ImportErrorCode::InvalidRequest,
                    "The CSV timeline column cannot also be imported as a value series.",
                    text::line("CSV column ").add(shown.as_str()).add(
                        " is mapped as both timeline and value",
                    ).done(),
                ),
            );
        }
        let mut j: usize = 0;
        let mut seen = false;
        while j < k
            invariant
                j <= k,
                k < at@.len(),
                as_ints(at@) == wanted,
                seen == exists|x: int| 0 <= x < j && #[trigger] wanted[x] == wanted[k as int],
            decreases k - j,
        {
            assert(wanted[j as int] == at@[j as int]);
            assert(wanted[k as int] == at@[k as int]);
            if at[j] == at[k] {
                seen = true;
            }
            j = j + 1;
        }
        proof {
            assert(seen == wanted.take(k as int).contains(wanted[k as int])) by {
                let part = wanted.take(k as int);
                if seen {
                    let x = choose|x: int| 0 <= x < k && #[trigger] wanted[x] == wanted[k as int];
                    assert(part[x] == wanted[k as int]);
                }
                if part.contains(wanted[k as int]) {
                    let x = choose|x: int| 0 <= x < part.len() && part[x] == wanted[k as int];
                    assert(wanted[x] == wanted[k as int]);
                }
            }
        }
        if seen {
            let shown = text::quoted(m.columns[k].column.as_str());
            return Err(
                ImportError::new(
                    ImportErrorCode::InvalidRequest,
                    "Each CSV source column can only be mapped once.",
                    text::line("Duplicate mapping for CSV column ").add(shown.as_str()).done(),
                ),
            );
        }
        k = k + 1;
    }
    Ok(at)
}

/// The fault of the rows from `i` on, and of what follows them.
pub open spec fn rows_failure(
    t: CsvTableView,
    timeline: Option<int>,
    kind: CsvTimelineKind,
    unit: CsvTimeUnit,
    path: Seq<char>,
    i: int,
) -> Option<ImportErrorView>
    decreases t.rows.len() - i,
{
    if i < 0 || i >= t.rows.len() {
        match t.fault {
            Some(cause) => Some(csv_failure(cause, path)),
            None => if t.rows.len() == 0 {
                Some(
                    import::import_error(
                        ImportErrorCode::ValidationFailed,
                        "The CSV contains a header but no data rows."@,
                        "CSV row count is zero"@,
                    ),
                )
            } else {
                None
            },
        }
    } else if i + 1 > MAX_CSV_ROWS {
        Some(
            import::import_error(
                ImportErrorCode::ResourceLimitExceeded,
                "The CSV exceeds the one million row import limit."@,
                "CSV row count exceeded "@ + text::decimal(MAX_CSV_ROWS as nat),
            ),
        )
    } else if record_failure(t.rows[i]) is Some {
        record_failure(t.rows[i])
    } else if timeline is Some && timeline_value(t.rows[i][timeline->Some_0], kind, unit) is None {
        Some(timeline_failure(t.rows[i][timeline->Some_0], kind, unit))
    } else {
        rows_failure(t, timeline, kind, unit, path, i + 1)
    }
}

fn check_rows(
    t: &CsvTable,
    timeline: Option<usize>,
    kind: CsvTimelineKind,
    unit: CsvTimeUnit,
    path: &str,
) -> (r: Result<(), ImportError>)
    requires
        is_rectangular(t@),
        timeline matches Some(c) ==> c < t.headers@.len(),
    ensures
        crate::rrd_wire::fault(r) == rows_failure(t@, as_int(timeline), kind, unit, path@, 0),
{
    let ghost all = t@;
    let mut i: usize = 0;
    while i < t.rows.len()
        invariant
            i <= t.rows@.len(),
            all == t@,
            is_rectangular(t@),
            timeline matches Some(c) ==> c < t.headers@.len(),
            rows_failure(all, as_int(timeline), kind, unit, path@, 0) == rows_failure(
                all,
                as_int(timeline),
                kind,
                unit,
                path@,
                i as int,
            ),
        decreases t.rows@.len() - i,
    {
        let row = &t.rows[i];
        assert(all.rows[i as int] == table::views(row@));
        if i >= MAX_CSV_ROWS {
            return Err(
                ImportError::new(
                    ImportErrorCode::ResourceLimitExceeded,
                    "The CSV exceeds the one million row import limit.",
                    text::line("CSV row count exceeded ").num(MAX_CSV_ROWS as u64).done(),
                ),
            );
        }
        match validate_record_size(row) {
            Ok(()) => {},
            Err(e) => {
                return Err(e);
            },
        }
        match timeline {
            Some(c) => {
                assert(row@.len() == all.rows[i as int].len());
                assert(all.rows[i as int][c as int] == row@[c as int]@);
                match parse_timeline(row[c].as_str(), kind, unit) {
                    Ok(_) => {},
                    Err(e) => {
                        return Err(e);
                    },
                }
            },
            None => {},
        }
        i = i + 1;
    }
    match &t.fault {
        Some(cause) => {
            return Err(csv_validation_error(cause.as_str(), path));
        },
        None => {},
    }
    if t.rows.len() == 0 {
        return Err(
            ImportError::new(
                ImportErrorCode::ValidationFailed,
                "The CSV contains a header but no data rows.",
                "CSV row count is zero".to_owned(),
            ),
        );
    }
    Ok(())
}

/// Whether a field says nothing.
pub open spec fn is_empty_field(field: Seq<char>) -> bool {
    text::trim(field).len() == 0
}

/// Whether a column is a series: it has a finite number in some row, and a finite number in
/// every row where it is not empty. `finite` says which fields are finite numbers.
pub open spec fn is_series(rows: Seq<Seq<Seq<char>>>, finite: Seq<Seq<bool>>, c: int) -> bool {
    (forall|i: int| 0 <= i < rows.len() ==> is_empty_field(#[trigger] rows[i][c]) || finite[i][c])
        && exists|i: int| 0 <= i < rows.len() && !is_empty_field(#[trigger] rows[i][c])
        && finite[i][c]
}

pub open spec fn flag_views(v: Seq<Vec<bool>>) -> Seq<Seq<bool>> {
    v.map_values(|f: Vec<bool>| f@)
}

/// Whether there is a flag for every field.
pub open spec fn flags_fit(t: CsvTableView, finite: Seq<Seq<bool>>) -> bool {
    finite.len() == t.rows.len() && forall|i: int|
        0 <= i < finite.len() ==> (#[trigger] finite[i]).len() == t.headers.len()
}

fn series_flag(t: &CsvTable, finite: &Vec<Vec<bool>>, c: usize) -> (r: bool)
    requires
        is_rectangular(t@),
        flags_fit(t@, flag_views(finite@)),
        c < t.headers@.len(),
    ensures
        r == is_series(t@.rows, flag_views(finite@), c as int),
{
    let ghost rows = t@.rows;
    let ghost flags = flag_views(finite@);
    let mut seen = false;
    let mut i: usize = 0;
    while i < t.rows.len()
        invariant
            i <= t.rows@.len(),
            rows == t@.rows,
            flags == flag_views(finite@),
            is_rectangular(t@),
            flags_fit(t@, flags),
            c < t.headers@.len(),
            forall|j: int|
                0 <= j < i ==> is_empty_field(#[trigger] rows[j][c as int]) || flags[j][c as int],
            seen == exists|j: int|
                0 <= j < i && !is_empty_field(#[trigger] rows[j][c as int]) && flags[j][c as int],
        decreases t.rows@.len() - i,
    {
        let row = &t.rows[i];
        assert(rows[i as int] == table::views(row@));
        assert(flags[i as int] == finite@[i as int]@);
        assert(rows[i as int].len() == t.headers@.len());
        assert(rows[i as int][c as int] == row@[c as int]@);
        if !text::is_blank(row[c].as_str()) {
            if !finite[i][c] {
                assert(!(is_empty_field(rows[i as int][c as int]) || flags[i as int][c as int]));
                return false;
            }
            seen = true;
        }
        i = i + 1;
    }
    seen
}

/// Which columns are series.
fn series_flags(t: &CsvTable, finite: &Vec<Vec<bool>>) -> (r: Vec<bool>)
    requires
        is_rectangular(t@),
        flags_fit(t@, flag_views(finite@)),
    ensures
        r@.len() == t.headers@.len(),
        forall|c: int|
            0 <= c < r@.len() ==> (#[trigger] r@[c]) == is_series(
                t@.rows,
                flag_views(finite@),
                c,
            ),
{
    let mut r: Vec<bool> = Vec::new();
    let mut c: usize = 0;
    while c < t.headers.len()
        invariant
            c <= t.headers@.len(),
            is_rectangular(t@),
            flags_fit(t@, flag_views(finite@)),
            r@.len() == c,
            forall|k: int|
                0 <= k < c ==> (#[trigger] r@[k]) == is_series(t@.rows, flag_views(finite@), k),
        decreases t.headers@.len() - c,
    {
        let flag = series_flag(t, finite, c);
        r.push(flag);
        c = c + 1;
    }
    r
}

/// The first mapped column at or after `i` that is no series.
pub open spec fn unusable_from(at: Seq<int>, series: Seq<bool>, headers: Seq<Seq<char>>, i: int) -> Option<
    ImportErrorView,
>
    decreases at.len() - i,
{
    if i < 0 || i >= at.len() {
        None
    } else if !series[at[i]] {
        Some(
            import::import_error(
                ImportErrorCode::ValidationFailed,
                "A mapped CSV value column contains non-numeric or empty data."@,
                "Mapped column Some("@ + text::debug_text(headers[at[i]]) + ") is not numeric"@,
            ),
        )
    } else {
        unusable_from(at, series, headers, i + 1)
    }
}

fn check_usable(at: &Vec<usize>, series: &Vec<bool>, headers: &Vec<String>) -> (r: Result<
    (),
    ImportError,
>)
    requires
        series@.len() == headers@.len(),
        forall|i: int| 0 <= i < at@.len() ==> (#[trigger] at@[i]) < headers@.len(),
    ensures
        crate::rrd_wire::fault(r) == unusable_from(
            as_ints(at@),
            series@,
            table::views(headers@),
            0,
        ),
{
    let ghost views = table::views(headers@);
    let ghost wanted = as_ints(at@);
    let mut i: usize = 0;
    while i < at.len()
        invariant
            i <= at@.len(),
            views == table::views(headers@),
            wanted == as_ints(at@),
            series@.len() == headers@.len(),
            forall|i: int| 0 <= i < at@.len() ==> (#[trigger] at@[i]) < headers@.len(),
            unusable_from(wanted, series@, views, 0) == unusable_from(
                wanted,
                series@,
                views,
                i as int,
            ),
        decreases at@.len() - i,
    {
        let c: usize = at[i];
        assert(wanted[i as int] == c);
        assert(views[c as int] == headers@[c as int]@);
        if !series[c] {
            let shown = text::quoted(headers[c].as_str());
            return Err(
                ImportError::new(
                    ImportErrorCode::ValidationFailed,
                    "A mapped CSV value column contains non-numeric or empty data.",
                    text::line("Mapped column Some(").add(shown.as_str()).add(
                        ") is not numeric",
                    ).done(),
                ),
            );
        }
        i = i + 1;
    }
    Ok(())
}

/// The segment of the header at `i`, made distinct from those that are used.
pub open spec fn distinct_segment(header: Seq<char>, i: int, used: Map<Seq<char>, ()>) -> Seq<char> {
    if used.contains_key(segment(header)) {
        segment(header) + "_"@ + text::decimal(i as nat)
    } else {
        segment(header)
    }
}

/// The columns of a plan without a mapping, from header `i` on.
pub open spec fn automatic_columns(
    headers: Seq<Seq<char>>,
    series: Seq<bool>,
    timeline: Option<int>,
    i: int,
    used: Map<Seq<char>, ()>,
    done: Seq<PlannedColumnView>,
) -> Seq<PlannedColumnView>
    decreases headers.len() - i,
{
    if i < 0 || i >= headers.len() {
        done
    } else if timeline == Some(i) || !series[i] {
        automatic_columns(headers, series, timeline, i + 1, used, done)
    } else {
        let name = distinct_segment(headers[i], i, used);
        automatic_columns(
            headers,
            series,
            timeline,
            i + 1,
            used.insert(name, ()),
            done.push(
                PlannedColumnView {
                    source_index: i as usize,
                    source_name: headers[i],
                    suffix: name,
                    unit: None,
                },
            ),
        )
    }
}

fn plan_automatic(headers: &Vec<String>, series: &Vec<bool>, timeline: Option<usize>) -> (r: Vec<
    PlannedColumn,
>)
    requires
        series@.len() == headers@.len(),
    ensures
        table::views(r@) == automatic_columns(
            table::views(headers@),
            series@,
            as_int(timeline),
            0,
            Map::empty(),
            Seq::empty(),
        ),
{
    let ghost views = table::views(headers@);
    let mut used: table::Table<crate::catalog::Marker> = table::Table::new();
    let mut r: Vec<PlannedColumn> = Vec::new();
    let mut i: usize = 0;
    proof {
        assert(table::views(r@) =~= Seq::<PlannedColumnView>::empty());
    }
    while i < headers.len()
        invariant
            i <= headers@.len(),
            views == table::views(headers@),
            series@.len() == headers@.len(),
            automatic_columns(views, series@, as_int(timeline), 0, Map::empty(), Seq::empty())
                == automatic_columns(
                views,
                series@,
                as_int(timeline),
                i as int,
                used@,
                table::views(r@),
            ),
        decreases headers@.len() - i,
    {
        assert(views[i as int] == headers@[i as int]@);
        let is_timeline = match timeline {
            Some(c) => c == i,
            None => false,
        };
        if !is_timeline && series[i] {
            let mut name = sanitize_segment(headers[i].as_str());
            if used.contains(name.as_str()) {
                name = text::line(name.as_str()).add("_").num(i as u64).done();
            }
            assert(name@ == distinct_segment(views[i as int], i as int, used@));
            let _ = used.insert(name.clone(), crate::catalog::Marker {  });
            let one = PlannedColumn {
                source_index: i,
                source_name: headers[i].clone(),
                suffix: name,
                unit: None,
            };
            proof {
                table::lemma_views_push(r@, one);
            }
            r.push(one);
        }
        i = i + 1;
    }
    r
}

/// The unit of a mapped column, where it is not empty.
pub open spec fn kept_unit(unit: Option<Seq<char>>) -> Option<Seq<char>> {
    match unit {
        Some(u) => if u.len() == 0 {
            None
        } else {
            Some(u)
        },
        None => None,
    }
}

/// The columns of a plan with a mapping from `i` on, and the warnings that go with them.
pub open spec fn chosen_columns(
    columns: Seq<CsvColumnMapping>,
    at: Seq<int>,
    i: int,
    done: Seq<PlannedColumnView>,
    warnings: Seq<Seq<char>>,
) -> Result<(Seq<PlannedColumnView>, Seq<Seq<char>>), ImportErrorView>
    decreases columns.len() - i,
{
    if i < 0 || i >= columns.len() {
        Ok((done, warnings))
    } else {
        let c = columns[i];
        match c.path_fault {
            Some(fault) => Err(
                import::import_error(
                    ImportErrorCode::InvalidRequest,
                    "A CSV entity path is invalid."@,
                    "Invalid entityPath "@ + text::debug_text(c.entity_path@) + ": "@ + fault@,
                ),
            ),
            None => chosen_columns(
                columns,
                at,
                i + 1,
                done.push(
                    PlannedColumnView {
                        source_index: at[i] as usize,
                        source_name: c.column@,
                        suffix: c.entity_path@,
                        unit: kept_unit(table::view_option(c.unit)),
                    },
                ),
                if table::view_option(c.unit) matches Some(u) && u.len() == 0 {
                    warnings.push("Ignored empty unit for CSV column "@ + c.column@)
                } else {
                    warnings
                },
            ),
        }
    }
}

fn plan_chosen(columns: &Vec<CsvColumnMapping>, at: &Vec<usize>, first: Vec<String>) -> (r: Result<
    (Vec<PlannedColumn>, Vec<String>),
    ImportError,
>)
    requires
        at@.len() == columns@.len(),
    ensures
        match chosen_columns(
            columns@,
            as_ints(at@),
            0,
            Seq::empty(),
            table::views(first@),
        ) {
            Ok((done, warnings)) => r matches Ok(found) && table::views(found.0@) == done
                && table::views(found.1@) == warnings,
            Err(e) => r matches Err(f) && f@ == e,
        },
{
    let ghost wanted = as_ints(at@);
    let ghost initial = table::views(first@);
    let mut warnings = first;
    let mut done: Vec<PlannedColumn> = Vec::new();
    let mut i: usize = 0;
    proof {
        assert(table::views(done@) =~= Seq::<PlannedColumnView>::empty());
    }
    while i < columns.len()
        invariant
            i <= columns@.len(),
            at@.len() == columns@.len(),
            wanted == as_ints(at@),
            initial == table::views(first@),
            chosen_columns(columns@, wanted, 0, Seq::empty(), initial) == chosen_columns(
                columns@,
                wanted,
                i as int,
                table::views(done@),
                table::views(warnings@),
            ),
        decreases columns@.len() - i,
    {
        let c = &columns[i];
        assert(wanted[i as int] == at@[i as int]);
        match &c.path_fault {
            Some(fault) => {
                let shown = text::quoted(c.entity_path.as_str());
                return Err(
                    ImportError::new(
                        ImportErrorCode::InvalidRequest,
                        "A CSV entity path is invalid.",
                        text::line("Invalid entityPath ").add(shown.as_str()).add(": ").add(
                            fault.as_str(),
                        ).done(),
                    ),
                );
            },
            None => {},
        }
        let unit = match &c.unit {
            Some(u) => {
                if u.as_str().is_empty() {
                    let warning = text::line("Ignored empty unit for CSV column ").add(
                        c.column.as_str(),
                    ).done();
                    proof {
                        table::lemma_views_push(warnings@, warning);
                    }
                    warnings.push(warning);
                    None
                } else {
                    Some(u.clone())
                }
            },
            None => None,
        };
        let one = PlannedColumn {
            source_index: at[i],
            source_name: c.column.clone(),
            suffix: c.entity_path.clone(),
            unit,
        };
        proof {
            table::lemma_views_push(done@, one);
        }
        done.push(one);
        i = i + 1;
    }
    Ok((done, warnings))
}

/// The warnings of the headers from `i` on that become no series.
pub open spec fn skipped_from(
    headers: Seq<Seq<char>>,
    series: Seq<bool>,
    timeline: Option<int>,
    i: int,
    done: Seq<Seq<char>>,
) -> Seq<Seq<char>>
    decreases headers.len() - i,
{
    if i < 0 || i >= headers.len() {
        done
    } else if timeline != Some(i) && !series[i] {
        skipped_from(
            headers,
            series,
            timeline,
            i + 1,
            done.push("Skipped non-numeric CSV column "@ + headers[i]),
        )
    } else {
        skipped_from(headers, series, timeline, i + 1, done)
    }
}

fn list_skipped(headers: &Vec<String>, series: &Vec<bool>, timeline: Option<usize>) -> (r: Vec<
    String,
>)
    requires
        series@.len() == headers@.len(),
    ensures
        table::views(r@) == skipped_from(
            table::views(headers@),
            series@,
            as_int(timeline),
            0,
            Seq::empty(),
        ),
{
    let ghost views = table::views(headers@);
    let mut r: Vec<String> = Vec::new();
    let mut i: usize = 0;
    proof {
        assert(table::views(r@) =~= Seq::<Seq<char>>::empty());
    }
    while i < headers.len()
        invariant
            i <= headers@.len(),
            views == table::views(headers@),
            series@.len() == headers@.len(),
            skipped_from(views, series@, as_int(timeline), 0, Seq::empty()) == skipped_from(
                views,
                series@,
                as_int(timeline),
                i as int,
                table::views(r@),
            ),
        decreases headers@.len() - i,
    {
        assert(views[i as int] == headers@[i as int]@);
        let is_timeline = match timeline {
            Some(c) => c == i,
            None => false,
        };
        if !is_timeline && !series[i] {
            let warning = text::line("Skipped non-numeric CSV column ").add(
                headers[i].as_str(),
            ).done();
            proof {
                table::lemma_views_push(r@, warning);
            }
            r.push(warning);
        }
        i = i + 1;
    }
    r
}

/// Which columns are series.
pub open spec fn series_of(t: CsvTableView, finite: Seq<Seq<bool>>) -> Seq<bool> {
    Seq::new(t.headers.len(), |c: int| is_series(t.rows, finite, c))
}

/// The plan of a CSV import before its entity paths are made.
#[derive(Debug)]
pub struct CsvDraft {
    pub timeline_name: String,
    pub timeline_kind: CsvTimelineKind,
    pub timeline_unit: CsvTimeUnit,
    pub timeline_column: Option<usize>,
    /// The bits of an IEEE 754 double.
    pub fps: Option<u64>,
    pub columns: Vec<PlannedColumn>,
    pub warnings: Vec<String>,
    /// The warnings of the columns that become no series.
    pub skipped: Vec<String>,
}

#[verifier::ext_equal]
pub struct CsvDraftView {
    pub timeline_name: Seq<char>,
    pub timeline_kind: CsvTimelineKind,
    pub timeline_unit: CsvTimeUnit,
    pub timeline_column: Option<int>,
    pub fps: Option<u64>,
    pub columns: Seq<PlannedColumnView>,
    pub warnings: Seq<Seq<char>>,
    pub skipped: Seq<Seq<char>>,
}

impl View for CsvDraft {
    type V = CsvDraftView;

    open spec fn view(&self) -> CsvDraftView {
        CsvDraftView {
            timeline_name: self.timeline_name@,
            timeline_kind: self.timeline_kind,
            timeline_unit: self.timeline_unit,
            timeline_column: as_int(self.timeline_column),
            fps: self.fps,
            columns: table::views(self.columns@),
            warnings: table::views(self.warnings@),
            skipped: table::views(self.skipped@),
        }
    }
}

/// The bits of one as an IEEE 754 double.
pub const ONE_FPS: u64 = 0x3ff0_0000_0000_0000;

pub open spec fn draft_name(m: CsvMapping) -> Seq<char> {
    match m.timeline {
        None => "row"@,
        Some(t) => t.name@,
    }
}

pub open spec fn draft_fps(m: CsvMapping) -> Option<u64> {
    match m.timeline {
        None => Some(ONE_FPS),
        Some(t) => match t.fps {
            Some(f) => Some(f.bits),
            None => None,
        },
    }
}

pub open spec fn first_warnings(m: CsvMapping) -> Seq<Seq<char>> {
    if m.timeline is None {
        seq!["row timeline defaults to 1 FPS"@]
    } else {
        Seq::empty()
    }
}

pub open spec fn prefix_name(m: CsvMapping) -> Seq<char> {
    match m.entity_path_prefix {
        Some(p) => p@,
        None => "csv"@,
    }
}

/// The entity path below which the series of a CSV file stand.
pub fn entity_prefix(m: &CsvMapping) -> (r: String)
    ensures
        r@ == prefix_name(*m),
{
    match &m.entity_path_prefix {
        Some(prefix) => prefix.clone(),
        None => "csv".to_owned(),
    }
}

/// The columns of a plan and their warnings.
pub open spec fn drafted_columns(
    t: CsvTableView,
    series: Seq<bool>,
    m: CsvMapping,
    timeline: Option<int>,
    at: Seq<int>,
) -> Result<(Seq<PlannedColumnView>, Seq<Seq<char>>), ImportErrorView> {
    let columns = if m.columns@.len() == 0 {
        Ok(
            (
                automatic_columns(t.headers, series, timeline, 0, Map::empty(), Seq::empty()),
                first_warnings(m),
            ),
        )
    } else {
        chosen_columns(m.columns@, at, 0, Seq::empty(), first_warnings(m))
    };
    match columns {
        Err(e) => Err(e),
        Ok((done, warnings)) => if done.len() == 0 {
            Err(
                import::import_error(
                    ImportErrorCode::ValidationFailed,
                    "The CSV has no numeric value columns to visualize."@,
                    "No numeric CSV columns remained after excluding the timeline"@,
                ),
            )
        } else {
            Ok((done, warnings))
        },
    }
}

/// The plan of a CSV import before its entity paths are made, or why there is none.
pub open spec fn drafted(t: CsvTableView, finite: Seq<Seq<bool>>, m: CsvMapping, path: Seq<char>) -> Result<
    CsvDraftView,
    ImportErrorView,
> {
    match headers_failure(t.headers) {
        Some(e) => Err(e),
        None => match timeline_column(t.headers, m) {
            Err(e) => Err(e),
            Ok(timeline) => match mapped_columns(t.headers, mapped_names(m), timeline) {
                Err(e) => Err(e),
                Ok(at) => match rows_failure(t, timeline, plan_kind(m), plan_unit(m), path, 0) {
                    Some(e) => Err(e),
                    None => match unusable_from(at, series_of(t, finite), t.headers, 0) {
                        Some(e) => Err(e),
                        None => if m.prefix_fault is Some {
                            Err(
                                import::import_error(
                                    ImportErrorCode::InvalidRequest,
                                    "The CSV entity path prefix is invalid."@,
                                    "Invalid entityPathPrefix "@ + text::debug_text(prefix_name(m))
                                        + ": "@ + m.prefix_fault->Some_0@,
                                ),
                            )
                        } else {
                            match drafted_columns(t, series_of(t, finite), m, timeline, at) {
                                Err(e) => Err(e),
                                Ok((columns, warnings)) => Ok(
                                    CsvDraftView {
                                        timeline_name: draft_name(m),
                                        timeline_kind: plan_kind(m),
                                        timeline_unit: plan_unit(m),
                                        timeline_column: timeline,
                                        fps: draft_fps(m),
                                        columns,
                                        warnings,
                                        skipped: skipped_from(
                                            t.headers,
                                            series_of(t, finite),
                                            timeline,
                                            0,
                                            Seq::empty(),
                                        ),
                                    },
                                ),
                            }
                        },
                    },
                },
            },
        },
    }
}

/// Plans a CSV import: which column is the timeline, and which columns become series. `finite`
/// says which fields are finite numbers.
pub fn prepare_plan(t: &CsvTable, finite: &Vec<Vec<bool>>, m: &CsvMapping, path: &str) -> (r: Result<
    CsvDraft,
    ImportError,
>)
    requires
        is_rectangular(t@),
        flags_fit(t@, flag_views(finite@)),
    ensures
        match drafted(t@, flag_views(finite@), *m, path@) {
            Ok(draft) => r matches Ok(found) && found@ == draft,
            Err(e) => r matches Err(f) && f@ == e,
        },
{
    match check_headers(&t.headers) {
        Ok(()) => {},
        Err(e) => {
            return Err(e);
        },
    }
    let timeline = match find_timeline(&t.headers, m) {
        Ok(found) => found,
        Err(e) => {
            return Err(e);
        },
    };
    assert(Ok::<Option<int>, ImportErrorView>(as_int(timeline)) == timeline_column(t@.headers, *m));
    let at = match find_mapped(&t.headers, m, timeline) {
        Ok(found) => found,
        Err(e) => {
            return Err(e);
        },
    };
    let (kind, unit, name, fps) = match &m.timeline {
        None => (CsvTimelineKind::Sequence, CsvTimeUnit::Ns, "row".to_owned(), Some(ONE_FPS)),
        Some(mapped) => (
            mapped.kind,
            mapped.unit,
            mapped.name.clone(),
            match &mapped.fps {
                Some(f) => Some(f.bits),
                None => None,
            },
        ),
    };
    match check_rows(t, timeline, kind, unit, path) {
        Ok(()) => {},
        Err(e) => {
            return Err(e);
        },
    }
    let series = series_flags(t, finite);
    assert(series@ =~= series_of(t@, flag_views(finite@)));
    match check_usable(&at, &series, &t.headers) {
        Ok(()) => {},
        Err(e) => {
            return Err(e);
        },
    }
    match &m.prefix_fault {
        Some(fault) => {
            let shown = match &m.entity_path_prefix {
                Some(p) => text::quoted(p.as_str()),
                None => text::quoted("csv"),
            };
            return Err(
                ImportError::new(
                    ImportErrorCode::InvalidRequest,
                    "The CSV entity path prefix is invalid.",
                    text::line("Invalid entityPathPrefix ").add(shown.as_str()).add(": ").add(
                        fault.as_str(),
                    ).done(),
                ),
            );
        },
        None => {},
    }
    let mut first: Vec<String> = Vec::new();
    if m.timeline.is_none() {
        first.push("row timeline defaults to 1 FPS".to_owned());
    }
    assert(table::views(first@) =~= first_warnings(*m));
    let (columns, warnings) = if m.columns.len() == 0 {
        (plan_automatic(&t.headers, &series, timeline), first)
    } else {
        assert(as_ints(at@).len() == mapped_names(*m).len());
        match plan_chosen(&m.columns, &at, first) {
            Ok(found) => found,
            Err(e) => {
                return Err(e);
            },
        }
    };
    assert(table::views(columns@).len() == columns@.len());
    if columns.len() == 0 {
        return Err(
            ImportError::new(
                ImportErrorCode::ValidationFailed,
                "The CSV has no numeric value columns to visualize.",
                "No numeric CSV columns remained after excluding the timeline".to_owned(),
            ),
        );
    }
    let skipped = list_skipped(&t.headers, &series, timeline);
    Ok(
        CsvDraft {
            timeline_name: name,
            timeline_kind: kind,
            timeline_unit: unit,
            timeline_column: timeline,
            fps,
            columns,
            warnings,
            skipped,
        },
    )
}

/// The fault of the entity paths from `i` on: one that came before.
pub open spec fn paths_failure_from(paths: Seq<Seq<char>>, i: int) -> Option<ImportErrorView>
    decreases paths.len() - i,
{
    if i < 0 || i >= paths.len() {
        None
    } else if paths.take(i).contains(paths[i]) {
        Some(
            import::import_error(
                ImportErrorCode::InvalidRequest,
                "Each CSV value series must use a unique entity path."@,
                "Duplicate mapped CSV entity path: "@ + paths[i],
            ),
        )
    } else {
        paths_failure_from(paths, i + 1)
    }
}

/// Checks that every series has an entity path of its own, and returns all warnings of the plan.
pub fn finish_plan(draft: &CsvDraft, entity_paths: &Vec<String>) -> (r: Result<
    Vec<String>,
    ImportError,
>)
    ensures
        match paths_failure_from(table::views(entity_paths@), 0) {
            Some(e) => r matches Err(f) && f@ == e,
            None => r matches Ok(warnings) && table::views(warnings@) == draft@.warnings
                + draft@.skipped,
        },
{
    let ghost views = table::views(entity_paths@);
    let mut i: usize = 0;
    while i < entity_paths.len()
        invariant
            i <= entity_paths@.len(),
            views == table::views(entity_paths@),
            paths_failure_from(views, 0) == paths_failure_from(views, i as int),
        decreases entity_paths@.len() - i,
    {
        assert(views[i as int] == entity_paths@[i as int]@);
        if came_before(entity_paths, i) {
            return Err(
                ImportError::new(
                    ImportErrorCode::InvalidRequest,
                    "Each CSV value series must use a unique entity path.",
                    text::line("Duplicate mapped CSV entity path: ").add(
                        entity_paths[i].as_str(),
                    ).done(),
                ),
            );
        }
        i = i + 1;
    }
    let mut warnings = table::copy_all(&draft.warnings);
    let ghost first = draft@.warnings;
    let ghost more = draft@.skipped;
    let mut k: usize = 0;
    proof {
        assert(table::views(warnings@) =~= first + more.take(0));
    }
    while k < draft.skipped.len()
        invariant
            k <= draft.skipped@.len(),
            more == draft@.skipped,
            table::views(warnings@) == first + more.take(k as int),
        decreases draft.skipped@.len() - k,
    {
        let one = draft.skipped[k].clone();
        proof {
            assert(more[k as int] == one@);
            table::lemma_views_push(warnings@, one);
            assert((first + more.take(k as int)).push(one@) =~= first + more.take(k + 1));
        }
        warnings.push(one);
        k = k + 1;
    }
    proof {
        assert(more.take(more.len() as int) =~= more);
    }
    Ok(warnings)
}

/// The name under which a series is shown: that of its column, with its unit.
pub open spec fn display_name(c: PlannedColumnView) -> Seq<char> {
    match c.unit {
        Some(unit) => c.source_name + " ("@ + unit + ")"@,
        None => c.source_name,
    }
}

pub fn series_display_name(c: &PlannedColumn) -> (r: String)
    ensures
        r@ == display_name(c@),
{
    match &c.unit {
        Some(unit) => text::line(c.source_name.as_str()).add(" (").add(unit.as_str()).add(
            ")",
        ).done(),
        None => c.source_name.clone(),
    }
}

/// The time of a row: that of its timeline field, or its number.
pub fn row_time(draft: &CsvDraft, row: &Vec<String>, index: i64) -> (r: Result<i64, ImportError>)
    ensures
        match draft.timeline_column {
            None => r matches Ok(v) && v == index,
            Some(c) => {
                let field = if c < row@.len() {
                    row@[c as int]@
                } else {
                    ""@
                };
                match timeline_value(field, draft.timeline_kind, draft.timeline_unit) {
                    Some(v) => r matches Ok(found) && found == v,
                    None => r matches Err(e) && e@ == timeline_failure(
                        field,
                        draft.timeline_kind,
                        draft.timeline_unit,
                    ),
                }
            },
        },
{
    match draft.timeline_column {
        None => Ok(index),
        Some(c) => {
            let field = if c < row.len() {
                row[c].as_str()
            } else {
                ""
            };
            parse_timeline(field, draft.timeline_kind, draft.timeline_unit)
        },
    }
}

/// A plan maps no column twice, and never the timeline.
pub proof fn law_mapped_columns_are_distinct(
    headers: Seq<Seq<char>>,
    names: Seq<Seq<char>>,
    timeline: Option<int>,
    i: int,
    j: int,
)
    requires
        mapped_columns(headers, names, timeline) is Ok,
        0 <= i < j < names.len(),
    ensures
        ({
            let at = mapped_columns(headers, names, timeline)->Ok_0;
            at[i] != at[j] && timeline != Some(at[i]) && timeline != Some(at[j])
        }),
{
    let at = positions(headers, names);
    lemma_mapped(at, names, timeline, 0, i);
    lemma_mapped(at, names, timeline, 0, j);
    if at[i] == at[j] {
        assert(at.take(j)[i] == at[j]);
    }
}

proof fn lemma_mapped(at: Seq<int>, names: Seq<Seq<char>>, timeline: Option<int>, from: int, i: int)
    requires
        0 <= from <= i < at.len(),
        mapped_failure_from(at, names, timeline, from) is None,
    ensures
        timeline != Some(at[i]),
        !at.take(i).contains(at[i]),
    decreases i - from,
{
    if from < i {
        lemma_mapped(at, names, timeline, from + 1, i);
    }
}

proof fn lemma_position(names: Seq<Seq<char>>, name: Seq<char>, i: int)
    requires
        0 <= i <= names.len(),
    ensures
        match position_from(names, name, i) {
            Some(p) => i <= p < names.len() && names[p] == name,
            None => forall|k: int| i <= k < names.len() ==> (#[trigger] names[k]) != name,
        },
    decreases names.len() - i,
{
    if i < names.len() {
        lemma_position(names, name, i + 1);
    }
}

proof fn lemma_known(headers: Seq<Seq<char>>, names: Seq<Seq<char>>, i: int, k: int)
    requires
        0 <= i <= k < names.len(),
        unknown_from(headers, names, i) is None,
    ensures
        0 <= positions(headers, names)[k] < headers.len(),
        headers[positions(headers, names)[k]] == names[k],
    decreases k - i,
{
    if i < k {
        lemma_known(headers, names, i + 1, k);
    } else {
        lemma_position(headers, names[k], 0);
    }
}

proof fn lemma_usable(at: Seq<int>, series: Seq<bool>, headers: Seq<Seq<char>>, i: int, k: int)
    requires
        0 <= i <= k < at.len(),
        unusable_from(at, series, headers, i) is None,
    ensures
        series[at[k]],
    decreases k - i,
{
    if i < k {
        lemma_usable(at, series, headers, i + 1, k);
    }
}

proof fn lemma_chosen(
    columns: Seq<CsvColumnMapping>,
    at: Seq<int>,
    i: int,
    done: Seq<PlannedColumnView>,
    warnings: Seq<Seq<char>>,
)
    requires
        0 <= i <= columns.len(),
        done.len() == i,
        chosen_columns(columns, at, i, done, warnings) is Ok,
    ensures
        ({
            let out = chosen_columns(columns, at, i, done, warnings)->Ok_0.0;
            &&& out.len() == columns.len()
            &&& forall|k: int| 0 <= k < i ==> (#[trigger] out[k]) == done[k]
            &&& forall|k: int|
                i <= k < columns.len() ==> (#[trigger] out[k]).source_index == at[k] as usize
                    && out[k].source_name == columns[k].column@ && out[k].suffix
                    == columns[k].entity_path@ && out[k].unit == kept_unit(
                    table::view_option(columns[k].unit),
                )
        }),
    decreases columns.len() - i,
{
    if i < columns.len() {
        let c = columns[i];
        let next = done.push(
            PlannedColumnView {
                source_index: at[i] as usize,
                source_name: c.column@,
                suffix: c.entity_path@,
                unit: kept_unit(table::view_option(c.unit)),
            },
        );
        let more = if table::view_option(c.unit) matches Some(u) && u.len() == 0 {
            warnings.push("Ignored empty unit for CSV column "@ + c.column@)
        } else {
            warnings
        };
        lemma_chosen(columns, at, i + 1, next, more);
        let out = chosen_columns(columns, at, i, done, warnings)->Ok_0.0;
        assert(out == chosen_columns(columns, at, i + 1, next, more)->Ok_0.0);
        assert(out[i] == next[i]);
        assert forall|k: int| 0 <= k < i implies (#[trigger] out[k]) == done[k] by {
            assert(out[k] == next[k]);
        }
    }
}

/// The columns that are planned from the headers before `i` without a mapping.
spec fn automatic_upto(
    headers: Seq<Seq<char>>,
    series: Seq<bool>,
    timeline: Option<int>,
    i: int,
    done: Seq<PlannedColumnView>,
) -> bool {
    &&& forall|k: int|
        0 <= k < done.len() ==> (#[trigger] done[k]).source_index < i && done[k].source_name
            == headers[done[k].source_index as int] && series[done[k].source_index as int]
            && timeline != Some(done[k].source_index as int) && done[k].unit is None
    &&& forall|k: int, l: int|
        0 <= k < l < done.len() ==> (#[trigger] done[k]).source_index < (
        #[trigger] done[l]).source_index
    &&& forall|c: int|
        0 <= c < i && timeline != Some(c) && #[trigger] series[c] ==> exists|k: int|
            0 <= k < done.len() && (#[trigger] done[k]).source_index == c
}

proof fn lemma_automatic(
    headers: Seq<Seq<char>>,
    series: Seq<bool>,
    timeline: Option<int>,
    i: int,
    used: Map<Seq<char>, ()>,
    done: Seq<PlannedColumnView>,
)
    requires
        0 <= i <= headers.len() <= MAX_CSV_COLUMNS,
        series.len() == headers.len(),
        automatic_upto(headers, series, timeline, i, done),
    ensures
        automatic_upto(
            headers,
            series,
            timeline,
            headers.len() as int,
            automatic_columns(headers, series, timeline, i, used, done),
        ),
    decreases headers.len() - i,
{
    if i < headers.len() {
        if timeline == Some(i) || !series[i] {
            lemma_automatic(headers, series, timeline, i + 1, used, done);
        } else {
            let name = distinct_segment(headers[i], i, used);
            let one = PlannedColumnView {
                source_index: i as usize,
                source_name: headers[i],
                suffix: name,
                unit: None,
            };
            let next = done.push(one);
            assert forall|c: int|
                0 <= c < i + 1 && timeline != Some(c) && #[trigger] series[c] implies exists|k: int|
                0 <= k < next.len() && (#[trigger] next[k]).source_index == c by {
                if c < i {
                    let k = choose|k: int|
                        0 <= k < done.len() && (#[trigger] done[k]).source_index == c;
                    assert(next[k].source_index == c);
                } else {
                    assert(next[done.len() as int].source_index == c);
                }
            }
            lemma_automatic(headers, series, timeline, i + 1, used.insert(name, ()), next);
        }
    }
}

/// Whether a column can be drawn: each of its fields is blank or a finite number, and not all are
/// blank.
pub open spec fn has_only_numbers(t: CsvTableView, finite: Seq<Seq<bool>>, c: int) -> bool {
    &&& forall|i: int|
        0 <= i < t.rows.len() ==> text::trim(#[trigger] t.rows[i][c]).len() == 0 || finite[i][c]
    &&& exists|i: int|
        0 <= i < t.rows.len() && text::trim(#[trigger] t.rows[i][c]).len() > 0 && finite[i][c]
}

/// A plan reads every series from the column that bears its name, which holds numbers and is not
/// the timeline, and reads no column twice.
pub proof fn law_series_read_the_column_of_their_name(
    t: CsvTableView,
    finite: Seq<Seq<bool>>,
    m: CsvMapping,
    path: Seq<char>,
)
    requires
        is_rectangular(t),
        flags_fit(t, finite),
        drafted(t, finite, m, path) is Ok,
    ensures
        ({
            let d = drafted(t, finite, m, path)->Ok_0;
            &&& d.columns.len() > 0
            &&& forall|k: int|
                0 <= k < d.columns.len() ==> {
                    let c = (#[trigger] d.columns[k]).source_index as int;
                    &&& c < t.headers.len()
                    &&& t.headers[c] == d.columns[k].source_name
                    &&& d.timeline_column != Some(c)
                    &&& has_only_numbers(t, finite, c)
                }
            &&& forall|k: int, l: int|
                0 <= k < l < d.columns.len() ==> (#[trigger] d.columns[k]).source_index != (
                #[trigger] d.columns[l]).source_index
        }),
{
    let d = drafted(t, finite, m, path)->Ok_0;
    let timeline = timeline_column(t.headers, m)->Ok_0;
    let names = mapped_names(m);
    let at = mapped_columns(t.headers, names, timeline)->Ok_0;
    let series = series_of(t, finite);
    if m.columns@.len() == 0 {
        lemma_automatic(t.headers, series, timeline, 0, Map::empty(), Seq::empty());
        assert(automatic_upto(t.headers, series, timeline, t.headers.len() as int, d.columns));
        assert forall|k: int| 0 <= k < d.columns.len() implies has_only_numbers(
            t,
            finite,
            (#[trigger] d.columns[k]).source_index as int,
        ) by {
            assert(series[d.columns[k].source_index as int]);
        }
    } else {
        lemma_chosen(m.columns@, at, 0, Seq::empty(), first_warnings(m));
        assert forall|k: int| 0 <= k < d.columns.len() implies ({
            let c = (#[trigger] d.columns[k]).source_index as int;
            &&& c == at[k]
            &&& c < t.headers.len()
            &&& t.headers[c] == d.columns[k].source_name
            &&& d.timeline_column != Some(c)
            &&& has_only_numbers(t, finite, c)
        }) by {
            lemma_known(t.headers, names, 0, k);
            lemma_mapped(at, names, timeline, 0, k);
            lemma_usable(at, series, t.headers, 0, k);
            assert(names[k] == m.columns@[k].column@);
            assert(series[at[k]]);
        }
        assert forall|k: int, l: int| 0 <= k < l < d.columns.len() implies (
        #[trigger] d.columns[k]).source_index != (#[trigger] d.columns[l]).source_index by {
            law_mapped_columns_are_distinct(t.headers, names, timeline, k, l);
        }
    }
}

/// A plan follows a mapping of columns one for one: the series stand in the order of the mapping,
/// with the name, the entity path and the unit that it gives them. An empty unit is none.
pub proof fn law_plans_follow_the_mapping(
    t: CsvTableView,
    finite: Seq<Seq<bool>>,
    m: CsvMapping,
    path: Seq<char>,
)
    requires
        drafted(t, finite, m, path) is Ok,
        m.columns@.len() > 0,
    ensures
        ({
            let d = drafted(t, finite, m, path)->Ok_0;
            &&& d.columns.len() == m.columns@.len()
            &&& forall|k: int|
                0 <= k < d.columns.len() ==> (#[trigger] d.columns[k]).source_name
                    == m.columns@[k].column@ && d.columns[k].suffix == m.columns@[k].entity_path@
                    && (match m.columns@[k].unit {
                    Some(u) if u@.len() > 0 => d.columns[k].unit == Some(u@),
                    _ => d.columns[k].unit is None,
                })
        }),
{
    let timeline = timeline_column(t.headers, m)->Ok_0;
    let at = mapped_columns(t.headers, mapped_names(m), timeline)->Ok_0;
    lemma_chosen(m.columns@, at, 0, Seq::empty(), first_warnings(m));
}

/// Without a mapping of columns a plan takes every column of numbers but the timeline, in the
/// order of the headers.
pub proof fn law_plans_take_every_column_of_numbers(
    t: CsvTableView,
    finite: Seq<Seq<bool>>,
    m: CsvMapping,
    path: Seq<char>,
    c: int,
)
    requires
        flags_fit(t, finite),
        drafted(t, finite, m, path) is Ok,
        m.columns@.len() == 0,
        0 <= c < t.headers.len(),
    ensures
        ({
            let d = drafted(t, finite, m, path)->Ok_0;
            &&& has_only_numbers(t, finite, c) && d.timeline_column != Some(c) ==> exists|k: int|
                0 <= k < d.columns.len() && (#[trigger] d.columns[k]).source_index == c
            &&& forall|k: int, l: int|
                0 <= k < l < d.columns.len() ==> (#[trigger] d.columns[k]).source_index < (
                #[trigger] d.columns[l]).source_index
        }),
{
    let timeline = timeline_column(t.headers, m)->Ok_0;
    let series = series_of(t, finite);
    lemma_automatic(t.headers, series, timeline, 0, Map::empty(), Seq::empty());
    assert(series[c] == is_series(t.rows, finite, c));
    if has_only_numbers(t, finite, c) {
        let i = choose|i: int|
            0 <= i < t.rows.len() && text::trim(#[trigger] t.rows[i][c]).len() > 0 && finite[i][c];
        assert(!is_empty_field(t.rows[i][c]) && finite[i][c]);
        assert(is_series(t.rows, finite, c));
    }
}

proof fn lemma_rows_sound(
    t: CsvTableView,
    timeline: Option<int>,
    kind: CsvTimelineKind,
    unit: CsvTimeUnit,
    path: Seq<char>,
    i: int,
    k: int,
)
    requires
        0 <= i <= k < t.rows.len(),
        rows_failure(t, timeline, kind, unit, path, i) is None,
    ensures
        t.rows.len() <= MAX_CSV_ROWS,
        t.fault is None,
        timeline matches Some(c) ==> timeline_value(t.rows[k][c], kind, unit) is Some,
    decreases t.rows.len() - i,
{
    if i < k {
        lemma_rows_sound(t, timeline, kind, unit, path, i + 1, k);
    } else if i + 1 < t.rows.len() {
        lemma_rows_sound(t, timeline, kind, unit, path, i + 1, i + 1);
    }
}

/// The rows of a plan are placed in time by the column that the mapping names, in its kind and
/// unit, and every row has a time there. Without a timeline mapping the rows are counted, one a
/// second, on a sequence of their own.
pub proof fn law_plans_keep_the_mapped_timeline(
    t: CsvTableView,
    finite: Seq<Seq<bool>>,
    m: CsvMapping,
    path: Seq<char>,
)
    requires
        drafted(t, finite, m, path) is Ok,
    ensures
        ({
            let d = drafted(t, finite, m, path)->Ok_0;
            &&& 0 < t.rows.len() <= 1_000_000
            &&& 0 < t.headers.len() <= 256
            &&& t.fault is None
            &&& match m.timeline {
                Some(mapped) => {
                    &&& d.timeline_column matches Some(c) && 0 <= c < t.headers.len()
                        && t.headers[c] == mapped.column@ && forall|i: int|
                        0 <= i < t.rows.len() ==> timeline_value(
                            #[trigger] t.rows[i][c],
                            mapped.kind,
                            mapped.unit,
                        ) is Some
                    &&& d.timeline_name == mapped.name@
                    &&& d.timeline_kind == mapped.kind
                    &&& d.timeline_unit == mapped.unit
                    &&& match mapped.fps {
                        Some(fps) => d.fps == Some(fps.bits) && fps.is_positive && mapped.kind
                            == CsvTimelineKind::Sequence,
                        None => d.fps is None,
                    }
                },
                None => {
                    &&& d.timeline_column is None
                    &&& d.timeline_name == "row"@
                    &&& d.timeline_kind == CsvTimelineKind::Sequence
                    &&& d.fps == Some(0x3ff0_0000_0000_0000u64)
                },
            }
        }),
{
    let timeline = timeline_column(t.headers, m)->Ok_0;
    assert(rows_failure(t, timeline, plan_kind(m), plan_unit(m), path, 0) is None);
    assert(t.rows.len() > 0);
    lemma_rows_sound(t, timeline, plan_kind(m), plan_unit(m), path, 0, 0);
    if m.timeline is Some {
        let mapped = m.timeline->Some_0;
        lemma_position(t.headers, mapped.column@, 0);
        let c = timeline->Some_0;
        assert forall|i: int| 0 <= i < t.rows.len() implies timeline_value(
            #[trigger] t.rows[i][c],
            mapped.kind,
            mapped.unit,
        ) is Some by {
            lemma_rows_sound(t, timeline, plan_kind(m), plan_unit(m), path, 0, i);
        }
    }
}

/// A time that is a whole number counts its unit: a nanosecond, a thousand, a million or a
/// thousand million of them. A place in a sequence is the number itself.
pub proof fn law_whole_times_count_their_unit(raw: Seq<char>, kind: CsvTimelineKind, unit: CsvTimeUnit)
    requires
        text::trim(raw).len() > 0,
        text::all_digits(text::trim(raw)),
    ensures
        ({
            let n = text::digits_value(text::trim(raw)) as int;
            let scaled = match (kind, unit) {
                (CsvTimelineKind::Sequence, _) => n,
                (_, CsvTimeUnit::Ns) => n,
                (_, CsvTimeUnit::Us) => n * 1_000,
                (_, CsvTimeUnit::Ms) => n * 1_000_000,
                (_, CsvTimeUnit::S) => n * 1_000_000_000,
            };
            timeline_value(raw, kind, unit) == if scaled <= i64::MAX {
                Some(scaled)
            } else {
                None
            }
        }),
{
    let s = text::trim(raw);
    reveal_strlit("-");
    assert(text::is_digit(s[0]));
    assert(!text::starts_with(s, "-"@)) by {
        if text::starts_with(s, "-"@) {
            assert(s.subrange(0, 1)[0] == "-"@[0]);
        }
    }
    assert(!s.contains('.')) by {
        if s.contains('.') {
            let i = s.index_of('.');
            assert(text::is_digit(s[i]));
        }
    }
    assert(text::cut(s, '.') is None) by {
        s.index_of_first_ensures('.');
    }
    assert(decimal_parts(s) == (false, s, Seq::<char>::empty()));
    let scale = unit_scale(unit) as int;
    let d = places(scale);
    let none = Seq::<char>::empty();
    assert(at_places(none, d) =~= zeros(d));
    lemma_zeros_value(d);
    assert(text::digits_value(at_places(none, d)) == 0);
    assert(text::all_digits(none));
    assert(text::digits_value(s) * scale >= 0) by (nonlinear_arith)
        requires
            scale >= 0,
            text::digits_value(s) >= 0,
    ;
}

/// The segment of a header has at most 64 characters: those of the header, with an underscore in
/// place of each that is neither a word character nor a hyphen; a header without any becomes a
/// column.
pub proof fn law_segments_keep_the_plain_characters(header: Seq<char>, i: int)
    ensures
        header.len() == 0 ==> segment(header) == "column"@,
        0 < header.len() <= 64 ==> segment(header).len() == header.len(),
        header.len() > 64 ==> segment(header).len() == 64,
        0 <= i < segment(header).len() && header.len() > 0 ==> segment(header)[i] == if is_word_char(
            header[i],
        ) || header[i] == '-' {
            header[i]
        } else {
            '_'
        },
{
}

proof fn lemma_headers_from(headers: Seq<Seq<char>>, i: int)
    requires
        0 <= i,
    ensures
        headers_failure_from(headers, i) is None <==> forall|k: int|
            i <= k < headers.len() ==> (#[trigger] headers[k]).len() > 0
                && !headers.take(k).contains(headers[k]),
    decreases headers.len() - i,
{
    if i < headers.len() {
        lemma_headers_from(headers, i + 1);
    }
}

/// A header row is accepted exactly if it names one to 256 columns, each with a name of its own that
/// is not empty, and neither a name nor the row is too long.
pub proof fn law_headers_name_their_columns(headers: Seq<Seq<char>>)
    ensures
        headers_failure(headers) is None <==> {
            &&& 1 <= headers.len() <= 256
            &&& field_bytes(headers) <= 1_048_576
            &&& forall|k: int|
                0 <= k < headers.len() ==> text::byte_len(#[trigger] headers[k]) <= 262_144
                    && headers[k].len() > 0
            &&& headers.no_duplicates()
        },
{
    lemma_headers_from(headers, 0);
    if forall|k: int|
        0 <= k < headers.len() ==> !headers.take(k).contains(#[trigger] headers[k]) {
        assert forall|a: int, b: int|
            0 <= a < headers.len() && 0 <= b < headers.len() && a != b implies headers[a]
            != headers[b] by {
            if a < b {
                assert(headers.take(b)[a] == headers[a]);
                assert(!headers.take(b).contains(headers[b]));
            } else {
                assert(headers.take(a)[b] == headers[b]);
                assert(!headers.take(a).contains(headers[a]));
            }
        }
    }
    if headers.no_duplicates() {
        assert forall|k: int| 0 <= k < headers.len() implies !headers.take(k).contains(
            #[trigger] headers[k],
        ) by {
            if headers.take(k).contains(headers[k]) {
                let j = choose|j: int| 0 <= j < k && headers.take(k)[j] == headers[k];
                assert(headers[j] == headers[k]);
            }
        }
    }
}

proof fn lemma_paths_from(paths: Seq<Seq<char>>, i: int)
    requires
        0 <= i,
    ensures
        paths_failure_from(paths, i) is None <==> forall|k: int|
            i <= k < paths.len() ==> !paths.take(k).contains(#[trigger] paths[k]),
    decreases paths.len() - i,
{
    if i < paths.len() {
        lemma_paths_from(paths, i + 1);
    }
}

/// The series of a plan are accepted exactly if no two of them have the same path.
pub proof fn law_series_have_their_own_path(paths: Seq<Seq<char>>)
    ensures
        paths_failure_from(paths, 0) is None <==> paths.no_duplicates(),
{
    lemma_paths_from(paths, 0);
    if paths_failure_from(paths, 0) is None {
        assert forall|a: int, b: int|
            0 <= a < paths.len() && 0 <= b < paths.len() && a != b implies paths[a]
            != paths[b] by {
            if a < b {
                assert(paths.take(b)[a] == paths[a]);
                assert(!paths.take(b).contains(paths[b]));
            } else {
                assert(paths.take(a)[b] == paths[b]);
                assert(!paths.take(a).contains(paths[a]));
            }
        }
    }
    if paths.no_duplicates() {
        assert forall|k: int| 0 <= k < paths.len() implies !paths.take(k).contains(
            #[trigger] paths[k],
        ) by {
            if paths.take(k).contains(paths[k]) {
                let j = choose|j: int| 0 <= j < k && paths.take(k)[j] == paths[k];
                assert(paths[j] == paths[k]);
            }
        }
    }
}

/// A source is scanned on exactly while neither the row nor the field becomes too long. A comma
/// outside quotes starts a field and a line end outside quotes starts a row; inside quotes both are
/// part of the field.
pub proof fn law_scans_count_rows_and_fields(s: CsvScan, byte: u8)
    requires
        s.record_bytes <= 1_048_576,
        s.field_bytes <= 262_144,
    ensures
        scan_step(s, byte) is Some <==> s.record_bytes < 1_048_576 && s.field_bytes < 262_144,
        scan_step(s, byte) matches Some(t) ==> {
            &&& s.in_quotes ==> t.record_bytes == s.record_bytes + 1 && t.field_bytes
                == s.field_bytes + 1 && (t.in_quotes <==> byte != 34)
            &&& !s.in_quotes && byte == 44 ==> t.field_bytes == 0 && t.record_bytes
                == s.record_bytes + 1
            &&& !s.in_quotes && byte == 10 ==> t.field_bytes == 0 && t.record_bytes == 0
            &&& !s.in_quotes && byte != 44 && byte != 10 ==> t.record_bytes == s.record_bytes + 1
                && t.field_bytes == s.field_bytes + 1
            &&& !s.in_quotes ==> (t.in_quotes <==> byte == 34 && (s.after_quote || s.field_bytes
                == 0))
        },
{
}

} // verus!
