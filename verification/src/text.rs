//! Text as sequences of characters: trimming, searching, comparing and building strings.

use vstd::prelude::*;
use vstd::string::*;
use vstd::utf8::*;

verus! {

/// `String::push` appends one character to the end of the string.
pub assume_specification[ String::push ](s: &mut String, c: char)
    ensures
        final(s)@ == old(s)@.push(c),
;

/// The characters with the Unicode `White_Space` property.
pub open spec fn is_space(c: char) -> bool {
    let n = c as u32;
    ||| 0x09 <= n <= 0x0d
    ||| n == 0x20
    ||| n == 0x85
    ||| n == 0xa0
    ||| n == 0x1680
    ||| 0x2000 <= n <= 0x200a
    ||| n == 0x2028
    ||| n == 0x2029
    ||| n == 0x202f
    ||| n == 0x205f
    ||| n == 0x3000
}

/// The characters of the Unicode general category `Cc`.
pub open spec fn is_control(c: char) -> bool {
    let n = c as u32;
    n <= 0x1f || 0x7f <= n <= 0x9f
}

pub open spec fn is_digit(c: char) -> bool {
    '0' <= c && c <= '9'
}

pub open spec fn is_lower(c: char) -> bool {
    'a' <= c && c <= 'z'
}

pub open spec fn is_upper(c: char) -> bool {
    'A' <= c && c <= 'Z'
}

pub open spec fn is_alphanumeric(c: char) -> bool {
    is_digit(c) || is_lower(c) || is_upper(c)
}

/// The number of bytes that a text takes in UTF-8.
pub open spec fn byte_len(s: Seq<char>) -> nat {
    encode_utf8(s).len()
}

pub open spec fn any_control(s: Seq<char>) -> bool {
    exists|i: int| 0 <= i < s.len() && is_control(#[trigger] s[i])
}

pub open spec fn trim_start(s: Seq<char>) -> Seq<char>
    decreases s.len(),
{
    if s.len() > 0 && is_space(s[0]) {
        trim_start(s.drop_first())
    } else {
        s
    }
}

pub open spec fn trim_end(s: Seq<char>) -> Seq<char>
    decreases s.len(),
{
    if s.len() > 0 && is_space(s.last()) {
        trim_end(s.drop_last())
    } else {
        s
    }
}

/// A text without the white space at its two ends.
pub open spec fn trim(s: Seq<char>) -> Seq<char> {
    trim_end(trim_start(s))
}

/// Lexicographic order by code point, which is also the order of the UTF-8 encodings.
pub open spec fn less(a: Seq<char>, b: Seq<char>) -> bool
    decreases a.len(),
{
    if b.len() == 0 {
        false
    } else if a.len() == 0 {
        true
    } else if a[0] != b[0] {
        a[0] < b[0]
    } else {
        less(a.drop_first(), b.drop_first())
    }
}

pub proof fn lemma_less_irreflexive(a: Seq<char>)
    ensures
        !less(a, a),
    decreases a.len(),
{
    if a.len() > 0 {
        lemma_less_irreflexive(a.drop_first());
    }
}

pub proof fn lemma_less_transitive(a: Seq<char>, b: Seq<char>, c: Seq<char>)
    requires
        less(a, b),
        less(b, c),
    ensures
        less(a, c),
    decreases a.len(),
{
    if a.len() > 0 && b.len() > 0 && c.len() > 0 && a[0] == b[0] && b[0] == c[0] {
        lemma_less_transitive(a.drop_first(), b.drop_first(), c.drop_first());
    }
}

pub proof fn lemma_less_total(a: Seq<char>, b: Seq<char>)
    ensures
        less(a, b) || less(b, a) || a == b,
    decreases a.len(),
{
    if a.len() > 0 && b.len() > 0 && a[0] == b[0] {
        lemma_less_total(a.drop_first(), b.drop_first());
        if a.drop_first() == b.drop_first() {
            assert(a =~= seq![a[0]] + a.drop_first());
            assert(b =~= seq![b[0]] + b.drop_first());
        }
    } else if a.len() == 0 && b.len() == 0 {
        assert(a =~= b);
    }
}

/// Whether `needle` stands in `s` at position `at`.
pub open spec fn occurs_at(s: Seq<char>, needle: Seq<char>, at: int) -> bool {
    0 <= at && at + needle.len() <= s.len() && s.subrange(at, at + needle.len()) == needle
}

pub open spec fn contains_text(s: Seq<char>, needle: Seq<char>) -> bool {
    exists|at: int| #[trigger] occurs_at(s, needle, at)
}

pub open spec fn starts_with(s: Seq<char>, prefix: Seq<char>) -> bool {
    occurs_at(s, prefix, 0)
}

pub open spec fn lower_char(c: char) -> char {
    if is_upper(c) {
        ((c as u32) + 32) as char
    } else {
        c
    }
}

/// The text with its ASCII capitals replaced by small letters.
pub open spec fn lowercase(s: Seq<char>) -> Seq<char> {
    s.map_values(|c: char| lower_char(c))
}

/// The decimal digits of a number, most significant first.
pub open spec fn decimal(n: nat) -> Seq<char>
    decreases n,
{
    if n < 10 {
        seq![digit_char(n)]
    } else {
        decimal(n / 10).push(digit_char(n % 10))
    }
}

pub open spec fn digit_char(d: nat) -> char {
    ((48 + d) as u32) as char
}

/// One hexadecimal digit in lower case.
pub open spec fn hex_char(d: nat) -> char {
    if d < 10 {
        ((48 + d) as u32) as char
    } else {
        ((87 + d) as u32) as char
    }
}

/// Two hexadecimal digits per byte, in lower case.
pub open spec fn hex_text(bytes: Seq<u8>) -> Seq<char>
    decreases bytes.len(),
{
    if bytes.len() == 0 {
        Seq::empty()
    } else {
        hex_text(bytes.drop_last()).push(hex_char(bytes.last() as nat / 16)).push(
            hex_char(bytes.last() as nat % 16),
        )
    }
}

/// The message with which std reports where a byte string stops being UTF-8.
pub uninterp spec fn utf8_failure(bytes: Seq<u8>) -> Seq<char>;

/// `std::str::from_utf8` accepts exactly the valid UTF-8 byte strings and reads them as their
/// characters. The message of its error depends on the bytes alone and is only named.
#[verifier::external_body]
pub(crate) fn utf8_text(bytes: &[u8]) -> (r: Result<String, String>)
    ensures
        match r {
            Ok(s) => valid_utf8(bytes@) && s@ == decode_utf8(bytes@) && encode_utf8(s@) == bytes@,
            Err(message) => !valid_utf8(bytes@) && message@ == utf8_failure(bytes@),
        },
{
    match std::str::from_utf8(bytes) {
        Ok(s) => Ok(s.to_owned()),
        Err(e) => Err(e.to_string()),
    }
}

/// A text in quotes, with the escapes of std's `Debug` for strings.
pub uninterp spec fn debug_text(s: Seq<char>) -> Seq<char>;

/// `{:?}` on a string writes it in quotes and escapes what does not print; which characters
/// those are follows from the text alone.
#[verifier::external_body]
pub(crate) fn quoted(s: &str) -> (r: String)
    ensures
        r@ == debug_text(s@),
{
    format!("{:?}", s)
}

pub fn chars_of(s: &str) -> (r: Vec<char>)
    ensures
        r@ == s@,
{
    let mut r: Vec<char> = Vec::new();
    for c in it: s.chars()
        invariant
            it.seq() == s@,
            r@ == it.seq().take(it.index() as int),
    {
        r.push(c);
    }
    r
}

pub fn string_of(v: &[char]) -> (r: String)
    ensures
        r@ == v@,
{
    let mut r = String::new();
    let mut i: usize = 0;
    while i < v.len()
        invariant
            i <= v@.len(),
            r@ == v@.take(i as int),
        decreases v@.len() - i,
    {
        r.push(v[i]);
        proof {
            assert(v@.take(i + 1) =~= v@.take(i as int).push(v@[i as int]));
        }
        i = i + 1;
    }
    proof {
        assert(v@.take(v@.len() as int) =~= v@);
    }
    r
}

/// The part of `v` from `from` up to `to`.
pub fn string_between(v: &[char], from: usize, to: usize) -> (r: String)
    requires
        from <= to <= v@.len(),
    ensures
        r@ == v@.subrange(from as int, to as int),
{
    let mut r = String::new();
    let mut i: usize = from;
    while i < to
        invariant
            from <= i <= to <= v@.len(),
            r@ == v@.subrange(from as int, i as int),
        decreases to - i,
    {
        r.push(v[i]);
        proof {
            assert(v@.subrange(from as int, i + 1) =~= v@.subrange(from as int, i as int).push(
                v@[i as int],
            ));
        }
        i = i + 1;
    }
    r
}

pub fn utf8_size(s: &str) -> (r: usize)
    ensures
        r == byte_len(s@),
{
    s.as_bytes().len()
}

pub fn same_bytes(a: &[u8], b: &[u8]) -> (r: bool)
    ensures
        r == (a@ == b@),
{
    if a.len() != b.len() {
        return false;
    }
    let mut i: usize = 0;
    while i < a.len()
        invariant
            i <= a@.len(),
            a@.len() == b@.len(),
            forall|j: int| 0 <= j < i ==> a@[j] == b@[j],
        decreases a@.len() - i,
    {
        if a[i] != b[i] {
            return false;
        }
        i = i + 1;
    }
    proof {
        assert(a@ =~= b@);
    }
    true
}

pub fn same(a: &str, b: &str) -> (r: bool)
    ensures
        r == (a@ == b@),
{
    let r = same_bytes(a.as_bytes(), b.as_bytes());
    proof {
        encode_utf8_decode_utf8(a@);
        encode_utf8_decode_utf8(b@);
    }
    r
}

pub fn is_less(a: &str, b: &str) -> (r: bool)
    ensures
        r == less(a@, b@),
{
    let x = chars_of(a);
    let y = chars_of(b);
    let mut i: usize = 0;
    proof {
        assert(x@.skip(0) =~= x@);
        assert(y@.skip(0) =~= y@);
    }
    while i < x.len() && i < y.len()
        invariant
            i <= x@.len(),
            i <= y@.len(),
            x@ == a@,
            y@ == b@,
            less(a@, b@) == less(x@.skip(i as int), y@.skip(i as int)),
        decreases x@.len() - i,
    {
        let p: char = x[i];
        let q: char = y[i];
        proof {
            assert(x@.skip(i as int)[0] == x@[i as int]);
            assert(y@.skip(i as int)[0] == y@[i as int]);
            assert(x@.skip(i as int).drop_first() =~= x@.skip(i + 1));
            assert(y@.skip(i as int).drop_first() =~= y@.skip(i + 1));
        }
        if p != q {
            return p < q;
        }
        i = i + 1;
    }
    i < y.len()
}

pub fn space_char(c: char) -> (r: bool)
    ensures
        r == is_space(c),
{
    let n: u32 = c as u32;
    (0x09 <= n && n <= 0x0d) || n == 0x20 || n == 0x85 || n == 0xa0 || n == 0x1680 || (0x2000 <= n
        && n <= 0x200a) || n == 0x2028 || n == 0x2029 || n == 0x202f || n == 0x205f || n == 0x3000
}

pub fn control_char(c: char) -> (r: bool)
    ensures
        r == is_control(c),
{
    let n: u32 = c as u32;
    n <= 0x1f || (0x7f <= n && n <= 0x9f)
}

pub fn has_control(s: &str) -> (r: bool)
    ensures
        r == any_control(s@),
{
    let v = chars_of(s);
    let mut i: usize = 0;
    while i < v.len()
        invariant
            i <= v@.len(),
            v@ == s@,
            forall|j: int| 0 <= j < i ==> !is_control(#[trigger] s@[j]),
        decreases v@.len() - i,
    {
        if control_char(v[i]) {
            return true;
        }
        i = i + 1;
    }
    false
}

proof fn lemma_trim_start_step(s: Seq<char>, from: int)
    requires
        0 <= from < s.len(),
    ensures
        is_space(s[from]) ==> trim_start(s.skip(from)) == trim_start(s.skip(from + 1)),
        !is_space(s[from]) ==> trim_start(s.skip(from)) == s.skip(from),
{
    assert(s.skip(from)[0] == s[from]);
    assert(s.skip(from).drop_first() =~= s.skip(from + 1));
}

/// Where the text without its leading and trailing white space begins and ends.
pub fn trim_bounds(v: &[char]) -> (r: (usize, usize))
    ensures
        r.0 <= r.1 <= v@.len(),
        v@.subrange(r.0 as int, r.1 as int) == trim(v@),
{
    let mut from: usize = 0;
    proof {
        assert(v@.skip(0) =~= v@);
    }
    while from < v.len() && space_char(v[from])
        invariant
            from <= v@.len(),
            trim_start(v@) == trim_start(v@.skip(from as int)),
        decreases v@.len() - from,
    {
        proof {
            lemma_trim_start_step(v@, from as int);
        }
        from = from + 1;
    }
    proof {
        if from < v@.len() {
            lemma_trim_start_step(v@, from as int);
        }
        assert(trim_start(v@) == v@.skip(from as int));
    }
    let mut to: usize = v.len();
    proof {
        assert(v@.subrange(from as int, to as int) =~= v@.skip(from as int));
    }
    while from < to && space_char(v[to - 1])
        invariant
            from <= to <= v@.len(),
            trim(v@) == trim_end(v@.subrange(from as int, to as int)),
        decreases to,
    {
        proof {
            let s = v@.subrange(from as int, to as int);
            assert(s.last() == v@[to - 1]);
            assert(s.drop_last() =~= v@.subrange(from as int, to - 1));
        }
        to = to - 1;
    }
    proof {
        let s = v@.subrange(from as int, to as int);
        if from < to {
            assert(s.last() == v@[to - 1]);
        }
    }
    (from, to)
}

pub fn trimmed(s: &str) -> (r: String)
    ensures
        r@ == trim(s@),
{
    let v = chars_of(s);
    let (from, to) = trim_bounds(v.as_slice());
    string_between(v.as_slice(), from, to)
}

/// Whether nothing is left of the text once it is trimmed.
pub fn is_blank(s: &str) -> (r: bool)
    ensures
        r == (trim(s@).len() == 0),
{
    let v = chars_of(s);
    let (from, to) = trim_bounds(v.as_slice());
    from == to
}

pub fn matches_at(v: &[char], needle: &[char], at: usize) -> (r: bool)
    ensures
        r == occurs_at(v@, needle@, at as int),
{
    if needle.len() > v.len() || at > v.len() - needle.len() {
        return false;
    }
    let size: usize = v.len();
    let mut i: usize = 0;
    while i < needle.len()
        invariant
            i <= needle@.len(),
            at + needle@.len() <= v@.len(),
            size == v@.len(),
            forall|j: int| 0 <= j < i ==> v@[at + j] == needle@[j],
        decreases needle@.len() - i,
    {
        if v[at + i] != needle[i] {
            proof {
                assert(v@.subrange(at as int, at + needle@.len())[i as int] == v@[at + i]);
            }
            return false;
        }
        i = i + 1;
    }
    proof {
        assert(v@.subrange(at as int, at + needle@.len()) =~= needle@);
    }
    true
}

/// The first position at or after `from` where `needle` stands.
pub fn find_from(v: &[char], needle: &[char], from: usize) -> (r: Option<usize>)
    ensures
        match r {
            Some(at) => from <= at && occurs_at(v@, needle@, at as int) && forall|k: int|
                from <= k < at ==> !occurs_at(v@, needle@, k),
            None => forall|k: int| from <= k ==> !occurs_at(v@, needle@, k),
        },
{
    if needle.len() > v.len() {
        return None;
    }
    let last: usize = v.len() - needle.len();
    let mut at: usize = from;
    while at <= last
        invariant
            last == v@.len() - needle@.len(),
            from <= at,
            forall|k: int| from <= k < at ==> !occurs_at(v@, needle@, k),
        decreases last + 1 - at,
    {
        if matches_at(v, needle, at) {
            return Some(at);
        }
        if at == last {
            return None;
        }
        at = at + 1;
    }
    None
}

pub fn contains(s: &str, needle: &str) -> (r: bool)
    ensures
        r == contains_text(s@, needle@),
{
    let v = chars_of(s);
    let n = chars_of(needle);
    match find_from(v.as_slice(), n.as_slice(), 0) {
        Some(at) => {
            assert(occurs_at(s@, needle@, at as int));
            true
        },
        None => false,
    }
}

pub fn has_prefix(s: &str, prefix: &str) -> (r: bool)
    ensures
        r == starts_with(s@, prefix@),
{
    let v = chars_of(s);
    let n = chars_of(prefix);
    matches_at(v.as_slice(), n.as_slice(), 0)
}

/// The first position at or after `from` where the character `c` stands.
pub fn find_char(v: &[char], c: char, from: usize) -> (r: Option<usize>)
    ensures
        match r {
            Some(at) => from <= at < v@.len() && v@[at as int] == c && forall|k: int|
                from <= k < at ==> v@[k] != c,
            None => forall|k: int| from <= k < v@.len() ==> v@[k] != c,
        },
{
    let mut at: usize = from;
    while at < v.len()
        invariant
            from <= at,
            forall|k: int| from <= k < at && k < v@.len() ==> v@[k] != c,
        decreases v@.len() - at,
    {
        if v[at] == c {
            return Some(at);
        }
        at = at + 1;
    }
    None
}

pub fn lowered_char(c: char) -> (r: char)
    ensures
        r == lower_char(c),
{
    if 'A' <= c && c <= 'Z' {
        ((c as u8) + 32u8) as char
    } else {
        c
    }
}

pub fn lowered(s: &str) -> (r: String)
    ensures
        r@ == lowercase(s@),
{
    let v = chars_of(s);
    let mut r = String::new();
    let mut i: usize = 0;
    while i < v.len()
        invariant
            i <= v@.len(),
            v@ == s@,
            r@ == lowercase(s@.take(i as int)),
        decreases v@.len() - i,
    {
        r.push(lowered_char(v[i]));
        proof {
            assert(s@.take(i + 1) =~= s@.take(i as int).push(s@[i as int]));
            assert(lowercase(s@.take(i + 1)) =~= lowercase(s@.take(i as int)).push(
                lower_char(s@[i as int]),
            ));
        }
        i = i + 1;
    }
    proof {
        assert(s@.take(s@.len() as int) =~= s@);
    }
    r
}

fn digit_of(d: u8) -> (r: char)
    requires
        d < 10,
    ensures
        r == digit_char(d as nat),
{
    (48u8 + d) as char
}

/// The decimal writing of a number.
pub fn decimal_text(n: u64) -> (r: String)
    ensures
        r@ == decimal(n as nat),
    decreases n,
{
    if n < 10 {
        let mut s = String::new();
        s.push(digit_of(n as u8));
        proof {
            assert(s@ =~= seq![digit_char(n as nat)]);
        }
        s
    } else {
        let mut s = decimal_text(n / 10);
        s.push(digit_of((n % 10) as u8));
        s
    }
}

fn hex_digit(d: u8) -> (r: char)
    requires
        d < 16,
    ensures
        r == hex_char(d as nat),
{
    if d < 10 {
        (48u8 + d) as char
    } else {
        (87u8 + d) as char
    }
}

pub fn hex_of(bytes: &[u8]) -> (r: String)
    ensures
        r@ == hex_text(bytes@),
{
    let mut r = String::new();
    let mut i: usize = 0;
    while i < bytes.len()
        invariant
            i <= bytes@.len(),
            r@ == hex_text(bytes@.take(i as int)),
        decreases bytes@.len() - i,
    {
        r.push(hex_digit(bytes[i] / 16));
        r.push(hex_digit(bytes[i] % 16));
        proof {
            assert(bytes@.take(i + 1).drop_last() =~= bytes@.take(i as int));
            assert(bytes@.take(i + 1).last() == bytes@[i as int]);
        }
        i = i + 1;
    }
    proof {
        assert(bytes@.take(bytes@.len() as int) =~= bytes@);
    }
    r
}

/// The number that decimal digits write, most significant first.
pub open spec fn digits_value(s: Seq<char>) -> nat
    decreases s.len(),
{
    if s.len() == 0 {
        0
    } else {
        digits_value(s.drop_last()) * 10 + digit_value(s.last())
    }
}

pub open spec fn digit_value(c: char) -> nat {
    (c as int - '0' as int) as nat
}

pub open spec fn all_digits(s: Seq<char>) -> bool {
    forall|i: int| 0 <= i < s.len() ==> is_digit(#[trigger] s[i])
}

/// The number that a text writes: digits, after a plus sign if there is one, that fit.
pub open spec fn number_read(s: Seq<char>, max: nat) -> Option<nat> {
    let digits = if s.len() > 0 && s[0] == '+' {
        s.drop_first()
    } else {
        s
    };
    if digits.len() > 0 && all_digits(digits) && digits_value(digits) <= max {
        Some(digits_value(digits))
    } else {
        None
    }
}

proof fn lemma_digits_grow(s: Seq<char>, i: int)
    requires
        0 <= i <= s.len(),
    ensures
        digits_value(s.take(i)) <= digits_value(s),
    decreases s.len() - i,
{
    if i < s.len() {
        lemma_digits_grow(s, i + 1);
        assert(s.take(i + 1).drop_last() =~= s.take(i));
    } else {
        assert(s.take(i) =~= s);
    }
}

/// Reads a number of at most `max`.
pub fn parse_number(s: &str, max: u64) -> (r: Option<u64>)
    ensures
        match r {
            Some(n) => number_read(s@, max as nat) == Some(n as nat),
            None => number_read(s@, max as nat) is None,
        },
{
    let v = chars_of(s);
    let from: usize = if v.len() > 0 && v[0] == '+' {
        1
    } else {
        0
    };
    let ghost digits = if s@.len() > 0 && s@[0] == '+' {
        s@.drop_first()
    } else {
        s@
    };
    assert(digits =~= s@.skip(from as int));
    if from == v.len() {
        return None;
    }
    let mut n: u64 = 0;
    let mut i: usize = from;
    assert(digits.take(0) =~= Seq::<char>::empty());
    while i < v.len()
        invariant
            from <= i <= v@.len(),
            from <= 1,
            v@ == s@,
            digits == s@.skip(from as int),
            digits.len() == v@.len() - from,
            n <= max,
            n == digits_value(digits.take(i - from)),
            forall|j: int| 0 <= j < i - from ==> is_digit(#[trigger] digits[j]),
            number_read(s@, max as nat) is Some ==> all_digits(digits) && digits_value(digits)
                <= max,
        decreases v@.len() - i,
    {
        let c: char = v[i];
        assert(digits[i - from] == c);
        if !('0' <= c && c <= '9') {
            return None;
        }
        let d: u64 = (c as u8 - 48u8) as u64;
        proof {
            assert(digits.take(i - from + 1).drop_last() =~= digits.take(i - from));
            assert(digits.take(i - from + 1).last() == c);
            lemma_digits_grow(digits, i - from + 1);
        }
        if d > max || n > (max - d) / 10 {
            return None;
        }
        n = n * 10 + d;
        i = i + 1;
    }
    assert(digits.take(digits.len() as int) =~= digits);
    Some(n)
}

/// Whether two texts are equal up to the case of ASCII letters.
pub fn same_ignoring_case(a: &str, b: &str) -> (r: bool)
    ensures
        r == (lowercase(a@) == lowercase(b@)),
{
    let x = lowered(a);
    let y = lowered(b);
    same(x.as_str(), y.as_str())
}

/// A text under construction.
pub struct Line {
    text: String,
}

impl View for Line {
    type V = Seq<char>;

    closed spec fn view(&self) -> Seq<char> {
        self.text@
    }
}

/// Starts a line with `s`.
pub fn line(s: &str) -> (r: Line)
    ensures
        r@ == s@,
{
    Line { text: s.to_owned() }
}

impl Line {
    pub fn add(self, s: &str) -> (r: Line)
        ensures
            r@ == self@ + s@,
    {
        let mut text = self.text;
        text.append(s);
        Line { text }
    }

    pub fn num(self, n: u64) -> (r: Line)
        ensures
            r@ == self@ + decimal(n as nat),
    {
        let mut text = self.text;
        let digits = decimal_text(n);
        text.append(digits.as_str());
        Line { text }
    }

    /// Adds a byte as two hexadecimal digits.
    pub fn hex(self, byte: u8) -> (r: Line)
        ensures
            r@ == self@ + hex_text(seq![byte]),
    {
        let mut text = self.text;
        let mut one: Vec<u8> = Vec::new();
        one.push(byte);
        let digits = hex_of(one.as_slice());
        proof {
            assert(one@ =~= seq![byte]);
        }
        text.append(digits.as_str());
        Line { text }
    }

    pub fn done(self) -> (r: String)
        ensures
            r@ == self@,
    {
        self.text
    }
}

/// The parts of a text before and after the first `c`.
pub open spec fn cut(s: Seq<char>, c: char) -> Option<(Seq<char>, Seq<char>)> {
    match s.index_of_first(c) {
        Some(i) => Some((s.take(i), s.skip(i + 1))),
        None => None,
    }
}

pub open spec fn pair_view(o: Option<(String, String)>) -> Option<(Seq<char>, Seq<char>)> {
    match o {
        Some((a, b)) => Some((a@, b@)),
        None => None,
    }
}

/// Splits a text at the first `c`.
pub fn split_once(s: &str, c: char) -> (r: Option<(String, String)>)
    ensures
        pair_view(r) == cut(s@, c),
{
    let v = chars_of(s);
    proof {
        s@.index_of_first_ensures(c);
    }
    match find_char(v.as_slice(), c, 0) {
        Some(at) => {
            let n: usize = v.len();
            let a = string_between(v.as_slice(), 0, at);
            let b = string_between(v.as_slice(), at + 1, n);
            proof {
                assert(s@[at as int] == c);
                assert(s@.contains(c));
                assert(s@.index_of_first(c) == Some(at as int));
                assert(a@ =~= s@.take(at as int));
                assert(b@ =~= s@.skip(at + 1));
            }
            Some((a, b))
        },
        None => None,
    }
}

/// What follows a prefix.
pub open spec fn after_prefix(s: Seq<char>, prefix: Seq<char>) -> Option<Seq<char>> {
    if starts_with(s, prefix) {
        Some(s.skip(prefix.len() as int))
    } else {
        None
    }
}

/// Takes a prefix off a text.
pub fn strip_prefix(s: &str, prefix: &str) -> (r: Option<String>)
    ensures
        (match r {
            Some(x) => Some(x@),
            None => None,
        }) == after_prefix(s@, prefix@),
{
    let v = chars_of(s);
    let p = chars_of(prefix);
    if matches_at(v.as_slice(), p.as_slice(), 0) {
        let n: usize = v.len();
        let k: usize = p.len();
        let rest = string_between(v.as_slice(), k, n);
        proof {
            assert(rest@ =~= s@.skip(k as int));
        }
        Some(rest)
    } else {
        None
    }
}

pub open spec fn ends_with(s: Seq<char>, suffix: Seq<char>) -> bool {
    occurs_at(s, suffix, s.len() - suffix.len())
}

pub fn has_suffix(s: &str, suffix: &str) -> (r: bool)
    ensures
        r == ends_with(s@, suffix@),
{
    let v = chars_of(s);
    let x = chars_of(suffix);
    if x.len() > v.len() {
        return false;
    }
    let at: usize = v.len() - x.len();
    matches_at(v.as_slice(), x.as_slice(), at)
}

/// The decimal text of a number that may be below zero.
pub open spec fn signed(n: int) -> Seq<char> {
    if n < 0 {
        "-"@ + decimal((-n) as nat)
    } else {
        decimal(n as nat)
    }
}

pub fn signed_text(n: i64) -> (r: String)
    ensures
        r@ == signed(n as int),
{
    if n >= 0 {
        decimal_text(n as u64)
    } else if n == i64::MIN {
        line("-").num(9_223_372_036_854_775_808u64).done()
    } else {
        line("-").num((-n) as u64).done()
    }
}

impl Line {
    pub fn signed(self, n: i64) -> (r: Line)
        ensures
            r@ == self@ + signed(n as int),
    {
        let digits = signed_text(n);
        self.add(digits.as_str())
    }
}

/// The number that a text writes: digits after a sign, if there is one, that fit 64 bits.
pub open spec fn signed_read(s: Seq<char>) -> Option<int> {
    if s.len() > 0 && s[0] == '-' {
        let rest = s.drop_first();
        if rest.len() > 0 && all_digits(rest) && digits_value(rest) <= 0x8000_0000_0000_0000 {
            Some(-(digits_value(rest) as int))
        } else {
            None
        }
    } else {
        match number_read(s, i64::MAX as nat) {
            Some(n) => Some(n as int),
            None => None,
        }
    }
}

/// Reads a number that may be below zero.
pub fn parse_signed(s: &str) -> (r: Option<i64>)
    ensures
        match r {
            Some(n) => signed_read(s@) == Some(n as int),
            None => signed_read(s@) is None,
        },
{
    let v = chars_of(s);
    let n: usize = v.len();
    if n == 0 || v[0] != '-' {
        return match parse_number(s, i64::MAX as u64) {
            Some(value) => Some(value as i64),
            None => None,
        };
    }
    let rest = string_between(v.as_slice(), 1, n);
    assert(rest@ =~= s@.drop_first());
    if n > 1 && v[1] == '+' {
        assert(rest@[0] == '+');
        assert(!is_digit('+'));
        return None;
    }
    match parse_number(rest.as_str(), 0x8000_0000_0000_0000u64) {
        Some(value) => {
            if value == 0x8000_0000_0000_0000u64 {
                Some(i64::MIN)
            } else {
                Some(-(value as i64))
            }
        },
        None => None,
    }
}

/// The decimal text of a wide number.
pub fn decimal_wide(n: u128) -> (r: String)
    ensures
        r@ == decimal(n as nat),
    decreases n,
{
    if n < 10 {
        decimal_text(n as u64)
    } else {
        let mut s = decimal_wide(n / 10);
        let ghost before = s@;
        s.push(digit_of((n % 10) as u8));
        proof {
            assert(s@ =~= before.push(digit_char((n % 10) as nat)));
        }
        s
    }
}

impl Line {
    pub fn wide(self, n: u128) -> (r: Line)
        ensures
            r@ == self@ + decimal(n as nat),
    {
        let digits = decimal_wide(n);
        self.add(digits.as_str())
    }
}

/// The parts of a text between the separators `c`.
pub open spec fn parts(s: Seq<char>, c: char) -> Seq<Seq<char>>
    decreases s.len(),
    via parts_decreases
{
    match cut(s, c) {
        Some((a, b)) => seq![a] + parts(b, c),
        None => seq![s],
    }
}

#[via_fn]
proof fn parts_decreases(s: Seq<char>, c: char) {
    s.index_of_first_ensures(c);
}

/// Splits a text at every `c`.
pub fn split_all(s: &str, c: char) -> (r: Vec<String>)
    ensures
        crate::table::views(r@) == parts(s@, c),
{
    let v = chars_of(s);
    let n: usize = v.len();
    let mut r: Vec<String> = Vec::new();
    let mut from: usize = 0;
    proof {
        assert(s@.skip(0) =~= s@);
        assert(crate::table::views(r@) + parts(s@, c) =~= parts(s@, c));
    }
    loop
        invariant
            n == v@.len(),
            v@ == s@,
            from <= n,
            crate::table::views(r@) + parts(s@.skip(from as int), c) == parts(s@, c),
        decreases n - from + 1,
    {
        let ghost rest = s@.skip(from as int);
        proof {
            rest.index_of_first_ensures(c);
        }
        match find_char(v.as_slice(), c, from) {
            Some(at) => {
                let part = string_between(v.as_slice(), from, at);
                proof {
                    assert(rest[at - from] == c);
                    assert(rest.contains(c));
                    assert forall|k: int| 0 <= k < at - from implies rest[k] != c by {
                        assert(s@[from + k] != c);
                    }
                    assert(rest.index_of_first(c) == Some(at - from));
                    assert(part@ =~= rest.take(at - from));
                    assert(rest.skip(at - from + 1) =~= s@.skip(at + 1));
                    crate::table::lemma_views_push(r@, part);
                    let before = crate::table::views(r@);
                    assert(before + (seq![part@] + parts(s@.skip(at + 1), c)) =~= before.push(
                        part@,
                    ) + parts(s@.skip(at + 1), c));
                }
                r.push(part);
                from = at + 1;
            },
            None => {
                let part = string_between(v.as_slice(), from, n);
                proof {
                    assert forall|k: int| 0 <= k < rest.len() implies rest[k] != c by {
                        assert(s@[from + k] != c);
                    }
                    assert(!rest.contains(c));
                    assert(part@ =~= rest);
                    crate::table::lemma_views_push(r@, part);
                    let before = crate::table::views(r@);
                    assert(before + seq![part@] =~= before.push(part@));
                }
                r.push(part);
                return r;
            },
        }
    }
}

/// A line without the carriage return that ends it.
pub open spec fn without_return(s: Seq<char>) -> Seq<char> {
    if s.len() > 0 && s.last() == '\r' {
        s.drop_last()
    } else {
        s
    }
}

/// The lines of a text: what stands before each line feed, and what follows the last one if
/// there is anything.
pub open spec fn lines(s: Seq<char>) -> Seq<Seq<char>>
    decreases s.len(),
    via lines_decreases
{
    if s.len() == 0 {
        Seq::empty()
    } else {
        match cut(s, '\n') {
            Some((a, b)) => seq![without_return(a)] + lines(b),
            None => seq![s],
        }
    }
}

#[via_fn]
proof fn lines_decreases(s: Seq<char>) {
    s.index_of_first_ensures('\n');
}

/// Splits a text into its lines.
pub fn split_lines(s: &str) -> (r: Vec<String>)
    ensures
        crate::table::views(r@) == lines(s@),
{
    let v = chars_of(s);
    let n: usize = v.len();
    let mut r: Vec<String> = Vec::new();
    let mut from: usize = 0;
    proof {
        assert(s@.skip(0) =~= s@);
        assert(crate::table::views(r@) + lines(s@) =~= lines(s@));
    }
    while from < n
        invariant
            n == v@.len(),
            v@ == s@,
            from <= n,
            crate::table::views(r@) + lines(s@.skip(from as int)) == lines(s@),
        decreases n - from,
    {
        let ghost rest = s@.skip(from as int);
        let ghost before = crate::table::views(r@);
        proof {
            rest.index_of_first_ensures('\n');
        }
        match find_char(v.as_slice(), '\n', from) {
            Some(at) => {
                let end: usize = if at > from && v[at - 1] == '\r' {
                    at - 1
                } else {
                    at
                };
                let part = string_between(v.as_slice(), from, end);
                proof {
                    assert(rest[at - from] == '\n');
                    assert(rest.contains('\n'));
                    assert forall|k: int| 0 <= k < at - from implies rest[k] != '\n' by {
                        assert(s@[from + k] != '\n');
                    }
                    assert(rest.index_of_first('\n') == Some(at - from));
                    let line = rest.take(at - from);
                    if at > from {
                        assert(line.last() == s@[at - 1]);
                    }
                    assert(part@ =~= without_return(line));
                    assert(rest.skip(at - from + 1) =~= s@.skip(at + 1));
                    crate::table::lemma_views_push(r@, part);
                    assert(before + (seq![part@] + lines(s@.skip(at + 1))) =~= before.push(part@)
                        + lines(s@.skip(at + 1)));
                }
                r.push(part);
                from = at + 1;
            },
            None => {
                let part = string_between(v.as_slice(), from, n);
                proof {
                    assert forall|k: int| 0 <= k < rest.len() implies rest[k] != '\n' by {
                        assert(s@[from + k] != '\n');
                    }
                    assert(!rest.contains('\n'));
                    assert(part@ =~= rest);
                    crate::table::lemma_views_push(r@, part);
                    assert(before + seq![part@] =~= before.push(part@));
                    assert(s@.skip(n as int).len() == 0);
                    assert(before.push(part@) + lines(s@.skip(n as int)) =~= before.push(part@));
                }
                r.push(part);
                from = n;
            },
        }
    }
    proof {
        assert(s@.skip(n as int).len() == 0);
        assert(crate::table::views(r@) + lines(s@.skip(n as int)) =~= crate::table::views(r@));
    }
    r
}

/// Texts after one another with `separator` between them.
pub open spec fn joined(texts: Seq<Seq<char>>, separator: Seq<char>) -> Seq<char>
    decreases texts.len(),
{
    if texts.len() == 0 {
        Seq::empty()
    } else if texts.len() == 1 {
        texts[0]
    } else {
        joined(texts.drop_last(), separator) + separator + texts.last()
    }
}

pub fn join(texts: &Vec<String>, separator: &str) -> (r: String)
    ensures
        r@ == joined(crate::table::views(texts@), separator@),
{
    let ghost views = crate::table::views(texts@);
    let mut r = String::new();
    let mut i: usize = 0;
    proof {
        assert(views.take(0).len() == 0);
        assert(r@ =~= Seq::<char>::empty());
    }
    while i < texts.len()
        invariant
            i <= texts@.len(),
            views == crate::table::views(texts@),
            r@ == joined(views.take(i as int), separator@),
        decreases texts@.len() - i,
    {
        proof {
            assert(views[i as int] == texts@[i as int]@);
            assert(views.take(i + 1).drop_last() =~= views.take(i as int));
            assert(views.take(i + 1).last() == views[i as int]);
        }
        if i > 0 {
            r.append(separator);
        }
        let ghost before = r@;
        r.append(texts[i].as_str());
        proof {
            if i == 0 {
                assert(before =~= Seq::<char>::empty());
                assert(r@ =~= views.take(1)[0]);
            }
        }
        i = i + 1;
    }
    proof {
        assert(views.take(i as int) =~= views);
    }
    r
}

/// A list of texts with the escapes of std's `Debug`.
pub open spec fn debug_list(texts: Seq<Seq<char>>) -> Seq<char> {
    "["@ + joined(texts.map_values(|t: Seq<char>| debug_text(t)), ", "@) + "]"@
}

pub fn quoted_list(texts: &Vec<String>) -> (r: String)
    ensures
        r@ == debug_list(crate::table::views(texts@)),
{
    let ghost views = crate::table::views(texts@);
    let ghost shown = views.map_values(|t: Seq<char>| debug_text(t));
    let mut all: Vec<String> = Vec::new();
    let mut i: usize = 0;
    while i < texts.len()
        invariant
            i <= texts@.len(),
            views == crate::table::views(texts@),
            shown == views.map_values(|t: Seq<char>| debug_text(t)),
            all@.len() == i,
            forall|j: int| 0 <= j < i ==> (#[trigger] crate::table::views(all@)[j]) == shown[j],
        decreases texts@.len() - i,
    {
        let one = quoted(texts[i].as_str());
        proof {
            assert(views[i as int] == texts@[i as int]@);
            crate::table::lemma_views_push(all@, one);
        }
        all.push(one);
        i = i + 1;
    }
    proof {
        assert(crate::table::views(all@) =~= shown);
    }
    let inner = join(&all, ", ");
    line("[").add(inner.as_str()).add("]").done()
}

/// A list of bytes as hexadecimal digits.
pub open spec fn hex_list(bytes: Seq<u8>) -> Seq<char> {
    "["@ + joined(bytes.map_values(|b: u8| hex_text(seq![b])), ", "@) + "]"@
}

pub fn hex_list_text(bytes: &[u8]) -> (r: String)
    ensures
        r@ == hex_list(bytes@),
{
    let ghost shown = bytes@.map_values(|b: u8| hex_text(seq![b]));
    let mut all: Vec<String> = Vec::new();
    let mut i: usize = 0;
    while i < bytes.len()
        invariant
            i <= bytes@.len(),
            shown == bytes@.map_values(|b: u8| hex_text(seq![b])),
            all@.len() == i,
            forall|j: int| 0 <= j < i ==> (#[trigger] crate::table::views(all@)[j]) == shown[j],
        decreases bytes@.len() - i,
    {
        let mut single: Vec<u8> = Vec::new();
        single.push(bytes[i]);
        assert(single@ =~= seq![bytes@[i as int]]);
        let one = hex_of(single.as_slice());
        proof {
            crate::table::lemma_views_push(all@, one);
        }
        all.push(one);
        i = i + 1;
    }
    proof {
        assert(crate::table::views(all@) =~= shown);
    }
    let inner = join(&all, ", ");
    line("[").add(inner.as_str()).add("]").done()
}


/// Whether every character of a text satisfies `p`.
pub open spec fn all_are(s: Seq<char>, p: spec_fn(char) -> bool) -> bool {
    forall|i: int| 0 <= i < s.len() ==> p(#[trigger] s[i])
}

/// Whether every character of a text satisfies `p`, which `test` decides.
pub(crate) fn all_chars<F: Fn(char) -> bool>(
    s: &str,
    test: F,
    Ghost(p): Ghost<spec_fn(char) -> bool>,
) -> (r: bool)
    requires
        forall|c: char| call_requires(test, (c,)),
        forall|c: char, b: bool| call_ensures(test, (c,), b) ==> b == p(c),
    ensures
        r == all_are(s@, p),
{
    let v = chars_of(s);
    let mut i: usize = 0;
    while i < v.len()
        invariant
            i <= v@.len(),
            v@ == s@,
            forall|c: char| call_requires(test, (c,)),
            forall|c: char, b: bool| call_ensures(test, (c,), b) ==> b == p(c),
            forall|j: int| 0 <= j < i ==> p(#[trigger] s@[j]),
        decreases v@.len() - i,
    {
        if !test(v[i]) {
            return false;
        }
        i = i + 1;
    }
    true
}

pub fn ascii_alphanumeric(c: char) -> (r: bool)
    ensures
        r == is_alphanumeric(c),
{
    ('0' <= c && c <= '9') || ('a' <= c && c <= 'z') || ('A' <= c && c <= 'Z')
}


/// A text takes at most four bytes for a character.
pub proof fn lemma_byte_len_bound(s: Seq<char>)
    ensures
        byte_len(s) <= 4 * s.len(),
    decreases s.len(),
{
    if s.len() > 0 {
        lemma_byte_len_bound(s.drop_first());
        char_is_scalar(s[0]);
    }
}

/// A number that is written out reads as itself, and is written with digits alone.
pub proof fn law_written_numbers_read_back(n: nat, max: nat)
    requires
        n <= max,
    ensures
        number_read(decimal(n), max) == Some(n),
        all_digits(decimal(n)),
        decimal(n).len() > 0,
{
    lemma_decimal_reads(n);
    assert(is_digit(decimal(n)[0]));
}

proof fn lemma_decimal_reads(n: nat)
    ensures
        decimal(n).len() > 0,
        all_digits(decimal(n)),
        digits_value(decimal(n)) == n,
    decreases n,
{
    if n < 10 {
        let s = decimal(n);
        assert(s.drop_last() =~= Seq::empty());
        assert(digits_value(s.drop_last()) == 0);
    } else {
        lemma_decimal_reads(n / 10);
        let s = decimal(n);
        assert(s.drop_last() =~= decimal(n / 10));
        assert(s.last() == digit_char(n % 10));
        assert forall|i: int| 0 <= i < s.len() implies is_digit(#[trigger] s[i]) by {
            if i < s.len() - 1 {
                assert(s[i] == decimal(n / 10)[i]);
            }
        }
    }
}

proof fn lemma_trim_start(s: Seq<char>) -> (from: int)
    ensures
        0 <= from <= s.len(),
        trim_start(s) == s.skip(from),
        forall|i: int| 0 <= i < from ==> is_space(#[trigger] s[i]),
        from < s.len() ==> !is_space(s[from]),
    decreases s.len(),
{
    if s.len() > 0 && is_space(s[0]) {
        let rest = s.drop_first();
        let from = lemma_trim_start(rest);
        assert(rest.skip(from) =~= s.skip(from + 1));
        assert forall|i: int| 0 <= i < from + 1 implies is_space(#[trigger] s[i]) by {
            if i > 0 {
                assert(rest[i - 1] == s[i]);
            }
        }
        from + 1
    } else {
        assert(s.skip(0) =~= s);
        0
    }
}

proof fn lemma_trim_end(s: Seq<char>) -> (to: int)
    ensures
        0 <= to <= s.len(),
        trim_end(s) == s.take(to),
        forall|i: int| to <= i < s.len() ==> is_space(#[trigger] s[i]),
        to > 0 ==> !is_space(s[to - 1]),
    decreases s.len(),
{
    if s.len() > 0 && is_space(s.last()) {
        let rest = s.drop_last();
        let to = lemma_trim_end(rest);
        assert(rest.take(to) =~= s.take(to));
        assert forall|i: int| to <= i < s.len() implies is_space(#[trigger] s[i]) by {
            if i < rest.len() {
                assert(rest[i] == s[i]);
            }
        }
        to
    } else {
        assert(s.take(s.len() as int) =~= s);
        s.len() as int
    }
}

/// A trimmed text is the part of a text that neither starts nor ends with white space, and all that
/// it leaves out is white space.
pub proof fn law_trimming_takes_space_away(s: Seq<char>) -> (bounds: (int, int))
    ensures
        0 <= bounds.0 <= bounds.1 <= s.len(),
        trim(s) == s.subrange(bounds.0, bounds.1),
        forall|i: int|
            0 <= i < bounds.0 || bounds.1 <= i < s.len() ==> is_space(#[trigger] s[i]),
        trim(s).len() > 0 ==> !is_space(trim(s)[0]) && !is_space(trim(s).last()),
{
    let from = lemma_trim_start(s);
    let rest = s.skip(from);
    let to = lemma_trim_end(rest);
    assert(rest.take(to) =~= s.subrange(from, from + to));
    assert forall|i: int| 0 <= i < from || from + to <= i < s.len() implies is_space(
        #[trigger] s[i],
    ) by {
        if i >= from {
            assert(rest[i - from] == s[i]);
        }
    }
    (from, from + to)
}

/// What is left of a trimmed text stood in the text.
pub proof fn lemma_trim_within(s: Seq<char>)
    ensures
        forall|i: int| 0 <= i < trim(s).len() ==> s.contains(#[trigger] trim(s)[i]),
{
    let (from, to) = law_trimming_takes_space_away(s);
    assert forall|i: int| 0 <= i < trim(s).len() implies s.contains(#[trigger] trim(s)[i]) by {
        assert(s[from + i] == trim(s)[i]);
    }
}

proof fn lemma_joined_first(texts: Seq<Seq<char>>, separator: Seq<char>)
    requires
        texts.len() >= 1,
    ensures
        joined(texts, separator) == if texts.len() == 1 {
            texts[0]
        } else {
            texts[0] + separator + joined(texts.drop_first(), separator)
        },
    decreases texts.len(),
{
    if texts.len() > 2 {
        let front = texts.drop_last();
        lemma_joined_first(front, separator);
        assert(front.drop_first() =~= texts.drop_first().drop_last());
        assert(texts.drop_first().last() == texts.last());
        assert(joined(texts.drop_first(), separator) == joined(front.drop_first(), separator)
            + separator + texts.last());
        assert(joined(texts, separator) == joined(front, separator) + separator + texts.last());
        assert(front[0] == texts[0]);
        assert(texts[0] + separator + joined(front.drop_first(), separator) + separator
            + texts.last() =~= texts[0] + separator + (joined(front.drop_first(), separator)
            + separator + texts.last()));
    } else if texts.len() == 2 {
        assert(joined(texts.drop_last(), separator) == texts[0]);
        assert(joined(texts.drop_first(), separator) == texts[1]);
    }
}

/// A text is its parts between the separators put together again, and no part holds a separator.
pub proof fn law_parts_make_up_the_text(s: Seq<char>, c: char)
    ensures
        parts(s, c).len() >= 1,
        joined(parts(s, c), seq![c]) == s,
        forall|i: int| 0 <= i < parts(s, c).len() ==> !(#[trigger] parts(s, c)[i]).contains(c),
    decreases s.len(),
{
    s.index_of_first_ensures(c);
    match cut(s, c) {
        Some((a, b)) => {
            law_parts_make_up_the_text(b, c);
            let rest = parts(b, c);
            let all = parts(s, c);
            assert(all =~= seq![a] + rest);
            assert(all.drop_first() =~= rest);
            lemma_joined_first(all, seq![c]);
            assert(a + seq![c] + b =~= s);
            assert forall|i: int| 0 <= i < all.len() implies !(#[trigger] all[i]).contains(c) by {
                if i == 0 {
                    if a.contains(c) {
                        let j = choose|j: int| 0 <= j < a.len() && a[j] == c;
                        assert(s[j] == c);
                    }
                } else {
                    assert(all[i] == rest[i - 1]);
                }
            }
        },
        None => {
            lemma_joined_first(parts(s, c), seq![c]);
        },
    }
}

/// Small letters stand for the capitals of ASCII, and every other character for itself.
pub proof fn law_lower_case_keeps_all_but_capitals(s: Seq<char>, i: int)
    requires
        0 <= i < s.len(),
    ensures
        lowercase(s).len() == s.len(),
        'A' <= s[i] <= 'Z' ==> lowercase(s)[i] as int == s[i] as int + 32,
        !('A' <= s[i] <= 'Z') ==> lowercase(s)[i] == s[i],
{
}

} // verus!
