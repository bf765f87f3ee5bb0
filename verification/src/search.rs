//! Finding and taking parts of texts.

use crate::table;
use crate::text;
use vstd::prelude::*;
use vstd::utf8::*;

verus! {

/// The first position from `from` on whose character satisfies `p`, or the length.
pub open spec fn index_where(s: Seq<char>, p: spec_fn(char) -> bool, from: int) -> int
    decreases s.len() - from,
{
    if from < 0 || from >= s.len() {
        s.len() as int
    } else if p(s[from]) {
        from
    } else {
        index_where(s, p, from + 1)
    }
}

pub proof fn lemma_index_where(s: Seq<char>, p: spec_fn(char) -> bool, from: int)
    requires
        0 <= from <= s.len(),
    ensures
        from <= index_where(s, p, from) <= s.len(),
        index_where(s, p, from) < s.len() ==> p(s[index_where(s, p, from)]),
        forall|k: int| from <= k < index_where(s, p, from) ==> !p(#[trigger] s[k]),
    decreases s.len() - from,
{
    if from < s.len() && !p(s[from]) {
        lemma_index_where(s, p, from + 1);
    }
}

/// The first position from `from` on whose character satisfies `p`, which `test` decides.
pub(crate) fn find_where<F: Fn(char) -> bool>(
    v: &[char],
    test: F,
    from: usize,
    Ghost(p): Ghost<spec_fn(char) -> bool>,
) -> (r: usize)
    requires
        from <= v@.len(),
        forall|c: char| call_requires(test, (c,)),
        forall|c: char, b: bool| call_ensures(test, (c,), b) ==> b == p(c),
    ensures
        r == index_where(v@, p, from as int),
        from <= r <= v@.len(),
{
    let mut i: usize = from;
    while i < v.len() && !test(v[i])
        invariant
            from <= i <= v@.len(),
            forall|c: char| call_requires(test, (c,)),
            forall|c: char, b: bool| call_ensures(test, (c,), b) ==> b == p(c),
            index_where(v@, p, from as int) == index_where(v@, p, i as int),
        decreases v@.len() - i,
    {
        i = i + 1;
    }
    i
}

/// Whether a character is `c`.
pub open spec fn is_char(c: char) -> spec_fn(char) -> bool {
    |x: char| x == c
}

/// The first position from `from` on that holds `c`, or the length.
pub open spec fn char_index(s: Seq<char>, c: char, from: int) -> int {
    index_where(s, is_char(c), from)
}

pub fn find_char_from(v: &[char], c: char, from: usize) -> (r: usize)
    requires
        from <= v@.len(),
    ensures
        r == char_index(v@, c, from as int),
        from <= r <= v@.len(),
{
    let test = |x: char| -> (b: bool)
        ensures
            b == (x == c),
        { x == c };
    find_where(v, test, from, Ghost(is_char(c)))
}

/// The first position from `from` on where `needle` stands.
pub open spec fn text_index(s: Seq<char>, needle: Seq<char>, from: int) -> Option<int>
    decreases s.len() - from,
{
    if from < 0 || from + needle.len() > s.len() {
        None
    } else if text::occurs_at(s, needle, from) {
        Some(from)
    } else if from >= s.len() {
        None
    } else {
        text_index(s, needle, from + 1)
    }
}

pub proof fn lemma_text_index(s: Seq<char>, needle: Seq<char>, from: int)
    requires
        0 <= from,
    ensures
        match text_index(s, needle, from) {
            Some(at) => from <= at && at + needle.len() <= s.len() && text::occurs_at(
                s,
                needle,
                at,
            ),
            None => true,
        },
    decreases s.len() - from,
{
    if from + needle.len() <= s.len() && !text::occurs_at(s, needle, from) && from < s.len() {
        lemma_text_index(s, needle, from + 1);
    }
}

pub fn find_text(v: &[char], needle: &[char], from: usize) -> (r: Option<usize>)
    ensures
        match r {
            Some(at) => text_index(v@, needle@, from as int) == Some(at as int) && from <= at && at
                + needle@.len() <= v@.len(),
            None => text_index(v@, needle@, from as int) is None,
        },
{
    let n: usize = v.len();
    let k: usize = needle.len();
    let mut i: usize = from;
    loop
        invariant
            n == v@.len(),
            k == needle@.len(),
            from <= i,
            text_index(v@, needle@, from as int) == text_index(v@, needle@, i as int),
        decreases n - i + 1,
    {
        if k > n || i > n - k {
            return None;
        }
        if text::matches_at(v, needle, i) {
            return Some(i);
        }
        if i >= n {
            return None;
        }
        i = i + 1;
    }
}

/// A text without the characters `c` at its end.
pub open spec fn without_end(s: Seq<char>, c: char) -> Seq<char>
    decreases s.len(),
{
    if s.len() > 0 && s.last() == c {
        without_end(s.drop_last(), c)
    } else {
        s
    }
}

pub fn trim_end_char(s: &str, c: char) -> (r: String)
    ensures
        r@ == without_end(s@, c),
{
    let v = text::chars_of(s);
    let mut n: usize = v.len();
    assert(s@.take(n as int) =~= s@);
    while n > 0 && v[n - 1] == c
        invariant
            n <= v@.len(),
            v@ == s@,
            without_end(s@, c) == without_end(s@.take(n as int), c),
        decreases n,
    {
        assert(s@.take(n as int).drop_last() =~= s@.take(n - 1));
        n = n - 1;
    }
    proof {
        if n > 0 {
            assert(s@.take(n as int).last() == v@[n - 1]);
        }
    }
    let r = text::string_between(v.as_slice(), 0, n);
    assert(r@ =~= s@.take(n as int));
    r
}

/// A text without the characters `c` at its start.
pub open spec fn without_start(s: Seq<char>, c: char) -> Seq<char>
    decreases s.len(),
{
    if s.len() > 0 && s[0] == c {
        without_start(s.drop_first(), c)
    } else {
        s
    }
}

pub fn trim_start_char(s: &str, c: char) -> (r: String)
    ensures
        r@ == without_start(s@, c),
{
    let v = text::chars_of(s);
    let n: usize = v.len();
    let mut i: usize = 0;
    assert(s@.skip(0) =~= s@);
    while i < n && v[i] == c
        invariant
            i <= n,
            n == v@.len(),
            v@ == s@,
            without_start(s@, c) == without_start(s@.skip(i as int), c),
        decreases n - i,
    {
        assert(s@.skip(i as int).drop_first() =~= s@.skip(i + 1));
        i = i + 1;
    }
    proof {
        if i < n {
            assert(s@.skip(i as int)[0] == v@[i as int]);
        }
    }
    let r = text::string_between(v.as_slice(), i, n);
    assert(r@ =~= s@.skip(i as int));
    r
}

/// The last position before `before` that holds `c`, or -1.
pub open spec fn last_index(s: Seq<char>, c: char, before: int) -> int
    decreases before,
{
    if before <= 0 || before > s.len() {
        -1
    } else if s[before - 1] == c {
        before - 1
    } else {
        last_index(s, c, before - 1)
    }
}

pub fn find_last(v: &[char], c: char) -> (r: Option<usize>)
    ensures
        match r {
            Some(at) => at == last_index(v@, c, v@.len() as int) && at < v@.len(),
            None => last_index(v@, c, v@.len() as int) == -1,
        },
{
    let mut n: usize = v.len();
    while n > 0
        invariant
            n <= v@.len(),
            last_index(v@, c, v@.len() as int) == last_index(v@, c, n as int),
        decreases n,
    {
        if v[n - 1] == c {
            return Some(n - 1);
        }
        n = n - 1;
    }
    None
}

/// What follows the last `c` of a text, or the whole text.
pub open spec fn after_last(s: Seq<char>, c: char) -> Seq<char> {
    s.skip(last_index(s, c, s.len() as int) + 1)
}

pub fn take_after_last(s: &str, c: char) -> (r: String)
    ensures
        r@ == after_last(s@, c),
{
    let v = text::chars_of(s);
    let n: usize = v.len();
    let from: usize = match find_last(v.as_slice(), c) {
        Some(at) => at + 1,
        None => 0,
    };
    let r = text::string_between(v.as_slice(), from, n);
    assert(r@ =~= s@.skip(from as int));
    r
}

/// The white space of ASCII.
pub open spec fn is_ascii_space(c: char) -> bool {
    c == ' ' || c == '\t' || c == '\n' || c == '\r' || c == '\u{c}'
}

pub fn ascii_space(c: char) -> (r: bool)
    ensures
        r == is_ascii_space(c),
{
    c == ' ' || c == '\t' || c == '\n' || c == '\r' || c == '\u{c}'
}

/// The words of a text from a position on: what stands between ASCII white space.
pub open spec fn words_from(s: Seq<char>, from: int) -> Seq<Seq<char>>
    decreases s.len() - from,
{
    if from < 0 || from >= s.len() {
        Seq::empty()
    } else if is_ascii_space(s[from]) {
        words_from(s, from + 1)
    } else {
        let end = index_where(s, |c: char| is_ascii_space(c), from);
        proof {
            lemma_index_where(s, |c: char| is_ascii_space(c), from);
        }
        seq![s.subrange(from, end)] + words_from(s, end)
    }
}

/// The words of a text.
pub open spec fn words(s: Seq<char>) -> Seq<Seq<char>> {
    words_from(s, 0)
}

pub fn split_words(s: &str) -> (r: Vec<String>)
    ensures
        table::views(r@) == words(s@),
{
    let v = text::chars_of(s);
    let n: usize = v.len();
    let ghost p = |c: char| is_ascii_space(c);
    let mut r: Vec<String> = Vec::new();
    let mut from: usize = 0;
    proof {
        assert(table::views(r@) + words_from(s@, 0) =~= words_from(s@, 0));
    }
    while from < n
        invariant
            from <= n,
            n == v@.len(),
            v@ == s@,
            p == (|c: char| is_ascii_space(c)),
            table::views(r@) + words_from(s@, from as int) == words_from(s@, 0),
        decreases n - from,
    {
        if ascii_space(v[from]) {
            from = from + 1;
        } else {
            let test = |c: char| -> (b: bool)
                ensures
                    b == is_ascii_space(c),
                { ascii_space(c) };
            let end = find_where(v.as_slice(), test, from, Ghost(p));
            let word = text::string_between(v.as_slice(), from, end);
            proof {
                lemma_index_where(s@, p, from as int);
                table::lemma_views_push(r@, word);
                let before = table::views(r@);
                assert(word@ =~= s@.subrange(from as int, end as int));
                assert(before + (seq![word@] + words_from(s@, end as int)) =~= before.push(word@)
                    + words_from(s@, end as int));
            }
            r.push(word);
            from = end;
        }
    }
    proof {
        assert(table::views(r@) + Seq::<Seq<char>>::empty() =~= table::views(r@));
    }
    r
}

/// The characters of a byte string in which what is not UTF-8 is replaced.
pub uninterp spec fn lossy_text(bytes: Seq<u8>) -> Seq<char>;

/// `String::from_utf8_lossy` reads valid UTF-8 as its characters and replaces what is not; which
/// characters come out follows from the bytes alone.
#[verifier::external_body]
pub(crate) fn read_lossy(bytes: &[u8]) -> (r: String)
    ensures
        r@ == lossy_text(bytes@),
        valid_utf8(bytes@) ==> r@ == decode_utf8(bytes@),
{
    String::from_utf8_lossy(bytes).into_owned()
}

proof fn lemma_words(s: Seq<char>, from: int)
    requires
        0 <= from <= s.len(),
    ensures
        forall|k: int|
            0 <= k < words_from(s, from).len() ==> is_word(s, #[trigger] words_from(s, from)[k]),
        forall|i: int|
            from <= i < s.len() && !is_ascii_space(#[trigger] s[i]) ==> words_from(s, from).len()
                > 0,
    decreases s.len() - from,
{
    if from < s.len() {
        if is_ascii_space(s[from]) {
            lemma_words(s, from + 1);
            assert(words_from(s, from) == words_from(s, from + 1));
        } else {
            let p = |c: char| is_ascii_space(c);
            let end = index_where(s, p, from);
            lemma_index_where(s, p, from);
            assert(!p(s[from]));
            assert(end > from);
            lemma_words(s, end);
            let word = s.subrange(from, end);
            let rest = words_from(s, end);
            assert(words_from(s, from) == seq![word] + rest);
            assert(is_word(s, word)) by {
                assert forall|i: int| 0 <= i < word.len() implies !is_ascii_space(
                    #[trigger] word[i],
                ) by {
                    assert(!p(s[from + i]));
                }
            }
            assert forall|k: int| 0 <= k < words_from(s, from).len() implies is_word(
                s,
                #[trigger] words_from(s, from)[k],
            ) by {
                if k > 0 {
                    assert(words_from(s, from)[k] == rest[k - 1]);
                }
            }
        }
    } else {
        assert(words_from(s, from).len() == 0);
    }
}

/// Whether a text is a part of another that is not empty, holds no white space and is followed by
/// white space or the end.
pub open spec fn is_word(s: Seq<char>, word: Seq<char>) -> bool {
    &&& word.len() > 0
    &&& forall|i: int| 0 <= i < word.len() ==> !is_ascii_space(#[trigger] word[i])
    &&& exists|from: int, to: int|
        0 <= from <= to <= s.len() && word == #[trigger] s.subrange(from, to) && (to == s.len()
            || is_ascii_space(s[to]))
}

/// The words of a text stand in it, hold no white space and end where white space begins; a text
/// that is not blank has some.
pub proof fn law_words_stand_between_spaces(s: Seq<char>)
    ensures
        forall|k: int| 0 <= k < words(s).len() ==> is_word(s, #[trigger] words(s)[k]),
        (exists|i: int| 0 <= i < s.len() && !is_ascii_space(#[trigger] s[i])) ==> words(s).len()
            > 0,
{
    lemma_words(s, 0);
}

proof fn lemma_without_end(s: Seq<char>, c: char) -> (to: int)
    ensures
        0 <= to <= s.len(),
        without_end(s, c) == s.take(to),
        to > 0 ==> s[to - 1] != c,
        forall|i: int| to <= i < s.len() ==> #[trigger] s[i] == c,
    decreases s.len(),
{
    if s.len() > 0 && s.last() == c {
        let to = lemma_without_end(s.drop_last(), c);
        assert(s.drop_last().take(to) =~= s.take(to));
        assert forall|i: int| to <= i < s.len() implies #[trigger] s[i] == c by {
            if i < s.len() - 1 {
                assert(s.drop_last()[i] == c);
            }
        }
        to
    } else {
        assert(s.take(s.len() as int) =~= s);
        s.len() as int
    }
}

/// A text without its ending is the text up to the last other character.
pub proof fn law_endings_are_taken_away(s: Seq<char>, c: char)
    ensures
        without_end(s, c).len() <= s.len(),
        s.take(without_end(s, c).len() as int) == without_end(s, c),
        without_end(s, c).len() > 0 ==> without_end(s, c).last() != c,
        forall|i: int| without_end(s, c).len() <= i < s.len() ==> #[trigger] s[i] == c,
{
    let to = lemma_without_end(s, c);
}

} // verus!
