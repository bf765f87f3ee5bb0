//! File names and their extensions.

use crate::table;
use crate::text;
use vstd::prelude::*;

verus! {

/// Where the last `/` of a text stands, or -1.
pub open spec fn last_slash(s: Seq<char>) -> int
    decreases s.len(),
{
    if s.len() == 0 {
        -1
    } else if s.last() == '/' {
        s.len() - 1
    } else {
        last_slash(s.drop_last())
    }
}

/// Where the last `.` of a text stands, or -1.
pub open spec fn last_dot(s: Seq<char>) -> int
    decreases s.len(),
{
    if s.len() == 0 {
        -1
    } else if s.last() == '.' {
        s.len() - 1
    } else {
        last_dot(s.drop_last())
    }
}

proof fn lemma_last_slash_range(s: Seq<char>)
    ensures
        -1 <= last_slash(s) < s.len(),
    decreases s.len(),
{
    if s.len() > 0 {
        lemma_last_slash_range(s.drop_last());
    }
}

proof fn lemma_last_dot_range(s: Seq<char>)
    ensures
        -1 <= last_dot(s) < s.len(),
        last_dot(s) >= 0 ==> s[last_dot(s)] == '.',
    decreases s.len(),
{
    if s.len() > 0 {
        lemma_last_dot_range(s.drop_last());
    }
}

/// The last component of a path: empty components and `.` do not count, and `..` is no name.
pub open spec fn base_name(s: Seq<char>) -> Option<Seq<char>>
    decreases s.len(),
{
    let at = last_slash(s);
    let component = s.skip(at + 1);
    if component.len() > 0 && component != "."@ {
        if component == ".."@ {
            None
        } else {
            Some(component)
        }
    } else if 0 <= at < s.len() {
        base_name(s.take(at))
    } else {
        None
    }
}

/// What follows the last dot of a name, unless the name starts with that dot.
pub open spec fn name_extension(name: Seq<char>) -> Option<Seq<char>> {
    if last_dot(name) <= 0 {
        None
    } else {
        Some(name.skip(last_dot(name) + 1))
    }
}

/// A name without its extension.
pub open spec fn name_stem(name: Seq<char>) -> Seq<char> {
    if last_dot(name) <= 0 {
        name
    } else {
        name.take(last_dot(name))
    }
}

/// The extension of the last component of a path.
pub open spec fn extension(path: Seq<char>) -> Option<Seq<char>> {
    match base_name(path) {
        Some(name) => name_extension(name),
        None => None,
    }
}

/// The last component of a path without its extension.
pub open spec fn stem(path: Seq<char>) -> Option<Seq<char>> {
    match base_name(path) {
        Some(name) => Some(name_stem(name)),
        None => None,
    }
}

fn find_last(v: &[char], c: char, len: usize) -> (r: Option<usize>)
    requires
        len <= v@.len(),
        c == '/' || c == '.',
    ensures
        match r {
            Some(i) => i < len && (c == '/' ==> last_slash(v@.take(len as int)) == i) && (c == '.'
                ==> last_dot(v@.take(len as int)) == i),
            None => (c == '/' ==> last_slash(v@.take(len as int)) == -1) && (c == '.' ==> last_dot(
                v@.take(len as int),
            ) == -1),
        },
{
    let mut n: usize = len;
    while n > 0
        invariant
            n <= len <= v@.len(),
            c == '/' || c == '.',
            c == '/' ==> last_slash(v@.take(len as int)) == last_slash(v@.take(n as int)),
            c == '.' ==> last_dot(v@.take(len as int)) == last_dot(v@.take(n as int)),
        decreases n,
    {
        proof {
            assert(v@.take(n as int).last() == v@[n - 1]);
            assert(v@.take(n as int).drop_last() =~= v@.take(n - 1));
        }
        if v[n - 1] == c {
            return Some(n - 1);
        }
        n = n - 1;
    }
    None
}

fn base_name_of(v: &[char], len: usize) -> (r: Option<String>)
    requires
        len <= v@.len(),
    ensures
        table::view_option(r) == base_name(v@.take(len as int)),
    decreases len,
{
    let ghost s = v@.take(len as int);
    let slash = find_last(v, '/', len);
    let from: usize = match slash {
        Some(i) => i + 1,
        None => 0,
    };
    let component = text::string_between(v, from, len);
    proof {
        assert(component@ =~= s.skip(from as int));
    }
    if from < len && !text::same(component.as_str(), ".") {
        if text::same(component.as_str(), "..") {
            None
        } else {
            Some(component)
        }
    } else {
        match slash {
            Some(i) => {
                proof {
                    assert(s.take(i as int) =~= v@.take(i as int));
                }
                base_name_of(v, i)
            },
            None => None,
        }
    }
}

/// The last component of a path.
pub fn file_name(path: &str) -> (r: Option<String>)
    ensures
        table::view_option(r) == base_name(path@),
{
    let v = text::chars_of(path);
    proof {
        assert(v@.take(v@.len() as int) =~= v@);
    }
    base_name_of(v.as_slice(), v.len())
}

/// The extension of the last component of a path.
pub fn file_extension(path: &str) -> (r: Option<String>)
    ensures
        table::view_option(r) == extension(path@),
{
    match file_name(path) {
        None => None,
        Some(name) => {
            let v = text::chars_of(name.as_str());
            proof {
                assert(v@.take(v@.len() as int) =~= v@);
            }
            match find_last(v.as_slice(), '.', v.len()) {
                None => None,
                Some(i) => {
                    if i == 0 {
                        return None;
                    }
                    let r = text::string_between(v.as_slice(), i + 1, v.len());
                    proof {
                        assert(r@ =~= name@.skip(i + 1));
                    }
                    Some(r)
                },
            }
        },
    }
}

/// The last component of a path without its extension.
pub fn file_stem(path: &str) -> (r: Option<String>)
    ensures
        table::view_option(r) == stem(path@),
{
    match file_name(path) {
        None => None,
        Some(name) => {
            let v = text::chars_of(name.as_str());
            proof {
                assert(v@.take(v@.len() as int) =~= v@);
            }
            match find_last(v.as_slice(), '.', v.len()) {
                None => Some(name),
                Some(i) => {
                    if i == 0 {
                        return Some(name);
                    }
                    let r = text::string_between(v.as_slice(), 0, i);
                    proof {
                        assert(r@ =~= name@.take(i as int));
                    }
                    Some(r)
                },
            }
        },
    }
}

/// The extension in small letters.
pub open spec fn lower_extension(path: Seq<char>) -> Option<Seq<char>> {
    match extension(path) {
        Some(e) => Some(text::lowercase(e)),
        None => None,
    }
}

pub fn lowered_extension(path: &str) -> (r: Option<String>)
    ensures
        table::view_option(r) == lower_extension(path@),
{
    match file_extension(path) {
        Some(e) => Some(text::lowered(e.as_str())),
        None => None,
    }
}

/// Whether a character stands somewhere in a text.
pub open spec fn has_char(s: Seq<char>, c: char) -> bool {
    exists|i: int| 0 <= i < s.len() && #[trigger] s[i] == c
}

pub fn contains_char(s: &str, c: char) -> (r: bool)
    ensures
        r == has_char(s@, c),
{
    let v = text::chars_of(s);
    match text::find_char(v.as_slice(), c, 0) {
        Some(_) => true,
        None => false,
    }
}

/// The last dot of a text is where no other follows.
pub proof fn lemma_last_dot(s: Seq<char>, at: int)
    requires
        0 <= at < s.len(),
        s[at] == '.',
        forall|i: int| at < i < s.len() ==> s[i] != '.',
    ensures
        last_dot(s) == at,
    decreases s.len(),
{
    if at < s.len() - 1 {
        assert(s.last() != '.');
        lemma_last_dot(s.drop_last(), at);
    }
}

proof fn lemma_last_slash(s: Seq<char>)
    ensures
        -1 <= last_slash(s) < s.len(),
        last_slash(s) >= 0 ==> s[last_slash(s)] == '/',
        forall|i: int| last_slash(s) < i < s.len() ==> #[trigger] s[i] != '/',
    decreases s.len(),
{
    if s.len() > 0 && s.last() != '/' {
        lemma_last_slash(s.drop_last());
        assert forall|i: int| last_slash(s) < i < s.len() implies #[trigger] s[i] != '/' by {
            if i < s.len() - 1 {
                assert(s.drop_last()[i] == s[i]);
            }
        }
    }
}

/// The name of a file is what follows the directories that it stands in.
pub proof fn law_names_follow_their_directories(directory: Seq<char>, name: Seq<char>)
    requires
        name.len() > 0,
        !has_char(name, '/'),
        name != "."@,
        name != ".."@,
    ensures
        base_name(name) == Some(name),
        base_name(directory + seq!['/'] + name) == Some(name),
{
    let path = directory + seq!['/'] + name;
    lemma_last_slash(name);
    assert(last_slash(name) == -1);
    assert(name.skip(0) =~= name);
    lemma_last_slash(path);
    let at = directory.len() as int;
    assert(path[at] == '/');
    assert(last_slash(path) == at) by {
        if last_slash(path) > at {
            let i = last_slash(path);
            assert(name[i - at - 1] == path[i]);
        }
    }
    assert(path.skip(at + 1) =~= name);
}

/// The extension of a file is what follows the last dot of its name, and the stem what comes before
/// it; a name without a dot, or with one only at its start, is all stem.
pub proof fn law_extensions_follow_the_last_dot(stem_part: Seq<char>, ending: Seq<char>)
    requires
        stem_part.len() > 0,
        !has_char(ending, '.'),
    ensures
        name_extension(stem_part + seq!['.'] + ending) == Some(ending),
        name_stem(stem_part + seq!['.'] + ending) == stem_part,
        name_extension(ending) is None && name_stem(ending) == ending,
        name_extension(seq!['.'] + ending) is None,
{
    let name = stem_part + seq!['.'] + ending;
    let at = stem_part.len() as int;
    assert(name[at] == '.');
    assert forall|i: int| at < i < name.len() implies name[i] != '.' by {
        assert(ending[i - at - 1] == name[i]);
    }
    lemma_last_dot(name, at);
    assert(name.skip(at + 1) =~= ending);
    assert(name.take(at) =~= stem_part);
    lemma_last_dot_range(ending);
    assert(last_dot(ending) == -1);
    let hidden = seq!['.'] + ending;
    lemma_last_dot_range(hidden);
    assert(last_dot(hidden) <= 0) by {
        if last_dot(hidden) > 0 {
            assert(ending[last_dot(hidden) - 1] == hidden[last_dot(hidden)]);
        }
    }
}

} // verus!
