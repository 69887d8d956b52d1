//! Paths as the library sees them: text whose components are separated by `/`.
//!
//! A path handed to the library is normalized: no empty component, no `.`
//! component and no trailing `/` (the root `/` itself aside). Relative paths are
//! taken relative to the served directory.

use vstd::prelude::*;

use crate::text::{chars_of, has_prefix, slice_chars, string_of};

verus! {

/// The index of the last occurrence of `c` in `s`, or -1.
pub open spec fn last_index_of(s: Seq<char>, c: char) -> int
    decreases s.len(),
{
    if s.len() == 0 {
        -1
    } else if s.last() == c {
        s.len() - 1
    } else {
        last_index_of(s.drop_last(), c)
    }
}

pub proof fn lemma_last_index_of(s: Seq<char>, c: char)
    ensures
        -1 <= last_index_of(s, c) < s.len(),
        last_index_of(s, c) >= 0 ==> s[last_index_of(s, c)] == c,
        forall|j: int| last_index_of(s, c) < j < s.len() ==> s[j] != c,
    decreases s.len(),
{
    if s.len() > 0 && s.last() != c {
        lemma_last_index_of(s.drop_last(), c);
        assert forall|j: int| last_index_of(s, c) < j < s.len() implies s[j] != c by {
            if j < s.len() - 1 {
                assert(s[j] == s.drop_last()[j]);
            }
        }
    }
}

/// The position of the last `c` in `s`, if any.
pub fn find_last(s: &Vec<char>, c: char) -> (r: Option<usize>)
    ensures
        match r {
            Some(i) => i < s.len() && i as int == last_index_of(s@, c),
            None => last_index_of(s@, c) == -1,
        },
{
    proof {
        lemma_last_index_of(s@, c);
    }
    let mut i: usize = s.len();
    while i > 0
        invariant
            i <= s.len(),
            forall|j: int| i <= j < s.len() ==> s@[j] != c,
            -1 <= last_index_of(s@, c) < s.len(),
            last_index_of(s@, c) >= 0 ==> s@[last_index_of(s@, c)] == c,
            forall|j: int| last_index_of(s@, c) < j < s.len() ==> s@[j] != c,
        decreases i,
    {
        i = i - 1;
        if s[i] == c {
            return Some(i);
        }
    }
    None
}

/// Whether `prefix` is a leading run of whole components of `path`, as
/// `std::path::Path::starts_with` decides for normalized paths.
pub open spec fn is_path_prefix(prefix: Seq<char>, path: Seq<char>) -> bool {
    &&& has_prefix(path, prefix)
    &&& (path.len() == prefix.len() || prefix.len() == 0 || prefix.last() == '/' || path[prefix.len() as int] == '/')
}

/// What is left of `path` below `prefix`, when `prefix` is a path prefix of it.
pub open spec fn path_remainder(prefix: Seq<char>, path: Seq<char>) -> Seq<char> {
    if path.len() == prefix.len() {
        seq![]
    } else if prefix.len() == 0 || prefix.last() == '/' {
        path.skip(prefix.len() as int)
    } else {
        path.skip(prefix.len() as int + 1)
    }
}

/// Whether `path` lies at or below `prefix`.
pub fn path_starts_with(path: &Vec<char>, prefix: &Vec<char>) -> (r: bool)
    ensures
        r == is_path_prefix(prefix@, path@),
{
    if !crate::text::starts_with(path, prefix) {
        return false;
    }
    path.len() == prefix.len() || prefix.len() == 0 || prefix[prefix.len() - 1] == '/' || path[prefix.len()] == '/'
}

/// `path` relative to `prefix`, as `std::path::Path::strip_prefix` gives it.
pub fn strip_path_prefix(path: &Vec<char>, prefix: &Vec<char>) -> (r: Option<Vec<char>>)
    ensures
        match r {
            Some(rest) => is_path_prefix(prefix@, path@) && rest@ == path_remainder(prefix@, path@),
            None => !is_path_prefix(prefix@, path@),
        },
{
    if !path_starts_with(path, prefix) {
        return None;
    }
    if path.len() == prefix.len() {
        return Some(Vec::new());
    }
    if prefix.len() == 0 || prefix[prefix.len() - 1] == '/' {
        let rest = slice_chars(path, prefix.len(), path.len());
        assert(rest@ =~= path@.skip(prefix.len() as int));
        Some(rest)
    } else {
        let rest = slice_chars(path, prefix.len() + 1, path.len());
        assert(rest@ =~= path@.skip(prefix.len() as int + 1));
        Some(rest)
    }
}

/// The directory that holds a relative path; the empty path for a path of
/// one component.
pub open spec fn parent_of(path: Seq<char>) -> Seq<char> {
    if last_index_of(path, '/') >= 0 {
        path.take(last_index_of(path, '/'))
    } else {
        seq![]
    }
}

/// The last component of a path.
pub open spec fn file_name_of(path: Seq<char>) -> Seq<char> {
    path.skip(last_index_of(path, '/') + 1)
}

/// The extension of a file name, as `std::path::Path::extension` gives it:
/// the text after the last `.`, unless the name is `..` or its only `.` leads.
pub open spec fn extension_of(path: Seq<char>) -> Option<Seq<char>> {
    let name = file_name_of(path);
    let dot = last_index_of(name, '.');
    if name == seq!['.', '.'] || dot <= 0 {
        None
    } else {
        Some(name.skip(dot + 1))
    }
}

/// The directory that holds a relative path.
pub fn parent(path: &Vec<char>) -> (r: Vec<char>)
    ensures
        r@ == parent_of(path@),
{
    match find_last(path, '/') {
        Some(i) => {
            let r = slice_chars(path, 0, i);
            assert(r@ =~= path@.take(i as int));
            r
        },
        None => Vec::new(),
    }
}

/// The last component of a path.
pub fn file_name(path: &Vec<char>) -> (r: Vec<char>)
    ensures
        r@ == file_name_of(path@),
{
    proof {
        lemma_last_index_of(path@, '/');
    }
    let start = match find_last(path, '/') {
        Some(i) => i + 1,
        None => 0,
    };
    let r = slice_chars(path, start, path.len());
    assert(r@ =~= path@.skip(last_index_of(path@, '/') + 1));
    r
}

/// The extension of the file that a path names.
pub fn extension(path: &Vec<char>) -> (r: Option<Vec<char>>)
    ensures
        match r {
            Some(e) => extension_of(path@) == Some(e@),
            None => extension_of(path@) is None,
        },
{
    let name = file_name(path);
    proof {
        lemma_last_index_of(name@, '.');
    }
    if name.len() == 2 && name[0] == '.' && name[1] == '.' {
        assert(name@ =~= seq!['.', '.']);
        return None;
    }
    assert(name@ != seq!['.', '.']) by {
        if name@ == seq!['.', '.'] {
            assert(name@.len() == 2 && name@[0] == '.' && name@[1] == '.');
        }
    }
    match find_last(&name, '.') {
        Some(dot) => {
            if dot == 0 {
                None
            } else {
                let e = slice_chars(&name, dot + 1, name.len());
                assert(e@ =~= name@.skip(dot + 1));
                Some(e)
            }
        },
        None => None,
    }
}

/// Whether a path is absolute.
pub open spec fn is_absolute_path(path: Seq<char>) -> bool {
    path.len() > 0 && path[0] == '/'
}

/// `path` taken relative to `root` when it lies below it.
pub fn relative_to(root: &str, path: &str) -> (r: Option<String>)
    ensures
        match r {
            Some(rest) => is_path_prefix(root@, path@) && rest@ == path_remainder(root@, path@),
            None => !is_path_prefix(root@, path@),
        },
{
    let p = chars_of(path);
    let q = chars_of(root);
    match strip_path_prefix(&p, &q) {
        Some(rest) => Some(string_of(&rest)),
        None => None,
    }
}

} // verus!
