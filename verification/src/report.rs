//! What a reload did to each source, and lookups into such reports.

use vstd::prelude::*;

use crate::text::chars_equal;
use crate::text::chars_of;

verus! {

/// How a source's graph changed.
#[derive(Clone, Copy, Debug, PartialEq, Eq, Structural)]
pub enum SourceUpdateKind {
    Loaded,
    Reloaded,
    Removed,
}

/// A source whose graph a reload replaced.
#[derive(Debug)]
pub struct SourceUpdate {
    pub path: String,
    pub graph: String,
    pub triples: usize,
    pub kind: SourceUpdateKind,
}

/// A source that a reload could not load.
#[derive(Debug)]
pub struct SourceFailure {
    pub path: String,
    pub graph: String,
    pub format: &'static str,
    pub error: String,
}

/// The outcome of reloading after changes: the new bookkeeping, and what
/// happened to each affected source.
#[derive(Debug)]
pub struct ReloadReport {
    pub loaded_sources: Vec<String>,
    pub load_errors: Vec<(String, String)>,
    pub context_dependents: Vec<(String, String)>,
    pub updates: Vec<SourceUpdate>,
    pub failures: Vec<SourceFailure>,
    pub impacts: Vec<(String, Vec<String>)>,
}

/// The first update for the source at `path`.
pub open spec fn find_update(updates: Seq<SourceUpdate>, path: Seq<char>) -> Option<SourceUpdate>
    decreases updates.len(),
{
    if updates.len() == 0 {
        None
    } else if updates[0].path@ == path {
        Some(updates[0])
    } else {
        find_update(updates.drop_first(), path)
    }
}

/// The first failure of the source at `path`.
pub open spec fn find_failure(failures: Seq<SourceFailure>, path: Seq<char>) -> Option<
    SourceFailure,
>
    decreases failures.len(),
{
    if failures.len() == 0 {
        None
    } else if failures[0].path@ == path {
        Some(failures[0])
    } else {
        find_failure(failures.drop_first(), path)
    }
}

/// The sources recorded as affected by the change at `path`, if any.
pub open spec fn find_impact(impacts: Seq<(String, Vec<String>)>, path: Seq<char>) -> Option<
    Seq<String>,
>
    decreases impacts.len(),
{
    if impacts.len() == 0 {
        None
    } else if impacts[0].0@ == path {
        Some(impacts[0].1@)
    } else {
        find_impact(impacts.drop_first(), path)
    }
}

/// Where the first update for `path` stands in `updates`.
pub fn update_for(updates: &Vec<SourceUpdate>, path: &Vec<char>) -> (r: Option<usize>)
    ensures
        match r {
            Some(i) => i < updates.len() && find_update(updates@, path@) == Some(updates@[i as int]),
            None => find_update(updates@, path@) is None,
        },
{
    let mut i: usize = 0;
    assert(updates@.skip(0) =~= updates@);
    while i < updates.len()
        invariant
            i <= updates.len(),
            find_update(updates@, path@) == find_update(updates@.skip(i as int), path@),
        decreases updates.len() - i,
    {
        assert(updates@.skip(i as int)[0] == updates@[i as int]);
        let p = chars_of(updates[i].path.as_str());
        if chars_equal(&p, path) {
            return Some(i);
        }
        assert(updates@.skip(i as int).drop_first() =~= updates@.skip(i + 1));
        i = i + 1;
    }
    None
}

/// Where the first failure of `path` stands in `failures`.
pub fn failure_for(failures: &Vec<SourceFailure>, path: &Vec<char>) -> (r: Option<usize>)
    ensures
        match r {
            Some(i) => i < failures.len() && find_failure(failures@, path@) == Some(
                failures@[i as int],
            ),
            None => find_failure(failures@, path@) is None,
        },
{
    let mut i: usize = 0;
    assert(failures@.skip(0) =~= failures@);
    while i < failures.len()
        invariant
            i <= failures.len(),
            find_failure(failures@, path@) == find_failure(failures@.skip(i as int), path@),
        decreases failures.len() - i,
    {
        assert(failures@.skip(i as int)[0] == failures@[i as int]);
        let p = chars_of(failures[i].path.as_str());
        if chars_equal(&p, path) {
            return Some(i);
        }
        assert(failures@.skip(i as int).drop_first() =~= failures@.skip(i + 1));
        i = i + 1;
    }
    None
}

/// Where the impact recorded for `path` stands in `impacts`.
pub fn impact_for(impacts: &Vec<(String, Vec<String>)>, path: &Vec<char>) -> (r: Option<usize>)
    ensures
        match r {
            Some(i) => i < impacts.len() && find_impact(impacts@, path@) == Some(
                impacts@[i as int].1@,
            ),
            None => find_impact(impacts@, path@) is None,
        },
{
    let mut i: usize = 0;
    assert(impacts@.skip(0) =~= impacts@);
    while i < impacts.len()
        invariant
            i <= impacts.len(),
            find_impact(impacts@, path@) == find_impact(impacts@.skip(i as int), path@),
        decreases impacts.len() - i,
    {
        assert(impacts@.skip(i as int)[0] == impacts@[i as int]);
        let p = chars_of(impacts[i].0.as_str());
        if chars_equal(&p, path) {
            return Some(i);
        }
        assert(impacts@.skip(i as int).drop_first() =~= impacts@.skip(i + 1));
        i = i + 1;
    }
    None
}

} // verus!
