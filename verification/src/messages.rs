//! The lines that report what a reload did about each changed path.

use vstd::prelude::*;

use crate::changes::{EntryKind, FileChange, PathChange, change_verb, entry_noun};
use crate::paths::{is_path_prefix, path_remainder, strip_path_prefix};
use crate::report::{
    ReloadReport, SourceFailure, SourceUpdate, SourceUpdateKind, failure_for, find_failure,
    find_impact, find_update, impact_for, update_for,
};
use crate::summary::{plural, plural_suffix};
use crate::text::{
    chars_of, decimal, join_chars, joined, push_chars, push_decimal, push_str, string_of,
};

verus! {

/// A changed path as the watcher saw it, and whether it still exists.
#[derive(Debug)]
pub struct ObservedPath {
    pub path: String,
    pub observed: PathChange,
    pub exists: bool,
}

/// A path relative to the served directory when it lies below it, else as
/// given.
pub open spec fn relative_path(directory: Seq<char>, path: Seq<char>) -> Seq<char> {
    if is_path_prefix(directory, path) {
        path_remainder(directory, path)
    } else {
        path
    }
}

/// How a changed path is written in a report: relative to the served
/// directory, and `.` for the directory itself.
pub open spec fn changed_path_text(directory: Seq<char>, path: Seq<char>) -> Seq<char> {
    let relative = relative_path(directory, path);
    if relative.len() == 0 {
        seq!['.']
    } else {
        relative
    }
}

fn relative_chars(directory: &Vec<char>, path: &Vec<char>) -> (r: Vec<char>)
    ensures
        r@ == relative_path(directory@, path@),
{
    match strip_path_prefix(path, directory) {
        Some(rest) => rest,
        None => path.clone(),
    }
}

fn push_changed_path(out: &mut Vec<char>, directory: &Vec<char>, path: &Vec<char>)
    ensures
        final(out)@ == old(out)@ + changed_path_text(directory@, path@),
{
    let relative = relative_chars(directory, path);
    if relative.len() == 0 {
        out.push('.');
    } else {
        push_chars(out, &relative);
    }
}

/// How a changed path is written in a report.
pub fn format_changed_path(directory: &str, path: &str) -> (r: String)
    ensures
        r@ == changed_path_text(directory@, path@),
{
    let mut out: Vec<char> = Vec::new();
    push_changed_path(&mut out, &chars_of(directory), &chars_of(path));
    string_of(&out)
}

/// The changed paths of one reload, in the order given.
pub open spec fn changed_paths_text(directory: Seq<char>, paths: Seq<Seq<char>>) -> Seq<char> {
    if paths.len() == 0 {
        "filesystem changes"@
    } else {
        joined(paths.map_values(|p: Seq<char>| changed_path_text(directory, p)), ", "@)
    }
}

/// The changed paths of one reload, in the order given, separated by commas.
pub fn format_changed_paths(directory: &str, paths: &Vec<String>) -> (r: String)
    ensures
        r@ == changed_paths_text(directory@, paths@.map_values(|p: String| p@)),
{
    let ghost views = paths@.map_values(|p: String| p@);
    if paths.len() == 0 {
        return String::from_str("filesystem changes");
    }
    let dir = chars_of(directory);
    let mut items: Vec<Vec<char>> = Vec::new();
    let mut i: usize = 0;
    while i < paths.len()
        invariant
            i <= paths.len(),
            dir@ == directory@,
            views == paths@.map_values(|p: String| p@),
            items@.map_values(|v: Vec<char>| v@) == views.take(i as int).map_values(
                |p: Seq<char>| changed_path_text(directory@, p),
            ),
        decreases paths.len() - i,
    {
        assert(views[i as int] == paths@[i as int]@);
        let mut item: Vec<char> = Vec::new();
        push_changed_path(&mut item, &dir, &chars_of(paths[i].as_str()));
        let ghost iv = item@;
        let ghost prev = items@.map_values(|v: Vec<char>| v@);
        items.push(item);
        assert(items@.map_values(|v: Vec<char>| v@) =~= prev.push(iv));
        assert(views.take(i + 1).map_values(|p: Seq<char>| changed_path_text(directory@, p))
            =~= views.take(i as int).map_values(|p: Seq<char>| changed_path_text(directory@, p)).push(
            changed_path_text(directory@, views[i as int]),
        ));
        i = i + 1;
    }
    assert(views.take(i as int) =~= views);
    string_of(&join_chars(&items, ", "))
}

/// A number of triples.
pub open spec fn triple_count_text(count: nat) -> Seq<char> {
    decimal(count) + " triple"@ + plural(count)
}

fn push_triple_count(out: &mut Vec<char>, count: usize)
    ensures
        final(out)@ == old(out)@ + triple_count_text(count as nat),
{
    push_decimal(out, count);
    push_str(out, " triple");
    push_str(out, plural_suffix(count));
}

/// A number of triples.
pub fn triple_count(count: usize) -> (r: String)
    ensures
        r@ == triple_count_text(count as nat),
{
    let mut out: Vec<char> = Vec::new();
    push_triple_count(&mut out, count);
    string_of(&out)
}

/// Why a source failed to load.
pub open spec fn failure_text(failure: SourceFailure) -> Seq<char> {
    "failed to load as "@ + failure.format@ + " into "@ + failure.graph@ + ": "@ + failure.error@
}

fn push_failure(out: &mut Vec<char>, failure: &SourceFailure)
    ensures
        final(out)@ == old(out)@ + failure_text(*failure),
{
    push_str(out, "failed to load as ");
    push_str(out, failure.format);
    push_str(out, " into ");
    push_str(out, failure.graph.as_str());
    push_str(out, ": ");
    push_str(out, failure.error.as_str());
}

/// Why a source failed to load.
pub fn failure_message(failure: &SourceFailure) -> (r: String)
    ensures
        r@ == failure_text(*failure),
{
    let mut out: Vec<char> = Vec::new();
    push_failure(&mut out, failure);
    string_of(&out)
}

/// What became of a source that changed itself.
pub open spec fn direct_action(kind: SourceUpdateKind) -> Seq<char> {
    match kind {
        SourceUpdateKind::Loaded => "loaded as"@,
        SourceUpdateKind::Reloaded => "reloaded as"@,
        SourceUpdateKind::Removed => "removed"@,
    }
}

/// What became of a source that depends on what changed.
pub open spec fn dependent_action(kind: SourceUpdateKind) -> Seq<char> {
    match kind {
        SourceUpdateKind::Loaded => "loaded"@,
        SourceUpdateKind::Reloaded => "reloaded"@,
        SourceUpdateKind::Removed => "removed"@,
    }
}

/// An update described with the given action.
pub open spec fn update_text(action: Seq<char>, update: SourceUpdate) -> Seq<char> {
    action + " "@ + update.graph@ + " ("@ + triple_count_text(update.triples as nat) + ")"@
}

fn push_update(out: &mut Vec<char>, action: &str, update: &SourceUpdate)
    ensures
        final(out)@ == old(out)@ + update_text(action@, *update),
{
    push_str(out, action);
    push_str(out, " ");
    push_str(out, update.graph.as_str());
    push_str(out, " (");
    push_triple_count(out, update.triples);
    push_str(out, ")");
}

fn direct_action_str(kind: SourceUpdateKind) -> (r: &'static str)
    ensures
        r@ == direct_action(kind),
{
    match kind {
        SourceUpdateKind::Loaded => "loaded as",
        SourceUpdateKind::Reloaded => "reloaded as",
        SourceUpdateKind::Removed => "removed",
    }
}

fn dependent_action_str(kind: SourceUpdateKind) -> (r: &'static str)
    ensures
        r@ == dependent_action(kind),
{
    match kind {
        SourceUpdateKind::Loaded => "loaded",
        SourceUpdateKind::Reloaded => "reloaded",
        SourceUpdateKind::Removed => "removed",
    }
}

/// What became of a source that changed itself.
pub fn direct_update_message(update: &SourceUpdate) -> (r: String)
    ensures
        r@ == update_text(direct_action(update.kind), *update),
{
    let mut out: Vec<char> = Vec::new();
    push_update(&mut out, direct_action_str(update.kind), update);
    string_of(&out)
}

/// What became of a source that depends on what changed.
pub fn dependent_update_message(update: &SourceUpdate) -> (r: String)
    ensures
        r@ == update_text(dependent_action(update.kind), *update),
{
    let mut out: Vec<char> = Vec::new();
    push_update(&mut out, dependent_action_str(update.kind), update);
    string_of(&out)
}

/// The updates of the sources named in `sources`, in that order, skipping
/// sources without one.
pub open spec fn dependent_updates(sources: Seq<String>, updates: Seq<SourceUpdate>) -> Seq<
    SourceUpdate,
>
    decreases sources.len(),
{
    if sources.len() == 0 {
        seq![]
    } else {
        let rest = dependent_updates(sources.drop_last(), updates);
        match find_update(updates, sources.last()@) {
            Some(u) => rest.push(u),
            None => rest,
        }
    }
}

/// The failures of the sources named in `sources`, in that order, skipping
/// sources without one.
pub open spec fn dependent_failures(sources: Seq<String>, failures: Seq<SourceFailure>) -> Seq<
    SourceFailure,
>
    decreases sources.len(),
{
    if sources.len() == 0 {
        seq![]
    } else {
        let rest = dependent_failures(sources.drop_last(), failures);
        match find_failure(failures, sources.last()@) {
            Some(f) => rest.push(f),
            None => rest,
        }
    }
}

fn dependent_update_indices(sources: &Vec<String>, updates: &Vec<SourceUpdate>) -> (r: Vec<usize>)
    ensures
        forall|k: int| 0 <= k < r.len() ==> r@[k] < updates.len(),
        r@.map_values(|i: usize| updates@[i as int]) == dependent_updates(sources@, updates@),
{
    let mut r: Vec<usize> = Vec::new();
    let mut i: usize = 0;
    while i < sources.len()
        invariant
            i <= sources.len(),
            forall|k: int| 0 <= k < r.len() ==> r@[k] < updates.len(),
            r@.map_values(|j: usize| updates@[j as int]) == dependent_updates(
                sources@.take(i as int),
                updates@,
            ),
        decreases sources.len() - i,
    {
        assert(sources@.take(i + 1).drop_last() =~= sources@.take(i as int));
        assert(sources@.take(i + 1).last() == sources@[i as int]);
        match update_for(updates, &chars_of(sources[i].as_str())) {
            Some(j) => {
                r.push(j);
            },
            None => {},
        }
        i = i + 1;
        assert(r@.map_values(|j: usize| updates@[j as int]) =~= dependent_updates(
            sources@.take(i as int),
            updates@,
        ));
    }
    assert(sources@.take(i as int) =~= sources@);
    r
}

fn dependent_failure_indices(sources: &Vec<String>, failures: &Vec<SourceFailure>) -> (r: Vec<
    usize,
>)
    ensures
        forall|k: int| 0 <= k < r.len() ==> r@[k] < failures.len(),
        r@.map_values(|i: usize| failures@[i as int]) == dependent_failures(sources@, failures@),
{
    let mut r: Vec<usize> = Vec::new();
    let mut i: usize = 0;
    while i < sources.len()
        invariant
            i <= sources.len(),
            forall|k: int| 0 <= k < r.len() ==> r@[k] < failures.len(),
            r@.map_values(|j: usize| failures@[j as int]) == dependent_failures(
                sources@.take(i as int),
                failures@,
            ),
        decreases sources.len() - i,
    {
        assert(sources@.take(i + 1).drop_last() =~= sources@.take(i as int));
        assert(sources@.take(i + 1).last() == sources@[i as int]);
        match failure_for(failures, &chars_of(sources[i].as_str())) {
            Some(j) => {
                r.push(j);
            },
            None => {},
        }
        i = i + 1;
        assert(r@.map_values(|j: usize| failures@[j as int]) =~= dependent_failures(
            sources@.take(i as int),
            failures@,
        ));
    }
    assert(sources@.take(i as int) =~= sources@);
    r
}

/// The entry kind reported for a changed path: an unknown kind counts as a
/// file when the path is itself a source that the reload updated or failed.
pub open spec fn reported_kind(observed: EntryKind, is_source: bool) -> EntryKind {
    if observed == EntryKind::Unknown && is_source {
        EntryKind::File
    } else {
        observed
    }
}

/// The line that reports what a reload did about one changed path.
pub open spec fn change_message(
    directory: Seq<char>,
    observed: ObservedPath,
    report: ReloadReport,
) -> Seq<char> {
    let relative = relative_path(directory, observed.path@);
    let direct = find_update(report.updates@, relative);
    let direct_failure = find_failure(report.failures@, relative);
    let change = if observed.exists {
        observed.observed.change
    } else {
        FileChange::Deleted
    };
    let kind = reported_kind(
        observed.observed.entry_kind,
        direct is Some || direct_failure is Some,
    );
    let prefix = entry_noun(kind) + " "@ + change_verb(change) + ": "@ + changed_path_text(
        directory,
        observed.path@,
    );
    if kind == EntryKind::Directory {
        prefix + "; ignored"@
    } else if direct_failure is Some {
        prefix + "; "@ + failure_text(direct_failure->0)
    } else if direct is Some {
        prefix + "; "@ + update_text(direct_action(direct->0.kind), direct->0)
    } else {
        let impacted = match find_impact(report.impacts@, relative) {
            Some(sources) => sources,
            None => seq![],
        };
        let updates = dependent_updates(impacted, report.updates@);
        let failures = dependent_failures(impacted, report.failures@);
        if failures.len() == 1 {
            prefix + "; "@ + failure_text(failures[0])
        } else if failures.len() > 1 {
            prefix + "; failed to load dependent source files: "@ + joined(
                failures.map_values(|f: SourceFailure| f.path@),
                ", "@,
            )
        } else if updates.len() == 0 {
            prefix + "; ignored"@
        } else if updates.len() == 1 {
            prefix + "; "@ + update_text(dependent_action(updates[0].kind), updates[0])
        } else {
            prefix + "; updated "@ + decimal(updates.len()) + " dependent source files"@
        }
    }
}

/// The line that reports what a reload did about one changed path.
pub fn reload_message(directory: &str, observed: &ObservedPath, report: &ReloadReport) -> (r:
    String)
    ensures
        r@ == change_message(directory@, *observed, *report),
{
    let dir = chars_of(directory);
    let path = chars_of(observed.path.as_str());
    let relative = relative_chars(&dir, &path);
    let direct = update_for(&report.updates, &relative);
    let direct_failure = failure_for(&report.failures, &relative);
    let change = if observed.exists {
        observed.observed.change
    } else {
        FileChange::Deleted
    };
    let kind = if observed.observed.entry_kind == EntryKind::Unknown && (direct.is_some()
        || direct_failure.is_some()) {
        EntryKind::File
    } else {
        observed.observed.entry_kind
    };
    let mut out: Vec<char> = Vec::new();
    push_str(&mut out, kind.noun());
    push_str(&mut out, " ");
    push_str(&mut out, change.verb());
    push_str(&mut out, ": ");
    push_changed_path(&mut out, &dir, &path);
    if kind == EntryKind::Directory {
        push_str(&mut out, "; ignored");
        return string_of(&out);
    }
    if let Some(f) = direct_failure {
        push_str(&mut out, "; ");
        push_failure(&mut out, &report.failures[f]);
        return string_of(&out);
    }
    if let Some(u) = direct {
        push_str(&mut out, "; ");
        push_update(&mut out, direct_action_str(report.updates[u].kind), &report.updates[u]);
        return string_of(&out);
    }
    let no_sources: Vec<String> = Vec::new();
    let impacted: &Vec<String> = match impact_for(&report.impacts, &relative) {
        Some(k) => &report.impacts[k].1,
        None => &no_sources,
    };
    let updates = dependent_update_indices(impacted, &report.updates);
    let failures = dependent_failure_indices(impacted, &report.failures);
    let ghost fs = dependent_failures(impacted@, report.failures@);
    let ghost us = dependent_updates(impacted@, report.updates@);
    assert(failures@.map_values(|i: usize| report.failures@[i as int]).len() == failures.len());
    assert(updates@.map_values(|i: usize| report.updates@[i as int]).len() == updates.len());
    if failures.len() == 1 {
        assert(fs[0] == report.failures@[failures@[0] as int]);
        push_str(&mut out, "; ");
        push_failure(&mut out, &report.failures[failures[0]]);
        return string_of(&out);
    }
    if failures.len() > 1 {
        push_str(&mut out, "; failed to load dependent source files: ");
        let mut paths: Vec<Vec<char>> = Vec::new();
        let mut k: usize = 0;
        while k < failures.len()
            invariant
                k <= failures.len(),
                forall|j: int| 0 <= j < failures.len() ==> failures@[j] < report.failures.len(),
                fs == failures@.map_values(|i: usize| report.failures@[i as int]),
                paths@.map_values(|v: Vec<char>| v@) == fs.take(k as int).map_values(
                    |f: SourceFailure| f.path@,
                ),
            decreases failures.len() - k,
        {
            assert(fs[k as int] == report.failures@[failures@[k as int] as int]);
            let pv = chars_of(report.failures[failures[k]].path.as_str());
            let ghost iv = pv@;
            let ghost prev = paths@.map_values(|v: Vec<char>| v@);
            paths.push(pv);
            assert(paths@.map_values(|v: Vec<char>| v@) =~= prev.push(iv));
            assert(fs.take(k + 1).map_values(|f: SourceFailure| f.path@) =~= fs.take(
                k as int,
            ).map_values(|f: SourceFailure| f.path@).push(fs[k as int].path@));
            k = k + 1;
        }
        assert(fs.take(k as int) =~= fs);
        let joined_paths = join_chars(&paths, ", ");
        push_chars(&mut out, &joined_paths);
        return string_of(&out);
    }
    if updates.len() == 0 {
        push_str(&mut out, "; ignored");
    } else if updates.len() == 1 {
        assert(us[0] == report.updates@[updates@[0] as int]);
        let u = &report.updates[updates[0]];
        push_str(&mut out, "; ");
        push_update(&mut out, dependent_action_str(u.kind), u);
    } else {
        push_str(&mut out, "; updated ");
        push_decimal(&mut out, updates.len());
        push_str(&mut out, " dependent source files");
    }
    string_of(&out)
}

/// The lines that report what a reload did, one per changed path, in the
/// order given.
pub fn reload_messages(directory: &str, changed: &Vec<ObservedPath>, report: &ReloadReport) -> (r:
    Vec<String>)
    ensures
        r.len() == changed.len(),
        forall|i: int| 0 <= i < r.len() ==> #[trigger] r@[i]@ == change_message(
            directory@,
            changed@[i],
            *report,
        ),
{
    let mut r: Vec<String> = Vec::new();
    let mut i: usize = 0;
    while i < changed.len()
        invariant
            i <= changed.len(),
            r.len() == i,
            forall|k: int| 0 <= k < i ==> #[trigger] r@[k]@ == change_message(
                directory@,
                changed@[k],
                *report,
            ),
        decreases changed.len() - i,
    {
        r.push(reload_message(directory, &changed[i], report));
        i = i + 1;
    }
    r
}

} // verus!
