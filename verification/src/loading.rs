//! The bookkeeping of loading and reloading a directory: which files are
//! sources, which sources depend on which local contexts, which sources a
//! change affects, and what a reload leaves behind.
//!
//! Reading files, parsing them and replacing graphs in the dataset happen
//! around these functions; they hand over what was read and take back what to
//! do.

use vstd::prelude::*;

use crate::pathset::{contains_path, insert_path, is_path_set, lemma_take_to_set, path_set};
use crate::context::ContextSyntax;
use crate::formats::{SourceFormat, format_name, source_format, source_format_of};
use crate::markdown::{front_matter_span, markdown_front_matter, unterminated_message};
use crate::iri::{directory_iri, graph_name, graph_name_of, path_iri, path_iri_of};
use crate::pathset::remove_path;
use crate::patterns::{PatternsView, SourcePatterns, selects};
use crate::summary::DatasetStats;
use crate::report::{ReloadReport, SourceFailure, SourceUpdate, SourceUpdateKind};
use crate::paths::{parent_of, is_absolute_path, is_path_prefix, path_remainder, path_starts_with, relative_to};
use crate::text::{bytes_of, chars_of, chars_equal, texts, utf8_error_message};
use vstd::utf8::valid_utf8;

verus! {

/// The `(context, dependent source)` pairs of a vector.
pub open spec fn pair_texts(v: Seq<(String, String)>) -> Seq<(Seq<char>, Seq<char>)> {
    v.map_values(|e: (String, String)| (e.0@, e.1@))
}

/// The `(context, dependent source)` pairs, as a set.
pub open spec fn pair_set(v: Seq<(String, String)>) -> Set<(Seq<char>, Seq<char>)> {
    pair_texts(v).to_set()
}

/// Each pair occurs once.
pub open spec fn distinct_pairs(v: Seq<(String, String)>) -> bool {
    pair_texts(v).no_duplicates()
}

/// The pairs after `source` was loaded again with the local contexts
/// `dependencies`: it depends on exactly those now.
pub open spec fn updated_dependents(
    pairs: Set<(Seq<char>, Seq<char>)>,
    source: Seq<char>,
    dependencies: Set<Seq<char>>,
) -> Set<(Seq<char>, Seq<char>)> {
    Set::new(
        |p: (Seq<char>, Seq<char>)|
            (pairs.contains(p) && p.1 != source) || (p.1 == source && dependencies.contains(p.0)),
    )
}

fn same_text(a: &String, b: &str) -> (r: bool)
    ensures
        r == (a@ == b@),
{
    chars_equal(&chars_of(a.as_str()), &chars_of(b))
}

fn contains_pair(v: &Vec<(String, String)>, context: &String, source: &str) -> (r: bool)
    ensures
        r == pair_set(v@).contains((context@, source@)),
{
    let mut i: usize = 0;
    while i < v.len()
        invariant
            i <= v.len(),
            forall|k: int| 0 <= k < i ==> #[trigger] pair_texts(v@)[k] != (context@, source@),
        decreases v.len() - i,
    {
        if same_text(&v[i].0, context.as_str()) && same_text(&v[i].1, source) {
            assert(pair_texts(v@)[i as int] == (context@, source@));
            return true;
        }
        i = i + 1;
    }
    false
}

/// Records that `source` now depends on exactly the local contexts
/// `dependencies`.
pub fn update_context_dependents(
    pairs: &mut Vec<(String, String)>,
    source: &str,
    dependencies: &Vec<String>,
)
    requires
        distinct_pairs(old(pairs)@),
    ensures
        distinct_pairs(final(pairs)@),
        pair_set(final(pairs)@) == updated_dependents(
            pair_set(old(pairs)@),
            source@,
            path_set(dependencies@),
        ),
{
    let ghost start = pair_texts(pairs@);
    let mut kept: Vec<(String, String)> = Vec::new();
    let ghost mut origin: Seq<int> = seq![];
    let mut i: usize = 0;
    while i < pairs.len()
        invariant
            i <= pairs.len(),
            pairs@ == old(pairs)@,
            start == pair_texts(pairs@),
            start.no_duplicates(),
            pair_texts(kept@).no_duplicates(),
            origin.len() == kept.len(),
            forall|k: int|
                0 <= k < kept.len() ==> 0 <= #[trigger] origin[k] < i && start[origin[k]]
                    == pair_texts(kept@)[k],
            forall|k: int| 0 <= k < kept.len() ==> #[trigger] pair_texts(kept@)[k].1 != source@,
            forall|j: int|
                0 <= j < i && #[trigger] start[j].1 != source@ ==> pair_texts(kept@).contains(
                    start[j],
                ),
        decreases pairs.len() - i,
    {
        if !same_text(&pairs[i].1, source) {
            let ghost before = pair_texts(kept@);
            kept.push((pairs[i].0.clone(), pairs[i].1.clone()));
            proof {
                origin = origin.push(i as int);
                let now = pair_texts(kept@);
                assert(now =~= before.push(start[i as int]));
                assert forall|a: int, b: int| 0 <= a < b < now.len() implies now[a] != now[b] by {
                    if b == now.len() - 1 {
                        assert(start[origin[a]] != start[i as int]);
                    } else {
                        assert(before[a] != before[b]);
                    }
                }
                assert forall|k: int| 0 <= k < now.len() implies #[trigger] now[k].1 != source@ by {
                    if k < before.len() {
                        assert(now[k] == before[k]);
                    }
                }
                assert forall|j: int| 0 <= j < i + 1 && #[trigger] start[j].1 != source@ implies now.contains(
                    start[j],
                ) by {
                    if j < i {
                        let k = choose|k: int| 0 <= k < before.len() && before[k] == start[j];
                        assert(now[k] == start[j]);
                    } else {
                        assert(now[now.len() - 1] == start[j]);
                    }
                }
            }
        }
        i = i + 1;
    }
    let ghost filtered = pair_texts(kept@);
    let ghost deps = texts(dependencies@);
    let mut d: usize = 0;
    while d < dependencies.len()
        invariant
            d <= dependencies.len(),
            deps == texts(dependencies@),
            pair_texts(kept@).no_duplicates(),
            forall|x: (Seq<char>, Seq<char>)|
                #[trigger] pair_texts(kept@).contains(x) <==> (filtered.contains(x) || (x.1 == source@
                    && exists|e: int| 0 <= e < d && deps[e] == x.0)),
            forall|k: int| 0 <= k < filtered.len() ==> #[trigger] filtered[k].1 != source@,
        decreases dependencies.len() - d,
    {
        let context = &dependencies[d];
        if !contains_pair(&kept, context, source) {
            let ghost before = pair_texts(kept@);
            kept.push((context.clone(), source.to_owned()));
            proof {
                let now = pair_texts(kept@);
                assert(now =~= before.push((deps[d as int], source@)));
                assert forall|a: int, b: int| 0 <= a < b < now.len() implies now[a] != now[b] by {
                    if b == now.len() - 1 {
                        assert(before.contains(before[a]));
                    } else {
                        assert(before[a] != before[b]);
                    }
                }
                assert forall|x: (Seq<char>, Seq<char>)| #[trigger] now.contains(x) <==> (filtered.contains(x) || (
                x.1 == source@ && exists|e: int| 0 <= e < d + 1 && deps[e] == x.0)) by {
                    if now.contains(x) {
                        let k = choose|k: int| 0 <= k < now.len() && now[k] == x;
                        if k < before.len() {
                            assert(before.contains(x));
                        }
                    }
                    if filtered.contains(x) || (x.1 == source@ && exists|e: int|
                        0 <= e < d + 1 && deps[e] == x.0) {
                        if before.contains(x) {
                            let k = choose|k: int| 0 <= k < before.len() && before[k] == x;
                            assert(now[k] == x);
                        } else {
                            assert(now[now.len() - 1] == x);
                        }
                    }
                }
            }
        } else {
            proof {
                let now = pair_texts(kept@);
                assert forall|x: (Seq<char>, Seq<char>)| #[trigger] now.contains(x) <==> (filtered.contains(x) || (
                x.1 == source@ && exists|e: int| 0 <= e < d + 1 && deps[e] == x.0)) by {
                    if x == (deps[d as int], source@) {
                        assert(now.contains(x));
                    }
                }
            }
        }
        d = d + 1;
    }
    proof {
        let now = pair_texts(kept@);
        assert(pair_set(kept@) =~= updated_dependents(
            pair_set(old(pairs)@),
            source@,
            path_set(dependencies@),
        )) by {
            assert forall|x: (Seq<char>, Seq<char>)| now.to_set().contains(x) <==> updated_dependents(
                start.to_set(),
                source@,
                deps.to_set(),
            ).contains(x) by {
                assert(now.contains(x) == now.to_set().contains(x));
                if filtered.contains(x) {
                    let k = choose|k: int| 0 <= k < filtered.len() && filtered[k] == x;
                    assert(start[origin[k]] == x);
                }
                if start.contains(x) && x.1 != source@ {
                    let j = choose|j: int| 0 <= j < start.len() && start[j] == x;
                    assert(filtered.contains(start[j]));
                }
                if x.1 == source@ && deps.contains(x.0) {
                    let e = choose|e: int| 0 <= e < deps.len() && deps[e] == x.0;
                    assert(exists|e: int| 0 <= e < dependencies.len() && deps[e] == x.0);
                }
            }
        }
    }
    *pairs = kept;
}

/// Whether `context` names the changed path itself, or with `whole_tree` any
/// path at or below it.
pub open spec fn context_matches(changed: Seq<char>, context: Seq<char>, whole_tree: bool) -> bool {
    if whole_tree {
        is_path_prefix(changed, context)
    } else {
        context == changed
    }
}

/// The sources that depend on a context that `context_matches` selects.
pub open spec fn dependents_matching(
    pairs: Set<(Seq<char>, Seq<char>)>,
    changed: Seq<char>,
    whole_tree: bool,
) -> Set<Seq<char>> {
    Set::new(
        |s: Seq<char>|
            exists|c: Seq<char>| #[trigger] pairs.contains((c, s)) && context_matches(changed, c, whole_tree),
    )
}

/// The paths of `paths` at or below `prefix`.
pub open spec fn paths_under(paths: Set<Seq<char>>, prefix: Seq<char>) -> Set<Seq<char>> {
    Set::new(|s: Seq<char>| paths.contains(s) && is_path_prefix(prefix, s))
}

/// Whether pair `p` names source `s` depending on a selected context.
pub open spec fn pair_selects(
    p: (Seq<char>, Seq<char>),
    changed: Seq<char>,
    whole_tree: bool,
    s: Seq<char>,
) -> bool {
    p.1 == s && context_matches(changed, p.0, whole_tree)
}

/// The sources named by the first `n` pairs that depend on a selected context.
pub open spec fn selected_upto(
    ps: Seq<(Seq<char>, Seq<char>)>,
    n: int,
    changed: Seq<char>,
    whole_tree: bool,
) -> Set<Seq<char>> {
    Set::new(
        |s: Seq<char>| exists|k: int| 0 <= k < n && #[trigger] pair_selects(ps[k], changed, whole_tree, s),
    )
}

proof fn lemma_selected_step(
    ps: Seq<(Seq<char>, Seq<char>)>,
    n: int,
    changed: Seq<char>,
    whole_tree: bool,
)
    requires
        0 <= n < ps.len(),
    ensures
        selected_upto(ps, n + 1, changed, whole_tree) == if context_matches(
            changed,
            ps[n].0,
            whole_tree,
        ) {
            selected_upto(ps, n, changed, whole_tree).insert(ps[n].1)
        } else {
            selected_upto(ps, n, changed, whole_tree)
        },
{
    let next = selected_upto(ps, n + 1, changed, whole_tree);
    let prev = selected_upto(ps, n, changed, whole_tree);
    let expected = if context_matches(changed, ps[n].0, whole_tree) {
        prev.insert(ps[n].1)
    } else {
        prev
    };
    assert forall|s: Seq<char>| next.contains(s) <==> expected.contains(s) by {
        if next.contains(s) {
            let k = choose|k: int| 0 <= k < n + 1 && #[trigger] pair_selects(ps[k], changed, whole_tree, s);
            if k < n {
                assert(prev.contains(s));
            }
        }
        if prev.contains(s) {
            let k = choose|k: int| 0 <= k < n && #[trigger] pair_selects(ps[k], changed, whole_tree, s);
            assert(pair_selects(ps[k], changed, whole_tree, s));
        }
        if context_matches(changed, ps[n].0, whole_tree) && s == ps[n].1 {
            assert(pair_selects(ps[n], changed, whole_tree, s));
        }
    }
    assert(next =~= expected);
}

proof fn lemma_selected_all(ps: Seq<(Seq<char>, Seq<char>)>, changed: Seq<char>, whole_tree: bool)
    ensures
        selected_upto(ps, ps.len() as int, changed, whole_tree) == dependents_matching(
            ps.to_set(),
            changed,
            whole_tree,
        ),
{
    let a = selected_upto(ps, ps.len() as int, changed, whole_tree);
    let b = dependents_matching(ps.to_set(), changed, whole_tree);
    assert forall|s: Seq<char>| a.contains(s) <==> b.contains(s) by {
        if a.contains(s) {
            let k = choose|k: int| 0 <= k < ps.len() && #[trigger] pair_selects(ps[k], changed, whole_tree, s);
            assert(ps[k] == (ps[k].0, s));
            assert(ps.to_set().contains((ps[k].0, s)));
        }
        if b.contains(s) {
            let cx = choose|cx: Seq<char>|
                #[trigger] ps.to_set().contains((cx, s)) && context_matches(changed, cx, whole_tree);
            assert(ps.contains((cx, s)));
            let k = choose|k: int| 0 <= k < ps.len() && ps[k] == (cx, s);
            assert(pair_selects(ps[k], changed, whole_tree, s));
        }
    }
    assert(a =~= b);
}

/// Adds the sources that depend on the contexts that `context_matches`
/// selects.
fn add_dependents(acc: &mut Vec<String>, pairs: &Vec<(String, String)>, changed: &str, whole_tree: bool)
    requires
        is_path_set(old(acc)@),
    ensures
        is_path_set(final(acc)@),
        path_set(final(acc)@) == path_set(old(acc)@).union(
            dependents_matching(pair_set(pairs@), changed@, whole_tree),
        ),
{
    let ghost start = path_set(acc@);
    let ghost ps = pair_texts(pairs@);
    let c = chars_of(changed);
    let mut i: usize = 0;
    assert(selected_upto(ps, 0, changed@, whole_tree) =~= Set::<Seq<char>>::empty());
    assert(path_set(acc@) =~= start.union(selected_upto(ps, 0, changed@, whole_tree)));
    while i < pairs.len()
        invariant
            i <= pairs.len(),
            ps == pair_texts(pairs@),
            c@ == changed@,
            is_path_set(acc@),
            path_set(acc@) == start.union(selected_upto(ps, i as int, changed@, whole_tree)),
        decreases pairs.len() - i,
    {
        let context = chars_of(pairs[i].0.as_str());
        let selected = if whole_tree {
            path_starts_with(&context, &c)
        } else {
            chars_equal(&context, &c)
        };
        proof {
            assert(ps[i as int] == (pairs@[i as int].0@, pairs@[i as int].1@));
            lemma_selected_step(ps, i as int, changed@, whole_tree);
        }
        if selected {
            insert_path(acc, pairs[i].1.clone());
        }
        assert(path_set(acc@) =~= start.union(selected_upto(ps, i + 1, changed@, whole_tree)));
        i = i + 1;
    }
    proof {
        lemma_selected_all(ps, changed@, whole_tree);
    }
}

/// Adds the paths of `paths` at or below `prefix`.
fn add_under(acc: &mut Vec<String>, paths: &Vec<String>, prefix: &str)
    requires
        is_path_set(old(acc)@),
    ensures
        is_path_set(final(acc)@),
        path_set(final(acc)@) == path_set(old(acc)@).union(paths_under(path_set(paths@), prefix@)),
{
    let ghost start = path_set(acc@);
    let ghost ts = texts(paths@);
    let c = chars_of(prefix);
    let mut i: usize = 0;
    while i < paths.len()
        invariant
            i <= paths.len(),
            ts == texts(paths@),
            c@ == prefix@,
            is_path_set(acc@),
            path_set(acc@) == start.union(paths_under(ts.take(i as int).to_set(), prefix@)),
        decreases paths.len() - i,
    {
        let p = chars_of(paths[i].as_str());
        let under = path_starts_with(&p, &c);
        if under {
            insert_path(acc, paths[i].clone());
        }
        proof {
            assert(ts[i as int] == p@);
            assert(ts.take(i + 1) =~= ts.take(i as int).push(p@));
            assert(paths_under(ts.take(i + 1).to_set(), prefix@) =~= if under {
                paths_under(ts.take(i as int).to_set(), prefix@).insert(p@)
            } else {
                paths_under(ts.take(i as int).to_set(), prefix@)
            }) by {
                let t1 = ts.take(i + 1);
                let t0 = ts.take(i as int);
                assert forall|s: Seq<char>| t1.contains(s) <==> (t0.contains(s) || s == p@) by {
                    if t1.contains(s) {
                        let k = choose|k: int| 0 <= k < t1.len() && t1[k] == s;
                        if k < i {
                            assert(t0[k] == s);
                        }
                    }
                    if t0.contains(s) {
                        let k = choose|k: int| 0 <= k < t0.len() && t0[k] == s;
                        assert(t1[k] == s);
                    }
                    if s == p@ {
                        assert(t1[i as int] == s);
                    }
                }
            }
            assert(path_set(acc@) =~= start.union(paths_under(ts.take(i + 1).to_set(), prefix@)));
        }
        i = i + 1;
    }
    assert(ts.take(i as int) =~= ts);
}

/// Whether some path of `paths` lies at or below `prefix`.
fn any_under(paths: &Vec<String>, prefix: &str) -> (r: bool)
    ensures
        r == exists|s: Seq<char>| path_set(paths@).contains(s) && is_path_prefix(prefix@, s),
{
    let c = chars_of(prefix);
    let mut i: usize = 0;
    while i < paths.len()
        invariant
            i <= paths.len(),
            c@ == prefix@,
            forall|k: int| 0 <= k < i ==> !is_path_prefix(prefix@, #[trigger] texts(paths@)[k]),
        decreases paths.len() - i,
    {
        let p = chars_of(paths[i].as_str());
        if path_starts_with(&p, &c) {
            assert(texts(paths@)[i as int] == p@);
            assert(path_set(paths@).contains(p@));
            return true;
        }
        assert(texts(paths@)[i as int] == p@);
        i = i + 1;
    }
    assert forall|s: Seq<char>| path_set(paths@).contains(s) implies !is_path_prefix(prefix@, s) by {
        let k = choose|k: int| 0 <= k < texts(paths@).len() && texts(paths@)[k] == s;
    }
    false
}

/// The sources that a change at the relative path `changed` affects, given
/// the sources known before and now and which sources depend on which
/// contexts: the sources that depend on it as a context; itself if it is a
/// source; and if it is a directory, or a source lies below it, every source
/// below it and every source that depends on a context below it.
pub open spec fn affected_by(
    changed: Seq<char>,
    is_directory: bool,
    known: Set<Seq<char>>,
    pairs: Set<(Seq<char>, Seq<char>)>,
) -> Set<Seq<char>> {
    let direct = dependents_matching(pairs, changed, false);
    if known.contains(changed) {
        direct.insert(changed)
    } else if is_directory || exists|s: Seq<char>| known.contains(s) && is_path_prefix(changed, s) {
        direct.union(paths_under(known, changed)).union(dependents_matching(pairs, changed, true))
    } else {
        direct
    }
}

/// The sources that a change at the relative path `changed` affects.
pub fn affected_sources(
    changed: &str,
    is_directory: bool,
    previous: &Vec<String>,
    current: &Vec<String>,
    pairs: &Vec<(String, String)>,
) -> (r: Vec<String>)
    ensures
        is_path_set(r@),
        path_set(r@) == affected_by(
            changed@,
            is_directory,
            path_set(previous@).union(path_set(current@)),
            pair_set(pairs@),
        ),
{
    let ghost known = path_set(previous@).union(path_set(current@));
    let mut acc: Vec<String> = Vec::new();
    assert(path_set(acc@) =~= Set::<Seq<char>>::empty());
    add_dependents(&mut acc, pairs, changed, false);
    if contains_path(previous, changed) || contains_path(current, changed) {
        insert_path(&mut acc, changed.to_owned());
        assert(path_set(acc@) =~= affected_by(changed@, is_directory, known, pair_set(pairs@)));
        return acc;
    }
    let under_previous = any_under(previous, changed);
    let under_current = any_under(current, changed);
    proof {
        assert((exists|s: Seq<char>| known.contains(s) && is_path_prefix(changed@, s)) == (
        under_previous || under_current)) by {
            if exists|s: Seq<char>| known.contains(s) && is_path_prefix(changed@, s) {
                let s = choose|s: Seq<char>| known.contains(s) && is_path_prefix(changed@, s);
                if path_set(previous@).contains(s) {
                    assert(under_previous);
                } else {
                    assert(under_current);
                }
            }
            if under_previous {
                let s = choose|s: Seq<char>| path_set(previous@).contains(s) && is_path_prefix(changed@, s);
                assert(known.contains(s));
            }
            if under_current {
                let s = choose|s: Seq<char>| path_set(current@).contains(s) && is_path_prefix(changed@, s);
                assert(known.contains(s));
            }
        }
    }
    if is_directory || under_previous || under_current {
        add_under(&mut acc, previous, changed);
        add_under(&mut acc, current, changed);
        add_dependents(&mut acc, pairs, changed, true);
        assert(path_set(acc@) =~= affected_by(changed@, is_directory, known, pair_set(pairs@))) by {
            assert(paths_under(known, changed@) =~= paths_under(path_set(previous@), changed@).union(
                paths_under(path_set(current@), changed@),
            ));
        }
    } else {
        assert(path_set(acc@) =~= affected_by(changed@, is_directory, known, pair_set(pairs@)));
    }
    acc
}

/// A changed path as the watcher reports it, and whether it names a
/// directory on disk.
pub struct ChangedPath {
    pub path: String,
    pub is_directory: bool,
}

/// The key under which a change is recorded: an absolute path relative to the
/// served directory, or nothing if it lies outside; a relative path as it is.
pub open spec fn changed_relative(root: Seq<char>, path: Seq<char>) -> Option<Seq<char>> {
    if is_absolute_path(path) {
        if is_path_prefix(root, path) {
            Some(path_remainder(root, path))
        } else {
            None
        }
    } else {
        Some(path)
    }
}

/// The sources that each change affects, by the change's relative path; a
/// later change with the same relative path replaces an earlier one.
pub open spec fn impacts_of(
    root: Seq<char>,
    changed: Seq<ChangedPath>,
    known: Set<Seq<char>>,
    pairs: Set<(Seq<char>, Seq<char>)>,
) -> Map<Seq<char>, Set<Seq<char>>>
    decreases changed.len(),
{
    if changed.len() == 0 {
        Map::empty()
    } else {
        let before = impacts_of(root, changed.drop_last(), known, pairs);
        let c = changed.last();
        match changed_relative(root, c.path@) {
            None => before,
            Some(r) => before.insert(r, affected_by(r, c.is_directory, known, pairs)),
        }
    }
}

/// The keys of a vector of path-to-paths entries.
pub open spec fn entry_keys(v: Seq<(String, Vec<String>)>) -> Seq<Seq<char>> {
    v.map_values(|e: (String, Vec<String>)| e.0@)
}

/// The path-to-paths map that a vector of entries holds.
pub open spec fn entry_map(v: Seq<(String, Vec<String>)>) -> Map<Seq<char>, Set<Seq<char>>> {
    Map::new(
        |k: Seq<char>| entry_keys(v).contains(k),
        |k: Seq<char>| path_set(v[entry_keys(v).index_of(k)].1@),
    )
}

/// Each key occurs once, and each value is a path set.
pub open spec fn well_formed_entries(v: Seq<(String, Vec<String>)>) -> bool {
    &&& entry_keys(v).no_duplicates()
    &&& forall|i: int| 0 <= i < v.len() ==> is_path_set(#[trigger] v[i].1@)
}

pub proof fn lemma_index_of_unique<A>(s: Seq<A>, i: int)
    requires
        s.no_duplicates(),
        0 <= i < s.len(),
    ensures
        s.index_of(s[i]) == i,
{
    assert(s.contains(s[i]));
    let j = s.index_of(s[i]);
    assert(0 <= j < s.len() && s[j] == s[i]);
}

/// Records `value` under `key`, replacing what was there.
fn set_entry(v: &mut Vec<(String, Vec<String>)>, key: String, value: Vec<String>)
    requires
        well_formed_entries(old(v)@),
        is_path_set(value@),
    ensures
        well_formed_entries(final(v)@),
        entry_map(final(v)@) == entry_map(old(v)@).insert(key@, path_set(value@)),
{
    let ghost old_keys = entry_keys(v@);
    let ghost old_map = entry_map(v@);
    let mut i: usize = 0;
    while i < v.len()
        invariant
            i <= v.len(),
            v@ == old(v)@,
            old_keys == entry_keys(v@),
            old_map == entry_map(v@),
            well_formed_entries(v@),
            is_path_set(value@),
            forall|k: int| 0 <= k < i ==> #[trigger] old_keys[k] != key@,
        decreases v.len() - i,
    {
        if same_text(&v[i].0, key.as_str()) {
            let ghost old_v = v@;
            v.set(i, (key, value));
            proof {
                let nk = entry_keys(v@);
                assert(nk =~= old_keys);
                assert forall|j: int| 0 <= j < v@.len() implies is_path_set(#[trigger] v@[j].1@) by {
                    if j != i {
                        assert(v@[j] == old_v[j]);
                    }
                }
                assert forall|k: Seq<char>| #[trigger] entry_map(v@).contains_key(k) implies entry_map(
                    v@,
                )[k] == old_map.insert(key@, path_set(value@))[k] by {
                    let m = nk.index_of(k);
                    assert(nk.contains(k));
                    lemma_index_of_unique(nk, m);
                    if k == key@ {
                        lemma_index_of_unique(nk, i as int);
                    } else {
                        assert(old_map[k] == path_set(old_v[old_keys.index_of(k)].1@));
                        assert(m != i);
                    }
                }
                assert(entry_map(v@) =~= old_map.insert(key@, path_set(value@))) by {
                    assert(old_keys.contains(key@)) by {
                        assert(old_keys[i as int] == key@);
                    }
                }
            }
            return;
        }
        i = i + 1;
    }
    let ghost old_v = v@;
    v.push((key, value));
    proof {
        let nk = entry_keys(v@);
        assert(nk =~= old_keys.push(key@));
        assert(!old_keys.contains(key@));
        assert forall|a: int, b: int| 0 <= a < b < nk.len() implies nk[a] != nk[b] by {
            if b == nk.len() - 1 {
                assert(old_keys[a] != key@);
            } else {
                assert(old_keys[a] != old_keys[b]);
            }
        }
        assert forall|j: int| 0 <= j < v@.len() implies is_path_set(#[trigger] v@[j].1@) by {
            if j < old_v.len() {
                assert(v@[j] == old_v[j]);
            }
        }
        assert forall|k: Seq<char>| #[trigger] entry_map(v@).contains_key(k) implies entry_map(v@)[k]
            == old_map.insert(key@, path_set(value@))[k] by {
            let m = nk.index_of(k);
            assert(nk.contains(k));
            lemma_index_of_unique(nk, m);
            if k == key@ {
                lemma_index_of_unique(nk, nk.len() - 1);
            } else {
                assert(m < old_keys.len());
                assert(old_keys[m] == k);
                lemma_index_of_unique(old_keys, m);
                assert(v@[m] == old_v[m]);
            }
        }
        assert forall|k: Seq<char>| nk.contains(k) <==> (old_keys.contains(k) || k == key@) by {
            if nk.contains(k) {
                let m = choose|m: int| 0 <= m < nk.len() && nk[m] == k;
                if m < old_keys.len() {
                    assert(old_keys[m] == k);
                }
            }
            if old_keys.contains(k) {
                let m = choose|m: int| 0 <= m < old_keys.len() && old_keys[m] == k;
                assert(nk[m] == k);
            }
            if k == key@ {
                assert(nk[nk.len() - 1] == k);
            }
        }
        assert(entry_map(v@) =~= old_map.insert(key@, path_set(value@)));
    }
}

/// The sources that each changed path affects, keyed by its path relative to
/// the served directory `root`. `previous` holds the sources loaded or failed
/// before, `current` the sources on disk now, and `pairs` which sources
/// depend on which contexts.
pub fn source_impacts(
    root: &str,
    changed: &Vec<ChangedPath>,
    previous: &Vec<String>,
    current: &Vec<String>,
    pairs: &Vec<(String, String)>,
) -> (r: Vec<(String, Vec<String>)>)
    ensures
        well_formed_entries(r@),
        entry_map(r@) == impacts_of(
            root@,
            changed@,
            path_set(previous@).union(path_set(current@)),
            pair_set(pairs@),
        ),
{
    let ghost known = path_set(previous@).union(path_set(current@));
    let mut impacts: Vec<(String, Vec<String>)> = Vec::new();
    let mut i: usize = 0;
    assert(entry_map(impacts@) =~= Map::<Seq<char>, Set<Seq<char>>>::empty());
    while i < changed.len()
        invariant
            i <= changed.len(),
            known == path_set(previous@).union(path_set(current@)),
            well_formed_entries(impacts@),
            entry_map(impacts@) == impacts_of(
                root@,
                changed@.take(i as int),
                known,
                pair_set(pairs@),
            ),
        decreases changed.len() - i,
    {
        let c = &changed[i];
        assert(changed@.take(i + 1).drop_last() =~= changed@.take(i as int));
        let p = chars_of(c.path.as_str());
        let relative = if p.len() > 0 && p[0] == '/' {
            relative_to(root, c.path.as_str())
        } else {
            Some(c.path.clone())
        };
        match relative {
            None => {},
            Some(r) => {
                let affected = affected_sources(r.as_str(), c.is_directory, previous, current, pairs);
                set_entry(&mut impacts, r, affected);
            },
        }
        i = i + 1;
    }
    assert(changed@.take(i as int) =~= changed@);
    impacts
}

/// The sources that any change affects.
pub open spec fn all_affected(m: Map<Seq<char>, Set<Seq<char>>>) -> Set<Seq<char>> {
    Set::new(|s: Seq<char>| exists|k: Seq<char>| m.contains_key(k) && #[trigger] m[k].contains(s))
}

/// Every source that some change affects, in path order.
pub fn affected_union(impacts: &Vec<(String, Vec<String>)>) -> (r: Vec<String>)
    requires
        well_formed_entries(impacts@),
    ensures
        is_path_set(r@),
        path_set(r@) == all_affected(entry_map(impacts@)),
{
    let ghost keys = entry_keys(impacts@);
    let mut acc: Vec<String> = Vec::new();
    let mut i: usize = 0;
    assert(path_set(acc@) =~= Set::<Seq<char>>::empty());
    while i < impacts.len()
        invariant
            i <= impacts.len(),
            keys == entry_keys(impacts@),
            well_formed_entries(impacts@),
            is_path_set(acc@),
            path_set(acc@) == Set::new(
                |s: Seq<char>| exists|j: int| 0 <= j < i && #[trigger] path_set(impacts@[j].1@).contains(s),
            ),
        decreases impacts.len() - i,
    {
        let ghost before = path_set(acc@);
        let values = &impacts[i].1;
        let mut k: usize = 0;
        while k < values.len()
            invariant
                k <= values.len(),
                i < impacts.len(),
                values == impacts@[i as int].1,
                is_path_set(acc@),
                path_set(acc@) == before.union(texts(values@).take(k as int).to_set()),
            decreases values.len() - k,
        {
            let ghost b = path_set(acc@);
            insert_path(&mut acc, values[k].clone());
            proof {
                lemma_take_to_set(texts(values@), k as int);
            }
            assert(path_set(acc@) =~= before.union(texts(values@).take(k + 1).to_set()));
            k = k + 1;
        }
        assert(texts(values@).take(k as int) =~= texts(values@));
        assert(path_set(acc@) =~= Set::new(
            |s: Seq<char>| exists|j: int| 0 <= j < i + 1 && #[trigger] path_set(impacts@[j].1@).contains(s),
        )) by {
            assert forall|s: Seq<char>| path_set(acc@).contains(s) <==> exists|j: int|
                0 <= j < i + 1 && #[trigger] path_set(impacts@[j].1@).contains(s) by {
                if path_set(impacts@[i as int].1@).contains(s) {
                    assert(texts(values@).to_set().contains(s));
                }
            }
        }
        i = i + 1;
    }
    proof {
        let m = entry_map(impacts@);
        assert(path_set(acc@) =~= all_affected(m)) by {
            assert forall|s: Seq<char>| path_set(acc@).contains(s) <==> all_affected(m).contains(s) by {
                if path_set(acc@).contains(s) {
                    let j = choose|j: int| 0 <= j < i && #[trigger] path_set(impacts@[j].1@).contains(s);
                    lemma_index_of_unique(keys, j);
                    assert(keys.contains(keys[j]));
                    assert(m.contains_key(keys[j]) && m[keys[j]].contains(s));
                }
                if all_affected(m).contains(s) {
                    let k = choose|k: Seq<char>| m.contains_key(k) && #[trigger] m[k].contains(s);
                    let j = keys.index_of(k);
                    assert(keys.contains(k));
                    assert(path_set(impacts@[j].1@).contains(s));
                }
            }
        }
    }
    acc
}

/// The keys of a vector of path-to-text entries.
pub open spec fn error_keys(v: Seq<(String, String)>) -> Seq<Seq<char>> {
    v.map_values(|e: (String, String)| e.0@)
}

/// The path-to-text map that a vector of entries holds, each key once.
pub open spec fn error_map(v: Seq<(String, String)>) -> Map<Seq<char>, Seq<char>> {
    Map::new(
        |k: Seq<char>| error_keys(v).contains(k),
        |k: Seq<char>| v[error_keys(v).index_of(k)].1@,
    )
}

/// Each key of the entries occurs once.
pub open spec fn distinct_keys(v: Seq<(String, String)>) -> bool {
    error_keys(v).no_duplicates()
}

/// Takes the entry for `key` out.
fn remove_error(v: &mut Vec<(String, String)>, key: &str)
    requires
        distinct_keys(old(v)@),
    ensures
        distinct_keys(final(v)@),
        error_map(final(v)@) == error_map(old(v)@).remove(key@),
{
    let ghost start = error_keys(v@);
    let ghost m = error_map(v@);
    let mut i: usize = 0;
    while i < v.len()
        invariant
            i <= v.len(),
            v@ == old(v)@,
            start == error_keys(v@),
            m == error_map(v@),
            start.no_duplicates(),
            forall|k: int| 0 <= k < i ==> #[trigger] start[k] != key@,
        decreases v.len() - i,
    {
        if same_text(&v[i].0, key) {
            let ghost old_v = v@;
            assert(start[i as int] == key@);
            v.remove(i);
            proof {
                let nk = error_keys(v@);
                assert(nk =~= start.remove(i as int));
                assert forall|a: int, b: int| 0 <= a < b < nk.len() implies nk[a] != nk[b] by {
                    let a0 = if a < i { a } else { a + 1 };
                    let b0 = if b < i { b } else { b + 1 };
                    assert(nk[a] == start[a0] && nk[b] == start[b0]);
                }
                assert forall|k: Seq<char>| nk.contains(k) <==> (start.contains(k) && k != key@) by {
                    if nk.contains(k) {
                        let x = choose|x: int| 0 <= x < nk.len() && nk[x] == k;
                        let x0 = if x < i { x } else { x + 1 };
                        assert(start[x0] == k);
                        assert(x0 != i);
                        assert(start[x0] != start[i as int]);
                    }
                    if start.contains(k) && k != key@ {
                        let x = choose|x: int| 0 <= x < start.len() && start[x] == k;
                        if x < i {
                            assert(nk[x] == k);
                        } else {
                            assert(x != i);
                            assert(nk[x - 1] == k);
                        }
                    }
                }
                assert forall|k: Seq<char>| #[trigger] error_map(v@).contains_key(k) implies error_map(v@)[k]
                    == m[k] by {
                    let x = nk.index_of(k);
                    assert(nk.contains(k));
                    let x0 = if x < i { x } else { x + 1 };
                    assert(start[x0] == k);
                    lemma_index_of_unique(start, x0);
                    assert(v@[x] == old_v[x0]);
                }
                assert(error_map(v@) =~= m.remove(key@));
            }
            return;
        }
        i = i + 1;
    }
    proof {
        assert(!start.contains(key@)) by {
            if start.contains(key@) {
                let x = choose|x: int| 0 <= x < start.len() && start[x] == key@;
            }
        }
        assert(error_map(v@) =~= m.remove(key@));
    }
}

/// Adds an entry for a key that has none.
fn add_error(v: &mut Vec<(String, String)>, key: String, message: String)
    requires
        distinct_keys(old(v)@),
        !error_map(old(v)@).contains_key(key@),
    ensures
        distinct_keys(final(v)@),
        error_map(final(v)@) == error_map(old(v)@).insert(key@, message@),
{
    let ghost start = error_keys(v@);
    let ghost m = error_map(v@);
    let ghost old_v = v@;
    v.push((key, message));
    proof {
        let nk = error_keys(v@);
        assert(nk =~= start.push(key@));
        assert(!start.contains(key@));
        assert forall|a: int, b: int| 0 <= a < b < nk.len() implies nk[a] != nk[b] by {
            if b == nk.len() - 1 {
                assert(start[a] != key@);
            } else {
                assert(start[a] != start[b]);
            }
        }
        assert forall|k: Seq<char>| nk.contains(k) <==> (start.contains(k) || k == key@) by {
            if nk.contains(k) {
                let x = choose|x: int| 0 <= x < nk.len() && nk[x] == k;
                if x < start.len() {
                    assert(start[x] == k);
                }
            }
            if start.contains(k) {
                let x = choose|x: int| 0 <= x < start.len() && start[x] == k;
                assert(nk[x] == k);
            }
            if k == key@ {
                assert(nk[nk.len() - 1] == k);
            }
        }
        assert forall|k: Seq<char>| #[trigger] error_map(v@).contains_key(k) implies error_map(v@)[k]
            == m.insert(key@, message@)[k] by {
            let x = nk.index_of(k);
            assert(nk.contains(k));
            lemma_index_of_unique(nk, x);
            if k == key@ {
                lemma_index_of_unique(nk, nk.len() - 1);
            } else {
                assert(x < start.len());
                assert(start[x] == k);
                lemma_index_of_unique(start, x);
                assert(v@[x] == old_v[x]);
            }
        }
        assert(error_map(v@) =~= m.insert(key@, message@));
    }
}

/// What loading one affected source gave.
pub enum LoadOutcome {
    /// It is no source now: it is gone, no longer recognised, or no longer
    /// selected.
    Absent,
    /// It loaded, its graphs hold `triples` triples, and it read the local
    /// contexts `contexts`.
    Loaded { triples: usize, contexts: Vec<String> },
    /// It holds nothing to load, as a Markdown file without front matter.
    Empty { contexts: Vec<String> },
    /// It failed with `error`, after reading the local contexts `contexts`.
    Failed { error: String, contexts: Vec<String> },
}

/// The local contexts that a load read.
pub open spec fn outcome_contexts(o: LoadOutcome) -> Set<Seq<char>> {
    match o {
        LoadOutcome::Absent => Set::empty(),
        LoadOutcome::Loaded { contexts, .. } => path_set(contexts@),
        LoadOutcome::Empty { contexts } => path_set(contexts@),
        LoadOutcome::Failed { contexts, .. } => path_set(contexts@),
    }
}

/// The loaded sources after the affected sources were loaded again: each
/// affected source is loaded exactly when it loaded now.
pub open spec fn sources_after(
    loaded: Set<Seq<char>>,
    affected: Seq<Seq<char>>,
    outcomes: Seq<LoadOutcome>,
) -> Set<Seq<char>>
    decreases affected.len(),
{
    if affected.len() == 0 {
        loaded
    } else {
        let before = sources_after(loaded, affected.drop_last(), outcomes);
        if outcomes[affected.len() - 1] is Loaded {
            before.insert(affected.last())
        } else {
            before.remove(affected.last())
        }
    }
}

/// The load errors after the affected sources were loaded again: each
/// affected source has an error exactly when it failed now, and it is that
/// failure's error.
pub open spec fn errors_after(
    errors: Map<Seq<char>, Seq<char>>,
    affected: Seq<Seq<char>>,
    outcomes: Seq<LoadOutcome>,
) -> Map<Seq<char>, Seq<char>>
    decreases affected.len(),
{
    if affected.len() == 0 {
        errors
    } else {
        let before = errors_after(errors, affected.drop_last(), outcomes);
        match outcomes[affected.len() - 1] {
            LoadOutcome::Failed { error, .. } => before.remove(affected.last()).insert(
                affected.last(),
                error@,
            ),
            _ => before.remove(affected.last()),
        }
    }
}

/// The context dependencies after the affected sources were loaded again:
/// each depends on exactly the contexts it read now.
pub open spec fn pairs_after(
    pairs: Set<(Seq<char>, Seq<char>)>,
    affected: Seq<Seq<char>>,
    outcomes: Seq<LoadOutcome>,
) -> Set<(Seq<char>, Seq<char>)>
    decreases affected.len(),
{
    if affected.len() == 0 {
        pairs
    } else {
        updated_dependents(
            pairs_after(pairs, affected.drop_last(), outcomes),
            affected.last(),
            outcome_contexts(outcomes[affected.len() - 1]),
        )
    }
}

/// An update as plain values: path, graph, triple count and kind.
pub open spec fn update_view(u: SourceUpdate) -> (Seq<char>, Seq<char>, nat, SourceUpdateKind) {
    (u.path@, u.graph@, u.triples as nat, u.kind)
}

/// A failure as plain values: path, graph, format name and error.
pub open spec fn failure_view(f: SourceFailure) -> (Seq<char>, Seq<char>, Seq<char>, Seq<char>) {
    (f.path@, f.graph@, f.format@, f.error@)
}

/// What a reload reports of one affected source's graph: loaded or reloaded
/// with its new triple count, or removed with the count it had.
pub open spec fn update_entry(
    source: Seq<char>,
    outcome: LoadOutcome,
    previous_triples: nat,
    was_loaded: bool,
) -> Option<(Seq<char>, Seq<char>, nat, SourceUpdateKind)> {
    match outcome {
        LoadOutcome::Loaded { triples, .. } => Some(
            (
                source,
                path_iri_of(source, false),
                triples as nat,
                if was_loaded {
                    SourceUpdateKind::Reloaded
                } else {
                    SourceUpdateKind::Loaded
                },
            ),
        ),
        _ => if was_loaded {
            Some((source, path_iri_of(source, false), previous_triples, SourceUpdateKind::Removed))
        } else {
            None
        },
    }
}

/// The updates of the affected sources, in order.
pub open spec fn updates_of(
    loaded: Set<Seq<char>>,
    affected: Seq<Seq<char>>,
    outcomes: Seq<LoadOutcome>,
    previous_triples: Seq<usize>,
) -> Seq<(Seq<char>, Seq<char>, nat, SourceUpdateKind)>
    decreases affected.len(),
{
    if affected.len() == 0 {
        seq![]
    } else {
        let k = affected.len() - 1;
        let before = updates_of(loaded, affected.drop_last(), outcomes, previous_triples);
        match update_entry(affected[k], outcomes[k], previous_triples[k] as nat, loaded.contains(affected[k])) {
            Some(u) => before.push(u),
            None => before,
        }
    }
}

/// The failures of the affected sources, in order, with their format names.
pub open spec fn failures_of(affected: Seq<Seq<char>>, outcomes: Seq<LoadOutcome>) -> Seq<
    (Seq<char>, Seq<char>, Seq<char>, Seq<char>),
>
    decreases affected.len(),
{
    if affected.len() == 0 {
        seq![]
    } else {
        let k = affected.len() - 1;
        let before = failures_of(affected.drop_last(), outcomes);
        match outcomes[k] {
            LoadOutcome::Failed { error, .. } => before.push(
                (
                    affected[k],
                    path_iri_of(affected[k], false),
                    match source_format_of(affected[k]) {
                        Some(f) => format_name(f),
                        None => seq![],
                    },
                    error@,
                ),
            ),
            _ => before,
        }
    }
}

/// The first affected source whose graph name is not a valid IRI, with the
/// error.
pub open spec fn first_graph_error(affected: Seq<Seq<char>>) -> Option<Seq<char>>
    decreases affected.len(),
{
    if affected.len() == 0 {
        None
    } else {
        match first_graph_error(affected.drop_last()) {
            Some(e) => Some(e),
            None => match graph_name_of(affected.last()) {
                Err(e) => Some(e),
                Ok(_) => None,
            },
        }
    }
}

/// The error for a failed source whose format is not recognised.
pub open spec fn unrecognized_failure_message() -> Seq<char> {
    "failed source has no recognized format"@
}

/// Why a reload cannot be reported: a graph name that is not an IRI, or a
/// failed source of no recognised format.
pub open spec fn reload_error(affected: Seq<Seq<char>>, outcomes: Seq<LoadOutcome>) -> Option<
    Seq<char>,
> {
    match first_graph_error(affected) {
        Some(e) => Some(e),
        None => if exists|k: int|
            0 <= k < affected.len() && #[trigger] outcomes[k] is Failed && source_format_of(
                affected[k],
            ) is None {
            Some(unrecognized_failure_message())
        } else {
            None
        },
    }
}

proof fn lemma_graph_error_persists(affected: Seq<Seq<char>>, k: int)
    requires
        0 <= k <= affected.len(),
        first_graph_error(affected.take(k)) is Some,
    ensures
        first_graph_error(affected) == first_graph_error(affected.take(k)),
    decreases affected.len(),
{
    if affected.len() == k {
        assert(affected.take(k) =~= affected);
    } else {
        assert(affected.drop_last().take(k) =~= affected.take(k));
        lemma_graph_error_persists(affected.drop_last(), k);
    }
}

fn outcome_context_list(o: &LoadOutcome) -> (r: Vec<String>)
    ensures
        path_set(r@) == outcome_contexts(*o),
{
    match o {
        LoadOutcome::Absent => {
            let v: Vec<String> = Vec::new();
            assert(path_set(v@) =~= Set::<Seq<char>>::empty());
            v
        },
        LoadOutcome::Loaded { contexts, .. } => contexts.clone(),
        LoadOutcome::Empty { contexts } => contexts.clone(),
        LoadOutcome::Failed { contexts, .. } => contexts.clone(),
    }
}

/// Settles a reload: given the bookkeeping before, the changes' impacts, the
/// affected sources in path order, and what loading each of them again gave,
/// computes the bookkeeping after and what happened to each source.
/// `previous_triples` holds, for each affected source, the triples its graphs
/// held before.
pub fn settle_reload(
    loaded_sources: &Vec<String>,
    load_errors: &Vec<(String, String)>,
    pairs: &Vec<(String, String)>,
    impacts: Vec<(String, Vec<String>)>,
    affected: &Vec<String>,
    outcomes: &Vec<LoadOutcome>,
    previous_triples: &Vec<usize>,
) -> (r: Result<ReloadReport, String>)
    requires
        is_path_set(loaded_sources@),
        distinct_keys(load_errors@),
        distinct_pairs(pairs@),
        is_path_set(affected@),
        outcomes.len() == affected.len(),
        previous_triples.len() == affected.len(),
    ensures
        match r {
            Ok(report) => {
                &&& reload_error(texts(affected@), outcomes@) is None
                &&& is_path_set(report.loaded_sources@)
                &&& path_set(report.loaded_sources@) == sources_after(
                    path_set(loaded_sources@),
                    texts(affected@),
                    outcomes@,
                )
                &&& distinct_keys(report.load_errors@)
                &&& error_map(report.load_errors@) == errors_after(
                    error_map(load_errors@),
                    texts(affected@),
                    outcomes@,
                )
                &&& distinct_pairs(report.context_dependents@)
                &&& pair_set(report.context_dependents@) == pairs_after(
                    pair_set(pairs@),
                    texts(affected@),
                    outcomes@,
                )
                &&& report.updates@.map_values(|u: SourceUpdate| update_view(u)) == updates_of(
                    path_set(loaded_sources@),
                    texts(affected@),
                    outcomes@,
                    previous_triples@,
                )
                &&& report.failures@.map_values(|f: SourceFailure| failure_view(f)) == failures_of(
                    texts(affected@),
                    outcomes@,
                )
                &&& report.impacts@ == impacts@
            },
            Err(e) => reload_error(texts(affected@), outcomes@) == Some(e@),
        },
{
    let ghost names = texts(affected@);
    let mut g: usize = 0;
    while g < affected.len()
        invariant
            g <= affected.len(),
            names == texts(affected@),
            first_graph_error(names.take(g as int)) is None,
        decreases affected.len() - g,
    {
        assert(names.take(g + 1).drop_last() =~= names.take(g as int));
        match graph_name(affected[g].as_str()) {
            Err(e) => {
                proof {
                    lemma_graph_error_persists(names, g + 1);
                }
                return Err(e);
            },
            Ok(_) => {},
        }
        g = g + 1;
    }
    assert(names.take(g as int) =~= names);
    let mut next_sources = loaded_sources.clone();
    let mut next_errors = copy_pairs(load_errors);
    let mut next_pairs = copy_pairs(pairs);
    proof {
        assert(pair_texts(next_errors@).len() == next_errors@.len());
        assert(pair_texts(load_errors@).len() == load_errors@.len());
        assert forall|k: int| 0 <= k < next_errors@.len() implies #[trigger] error_keys(next_errors@)[k]
            == error_keys(load_errors@)[k] by {
            assert(pair_texts(next_errors@)[k] == pair_texts(load_errors@)[k]);
        }
        assert(error_keys(next_errors@) =~= error_keys(load_errors@));
        assert(error_map(next_errors@) =~= error_map(load_errors@)) by {
            assert forall|k: Seq<char>| #[trigger] error_map(next_errors@).contains_key(k) implies error_map(
                next_errors@,
            )[k] == error_map(load_errors@)[k] by {
                let x = error_keys(load_errors@).index_of(k);
                assert(error_keys(load_errors@).contains(k));
                assert(pair_texts(next_errors@)[x] == pair_texts(load_errors@)[x]);
            }
        }
    }
    let mut updates: Vec<SourceUpdate> = Vec::new();
    let mut failures: Vec<SourceFailure> = Vec::new();
    let mut i: usize = 0;
    proof {
        assert(names.take(0) =~= Seq::<Seq<char>>::empty());
        assert(updates@.map_values(|u: SourceUpdate| update_view(u)) =~= Seq::<(Seq<char>, Seq<char>, nat, SourceUpdateKind)>::empty());
        assert(failures@.map_values(|f: SourceFailure| failure_view(f)) =~= Seq::<(Seq<char>, Seq<char>, Seq<char>, Seq<char>)>::empty());
    }
    while i < affected.len()
        invariant
            i <= affected.len(),
            names == texts(affected@),
            outcomes.len() == affected.len(),
            previous_triples.len() == affected.len(),
            first_graph_error(names) is None,
            forall|k: int|
                0 <= k < i ==> !(#[trigger] outcomes@[k] is Failed && source_format_of(names[k]) is None),
            is_path_set(next_sources@),
            path_set(next_sources@) == sources_after(
                path_set(loaded_sources@),
                names.take(i as int),
                outcomes@,
            ),
            distinct_keys(next_errors@),
            error_map(next_errors@) == errors_after(
                error_map(load_errors@),
                names.take(i as int),
                outcomes@,
            ),
            distinct_pairs(next_pairs@),
            pair_set(next_pairs@) == pairs_after(pair_set(pairs@), names.take(i as int), outcomes@),
            updates@.map_values(|u: SourceUpdate| update_view(u)) == updates_of(
                path_set(loaded_sources@),
                names.take(i as int),
                outcomes@,
                previous_triples@,
            ),
            failures@.map_values(|f: SourceFailure| failure_view(f)) == failures_of(
                names.take(i as int),
                outcomes@,
            ),
        decreases affected.len() - i,
    {
        let a = &affected[i];
        let outcome = &outcomes[i];
        proof {
            assert(names.take(i + 1).drop_last() =~= names.take(i as int));
            assert(names.take(i + 1).last() == a@);
            assert(names[i as int] == a@);
            lemma_no_graph_error_at(names, i as int);
        }
        let contexts = outcome_context_list(outcome);
        update_context_dependents(&mut next_pairs, a.as_str(), &contexts);
        let was_loaded = contains_path(loaded_sources, a.as_str());
        remove_path(&mut next_sources, a.as_str());
        remove_error(&mut next_errors, a.as_str());
        let graph = path_iri(a.as_str(), false);
        let ghost updates_before = updates@.map_values(|u: SourceUpdate| update_view(u));
        let ghost failures_before = failures@.map_values(|f: SourceFailure| failure_view(f));
        match outcome {
            LoadOutcome::Loaded { triples, .. } => {
                insert_path(&mut next_sources, a.clone());
                let kind = if was_loaded {
                    SourceUpdateKind::Reloaded
                } else {
                    SourceUpdateKind::Loaded
                };
                updates.push(SourceUpdate { path: a.clone(), graph, triples: *triples, kind });
                assert(updates@.map_values(|u: SourceUpdate| update_view(u)) =~= updates_before.push(
                    update_entry(a@, *outcome, previous_triples@[i as int] as nat, was_loaded)->Some_0,
                ));
            },
            LoadOutcome::Failed { error, .. } => {
                let format = match source_format(a.as_str()) {
                    Some(f) => f,
                    None => {
                        proof {
                            assert(outcomes@[i as int] is Failed && source_format_of(names[i as int]) is None);
                        }
                        return Err("failed source has no recognized format".to_owned());
                    },
                };
                assert(!error_map(next_errors@).contains_key(a@));
                add_error(&mut next_errors, a.clone(), error.clone());
                failures.push(
                    SourceFailure {
                        path: a.clone(),
                        graph: graph.clone(),
                        format: format.name(),
                        error: error.clone(),
                    },
                );
                assert(failures@.map_values(|f: SourceFailure| failure_view(f)) =~= failures_before.push(
                    (a@, path_iri_of(a@, false), format_name(format), error@),
                ));
                if was_loaded {
                    updates.push(
                        SourceUpdate {
                            path: a.clone(),
                            graph,
                            triples: previous_triples[i],
                            kind: SourceUpdateKind::Removed,
                        },
                    );
                    assert(updates@.map_values(|u: SourceUpdate| update_view(u)) =~= updates_before.push(
                        update_entry(a@, *outcome, previous_triples@[i as int] as nat, was_loaded)->Some_0,
                    ));
                } else {
                    assert(updates@.map_values(|u: SourceUpdate| update_view(u)) =~= updates_before);
                }
            },
            _ => {
                if was_loaded {
                    updates.push(
                        SourceUpdate {
                            path: a.clone(),
                            graph,
                            triples: previous_triples[i],
                            kind: SourceUpdateKind::Removed,
                        },
                    );
                    assert(updates@.map_values(|u: SourceUpdate| update_view(u)) =~= updates_before.push(
                        update_entry(a@, *outcome, previous_triples@[i as int] as nat, was_loaded)->Some_0,
                    ));
                } else {
                    assert(updates@.map_values(|u: SourceUpdate| update_view(u)) =~= updates_before);
                }
            },
        }
        proof {
            assert(path_set(next_sources@) =~= sources_after(
                path_set(loaded_sources@),
                names.take(i + 1),
                outcomes@,
            ));
            assert(error_map(next_errors@) =~= errors_after(
                error_map(load_errors@),
                names.take(i + 1),
                outcomes@,
            ));
        }
        i = i + 1;
    }
    proof {
        assert(names.take(i as int) =~= names);
        assert(!exists|k: int|
            0 <= k < names.len() && #[trigger] outcomes@[k] is Failed && source_format_of(names[k])
                is None);
    }
    Ok(
        ReloadReport {
            loaded_sources: next_sources,
            load_errors: next_errors,
            context_dependents: next_pairs,
            updates,
            failures,
            impacts,
        },
    )
}

/// A copy of a vector of text pairs.
fn copy_pairs(v: &Vec<(String, String)>) -> (r: Vec<(String, String)>)
    ensures
        pair_texts(r@) == pair_texts(v@),
{
    let mut r: Vec<(String, String)> = Vec::new();
    let mut i: usize = 0;
    while i < v.len()
        invariant
            i <= v.len(),
            pair_texts(r@) == pair_texts(v@).take(i as int),
        decreases v.len() - i,
    {
        let ghost before = pair_texts(r@);
        let first = v[i].0.clone();
        let second = v[i].1.clone();
        r.push((first, second));
        assert(pair_texts(r@) =~= before.push(pair_texts(v@)[i as int]));
        assert(pair_texts(r@) =~= pair_texts(v@).take(i + 1));
        i = i + 1;
    }
    assert(pair_texts(v@).take(i as int) =~= pair_texts(v@));
    r
}

proof fn lemma_no_graph_error_at(names: Seq<Seq<char>>, k: int)
    requires
        0 <= k < names.len(),
        first_graph_error(names) is None,
    ensures
        graph_name_of(names[k]) is Ok,
    decreases names.len(),
{
    if k < names.len() - 1 {
        lemma_no_graph_error_at(names.drop_last(), k);
    }
}

/// Whether a file is a source: its format is recognised and the patterns
/// select it.
pub open spec fn is_selected_source(patterns: PatternsView, path: Seq<char>) -> bool {
    source_format_of(path) is Some && selects(patterns, path)
}

/// The files that are sources, in order.
pub open spec fn selected_sources(patterns: PatternsView, files: Seq<Seq<char>>) -> Seq<Seq<char>>
    decreases files.len(),
{
    if files.len() == 0 {
        seq![]
    } else {
        let before = selected_sources(patterns, files.drop_last());
        if is_selected_source(patterns, files.last()) {
            before.push(files.last())
        } else {
            before
        }
    }
}

/// The relative paths of `files` that are sources, in order.
pub fn select_sources(files: &Vec<String>, patterns: &SourcePatterns) -> (r: Vec<String>)
    requires
        patterns.well_formed(),
    ensures
        texts(r@) == selected_sources(patterns@, texts(files@)),
{
    let ghost fs = texts(files@);
    let mut r: Vec<String> = Vec::new();
    let mut i: usize = 0;
    assert(texts(r@) =~= Seq::<Seq<char>>::empty());
    while i < files.len()
        invariant
            i <= files.len(),
            fs == texts(files@),
            patterns.well_formed(),
            texts(r@) == selected_sources(patterns@, fs.take(i as int)),
        decreases files.len() - i,
    {
        let path = files[i].as_str();
        assert(fs.take(i + 1).drop_last() =~= fs.take(i as int));
        assert(fs.take(i + 1).last() == path@);
        let recognised = match source_format(path) {
            Some(_) => true,
            None => false,
        };
        if recognised && patterns.matches(path) {
            let ghost before = texts(r@);
            r.push(files[i].clone());
            assert(texts(r@) =~= before.push(path@));
        }
        i = i + 1;
    }
    assert(fs.take(i as int) =~= fs);
    r
}

/// How many outcomes loaded nothing and failed nothing.
pub open spec fn empty_count(outcomes: Seq<LoadOutcome>) -> nat
    decreases outcomes.len(),
{
    if outcomes.len() == 0 {
        0
    } else {
        empty_count(outcomes.drop_last()) + if outcomes.last() is Loaded || outcomes.last() is Failed {
            0nat
        } else {
            1nat
        }
    }
}

/// What loading a whole directory found.
pub struct DirectoryLoad {
    pub loaded_sources: Vec<String>,
    pub load_errors: Vec<(String, String)>,
    pub context_dependents: Vec<(String, String)>,
    pub ignored_files: usize,
}

/// Settles the first load of a directory of `file_count` files, of which
/// `sources`, in path order, are sources, and loading each gave the outcome
/// at the same index. Files that are no source, and sources that hold nothing
/// to load, are ignored.
pub fn settle_initial_load(file_count: usize, sources: &Vec<String>, outcomes: &Vec<LoadOutcome>) -> (r:
    DirectoryLoad)
    requires
        is_path_set(sources@),
        outcomes.len() == sources.len(),
        sources.len() <= file_count,
    ensures
        is_path_set(r.loaded_sources@),
        path_set(r.loaded_sources@) == sources_after(Set::empty(), texts(sources@), outcomes@),
        distinct_keys(r.load_errors@),
        error_map(r.load_errors@) == errors_after(Map::empty(), texts(sources@), outcomes@),
        distinct_pairs(r.context_dependents@),
        pair_set(r.context_dependents@) == pairs_after(Set::empty(), texts(sources@), outcomes@),
        r.ignored_files == file_count - sources.len() + empty_count(outcomes@),
{
    let ghost names = texts(sources@);
    let mut loaded: Vec<String> = Vec::new();
    let mut errors: Vec<(String, String)> = Vec::new();
    let mut pairs: Vec<(String, String)> = Vec::new();
    let mut ignored: usize = file_count - sources.len();
    let mut i: usize = 0;
    proof {
        assert(path_set(loaded@) =~= Set::<Seq<char>>::empty());
        assert(error_map(errors@) =~= Map::<Seq<char>, Seq<char>>::empty());
        assert(pair_set(pairs@) =~= Set::<(Seq<char>, Seq<char>)>::empty());
        assert(outcomes@.take(0) =~= Seq::<LoadOutcome>::empty());
    }
    while i < sources.len()
        invariant
            i <= sources.len(),
            names == texts(sources@),
            outcomes.len() == sources.len(),
            sources.len() <= file_count,
            is_path_set(loaded@),
            path_set(loaded@) == sources_after(Set::empty(), names.take(i as int), outcomes@),
            distinct_keys(errors@),
            error_map(errors@) == errors_after(Map::empty(), names.take(i as int), outcomes@),
            distinct_pairs(pairs@),
            pair_set(pairs@) == pairs_after(Set::empty(), names.take(i as int), outcomes@),
            ignored == file_count - sources.len() + empty_count(outcomes@.take(i as int)),
            empty_count(outcomes@.take(i as int)) <= i,
        decreases sources.len() - i,
    {
        let a = &sources[i];
        let outcome = &outcomes[i];
        proof {
            assert(names.take(i + 1).drop_last() =~= names.take(i as int));
            assert(names.take(i + 1).last() == a@);
            assert(outcomes@.take(i + 1).drop_last() =~= outcomes@.take(i as int));
        }
        let contexts = outcome_context_list(outcome);
        update_context_dependents(&mut pairs, a.as_str(), &contexts);
        remove_path(&mut loaded, a.as_str());
        remove_error(&mut errors, a.as_str());
        match outcome {
            LoadOutcome::Loaded { .. } => {
                insert_path(&mut loaded, a.clone());
            },
            LoadOutcome::Failed { error, .. } => {
                add_error(&mut errors, a.clone(), error.clone());
            },
            _ => {
                ignored = ignored + 1;
            },
        }
        proof {
            assert(path_set(loaded@) =~= sources_after(Set::empty(), names.take(i + 1), outcomes@));
            assert(error_map(errors@) =~= errors_after(Map::empty(), names.take(i + 1), outcomes@));
        }
        i = i + 1;
    }
    proof {
        assert(names.take(i as int) =~= names);
        assert(outcomes@.take(i as int) =~= outcomes@);
    }
    DirectoryLoad { loaded_sources: loaded, load_errors: errors, context_dependents: pairs, ignored_files: ignored }
}

/// The counts that describe a loaded directory whose dataset holds `triples`
/// triples.
pub fn load_stats(load: &DirectoryLoad, triples: usize) -> (r: DatasetStats)
    ensures
        r.loaded_files == load.loaded_sources.len(),
        r.failed_files == load.load_errors.len(),
        r.ignored_files == load.ignored_files,
        r.triples == triples,
{
    DatasetStats {
        loaded_files: load.loaded_sources.len(),
        failed_files: load.load_errors.len(),
        ignored_files: load.ignored_files,
        triples,
    }
}

/// The JSON text that `serde_json::to_vec` gives for the value that
/// `serde_saphyr::from_slice_with_options` reads from YAML `source`, with
/// YAML 1.2 scalars (no legacy octal numbers, only `true` and `false` as
/// booleans); or the text of the error.
pub uninterp spec fn yaml_json(source: Seq<u8>) -> Result<Seq<u8>, Seq<char>>;

/// Reads YAML-LD with `serde_saphyr::from_slice_with_options` into a
/// `serde_json::Value` and writes that value out with `serde_json::to_vec`.
/// The contract names the result: YAML and JSON syntax are left to those
/// crates.
#[verifier::external_body]
fn yaml_to_json(source: &[u8]) -> (r: Result<Vec<u8>, String>)
    ensures
        match r {
            Ok(json) => yaml_json(source@) == Ok::<Seq<u8>, Seq<char>>(json@),
            Err(e) => yaml_json(source@) == Err::<Seq<u8>, Seq<char>>(e@),
        },
{
    let mut options = serde_saphyr::Options::default();
    options.legacy_octal_numbers = false;
    options.strict_booleans = true;
    match serde_saphyr::from_slice_with_options::<serde_json::Value>(source, options) {
        Err(error) => Err(error.to_string()),
        Ok(value) => serde_json::to_vec(&value).map_err(|error| error.to_string()),
    }
}

/// The JSON-LD document that a source of a JSON-based format holds: the file
/// itself for JSON-LD, the YAML read as JSON for YAML-LD, and the front
/// matter read as JSON for Markdown-LD, which holds none without front
/// matter; or why it cannot be read.
pub open spec fn json_ld_text(format: SourceFormat, source: Seq<u8>) -> Result<Option<Seq<u8>>, Seq<char>> {
    match format {
        SourceFormat::YamlLd => match yaml_json(source) {
            Ok(json) => Ok(Some(json)),
            Err(e) => Err(e),
        },
        SourceFormat::Markdown => if !valid_utf8(source) {
            Err(utf8_error_message(source))
        } else {
            match front_matter_span(source) {
                Err(_) => Err(unterminated_message()),
                Ok(None) => Ok(None),
                Ok(Some((start, end))) => match yaml_json(source.subrange(start, end)) {
                    Ok(json) => Ok(Some(json)),
                    Err(e) => Err(e),
                },
            }
        },
        _ => Ok(Some(source)),
    }
}

/// The JSON-LD document of a source of a JSON-based format.
pub fn json_ld_document(format: SourceFormat, source: &[u8]) -> (r: Result<Option<Vec<u8>>, String>)
    requires
        !(format is Rdf),
    ensures
        match r {
            Ok(Some(json)) => json_ld_text(format, source@) == Ok::<Option<Seq<u8>>, Seq<char>>(
                Some(json@),
            ),
            Ok(None) => json_ld_text(format, source@) == Ok::<Option<Seq<u8>>, Seq<char>>(None),
            Err(e) => json_ld_text(format, source@) == Err::<Option<Seq<u8>>, Seq<char>>(e@),
        },
{
    match format {
        SourceFormat::YamlLd => match yaml_to_json(source) {
            Ok(json) => Ok(Some(json)),
            Err(e) => Err(e),
        },
        SourceFormat::Markdown => match markdown_front_matter(source) {
            Err(e) => Err(e),
            Ok(None) => Ok(None),
            Ok(Some(front)) => match yaml_to_json(front) {
                Ok(json) => Ok(Some(json)),
                Err(e) => Err(e),
            },
        },
        _ => Ok(Some(bytes_of(source))),
    }
}

/// The JSON-LD text of a local context file: the file itself when it is
/// JSON-LD, its YAML read as JSON when it is YAML-LD.
pub fn context_document_text(syntax: ContextSyntax, content: &[u8]) -> (r: Result<Vec<u8>, String>)
    ensures
        match r {
            Ok(json) => if syntax == ContextSyntax::JsonLd {
                json@ == content@
            } else {
                yaml_json(content@) == Ok::<Seq<u8>, Seq<char>>(json@)
            },
            Err(e) => syntax == ContextSyntax::YamlLd && yaml_json(content@) == Err::<
                Seq<u8>,
                Seq<char>,
            >(e@),
        },
{
    match syntax {
        ContextSyntax::JsonLd => Ok(bytes_of(content)),
        ContextSyntax::YamlLd => yaml_to_json(content),
    }
}

/// How a source file is loaded: its format, its graph, and the base IRI of
/// its relative IRIs.
pub struct LoadPlan {
    pub format: SourceFormat,
    pub graph: String,
    pub base_iri: String,
}

/// The error for a file of no recognised format.
pub open spec fn unknown_format_message() -> Seq<char> {
    "unknown RDF format"@
}

/// Plans loading the file at the relative path `relative`: its format from
/// its extension, the graph named after its path, and the IRI of its
/// directory as base; or why it cannot be loaded.
pub fn plan_load(relative: &str) -> (r: Result<LoadPlan, String>)
    ensures
        match r {
            Ok(plan) => source_format_of(relative@) == Some(plan.format) && graph_name_of(
                relative@,
            ) == Ok::<Seq<char>, Seq<char>>(plan.graph@) && plan.base_iri@ == path_iri_of(
                parent_of(relative@),
                true,
            ),
            Err(e) => if source_format_of(relative@) is None {
                e@ == unknown_format_message()
            } else {
                graph_name_of(relative@) == Err::<Seq<char>, Seq<char>>(e@)
            },
        },
{
    let format = match source_format(relative) {
        Some(f) => f,
        None => return Err("unknown RDF format".to_owned()),
    };
    let graph = match graph_name(relative) {
        Ok(g) => g,
        Err(e) => return Err(e),
    };
    Ok(LoadPlan { format, graph, base_iri: directory_iri(relative) })
}

} // verus!
