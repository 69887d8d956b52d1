//! Properties that hold of the library as a whole: of source patterns, of the
//! graphs a source owns, of the bookkeeping a reload leaves, of which sources
//! a change affects, and of the catalog.

use vstd::prelude::*;

use crate::catalog::{
    below_graph, blanks_fit, catalog_error, catalog_quad, described_quads, entry_error, error_entry_of,
    error_quads, load_error_entry, nfo_file_data_object, rlog_message, source_entry, text_literal,
    type_quad,
};
use crate::iri::{encoded_byte, escaped_in_graph_path, hex_upper, iri_scheme, path_iri_of, percent_encoded};
use vstd::utf8::{
    encode_utf8, encode_utf8_decode_utf8, encode_utf8_valid_utf8, is_ascii_chars,
    is_ascii_chars_encode_utf8,
};
use crate::context::{escapes_root, local_context_relative_of, percent_decoded};
use crate::loading::{
    LoadOutcome, affected_by, dependents_matching, distinct_keys, empty_count, error_keys,
    error_map, errors_after, outcome_contexts, pairs_after, sources_after, updated_dependents,
};
use crate::paths::is_path_prefix;
use crate::pathset::{is_path_set, path_set};
use crate::patterns::{
    any_glob_matches, compiled_globs, descendants_suffix, glob_matches, glob_variants_spec,
    is_plain, selects, some_include, split_pattern_spec,
};
use crate::rdf::{GraphView, QuadView, TermView, lookup, scoped_name, scoped_quad, scoping_of};
use crate::server::{HttpMethod, RouteView, media_type_of, read_only_message, route_of};
use crate::serving::compiled;
use crate::text::{has_prefix, texts};
use crate::watch::{
    WatchAction, WatchInput, event_level_kind, lemma_path_before_irreflexive, ordered, path_before,
    pending_map, recorded_all, step_effect,
};
use crate::changes::{EntryKind, PathChange, event_change};
use crate::dataset::{
    catalog_graph_name, in_named, in_owned_graph, named_set, owned_by_reload, owned_by_source,
    scope_prefix, source_graphs, stored_quad, stored_quads,
};
use crate::iri::graph_name_of;
use crate::context::{ContextSyntax, context_syntax_of};
use crate::formats::{ascii_folded, equal_ignoring_ascii_case};
use crate::paths::{extension_of, last_index_of, lemma_last_index_of, parent_of};
use crate::context::components;
use crate::catalog::{container_quad, directories_of, folder_walk, source_quads};
use crate::text::joined;
use crate::markdown::{closing_line, dots, fence, front_matter_span, lemma_line_end, line_end, trimmed};

verus! {

proof fn lemma_compiled_contains(raw: Seq<Seq<char>>, i: int, glob: Seq<char>, excluded: bool, k: int)
    requires
        0 <= i < raw.len(),
        split_pattern_spec(raw[i]) == Ok::<(Seq<char>, bool), Seq<char>>((glob, excluded)),
        0 <= k < glob_variants_spec(glob).len(),
    ensures
        compiled_globs(raw, excluded).contains(glob_variants_spec(glob)[k]),
    decreases raw.len(),
{
    let rest = compiled_globs(raw.drop_first(), excluded);
    if i == 0 {
        assert(compiled_globs(raw, excluded) == glob_variants_spec(glob) + rest);
        assert(compiled_globs(raw, excluded)[k] == glob_variants_spec(glob)[k]);
    } else {
        assert(raw.drop_first()[i - 1] == raw[i]);
        lemma_compiled_contains(raw.drop_first(), i - 1, glob, excluded, k);
        let x = glob_variants_spec(glob)[k];
        let j = choose|j: int| 0 <= j < rest.len() && rest[j] == x;
        match split_pattern_spec(raw[0]) {
            Ok((g0, e0)) => if e0 == excluded {
                let all = glob_variants_spec(g0) + rest;
                assert(all[glob_variants_spec(g0).len() + j] == x);
            } else {
                assert(compiled_globs(raw, excluded)[j] == x);
            },
            Err(_) => {
                assert(compiled_globs(raw, excluded)[j] == x);
            },
        }
    }
}

/// An excluded path is never a source: when a pattern `!glob` is given and
/// `glob` matches a path, the compiled patterns do not select it, whatever
/// else is included.
pub proof fn law_exclusion_wins(raw: Seq<Seq<char>>, i: int, glob: Seq<char>, path: Seq<char>)
    requires
        0 <= i < raw.len(),
        split_pattern_spec(raw[i]) == Ok::<(Seq<char>, bool), Seq<char>>((glob, true)),
        glob_matches(glob, path),
    ensures
        !selects(compiled(raw), path),
{
    lemma_compiled_contains(raw, i, glob, true, 0);
    let excludes = compiled_globs(raw, true);
    let j = choose|j: int| 0 <= j < excludes.len() && excludes[j] == glob;
    assert(glob_matches(excludes[j], path));
    assert(any_glob_matches(excludes, path));
}

/// Without include patterns every path is a source candidate: the patterns
/// select exactly the paths that no exclusion matches.
pub proof fn law_no_includes_select_all_but_exclusions(raw: Seq<Seq<char>>, path: Seq<char>)
    requires
        !some_include(raw),
    ensures
        selects(compiled(raw), path) <==> !any_glob_matches(compiled_globs(raw, true), path),
{
}

/// A plain path pattern, one without glob characters, also stands for
/// everything below it: its compiled globs hold both the path and the path
/// followed by `/**`.
pub proof fn law_plain_patterns_cover_descendants(raw: Seq<Seq<char>>, i: int, glob: Seq<char>, excluded: bool)
    requires
        0 <= i < raw.len(),
        split_pattern_spec(raw[i]) == Ok::<(Seq<char>, bool), Seq<char>>((glob, excluded)),
        is_plain(glob),
    ensures
        compiled_globs(raw, excluded).contains(glob),
        compiled_globs(raw, excluded).contains(glob + descendants_suffix()),
{
    lemma_compiled_contains(raw, i, glob, excluded, 0);
    lemma_compiled_contains(raw, i, glob, excluded, 1);
}

proof fn lemma_scoping_entries(quads: Seq<QuadView>, source_graph: Seq<char>)
    ensures
        forall|i: int|
            0 <= i < scoping_of(quads, source_graph).len() ==> {
                let e = #[trigger] scoping_of(quads, source_graph)[i];
                !(e.0 is Default) && e.1 == scoped_name(source_graph, e.0)
            },
    decreases quads.len(),
{
    if quads.len() > 0 {
        lemma_scoping_entries(quads.drop_last(), source_graph);
    }
}

proof fn lemma_lookup_entry(mapping: Seq<(GraphView, Seq<char>)>, g: GraphView)
    requires
        lookup(mapping, g) is Some,
    ensures
        exists|i: int|
            0 <= i < mapping.len() && #[trigger] mapping[i] == (g, lookup(mapping, g)->Some_0),
    decreases mapping.len(),
{
    if mapping[0].0 != g {
        lemma_lookup_entry(mapping.drop_first(), g);
        let i = choose|i: int|
            0 <= i < mapping.drop_first().len() && #[trigger] mapping.drop_first()[i] == (
                g,
                lookup(mapping, g)->Some_0,
            );
        assert(mapping[i + 1] == mapping.drop_first()[i]);
    } else {
        assert(mapping[0] == (g, lookup(mapping, g)->Some_0));
    }
}

/// Everything a source holds stays with it: after scoping, each quad lies in
/// the source's own graph or in a graph whose name is the source's graph
/// name followed by `#`.
pub proof fn law_scoped_quads_stay_below_their_source(
    quads: Seq<QuadView>,
    source_graph: Seq<char>,
    quad: QuadView,
)
    ensures
        scoped_quad(scoping_of(quads, source_graph), source_graph, quad).graph matches GraphView::Named(
            name,
        ) && (name == source_graph || has_prefix(name, source_graph.push('#'))),
{
    let mapping = scoping_of(quads, source_graph);
    lemma_scoping_entries(quads, source_graph);
    match quad.graph {
        GraphView::Default => {},
        g => {
            if lookup(mapping, g) is Some {
                lemma_lookup_entry(mapping, g);
                let i = choose|i: int|
                    0 <= i < mapping.len() && #[trigger] mapping[i] == (g, lookup(mapping, g)->Some_0);
                let name = lookup(mapping, g)->Some_0;
                assert(name == scoped_name(source_graph, g));
                assert(name.take(source_graph.len() + 1 as int) =~= source_graph.push('#'));
            }
        },
    }
}

/// An embedded graph named `n` in the source whose graph is `g` is renamed
/// `g#n`, and an embedded graph with blank node label `b` is renamed `g#_:b`.
pub proof fn law_embedded_graph_names(quads: Seq<QuadView>, source_graph: Seq<char>, graph: GraphView)
    requires
        lookup(scoping_of(quads, source_graph), graph) is Some,
    ensures
        lookup(scoping_of(quads, source_graph), graph) == Some(
            match graph {
                GraphView::Named(n) => source_graph + seq!['#'] + n,
                GraphView::Blank(b) => source_graph + seq!['#', '_', ':'] + b,
                GraphView::Default => source_graph,
            },
        ),
{
    let mapping = scoping_of(quads, source_graph);
    lemma_scoping_entries(quads, source_graph);
    lemma_lookup_entry(mapping, graph);
    let i = choose|i: int|
        0 <= i < mapping.len() && #[trigger] mapping[i] == (graph, lookup(mapping, graph)->Some_0);
}

/// Loaded and failed sources stay apart: if no source was both loaded and
/// failed before a reload, none is after it.
pub proof fn law_loaded_and_failed_stay_apart(
    loaded: Set<Seq<char>>,
    errors: Map<Seq<char>, Seq<char>>,
    affected: Seq<Seq<char>>,
    outcomes: Seq<LoadOutcome>,
    source: Seq<char>,
)
    requires
        affected.len() <= outcomes.len(),
        forall|s: Seq<char>| loaded.contains(s) ==> !errors.contains_key(s),
    ensures
        sources_after(loaded, affected, outcomes).contains(source) ==> !errors_after(
            errors,
            affected,
            outcomes,
        ).contains_key(source),
    decreases affected.len(),
{
    if affected.len() > 0 {
        law_loaded_and_failed_stay_apart(
            loaded,
            errors,
            affected.drop_last(),
            outcomes,
            source,
        );
    }
}

/// A reload leaves alone every source it does not affect: it stays loaded,
/// or failed with the same error, exactly as before.
pub proof fn law_reload_leaves_unaffected_sources(
    loaded: Set<Seq<char>>,
    errors: Map<Seq<char>, Seq<char>>,
    pairs: Set<(Seq<char>, Seq<char>)>,
    affected: Seq<Seq<char>>,
    outcomes: Seq<LoadOutcome>,
    source: Seq<char>,
    context: Seq<char>,
)
    requires
        affected.len() <= outcomes.len(),
        !affected.contains(source),
    ensures
        sources_after(loaded, affected, outcomes).contains(source) == loaded.contains(source),
        errors_after(errors, affected, outcomes).contains_key(source) == errors.contains_key(source),
        errors.contains_key(source) ==> errors_after(errors, affected, outcomes)[source]
            == errors[source],
        pairs_after(pairs, affected, outcomes).contains((context, source)) == pairs.contains(
            (context, source),
        ),
    decreases affected.len(),
{
    if affected.len() > 0 {
        assert(!affected.drop_last().contains(source)) by {
            if affected.drop_last().contains(source) {
                let k = choose|k: int|
                    0 <= k < affected.drop_last().len() && affected.drop_last()[k] == source;
                assert(affected[k] == source);
            }
        }
        assert(affected.last() != source) by {
            assert(affected[affected.len() - 1] == affected.last());
        }
        law_reload_leaves_unaffected_sources(
            loaded,
            errors,
            pairs,
            affected.drop_last(),
            outcomes,
            source,
            context,
        );
    }
}

/// A reload settles each affected source by what loading it gave now: it is
/// loaded exactly when it loaded, failed with the new error exactly when it
/// failed, and depends on exactly the contexts it read.
pub proof fn law_reload_settles_affected_sources(
    loaded: Set<Seq<char>>,
    errors: Map<Seq<char>, Seq<char>>,
    pairs: Set<(Seq<char>, Seq<char>)>,
    affected: Seq<Seq<char>>,
    outcomes: Seq<LoadOutcome>,
    k: int,
    context: Seq<char>,
)
    requires
        affected.len() <= outcomes.len(),
        affected.no_duplicates(),
        0 <= k < affected.len(),
    ensures
        sources_after(loaded, affected, outcomes).contains(affected[k]) == (outcomes[k] is Loaded),
        errors_after(errors, affected, outcomes).contains_key(affected[k]) == (outcomes[k] is Failed),
        outcomes[k] matches LoadOutcome::Failed { error, .. } ==> errors_after(
            errors,
            affected,
            outcomes,
        )[affected[k]] == error@,
        pairs_after(pairs, affected, outcomes).contains((context, affected[k])) == outcome_contexts(
            outcomes[k],
        ).contains(context),
    decreases affected.len(),
{
    let n = affected.len() - 1;
    if k < n {
        let shorter = affected.drop_last();
        assert(shorter[k] == affected[k]);
        assert(shorter.no_duplicates()) by {
            assert forall|a: int, b: int| 0 <= a < b < shorter.len() implies shorter[a] != shorter[b] by {
                assert(affected[a] != affected[b]);
            }
        }
        law_reload_settles_affected_sources(loaded, errors, pairs, shorter, outcomes, k, context);
        assert(affected.last() != affected[k]) by {
            assert(affected[n] != affected[k]);
        }
    }
}

/// A reload keeps the dependencies of sources it leaves alone and gives each
/// reloaded source exactly the contexts it read: after `source` is loaded
/// with `dependencies`, it depends on a context exactly when it is among
/// them, and every other source depends on what it did before.
pub proof fn law_dependencies_follow_the_last_load(
    pairs: Set<(Seq<char>, Seq<char>)>,
    source: Seq<char>,
    dependencies: Set<Seq<char>>,
    context: Seq<char>,
    other: Seq<char>,
)
    requires
        other != source,
    ensures
        updated_dependents(pairs, source, dependencies).contains((context, source))
            == dependencies.contains(context),
        updated_dependents(pairs, source, dependencies).contains((context, other)) == pairs.contains(
            (context, other),
        ),
{
}

/// A change to a context affects every source that depends on it.
pub proof fn law_context_changes_reach_dependents(
    changed: Seq<char>,
    is_directory: bool,
    known: Set<Seq<char>>,
    pairs: Set<(Seq<char>, Seq<char>)>,
    source: Seq<char>,
)
    requires
        pairs.contains((changed, source)),
    ensures
        affected_by(changed, is_directory, known, pairs).contains(source),
{
    assert(dependents_matching(pairs, changed, false).contains(source));
}

/// A change to a source affects that source.
pub proof fn law_changed_sources_are_affected(
    changed: Seq<char>,
    is_directory: bool,
    known: Set<Seq<char>>,
    pairs: Set<(Seq<char>, Seq<char>)>,
)
    requires
        known.contains(changed),
    ensures
        affected_by(changed, is_directory, known, pairs).contains(changed),
{
}

/// A change to a directory, which is no source itself, affects every known
/// source below it.
pub proof fn law_directory_changes_reach_sources_below(
    changed: Seq<char>,
    known: Set<Seq<char>>,
    pairs: Set<(Seq<char>, Seq<char>)>,
    source: Seq<char>,
)
    requires
        !known.contains(changed),
        known.contains(source),
        is_path_prefix(changed, source),
    ensures
        affected_by(changed, true, known, pairs).contains(source),
{
    assert(crate::loading::paths_under(known, changed).contains(source));
}

proof fn lemma_described_prefix(
    described: Seq<(Seq<char>, Seq<Seq<char>>)>,
    blanks: Seq<Seq<Seq<char>>>,
    n: int,
    q: QuadView,
)
    requires
        0 <= n <= described.len(),
        described_quads(described.take(n), blanks).contains(q),
    ensures
        described_quads(described, blanks).contains(q),
    decreases described.len(),
{
    if described.len() > n {
        assert(described.drop_last().take(n) =~= described.take(n));
        lemma_described_prefix(described.drop_last(), blanks, n, q);
        let before = described_quads(described.drop_last(), blanks);
        let j = choose|j: int| 0 <= j < before.len() && before[j] == q;
        assert(described_quads(described, blanks)[j] == q);
    } else {
        assert(described.take(n) =~= described);
    }
}

proof fn lemma_no_catalog_error_entry(
    described: Seq<(Seq<char>, Seq<Seq<char>>)>,
    errors: Seq<(Seq<char>, Seq<char>)>,
    k: int,
)
    requires
        catalog_error(described, errors) is None,
        0 <= k < described.len(),
    ensures
        entry_error(described[k].0) is None,
    decreases described.len() + errors.len(),
{
    if errors.len() > 0 {
        lemma_no_catalog_error_entry(described, errors.drop_last(), k);
    } else if k < described.len() - 1 {
        lemma_no_catalog_error_entry(described.drop_last(), errors, k);
    }
}

/// The catalog describes every source it is built for: when it builds, it
/// says of each source's graph that it is a file.
pub proof fn law_catalog_describes_every_source(
    described: Seq<(Seq<char>, Seq<Seq<char>>)>,
    errors: Seq<(Seq<char>, Seq<char>)>,
    blanks: Seq<Seq<Seq<char>>>,
    k: int,
)
    requires
        blanks_fit(described, blanks),
        catalog_error(described, errors) is None,
        0 <= k < described.len(),
    ensures
        described_quads(described, blanks).contains(
            type_quad(path_iri_of(described[k].0, false), nfo_file_data_object()),
        ),
{
    lemma_no_catalog_error_entry(described, errors, k);
    let upto = described.take(k + 1);
    assert(upto.drop_last() =~= described.take(k));
    assert(upto[k] == described[k]);
    let entry = source_entry(described[k].0, described[k].1, blanks[k]);
    let q = type_quad(path_iri_of(described[k].0, false), nfo_file_data_object());
    assert(entry is Ok);
    let quads = entry->Ok_0;
    let whole = described_quads(upto, blanks);
    assert(whole == described_quads(upto.drop_last(), blanks) + quads);
    let offset = described_quads(upto.drop_last(), blanks).len();
    match crate::catalog::directories_of(crate::paths::parent_of(described[k].0)) {
        Ok((container, folders)) => {
            assert(quads[folders.len() as int] == q);
            assert(whole[offset + folders.len() as int] == q);
        },
        Err(_) => {},
    }
    lemma_described_prefix(described, blanks, k + 1, q);
}

/// The catalog records every load error it is built for: when it builds,
/// the entry for each failed source carries the error's text.
pub proof fn law_catalog_records_every_load_error(
    described: Seq<(Seq<char>, Seq<Seq<char>>)>,
    errors: Seq<(Seq<char>, Seq<char>)>,
    k: int,
)
    requires
        catalog_error(described, errors) is None,
        0 <= k < errors.len(),
    ensures
        error_quads(errors).contains(
            catalog_quad(
                TermView::Named(error_entry_of(path_iri_of(errors[k].0, false))),
                rlog_message(),
                text_literal(errors[k].1),
            ),
        ),
    decreases errors.len(),
{
    let q = catalog_quad(
        TermView::Named(error_entry_of(path_iri_of(errors[k].0, false))),
        rlog_message(),
        text_literal(errors[k].1),
    );
    let before = error_quads(errors.drop_last());
    if k < errors.len() - 1 {
        assert(errors.drop_last()[k] == errors[k]);
        law_catalog_records_every_load_error(described, errors.drop_last(), k);
        let j = choose|j: int| 0 <= j < before.len() && before[j] == q;
        assert(error_quads(errors)[j] == q);
    } else {
        let entry = load_error_entry(errors.last().0, errors.last().1);
        assert(entry is Ok);
        assert(entry->Ok_0[3] == q);
        assert(error_quads(errors)[before.len() as int + 3] == q);
    }
}

proof fn lemma_counts(sources: Seq<Seq<char>>, outcomes: Seq<LoadOutcome>)
    requires
        sources.no_duplicates(),
        sources.len() <= outcomes.len(),
    ensures
        sources_after(Set::empty(), sources, outcomes).finite(),
        errors_after(Map::empty(), sources, outcomes).dom().finite(),
        sources_after(Set::empty(), sources, outcomes).len() + errors_after(
            Map::empty(),
            sources,
            outcomes,
        ).dom().len() + empty_count(outcomes.take(sources.len() as int)) == sources.len(),
        forall|x: Seq<char>|
            #[trigger] sources_after(Set::empty(), sources, outcomes).contains(x) ==> sources.contains(x),
        forall|x: Seq<char>|
            #[trigger] errors_after(Map::empty(), sources, outcomes).contains_key(x) ==> sources.contains(x),
    decreases sources.len(),
{
    broadcast use vstd::set::group_set_axioms;
    broadcast use vstd::map::group_map_axioms;

    if sources.len() == 0 {
        assert(outcomes.take(0) =~= Seq::<LoadOutcome>::empty());
        assert(Map::<Seq<char>, Seq<char>>::empty().dom() =~= Set::<Seq<char>>::empty());
    } else {
        let n = sources.len() - 1;
        let shorter = sources.drop_last();
        assert(shorter.no_duplicates()) by {
            assert forall|a: int, b: int| 0 <= a < b < shorter.len() implies shorter[a] != shorter[b] by {
                assert(sources[a] != sources[b]);
            }
        }
        lemma_counts(shorter, outcomes);
        let a = sources[n];
        assert(!shorter.contains(a)) by {
            if shorter.contains(a) {
                let j = choose|j: int| 0 <= j < shorter.len() && shorter[j] == a;
                assert(sources[j] == a);
            }
        }
        let loaded = sources_after(Set::empty(), shorter, outcomes);
        let errors = errors_after(Map::empty(), shorter, outcomes);
        assert(!loaded.contains(a));
        assert(!errors.contains_key(a));
        assert(outcomes.take(n + 1).drop_last() =~= outcomes.take(n));
        assert(outcomes.take(n + 1).last() == outcomes[n]);
        assert(errors.remove(a).dom() =~= errors.dom());
        assert(loaded.remove(a) =~= loaded);
        assert forall|x: Seq<char>| #[trigger] sources_after(Set::empty(), sources, outcomes).contains(x) implies sources.contains(x) by {
            if x != a {
                assert(loaded.contains(x));
                let j = choose|j: int| 0 <= j < shorter.len() && shorter[j] == x;
                assert(sources[j] == x);
            } else {
                assert(sources[n] == x);
            }
        }
        assert forall|x: Seq<char>| #[trigger] errors_after(Map::empty(), sources, outcomes).contains_key(x) implies sources.contains(x) by {
            if x != a {
                assert(errors.contains_key(x));
                let j = choose|j: int| 0 <= j < shorter.len() && shorter[j] == x;
                assert(sources[j] == x);
            } else {
                assert(sources[n] == x);
            }
        }
        match outcomes[n] {
            LoadOutcome::Failed { error, .. } => {
                assert(errors.remove(a).insert(a, error@).dom() =~= errors.dom().insert(a));
            },
            _ => {},
        }
    }
}

/// The first load counts every file once: the sources loaded, the sources
/// failed and the files ignored add up to the files found.
pub proof fn law_initial_load_counts_every_file(
    file_count: nat,
    sources: Seq<Seq<char>>,
    outcomes: Seq<LoadOutcome>,
    loaded: Seq<String>,
    errors: Seq<(String, String)>,
    ignored: nat,
)
    requires
        sources.no_duplicates(),
        outcomes.len() == sources.len(),
        sources.len() <= file_count,
        is_path_set(loaded),
        path_set(loaded) == sources_after(Set::empty(), sources, outcomes),
        distinct_keys(errors),
        error_map(errors) == errors_after(Map::empty(), sources, outcomes),
        ignored == file_count - sources.len() + empty_count(outcomes),
    ensures
        loaded.len() + errors.len() + ignored == file_count,
{
    lemma_counts(sources, outcomes);
    assert(outcomes.take(sources.len() as int) =~= outcomes);
    assert(texts(loaded).no_duplicates()) by {
        assert forall|a: int, b: int| 0 <= a < b < texts(loaded).len() implies texts(loaded)[a]
            != texts(loaded)[b] by {
            assert(path_before(texts(loaded)[a], texts(loaded)[b]));
            if texts(loaded)[a] == texts(loaded)[b] {
                lemma_path_before_irreflexive(texts(loaded)[a]);
            }
        }
    }
    texts(loaded).unique_seq_to_set();
    error_keys(errors).unique_seq_to_set();
    assert(error_map(errors).dom() =~= error_keys(errors).to_set());
}

/// Whatever graph a source's quads were scoped into is found again when its
/// graphs are looked up: every named graph of the dataset whose name starts
/// with the source's graph name and `#` is among those found for it.
pub proof fn law_scoped_graphs_are_found_again(graphs: Seq<Seq<char>>, prefix: Seq<char>, name: Seq<char>)
    requires
        graphs.contains(name),
        has_prefix(name, prefix),
    ensures
        below_graph(graphs, prefix).contains(name),
    decreases graphs.len(),
{
    if graphs.last() == name {
        assert(below_graph(graphs, prefix) == below_graph(graphs.drop_last(), prefix).push(name));
        assert(below_graph(graphs, prefix)[below_graph(graphs.drop_last(), prefix).len() as int]
            == name);
    } else {
        let j = choose|j: int| 0 <= j < graphs.len() && graphs[j] == name;
        assert(graphs.drop_last()[j] == name);
        law_scoped_graphs_are_found_again(graphs.drop_last(), prefix, name);
        let before = below_graph(graphs.drop_last(), prefix);
        let k = choose|k: int| 0 <= k < before.len() && before[k] == name;
        assert(below_graph(graphs, prefix)[k] == name);
    }
}

/// The value of an upper-case hexadecimal digit.
pub open spec fn hex_digit_value(c: char) -> Option<u8> {
    if '0' <= c && c <= '9' {
        Some(((c as u32) - 48) as u8)
    } else if 'A' <= c && c <= 'F' {
        Some(((c as u32) - 55) as u8)
    } else {
        None
    }
}

/// Text with each `%` followed by two upper-case hexadecimal digits read
/// back as the byte they spell, and each other character as its code.
pub open spec fn unescaped(s: Seq<char>) -> Seq<u8>
    decreases s.len(),
{
    if s.len() == 0 {
        seq![]
    } else if s[0] == '%' && s.len() >= 3 && hex_digit_value(s[1]) is Some && hex_digit_value(
        s[2],
    ) is Some {
        seq![(hex_digit_value(s[1])->0 * 16 + hex_digit_value(s[2])->0) as u8] + unescaped(
            s.skip(3),
        )
    } else {
        seq![(s[0] as u32) as u8] + unescaped(s.drop_first())
    }
}

proof fn lemma_hex_digit(n: u8)
    requires
        n < 16,
    ensures
        hex_digit_value(hex_upper(n)) == Some(n),
{
    if n < 10 {
        assert(((n + 48) as u8) as char as u32 == n + 48);
    } else {
        assert(((n + 55) as u8) as char as u32 == n + 55);
    }
}

proof fn lemma_unescape_byte(b: u8, t: Seq<char>)
    ensures
        unescaped(encoded_byte(b) + t) == seq![b] + unescaped(t),
{
    let s = encoded_byte(b) + t;
    if b >= 0x80 || escaped_in_graph_path(b) {
        lemma_hex_digit(b / 16);
        lemma_hex_digit(b % 16);
        assert(s[0] == '%' && s[1] == hex_upper(b / 16) && s[2] == hex_upper(b % 16));
        assert(s.skip(3) =~= t);
        assert((b / 16) * 16 + b % 16 == b);
    } else {
        assert(s[0] == b as char);
        assert((b as char) as u32 == b);
        assert(s.drop_first() =~= t);
        assert(b as char != '%');
    }
}

proof fn lemma_unescape_encoded(bytes: Seq<u8>, t: Seq<char>)
    ensures
        unescaped(percent_encoded(bytes) + t) == bytes + unescaped(t),
    decreases bytes.len(),
{
    if bytes.len() == 0 {
        assert(percent_encoded(bytes) + t =~= t);
        assert(bytes + unescaped(t) =~= unescaped(t));
    } else {
        let front = bytes.drop_last();
        let last = bytes.last();
        assert(percent_encoded(bytes) + t =~= percent_encoded(front) + (encoded_byte(last) + t));
        lemma_unescape_encoded(front, encoded_byte(last) + t);
        lemma_unescape_byte(last, t);
        assert(bytes =~= front.push(last));
        assert(front + (seq![last] + unescaped(t)) =~= bytes + unescaped(t));
    }
}

/// Distinct paths name distinct graphs: the graph IRI of a source, `sparqld:`
/// and its percent-encoded path, tells the path apart from every other, so a
/// renamed or moved source gets a new graph.
pub proof fn law_distinct_paths_have_distinct_graphs(path: Seq<char>, other: Seq<char>)
    requires
        path != other,
    ensures
        path_iri_of(path, false) != path_iri_of(other, false),
{
    let a = percent_encoded(encode_utf8(path));
    let b = percent_encoded(encode_utf8(other));
    if path_iri_of(path, false) == path_iri_of(other, false) {
        let scheme = iri_scheme();
        assert((scheme + a).skip(scheme.len() as int) =~= a);
        assert((scheme + b).skip(scheme.len() as int) =~= b);
        assert(a == b);
        lemma_unescape_encoded(encode_utf8(path), seq![]);
        lemma_unescape_encoded(encode_utf8(other), seq![]);
        assert(a + Seq::<char>::empty() =~= a);
        assert(b + Seq::<char>::empty() =~= b);
        assert(encode_utf8(path) + Seq::<u8>::empty() =~= encode_utf8(path));
        assert(encode_utf8(other) + Seq::<u8>::empty() =~= encode_utf8(other));
        encode_utf8_decode_utf8(path);
        encode_utf8_decode_utf8(other);
    }
}

/// The bytes of text all of whose characters are ASCII.
pub open spec fn ascii_bytes(s: Seq<char>) -> Seq<u8> {
    s.map_values(|c: char| (c as u32) as u8)
}

proof fn lemma_encoded_is_ascii(bytes: Seq<u8>)
    ensures
        is_ascii_chars(percent_encoded(bytes)),
    decreases bytes.len(),
{
    if bytes.len() > 0 {
        lemma_encoded_is_ascii(bytes.drop_last());
        let b = bytes.last();
        let e = encoded_byte(b);
        let all = percent_encoded(bytes);
        let front = percent_encoded(bytes.drop_last());
        assert forall|i: int| 0 <= i < e.len() implies '\0' <= #[trigger] e[i] <= '\u{7f}' by {
            if b >= 0x80 || escaped_in_graph_path(b) {
                let n1 = b / 16;
                let n2 = b % 16;
                assert(n1 < 16 && n2 < 16);
                if n1 < 10 {
                    assert(((n1 + 48) as u8) as char as u32 == n1 + 48);
                } else {
                    assert(((n1 + 55) as u8) as char as u32 == n1 + 55);
                }
                if n2 < 10 {
                    assert(((n2 + 48) as u8) as char as u32 == n2 + 48);
                } else {
                    assert(((n2 + 55) as u8) as char as u32 == n2 + 55);
                }
            } else {
                assert((b as char) as u32 == b);
            }
        }
        assert forall|i: int| 0 <= i < all.len() implies '\0' <= #[trigger] all[i] <= '\u{7f}' by {
            if i < front.len() {
                assert(all[i] == front[i]);
            } else {
                assert(all[i] == e[i - front.len()]);
            }
        }
    }
}

proof fn lemma_decode_byte(b: u8, t: Seq<u8>)
    ensures
        percent_decoded(ascii_bytes(encoded_byte(b)) + t) == seq![b] + percent_decoded(t),
{
    let s = ascii_bytes(encoded_byte(b)) + t;
    if b >= 0x80 || escaped_in_graph_path(b) {
        let n1 = b / 16;
        let n2 = b % 16;
        if n1 < 10 {
            assert(((n1 + 48) as u8) as char as u32 == n1 + 48);
        } else {
            assert(((n1 + 55) as u8) as char as u32 == n1 + 55);
        }
        if n2 < 10 {
            assert(((n2 + 48) as u8) as char as u32 == n2 + 48);
        } else {
            assert(((n2 + 55) as u8) as char as u32 == n2 + 55);
        }
        assert(s[0] == 37);
        assert(s[1] == (hex_upper(n1) as u32) as u8);
        assert(s[2] == (hex_upper(n2) as u32) as u8);
        assert(s.skip(3) =~= t);
        assert(n1 * 16 + n2 == b);
    } else {
        assert((b as char) as u32 == b);
        assert(s[0] == b);
        assert(s.drop_first() =~= t);
    }
}

proof fn lemma_decode_encoded(bytes: Seq<u8>, t: Seq<u8>)
    ensures
        percent_decoded(ascii_bytes(percent_encoded(bytes)) + t) == bytes + percent_decoded(t),
    decreases bytes.len(),
{
    if bytes.len() == 0 {
        assert(ascii_bytes(percent_encoded(bytes)) + t =~= t);
        assert(bytes + percent_decoded(t) =~= percent_decoded(t));
    } else {
        let front = bytes.drop_last();
        let last = bytes.last();
        assert(ascii_bytes(percent_encoded(bytes)) + t =~= ascii_bytes(percent_encoded(front)) + (
        ascii_bytes(encoded_byte(last)) + t));
        lemma_decode_encoded(front, ascii_bytes(encoded_byte(last)) + t);
        lemma_decode_byte(last, t);
        assert(bytes =~= front.push(last));
        assert(front + (seq![last] + percent_decoded(t)) =~= bytes + percent_decoded(t));
    }
}

/// A context URL made from a path's graph IRI names that path: resolved
/// against a source's graph IRI, a relative context reference yields a
/// `sparqld:` URL that decodes back to the path, for every path that stays
/// inside the served directory.
pub proof fn law_context_urls_name_files_by_their_iri(path: Seq<char>)
    requires
        !escapes_root(path),
    ensures
        local_context_relative_of(path_iri_of(path, false)) == Ok::<Seq<char>, Seq<char>>(path),
{
    let enc = percent_encoded(encode_utf8(path));
    let url = path_iri_of(path, false);
    assert(url == "sparqld:"@ + enc);
    reveal_strlit("sparqld:");
    assert(url.take(8) =~= "sparqld:"@);
    assert(url.skip(8) =~= enc);
    lemma_encoded_is_ascii(encode_utf8(path));
    is_ascii_chars_encode_utf8(enc);
    assert(encode_utf8(enc) =~= ascii_bytes(enc));
    lemma_decode_encoded(encode_utf8(path), seq![]);
    assert(ascii_bytes(enc) + Seq::<u8>::empty() =~= ascii_bytes(enc));
    assert(encode_utf8(path) + Seq::<u8>::empty() =~= encode_utf8(path));
    encode_utf8_valid_utf8(path);
    encode_utf8_decode_utf8(path);
}

/// The endpoint is read-only: SPARQL Update requests and every method but
/// `GET` and `POST` are refused with `405` at the endpoint, and only the
/// endpoint `/` is served.
pub proof fn law_the_endpoint_is_read_only(
    method: HttpMethod,
    path: Seq<char>,
    query: Option<Seq<char>>,
    content_type: Option<Seq<char>>,
)
    ensures
        path != "/"@ ==> route_of(method, path, query, content_type) == Err::<
            RouteView,
            (u16, Seq<char>),
        >((404, "Not found"@)),
        path == "/"@ && method == HttpMethod::Other ==> route_of(method, path, query, content_type)
            == Err::<RouteView, (u16, Seq<char>)>((405, read_only_message())),
        (path == "/"@ && method == HttpMethod::Post && (content_type matches Some(value)
            && media_type_of(value) == "application/sparql-update"@)) ==> route_of(
            method,
            path,
            query,
            content_type,
        ) == Err::<RouteView, (u16, Seq<char>)>((405, read_only_message())),
{
    reveal_strlit("application/sparql-update");
    reveal_strlit("application/sparql-query");
    reveal_strlit("application/x-www-form-urlencoded");
    assert("application/sparql-update"@ != "application/sparql-query"@) by {
        assert("application/sparql-update"@[19] != "application/sparql-query"@[19]);
    }
    assert("application/sparql-update"@ != "application/x-www-form-urlencoded"@) by {
        assert("application/sparql-update"@.len() != "application/x-www-form-urlencoded"@.len());
    }
}

/// Every refusal of a request carries one of the statuses the HTTP API
/// documents for requests: `400`, `404`, `405` or `415`.
pub proof fn law_refusals_use_documented_statuses(
    method: HttpMethod,
    path: Seq<char>,
    query: Option<Seq<char>>,
    content_type: Option<Seq<char>>,
)
    ensures
        route_of(method, path, query, content_type) matches Err((status, _)) ==> (status == 400
            || status == 404 || status == 405 || status == 415),
{
}

/// The changes a run of watcher inputs leaves pending, starting from
/// `changes`: each event that reports a file change records its paths, in
/// order; every other input leaves them.
pub open spec fn batched(changes: Map<Seq<char>, PathChange>, inputs: Seq<WatchInput>) -> Map<
    Seq<char>,
    PathChange,
>
    decreases inputs.len(),
{
    if inputs.len() == 0 {
        changes
    } else {
        let before = batched(changes, inputs.drop_last());
        match inputs.last() {
            WatchInput::Event { kind, paths } => match event_change(kind) {
                Some(change) => recorded_all(
                    before,
                    kind,
                    change,
                    paths@,
                    event_level_kind(kind, paths@.map_values(|e: (String, Option<EntryKind>)| e.1)),
                ),
                None => before,
            },
            _ => before,
        }
    }
}

/// Whether an input is an event that reports a file change.
pub open spec fn reports_file_change(input: WatchInput) -> bool {
    match input {
        WatchInput::Event { kind, .. } => event_change(kind) is Some,
        _ => false,
    }
}

/// Whether some input of a run is an event that reports a file change.
pub open spec fn reports_change(inputs: Seq<WatchInput>) -> bool {
    exists|i: int| 0 <= i < inputs.len() && reports_file_change(#[trigger] inputs[i])
}

proof fn lemma_batch_prefix(
    inputs: Seq<WatchInput>,
    changes: Seq<Map<Seq<char>, PathChange>>,
    armed: Seq<bool>,
    actions: Seq<WatchAction>,
    k: int,
)
    requires
        0 <= k <= inputs.len(),
        changes.len() == inputs.len() + 2,
        armed.len() == inputs.len() + 2,
        actions.len() == inputs.len() + 1,
        changes[0] == Map::<Seq<char>, PathChange>::empty(),
        !armed[0],
        forall|i: int| 0 <= i < inputs.len() ==> !(#[trigger] inputs[i] is Timeout) && !(inputs[i] is Stop),
        forall|i: int|
            0 <= i < inputs.len() ==> step_effect(
                changes[i],
                armed[i],
                #[trigger] inputs[i],
                actions[i],
                changes[i + 1],
                armed[i + 1],
            ),
    ensures
        changes[k] == batched(Map::<Seq<char>, PathChange>::empty(), inputs.take(k)),
        armed[k] == reports_change(inputs.take(k)),
        !armed[k] ==> changes[k] == Map::<Seq<char>, PathChange>::empty(),
        forall|i: int| 0 <= i < k ==> !(#[trigger] actions[i] is Reload),
    decreases k,
{
    if k == 0 {
        assert(inputs.take(0) =~= Seq::<WatchInput>::empty());
    } else {
        let j = k - 1;
        lemma_batch_prefix(inputs, changes, armed, actions, j);
        let t = inputs.take(k);
        assert(t.drop_last() =~= inputs.take(j));
        assert(t.last() == inputs[j]);
        assert(step_effect(changes[j], armed[j], inputs[j], actions[j], changes[j + 1], armed[j + 1]));
        assert(reports_change(t) == (reports_change(inputs.take(j)) || reports_file_change(inputs[j])))
            by {
            if reports_change(t) {
                let i = choose|i: int| 0 <= i < t.len() && reports_file_change(#[trigger] t[i]);
                if i < j {
                    assert(inputs.take(j)[i] == t[i]);
                }
            }
            if reports_change(inputs.take(j)) {
                let i = choose|i: int| 0 <= i < j && reports_file_change(#[trigger] inputs.take(j)[i]);
                assert(t[i] == inputs.take(j)[i]);
            }
            if reports_file_change(inputs[j]) {
                assert(t[j] == inputs[j]);
            }
        }
    }
}

/// The watcher batches changes: from a watcher with nothing pending and no
/// deadline, a run of events and errors (`inputs`, with no deadline and no
/// stop among them) followed by the deadline reloads exactly once, at the
/// deadline, with each path's change being its changes merged in arrival
/// order; events that report no file change neither join the batch nor set
/// the deadline anew, and a run without any change just waits. Afterwards
/// nothing is pending and no deadline is set. `changes`, `armed` and
/// `actions` are what each step of the run gives.
pub proof fn law_watcher_batches_changes(
    inputs: Seq<WatchInput>,
    changes: Seq<Map<Seq<char>, PathChange>>,
    armed: Seq<bool>,
    actions: Seq<WatchAction>,
)
    requires
        changes.len() == inputs.len() + 2,
        armed.len() == inputs.len() + 2,
        actions.len() == inputs.len() + 1,
        changes[0] == Map::<Seq<char>, PathChange>::empty(),
        !armed[0],
        forall|i: int| 0 <= i < inputs.len() ==> !(#[trigger] inputs[i] is Timeout) && !(inputs[i] is Stop),
        forall|i: int|
            0 <= i < inputs.len() ==> step_effect(
                changes[i],
                armed[i],
                #[trigger] inputs[i],
                actions[i],
                changes[i + 1],
                armed[i + 1],
            ),
        step_effect(
            changes[inputs.len() as int],
            armed[inputs.len() as int],
            WatchInput::Timeout,
            actions[inputs.len() as int],
            changes[inputs.len() + 1int],
            armed[inputs.len() + 1int],
        ),
    ensures
        forall|i: int| 0 <= i < inputs.len() ==> !(#[trigger] actions[i] is Reload),
        reports_change(inputs) ==> (actions[inputs.len() as int] matches WatchAction::Reload(entries)
            && ordered(entries@) && pending_map(entries@) == batched(
            Map::<Seq<char>, PathChange>::empty(),
            inputs,
        )),
        !reports_change(inputs) ==> actions[inputs.len() as int] is Wait,
        changes[inputs.len() + 1int] == Map::<Seq<char>, PathChange>::empty(),
        !armed[inputs.len() + 1int],
{
    let n = inputs.len() as int;
    lemma_batch_prefix(inputs, changes, armed, actions, n);
    assert(inputs.take(n) =~= inputs);
}

/// A reload replaces what it drops: after the graphs `dropped` are replaced
/// by the quads `inserted`, a quad in one of those graphs is in the dataset
/// exactly when it was inserted. So what a source held before is gone, and a
/// source for which nothing was staged (it failed to parse, or is gone) is
/// left with an empty graph.
pub proof fn law_replaced_graphs_hold_only_new_quads(
    before: Set<QuadView>,
    dropped: Seq<Seq<char>>,
    inserted: Seq<QuadView>,
    q: QuadView,
)
    requires
        in_named(q, dropped),
    ensures
        before.filter(|x: QuadView| !in_named(x, dropped)).union(stored_quads(inserted)).contains(q)
            <==> stored_quads(inserted).contains(q),
{
}

/// A reload leaves every other graph as it was: a quad outside the replaced
/// graphs `dropped` that no inserted quad restates is in the dataset after
/// the replacement exactly when it was before.
pub proof fn law_replacement_keeps_other_graphs(
    before: Set<QuadView>,
    dropped: Seq<Seq<char>>,
    inserted: Seq<QuadView>,
    q: QuadView,
)
    requires
        !in_named(q, dropped),
        !stored_quads(inserted).contains(q),
    ensures
        before.filter(|x: QuadView| !in_named(x, dropped)).union(stored_quads(inserted)).contains(q)
            <==> before.contains(q),
{
}

proof fn lemma_below_graph_has_prefix(graphs: Seq<Seq<char>>, prefix: Seq<char>, k: int)
    requires
        0 <= k < below_graph(graphs, prefix).len(),
    ensures
        has_prefix(below_graph(graphs, prefix)[k], prefix),
    decreases graphs.len(),
{
    if graphs.len() > 0 {
        let before = below_graph(graphs.drop_last(), prefix);
        if k < before.len() {
            lemma_below_graph_has_prefix(graphs.drop_last(), prefix, k);
        }
    }
}

proof fn lemma_dropped_graphs_are_owned(affected: Seq<Seq<char>>, graphs: Seq<Seq<char>>, k: int)
    requires
        source_graphs(affected, graphs) is Ok,
        0 <= k < source_graphs(affected, graphs)->Ok_0.len(),
    ensures
        owned_by_reload(source_graphs(affected, graphs)->Ok_0[k], affected),
    decreases affected.len(),
{
    let rest = affected.drop_last();
    let last = affected.last();
    let before = source_graphs(rest, graphs)->Ok_0;
    let graph = graph_name_of(last)->Ok_0;
    let all = source_graphs(affected, graphs)->Ok_0;
    let n = all[k];
    let j = affected.len() - 1;
    assert(affected[j] == last);
    if k < before.len() {
        lemma_dropped_graphs_are_owned(rest, graphs, k);
        assert(n == before[k]);
        if n != catalog_graph_name() {
            let i = choose|i: int| 0 <= i < rest.len() && #[trigger] owned_by_source(before[k], rest[i]);
            assert(affected[i] == rest[i]);
            assert(owned_by_source(n, affected[i]));
        }
    } else if k == before.len() {
        assert(n == graph);
        assert(owned_by_source(n, affected[j]));
    } else {
        let below = below_graph(graphs, scope_prefix(last));
        assert(n == below[k - before.len() - 1]);
        lemma_below_graph_has_prefix(graphs, scope_prefix(last), k - before.len() - 1);
        assert(owned_by_source(n, affected[j]));
    }
}

/// A reload leaves every other graph alone: when a reload of the sources
/// `affected` replaces their graphs (and the catalog) by quads that all lie
/// in graphs it rewrites, a quad in any other named graph is in the dataset
/// afterwards exactly when it was before.
pub proof fn law_reload_keeps_other_graphs(
    before: Set<QuadView>,
    affected: Seq<Seq<char>>,
    graphs: Seq<Seq<char>>,
    inserted: Seq<QuadView>,
    q: QuadView,
)
    requires
        source_graphs(affected, graphs) is Ok,
        forall|i: int| 0 <= i < inserted.len() ==> in_owned_graph(#[trigger] inserted[i], affected),
        q.graph is Named,
        !in_owned_graph(q, affected),
    ensures
        before.filter(
            |x: QuadView| !in_named(x, source_graphs(affected, graphs)->Ok_0.push(catalog_graph_name())),
        ).union(stored_quads(inserted)).contains(q) == before.contains(q),
{
    let dropped = source_graphs(affected, graphs)->Ok_0.push(catalog_graph_name());
    let name = q.graph->Named_0;
    assert(!in_named(q, dropped)) by {
        if in_named(q, dropped) {
            let f = |n: Seq<char>| GraphView::Named(n);
            assert(dropped.map_values(f).contains(q.graph));
            let j = choose|j: int| 0 <= j < dropped.map_values(f).len() && dropped.map_values(f)[j] == q.graph;
            assert(dropped[j] == name);
            if j < dropped.len() - 1 {
                lemma_dropped_graphs_are_owned(affected, graphs, j);
            }
        }
    }
    assert(!stored_quads(inserted).contains(q)) by {
        if stored_quads(inserted).contains(q) {
            let f = |x: QuadView| stored_quad(x);
            let i = choose|i: int| 0 <= i < inserted.map_values(f).len() && inserted.map_values(f)[i] == q;
            assert(stored_quad(inserted[i]) == q);
            assert(in_owned_graph(inserted[i], affected));
        }
    }
}

/// A change at a path that is no known source, but below which known sources
/// lie, reaches every one of them, whether or not the path is a directory on
/// disk now: a folder that vanished takes its sources with it.
pub proof fn law_changes_reach_known_sources_below(
    changed: Seq<char>,
    is_directory: bool,
    known: Set<Seq<char>>,
    pairs: Set<(Seq<char>, Seq<char>)>,
    source: Seq<char>,
)
    requires
        !known.contains(changed),
        known.contains(source),
        is_path_prefix(changed, source),
    ensures
        affected_by(changed, is_directory, known, pairs).contains(source),
{
    assert(crate::loading::paths_under(known, changed).contains(source));
}

/// A local context file whose extension is `jsonld` (in any ASCII case) is
/// read as JSON-LD, one whose extension is `yamlld` as YAML-LD; a file with
/// any other extension, or none, is refused.
pub proof fn law_context_syntax_follows_the_extension(path: Seq<char>)
    ensures
        extension_of(path) matches Some(ext) && equal_ignoring_ascii_case(ext, "jsonld"@) ==> context_syntax_of(path)
            == Some(ContextSyntax::JsonLd),
        extension_of(path) matches Some(ext) && equal_ignoring_ascii_case(ext, "yamlld"@) ==> context_syntax_of(path)
            == Some(ContextSyntax::YamlLd),
        extension_of(path) matches Some(ext) && !equal_ignoring_ascii_case(ext, "jsonld"@)
            && !equal_ignoring_ascii_case(ext, "yamlld"@) ==> context_syntax_of(path) is None,
        extension_of(path) is None ==> context_syntax_of(path) is None,
{
    reveal_strlit("jsonld");
    reveal_strlit("yamlld");
    if let Some(ext) = extension_of(path) {
        if equal_ignoring_ascii_case(ext, "yamlld"@) {
            assert(ascii_folded(ext[0]) == ascii_folded('y'));
            assert(!equal_ignoring_ascii_case(ext, "jsonld"@)) by {
                assert(ascii_folded('j') != ascii_folded('y'));
            }
        }
    }
}

proof fn lemma_lookup_push(s: Seq<(GraphView, Seq<char>)>, x: (GraphView, Seq<char>), k: GraphView)
    ensures
        lookup(s.push(x), k) == (if lookup(s, k) is Some {
            lookup(s, k)
        } else if x.0 == k {
            Some(x.1)
        } else {
            None
        }),
    decreases s.len(),
{
    if s.len() == 0 {
        assert(s.push(x).drop_first() =~= Seq::<(GraphView, Seq<char>)>::empty());
        assert(lookup(Seq::<(GraphView, Seq<char>)>::empty(), k) is None);
        assert(s.push(x)[0] == x);
    } else {
        assert(s.push(x)[0] == s[0]);
        assert(s.push(x).drop_first() =~= s.drop_first().push(x));
        lemma_lookup_push(s.drop_first(), x, k);
    }
}

proof fn lemma_embedded_graph_is_scoped(quads: Seq<QuadView>, source_graph: Seq<char>, j: int)
    requires
        0 <= j < quads.len(),
        !(quads[j].graph is Default),
    ensures
        lookup(scoping_of(quads, source_graph), quads[j].graph) is Some,
    decreases quads.len(),
{
    let rest = quads.drop_last();
    let before = scoping_of(rest, source_graph);
    let g = quads.last().graph;
    let k = quads[j].graph;
    if j < quads.len() - 1 {
        assert(rest[j] == quads[j]);
        lemma_embedded_graph_is_scoped(rest, source_graph, j);
    }
    if !(g is Default || lookup(before, g) is Some) {
        lemma_lookup_push(before, (g, scoped_name(source_graph, g)), k);
    }
}

/// A reference to a blank-labelled embedded graph follows the graph's
/// renaming: when a source's quads hold a graph labelled `_:b`, that graph
/// becomes `<source graph>#_:b`, and every subject or object `_:b` of the
/// source becomes that same IRI.
pub proof fn law_references_follow_blank_graphs(
    quads: Seq<QuadView>,
    source_graph: Seq<char>,
    b: Seq<char>,
    i: int,
    j: int,
)
    requires
        0 <= i < quads.len(),
        0 <= j < quads.len(),
        quads[j].graph == GraphView::Blank(b),
    ensures
        scoped_quad(scoping_of(quads, source_graph), source_graph, quads[j]).graph == GraphView::Named(
            source_graph + seq!['#', '_', ':'] + b,
        ),
        quads[i].subject == TermView::Blank(b) ==> scoped_quad(
            scoping_of(quads, source_graph),
            source_graph,
            quads[i],
        ).subject == TermView::Named(source_graph + seq!['#', '_', ':'] + b),
        quads[i].object == TermView::Blank(b) ==> scoped_quad(
            scoping_of(quads, source_graph),
            source_graph,
            quads[i],
        ).object == TermView::Named(source_graph + seq!['#', '_', ':'] + b),
{
    lemma_embedded_graph_is_scoped(quads, source_graph, j);
    law_embedded_graph_names(quads, source_graph, GraphView::Blank(b));
}

/// A reference to an IRI-named embedded graph follows the graph's renaming
/// too: when a source's quads hold a graph `<n>`, that graph becomes
/// `<source graph>#n`, and every subject or object `<n>` of the source becomes
/// that same IRI.
pub proof fn law_references_follow_named_graphs(
    quads: Seq<QuadView>,
    source_graph: Seq<char>,
    n: Seq<char>,
    i: int,
    j: int,
)
    requires
        0 <= i < quads.len(),
        0 <= j < quads.len(),
        quads[j].graph == GraphView::Named(n),
    ensures
        scoped_quad(scoping_of(quads, source_graph), source_graph, quads[j]).graph == GraphView::Named(
            source_graph + seq!['#'] + n,
        ),
        quads[i].subject == TermView::Named(n) ==> scoped_quad(
            scoping_of(quads, source_graph),
            source_graph,
            quads[i],
        ).subject == TermView::Named(source_graph + seq!['#'] + n),
        quads[i].object == TermView::Named(n) ==> scoped_quad(
            scoping_of(quads, source_graph),
            source_graph,
            quads[i],
        ).object == TermView::Named(source_graph + seq!['#'] + n),
{
    lemma_embedded_graph_is_scoped(quads, source_graph, j);
    law_embedded_graph_names(quads, source_graph, GraphView::Named(n));
}

/// Whether a line of `s` starts at `p`: at the start of the text or just
/// after a line feed.
pub open spec fn is_line_start(s: Seq<u8>, p: int) -> bool {
    p == 0 || (0 < p <= s.len() && s[p - 1] == 10)
}

/// Whether the line of `s` that starts at `p` closes front matter: it reads
/// `---` or `...` once its line ending is gone.
pub open spec fn is_closing_line(s: Seq<u8>, p: int) -> bool {
    trimmed(s.subrange(p, line_end(s, p))) == fence() || trimmed(s.subrange(p, line_end(s, p)))
        == dots()
}

proof fn lemma_line_has_no_feed_before_its_end(s: Seq<u8>, pos: int)
    requires
        0 <= pos < s.len(),
    ensures
        forall|q: int| pos <= q < line_end(s, pos) - 1 ==> s[q] != 10,
        line_end(s, pos) == s.len() || s[line_end(s, pos) - 1] == 10,
    decreases s.len() - pos,
{
    if s[pos] != 10 {
        assert(line_end(s, pos) == line_end(s, pos + 1));
        if pos + 1 < s.len() {
            lemma_line_has_no_feed_before_its_end(s, pos + 1);
        } else {
            assert(line_end(s, pos + 1) == s.len());
        }
    } else {
        assert(line_end(s, pos) == pos + 1);
    }
}

proof fn lemma_first_closing_line(s: Seq<u8>, pos: int)
    requires
        0 <= pos,
        closing_line(s, pos) is Some,
    ensures
        pos <= closing_line(s, pos)->Some_0 < s.len(),
        is_closing_line(s, closing_line(s, pos)->Some_0),
        is_line_start(s, pos) ==> is_line_start(s, closing_line(s, pos)->Some_0),
        forall|p: int|
            pos <= p < closing_line(s, pos)->Some_0 && #[trigger] is_line_start(s, p) ==> !is_closing_line(
                s,
                p,
            ),
    decreases s.len() - pos,
{
    let end = line_end(s, pos);
    lemma_line_end(s, pos);
    if !is_closing_line(s, pos) {
        lemma_first_closing_line(s, end);
        lemma_line_has_no_feed_before_its_end(s, pos);
        let c = closing_line(s, pos)->Some_0;
        assert(closing_line(s, pos) == closing_line(s, end));
        assert forall|p: int|
            pos <= p < c && #[trigger] is_line_start(s, p) implies !is_closing_line(s, p) by {
            if p < end && p != pos {
                assert(s[p - 1] != 10);
            }
        }
        if end < s.len() {
            assert(is_line_start(s, end));
        }
    }
}

/// Front matter ends at the first closing line: the text opens with a `---`
/// line, the front matter runs from the next line to a line that reads `---`
/// or `...`, and no line in between reads either.
pub proof fn law_front_matter_ends_at_the_first_closing_line(s: Seq<u8>)
    requires
        front_matter_span(s) is Ok,
        front_matter_span(s)->Ok_0 is Some,
    ensures
        ({
            let (start, end) = front_matter_span(s)->Ok_0->Some_0;
            &&& trimmed(s.subrange(0, start)) == fence()
            &&& is_line_start(s, start)
            &&& start <= end < s.len()
            &&& is_line_start(s, end)
            &&& is_closing_line(s, end)
            &&& forall|p: int| start <= p < end && #[trigger] is_line_start(s, p) ==> !is_closing_line(s, p)
        }),
{
    let start = line_end(s, 0);
    lemma_line_end(s, 0);
    lemma_line_has_no_feed_before_its_end(s, 0);
    if start < s.len() {
        assert(is_line_start(s, start));
    }
    lemma_first_closing_line(s, start);
}

proof fn lemma_components_join(p: Seq<char>)
    ensures
        components(p).len() >= 1,
        joined(components(p), seq!['/']) == p,
    decreases p.len(),
{
    let k = last_index_of(p, '/');
    lemma_last_index_of(p, '/');
    if k >= 0 {
        lemma_components_join(p.take(k));
        let front = components(p.take(k));
        let parts = front.push(p.skip(k + 1));
        assert(parts.drop_last() =~= front);
        assert(parts.last() == p.skip(k + 1));
        assert(joined(parts, seq!['/']) == joined(front, seq!['/']) + seq!['/'] + p.skip(k + 1));
        assert(p.take(k) + seq!['/'] + p.skip(k + 1) =~= p);
    }
}

/// A source belongs to the folder that holds it: the catalog entry of a
/// source says that its graph lies in the folder named by its parent path
/// (the served directory itself for a source at the top).
pub proof fn law_sources_belong_to_their_folder(
    relative: Seq<char>,
    embedded: Seq<Seq<char>>,
    blanks: Seq<Seq<char>>,
)
    ensures
        source_entry(relative, embedded, blanks) matches Ok(quads) ==> quads.contains(
            container_quad(path_iri_of(relative, false), path_iri_of(parent_of(relative), true)),
        ),
{
    if let Ok(quads) = source_entry(relative, embedded, blanks) {
        let graph = graph_name_of(relative)->Ok_0;
        let directory = parent_of(relative);
        let (container, folders) = directories_of(directory)->Ok_0;
        assert(container == path_iri_of(directory, true)) by {
            if directory.len() == 0 {
                assert(encode_utf8(directory) =~= Seq::<u8>::empty());
                assert(percent_encoded(Seq::<u8>::empty()) =~= Seq::<char>::empty());
                assert(iri_scheme() + Seq::<char>::empty() =~= iri_scheme());
            } else {
                let parts = components(directory);
                lemma_components_join(directory);
                assert(folder_walk(directory, parts)->Ok_0.0 == path_iri_of(joined(parts, seq!['/']), true));
            }
        }
        let entry = source_quads(graph, container, crate::paths::file_name_of(relative), embedded, blanks);
        assert(entry[2] == container_quad(graph, container));
        assert(quads == folders + entry);
        assert(quads[folders.len() + 2int] == entry[2]);
    }
}

} // verus!
