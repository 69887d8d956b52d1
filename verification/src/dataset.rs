//! The served dataset: an in-memory `oxigraph` store, the quads it holds, and
//! how the graphs of the sources a reload touched are replaced in one step.

use vstd::prelude::*;

use crate::catalog::{
    below_graph, blanks_fit, build_catalog, described_quads, described_view, error_quads,
    in_catalog_graph, lemma_catalog_quads_in_catalog, pair_views, root_description,
    scoped_graphs_for_source,
};
use crate::laws::law_reload_keeps_other_graphs;
use crate::text::has_prefix;
use crate::iri::{graph_name, graph_name_of, path_iri_of};
use crate::server::{HttpError, ResultsKind, query_results_media_type, rdf_media_type, results_media_type};
use crate::rdf::{GraphLabel, GraphView, QuadView, RdfQuad, RdfTerm, TermView, quad_views};
use crate::pathset::{contains_path, path_set};
use crate::text::texts;

verus! {

/// `oxigraph::store::Store`, the store that holds the served quads.
#[verifier::external_type_specification]
#[verifier::external_body]
pub struct ExStore(oxigraph::store::Store);

/// The quads an `oxigraph` store holds, each as plain text values.
pub uninterp spec fn store_quads(store: oxigraph::store::Store) -> Set<QuadView>;

/// The named graphs an `oxigraph` store lists.
pub uninterp spec fn store_graphs(store: oxigraph::store::Store) -> Set<GraphView>;

/// The served dataset: an in-memory `oxigraph` store.
pub struct Dataset {
    store: oxigraph::store::Store,
}

/// The quads the dataset holds.
pub closed spec fn dataset_quads(dataset: Dataset) -> Set<QuadView> {
    store_quads(dataset.store)
}

/// The named graphs the dataset lists.
pub closed spec fn dataset_graphs(dataset: Dataset) -> Set<GraphView> {
    store_graphs(dataset.store)
}

/// The term an `oxigraph` store gives back for a term put into it: IRIs and
/// blank node labels come back as they went in; a literal comes back as the
/// store encodes and decodes it (a language-tagged string with the datatype
/// `rdf:langString`, a value of a numeric, boolean or date-time datatype in
/// its canonical form and datatype).
pub uninterp spec fn stored_term(term: TermView) -> TermView;

/// A quad as the store keeps it.
pub open spec fn stored_quad(q: QuadView) -> QuadView {
    QuadView { subject: q.subject, predicate: q.predicate, object: stored_term(q.object), graph: q.graph }
}

/// The quads the store keeps for a sequence of quads.
pub open spec fn stored_quads(quads: Seq<QuadView>) -> Set<QuadView> {
    quads.map_values(|q: QuadView| stored_quad(q)).to_set()
}

/// The named graphs that a sequence of quads puts into a store.
pub open spec fn graphs_of(quads: Seq<QuadView>) -> Set<GraphView> {
    quads.map_values(|q: QuadView| q.graph).to_set().remove(GraphView::Default)
}

/// The named graphs called by the names of `names`.
pub open spec fn named_set(names: Seq<Seq<char>>) -> Set<GraphView> {
    names.map_values(|n: Seq<char>| GraphView::Named(n)).to_set()
}

/// Whether a quad lies in one of the named graphs `names`.
pub open spec fn in_named(q: QuadView, names: Seq<Seq<char>>) -> bool {
    named_set(names).contains(q.graph)
}

/// The `oxigraph` term for a term.
#[verifier::external_body]
fn ox_term(term: &RdfTerm) -> (r: oxigraph::model::Term) {
    match term {
        RdfTerm::Named(iri) => oxigraph::model::NamedNode::new_unchecked(iri.clone()).into(),
        RdfTerm::Blank(id) => oxigraph::model::BlankNode::new_unchecked(id.clone()).into(),
        RdfTerm::Literal { value, datatype, language } => match language {
            Some(language) => oxigraph::model::Literal::new_language_tagged_literal_unchecked(
                value.clone(),
                language.clone(),
            ).into(),
            None => oxigraph::model::Literal::new_typed_literal(
                value.clone(),
                oxigraph::model::NamedNode::new_unchecked(datatype.clone()),
            ).into(),
        },
    }
}

/// The `oxigraph` graph name for a graph label.
#[verifier::external_body]
fn ox_graph(graph: &GraphLabel) -> (r: oxigraph::model::GraphName) {
    match graph {
        GraphLabel::Default => oxigraph::model::GraphName::DefaultGraph,
        GraphLabel::Named(iri) => oxigraph::model::NamedNode::new_unchecked(iri.clone()).into(),
        GraphLabel::Blank(id) => oxigraph::model::BlankNode::new_unchecked(id.clone()).into(),
    }
}

/// The `oxigraph` quad for a quad, or `oxigraph`'s error when its subject is
/// a literal.
#[verifier::external_body]
fn ox_quad(quad: &RdfQuad) -> (r: Result<oxigraph::model::Quad, String>) {
    let subject = oxigraph::model::NamedOrBlankNode::try_from(ox_term(&quad.subject)).map_err(
        |error| error.to_string(),
    )?;
    let predicate = oxigraph::model::NamedNode::new_unchecked(quad.predicate.clone());
    Ok(oxigraph::model::Quad::new(subject, predicate, ox_term(&quad.object), ox_graph(&quad.graph)))
}

/// The graph label for an `oxigraph` graph name.
#[verifier::external_body]
fn label_of(graph: oxigraph::model::NamedOrBlankNode) -> (r: GraphLabel) {
    match graph {
        oxigraph::model::NamedOrBlankNode::NamedNode(node) => GraphLabel::Named(node.into_string()),
        oxigraph::model::NamedOrBlankNode::BlankNode(node) => GraphLabel::Blank(node.into_string()),
    }
}

/// Calls `oxigraph::store::Store::new`: a store that holds nothing.
#[verifier::external_body]
fn new_store() -> (r: Result<oxigraph::store::Store, String>)
    ensures
        r matches Ok(s) ==> store_quads(s) == Set::<QuadView>::empty() && store_graphs(s)
            == Set::<GraphView>::empty(),
{
    oxigraph::store::Store::new().map_err(|error| error.to_string())
}

/// Calls `oxigraph::store::Store::insert` with the quad built from `quad`. A
/// quad whose subject is a literal cannot be built, and is refused with
/// `oxigraph`'s error. The store then also holds the quad with its object as
/// the store keeps it (`stored_term`) and lists its graph; a failed insertion
/// changes nothing.
#[verifier::external_body]
fn store_insert(store: &mut oxigraph::store::Store, quad: &RdfQuad) -> (r: Result<(), String>)
    ensures
        quad@.subject is Literal ==> r is Err,
        r is Ok ==> store_quads(*final(store)) == store_quads(*old(store)).insert(
            QuadView {
                subject: quad@.subject,
                predicate: quad@.predicate,
                object: stored_term(quad@.object),
                graph: quad@.graph,
            },
        )
            && store_graphs(*final(store)) == store_graphs(*old(store)).union(graphs_of(seq![quad@])),
        r is Err ==> store_quads(*final(store)) == store_quads(*old(store)) && store_graphs(
            *final(store),
        ) == store_graphs(*old(store)),
{
    let quad = ox_quad(quad)?;
    store.insert(&quad).map_err(|error| error.to_string())
}

/// Calls `oxigraph::store::Store::remove_named_graph`: the graph and its quads
/// are gone; a failure changes nothing.
#[verifier::external_body]
fn store_remove_graph(store: &mut oxigraph::store::Store, graph: &str) -> (r: Result<(), String>)
    ensures
        r is Ok ==> store_quads(*final(store)) == store_quads(*old(store)).filter(
            |q: QuadView| q.graph != GraphView::Named(graph@),
        ) && store_graphs(*final(store)) == store_graphs(*old(store)).remove(GraphView::Named(graph@)),
        r is Err ==> store_quads(*final(store)) == store_quads(*old(store)) && store_graphs(
            *final(store),
        ) == store_graphs(*old(store)),
{
    let graph = oxigraph::model::NamedNodeRef::new_unchecked(graph);
    store.remove_named_graph(graph).map_err(|error| error.to_string())
}

/// Calls `oxigraph::store::Store::quads_for_pattern` on a named graph and
/// counts the quads it yields: each quad of the graph, once.
#[verifier::external_body]
fn store_graph_len(store: &oxigraph::store::Store, graph: &str) -> (r: Result<usize, String>)
    ensures
        r matches Ok(n) ==> store_quads(*store).filter(
            |q: QuadView| q.graph == GraphView::Named(graph@),
        ).finite() && n == store_quads(*store).filter(
            |q: QuadView| q.graph == GraphView::Named(graph@),
        ).len(),
{
    let graph = oxigraph::model::NamedNodeRef::new_unchecked(graph);
    let quads = store.quads_for_pattern(None, None, None, Some(graph.into()));
    let quads = quads.collect::<Result<Vec<_>, _>>().map_err(|error| error.to_string())?;
    Ok(quads.len())
}

/// Calls `oxigraph::store::Store::len`: the number of quads the store holds.
#[verifier::external_body]
fn store_len(store: &oxigraph::store::Store) -> (r: Result<usize, String>)
    ensures
        r matches Ok(n) ==> store_quads(*store).finite() && n == store_quads(*store).len(),
{
    store.len().map_err(|error| error.to_string())
}

/// Calls `oxigraph::store::Store::named_graphs`: each named graph the store
/// lists, once.
#[verifier::external_body]
fn store_named_graphs(store: &oxigraph::store::Store) -> (r: Result<Vec<GraphLabel>, String>)
    ensures
        r matches Ok(v) ==> v@.map_values(|g: GraphLabel| g@).no_duplicates() && v@.map_values(
            |g: GraphLabel| g@,
        ).to_set() == store_graphs(*store),
{
    let graphs = store.named_graphs().collect::<Result<Vec<_>, _>>();
    let graphs = graphs.map_err(|error| error.to_string())?;
    Ok(graphs.into_iter().map(label_of).collect())
}

/// Calls `oxigraph::store::Store::start_transaction`, removes the named graphs
/// `remove` and inserts the quads built from `insert` in it, and commits it:
/// the store then holds what it held outside those graphs and the inserted
/// quads, or, when anything fails (a quad whose subject is a literal among
/// them), the transaction is dropped and nothing changes.
#[verifier::external_body]
fn store_replace_graphs(
    store: &mut oxigraph::store::Store,
    remove: &Vec<String>,
    insert: &Vec<RdfQuad>,
) -> (r: Result<(), String>)
    ensures
        (exists|i: int| 0 <= i < insert.len() && (#[trigger] insert@[i])@.subject is Literal)
            ==> r is Err,
        r is Ok ==> store_quads(*final(store)) == store_quads(*old(store)).filter(
            |q: QuadView| !in_named(q, texts(remove@)),
        ).union(stored_quads(quad_views(insert@))) && store_graphs(*final(store)) == store_graphs(
            *old(store),
        ).difference(named_set(texts(remove@))).union(graphs_of(quad_views(insert@))),
        r is Err ==> store_quads(*final(store)) == store_quads(*old(store)) && store_graphs(
            *final(store),
        ) == store_graphs(*old(store)),
{
    let mut transaction = store.start_transaction().map_err(|error| error.to_string())?;
    for graph in remove {
        let graph = oxigraph::model::NamedNodeRef::new_unchecked(graph);
        transaction.remove_named_graph(graph).map_err(|error| error.to_string())?;
    }
    for quad in insert {
        transaction.insert(&ox_quad(quad)?);
    }
    transaction.commit().map_err(|error| error.to_string())
}

impl Dataset {
    /// A dataset that holds nothing.
    pub fn new() -> (r: Result<Dataset, String>)
        ensures
            r matches Ok(d) ==> dataset_quads(d) == Set::<QuadView>::empty() && dataset_graphs(d)
                == Set::<GraphView>::empty(),
    {
        match new_store() {
            Ok(store) => Ok(Dataset { store }),
            Err(e) => Err(e),
        }
    }

    /// Inserts a quad, kept as `stored_quad` says, and lists its graph. A quad
    /// whose subject is a literal is refused; a failed insertion changes
    /// nothing.
    pub fn insert(&mut self, quad: &RdfQuad) -> (r: Result<(), String>)
        ensures
            quad@.subject is Literal ==> r is Err,
            r is Ok ==> dataset_quads(*final(self)) == dataset_quads(*old(self)).insert(
                stored_quad(quad@),
            ) && dataset_graphs(*final(self)) == dataset_graphs(*old(self)).union(
                graphs_of(seq![quad@]),
            ),
            r is Err ==> dataset_quads(*final(self)) == dataset_quads(*old(self)) && dataset_graphs(
                *final(self),
            ) == dataset_graphs(*old(self)),
    {
        store_insert(&mut self.store, quad)
    }

    /// Removes a named graph and its quads; a failure changes nothing.
    pub fn remove_graph(&mut self, graph: &str) -> (r: Result<(), String>)
        ensures
            r is Ok ==> dataset_quads(*final(self)) == dataset_quads(*old(self)).filter(
                |q: QuadView| q.graph != GraphView::Named(graph@),
            ) && dataset_graphs(*final(self)) == dataset_graphs(*old(self)).remove(
                GraphView::Named(graph@),
            ),
            r is Err ==> dataset_quads(*final(self)) == dataset_quads(*old(self)) && dataset_graphs(
                *final(self),
            ) == dataset_graphs(*old(self)),
    {
        store_remove_graph(&mut self.store, graph)
    }

    /// The number of quads in a named graph.
    pub fn graph_len(&self, graph: &str) -> (r: Result<usize, String>)
        ensures
            r matches Ok(n) ==> dataset_quads(*self).filter(
                |q: QuadView| q.graph == GraphView::Named(graph@),
            ).finite() && n == dataset_quads(*self).filter(
                |q: QuadView| q.graph == GraphView::Named(graph@),
            ).len(),
    {
        store_graph_len(&self.store, graph)
    }

    /// The number of quads the dataset holds.
    pub fn len(&self) -> (r: Result<usize, String>)
        ensures
            r matches Ok(n) ==> dataset_quads(*self).finite() && n == dataset_quads(*self).len(),
    {
        store_len(&self.store)
    }

    /// The named graphs the dataset lists, each once.
    pub fn named_graphs(&self) -> (r: Result<Vec<GraphLabel>, String>)
        ensures
            r matches Ok(v) ==> v@.map_values(|g: GraphLabel| g@).no_duplicates() && v@.map_values(
                |g: GraphLabel| g@,
            ).to_set() == dataset_graphs(*self),
    {
        store_named_graphs(&self.store)
    }

    /// Removes the named graphs `remove` and inserts `insert` in one step: the
    /// dataset then holds what it held outside those graphs and the inserted
    /// quads; when anything fails (a quad whose subject is a literal among
    /// them) nothing changes.
    pub fn replace_graphs(&mut self, remove: &Vec<String>, insert: &Vec<RdfQuad>) -> (r: Result<
        (),
        String,
    >)
        ensures
            (exists|i: int| 0 <= i < insert.len() && (#[trigger] insert@[i])@.subject is Literal)
                ==> r is Err,
            r is Ok ==> dataset_quads(*final(self)) == dataset_quads(*old(self)).filter(
                |q: QuadView| !in_named(q, texts(remove@)),
            ).union(stored_quads(quad_views(insert@))) && dataset_graphs(*final(self)) == dataset_graphs(
                *old(self),
            ).difference(named_set(texts(remove@))).union(graphs_of(quad_views(insert@))),
            r is Err ==> dataset_quads(*final(self)) == dataset_quads(*old(self)) && dataset_graphs(
                *final(self),
            ) == dataset_graphs(*old(self)),
    {
        store_replace_graphs(&mut self.store, remove, insert)
    }
}

/// The number of quads a dataset holds in a named graph.
pub open spec fn quads_in(dataset: Dataset, graph: Seq<char>) -> int {
    dataset_quads(dataset).filter(|q: QuadView| q.graph == GraphView::Named(graph)).len() as int
}

/// The number of quads a dataset holds in the named graphs `names`, graph by
/// graph.
pub open spec fn quads_in_all(dataset: Dataset, names: Seq<Seq<char>>) -> int
    decreases names.len(),
{
    if names.len() == 0 {
        0
    } else {
        quads_in_all(dataset, names.drop_last()) + quads_in(dataset, names.last())
    }
}

/// The prefix of the graphs a source's graph holds its named graphs under.
pub open spec fn scope_prefix(relative: Seq<char>) -> Seq<char> {
    path_iri_of(relative, false).push('#')
}

/// The number of triples a source contributes: those of its graph and of the
/// named graphs of `graphs` scoped below it.
pub open spec fn source_triples(dataset: Dataset, graphs: Seq<Seq<char>>, relative: Seq<char>) -> Result<
    int,
    Seq<char>,
> {
    match graph_name_of(relative) {
        Err(e) => Err(e),
        Ok(graph) => Ok(
            quads_in(dataset, graph) + quads_in_all(dataset, below_graph(graphs, scope_prefix(relative))),
        ),
    }
}

/// The graphs of the sources `affected` that a reload drops: each one's graph
/// and the graphs of `graphs` scoped below it; or the first source whose graph
/// name is not an IRI.
pub open spec fn source_graphs(affected: Seq<Seq<char>>, graphs: Seq<Seq<char>>) -> Result<
    Seq<Seq<char>>,
    Seq<char>,
>
    decreases affected.len(),
{
    if affected.len() == 0 {
        Ok(seq![])
    } else {
        match source_graphs(affected.drop_last(), graphs) {
            Err(e) => Err(e),
            Ok(before) => match graph_name_of(affected.last()) {
                Err(e) => Err(e),
                Ok(graph) => Ok(
                    before + seq![graph] + below_graph(graphs, scope_prefix(affected.last())),
                ),
            },
        }
    }
}

/// The name of the catalog graph.
pub open spec fn catalog_graph_name() -> Seq<char> {
    "sparqld:"@
}

proof fn lemma_stored_step(s: Seq<QuadView>, i: int)
    requires
        0 <= i < s.len(),
    ensures
        stored_quads(s.take(i + 1)) == stored_quads(s.take(i)).insert(stored_quad(s[i])),
        graphs_of(s.take(i + 1)) == graphs_of(s.take(i)).union(graphs_of(seq![s[i]])),
{
    let f = |q: QuadView| stored_quad(q);
    let g = |q: QuadView| q.graph;
    assert(s.take(i + 1).map_values(f) =~= s.take(i).map_values(f).push(stored_quad(s[i])));
    assert(s.take(i + 1).map_values(g) =~= s.take(i).map_values(g).push(s[i].graph));
    s.take(i).map_values(f).lemma_push_to_set_commute(stored_quad(s[i]));
    s.take(i).map_values(g).lemma_push_to_set_commute(s[i].graph);
    assert(seq![s[i]].map_values(g) =~= seq![s[i].graph]);
    assert forall|x: GraphView| seq![s[i].graph].to_set().contains(x) == (x == s[i].graph) by {
        if x == s[i].graph {
            assert(seq![s[i].graph][0] == x);
        }
    }
    assert(seq![s[i].graph].to_set() =~= set![s[i].graph]);
    assert(graphs_of(s.take(i + 1)) =~= graphs_of(s.take(i)).union(graphs_of(seq![s[i]])));
}

proof fn lemma_names_step(lv: Seq<GraphView>, i: int, before: Seq<Seq<char>>, after: Seq<Seq<char>>)
    requires
        0 <= i < lv.len(),
        forall|n: Seq<char>| #[trigger] before.contains(n) <==> lv.take(i).contains(GraphView::Named(n)),
        lv[i] matches GraphView::Named(m) ==> after == before.push(m),
        !(lv[i] is Named) ==> after == before,
    ensures
        forall|n: Seq<char>| #[trigger] after.contains(n) <==> lv.take(i + 1).contains(GraphView::Named(n)),
{
    assert forall|n: Seq<char>| #[trigger] after.contains(n) <==> lv.take(i + 1).contains(
        GraphView::Named(n),
    ) by {
        if lv.take(i + 1).contains(GraphView::Named(n)) {
            let k = choose|k: int| 0 <= k < i + 1 && #[trigger] lv.take(i + 1)[k] == GraphView::Named(n);
            if k < i {
                assert(lv.take(i)[k] == GraphView::Named(n));
                assert(before.contains(n));
                let j = choose|j: int| 0 <= j < before.len() && before[j] == n;
                assert(after[j] == n);
            } else {
                assert(lv.take(i + 1)[i] == lv[i]);
                assert(after[after.len() - 1] == n);
            }
        }
        if after.contains(n) {
            let j = choose|j: int| 0 <= j < after.len() && after[j] == n;
            if j < before.len() {
                assert(before[j] == n);
                assert(before.contains(n));
                let k = choose|k: int| 0 <= k < i && #[trigger] lv.take(i)[k] == GraphView::Named(n);
                assert(lv.take(i + 1)[k] == GraphView::Named(n));
            } else {
                assert(lv.take(i + 1)[i] == GraphView::Named(n));
            }
        }
    }
}

impl Dataset {
    /// Inserts the quads one by one: the store then also holds each of them
    /// as `stored_quad` says. A quad whose subject is a literal is refused.
    pub fn insert_all(&mut self, quads: &Vec<RdfQuad>) -> (r: Result<(), String>)
        ensures
            (exists|i: int| 0 <= i < quads.len() && (#[trigger] quads@[i])@.subject is Literal)
                ==> r is Err,
            r is Ok ==> dataset_quads(*final(self)) == dataset_quads(*old(self)).union(
                stored_quads(quad_views(quads@)),
            ) && dataset_graphs(*final(self)) == dataset_graphs(*old(self)).union(
                graphs_of(quad_views(quads@)),
            ),
    {
        let ghost s = quad_views(quads@);
        let ghost start_quads = dataset_quads(*self);
        let ghost start_graphs = dataset_graphs(*self);
        let mut i: usize = 0;
        proof {
            assert(stored_quads(s.take(0)) =~= Set::<QuadView>::empty());
            assert(graphs_of(s.take(0)) =~= Set::<GraphView>::empty());
            assert(start_quads.union(Set::<QuadView>::empty()) =~= start_quads);
            assert(start_graphs.union(Set::<GraphView>::empty()) =~= start_graphs);
        }
        while i < quads.len()
            invariant
                i <= quads.len(),
                s == quad_views(quads@),
                forall|k: int| 0 <= k < i ==> !((#[trigger] quads@[k])@.subject is Literal),
                dataset_quads(*self) == start_quads.union(stored_quads(s.take(i as int))),
                dataset_graphs(*self) == start_graphs.union(graphs_of(s.take(i as int))),
            decreases quads.len() - i,
        {
            let ghost before_quads = dataset_quads(*self);
            let ghost before_graphs = dataset_graphs(*self);
            let inserted = self.insert(&quads[i]);
            if inserted.is_err() {
                return inserted;
            }
            proof {
                lemma_stored_step(s, i as int);
                assert(s[i as int] == quads@[i as int]@);
                assert(dataset_quads(*self) =~= start_quads.union(stored_quads(s.take(i + 1))));
                assert(dataset_graphs(*self) =~= start_graphs.union(graphs_of(s.take(i + 1))));
            }
            i = i + 1;
        }
        assert(s.take(i as int) =~= s);
        Ok(())
    }

    /// The names of the store's named graphs, each once.
    pub fn graph_names(&self) -> (r: Result<Vec<String>, String>)
        ensures
            r matches Ok(v) ==> texts(v@).no_duplicates() && forall|n: Seq<char>|
                #[trigger] texts(v@).contains(n) <==> dataset_graphs(*self).contains(
                    GraphView::Named(n),
                ),
    {
        let labels = match self.named_graphs() {
            Ok(labels) => labels,
            Err(e) => return Err(e),
        };
        let ghost lv = labels@.map_values(|g: GraphLabel| g@);
        let mut names: Vec<String> = Vec::new();
        let mut i: usize = 0;
        while i < labels.len()
            invariant
                i <= labels.len(),
                lv == labels@.map_values(|g: GraphLabel| g@),
                lv.no_duplicates(),
                texts(names@).no_duplicates(),
                forall|n: Seq<char>| #[trigger]
                    texts(names@).contains(n) <==> lv.take(i as int).contains(GraphView::Named(n)),
            decreases labels.len() - i,
        {
            let ghost before = texts(names@);
            assert(lv[i as int] == labels@[i as int]@);
            match &labels[i] {
                GraphLabel::Named(name) => {
                    proof {
                        assert(lv[i as int] == GraphView::Named(name@));
                        if before.contains(name@) {
                            let k = choose|k: int| 0 <= k < i && #[trigger] lv.take(i as int)[k] == GraphView::Named(
                                name@,
                            );
                            assert(lv[k] == lv[i as int]);
                        }
                    }
                    names.push(name.clone());
                    proof {
                        assert(texts(names@) =~= before.push(name@));
                    }
                },
                _ => {
                    assert(!(lv[i as int] is Named));
                },
            }
            proof {
                lemma_names_step(lv, i as int, before, texts(names@));
            }
            i = i + 1;
        }
        proof {
            assert(lv.take(i as int) =~= lv);
            assert forall|n: Seq<char>| #[trigger]
                texts(names@).contains(n) <==> dataset_graphs(*self).contains(GraphView::Named(n)) by {
                assert(lv.to_set().contains(GraphView::Named(n)) == lv.contains(GraphView::Named(n)));
            }
        }
        Ok(names)
    }
    /// The triples a source contributes: those of its graph and of the named
    /// graphs of `graphs` scoped below it. It fails when the source's graph
    /// name is not an IRI, when the store fails, or when the count does not
    /// fit in a `usize`.
    pub fn source_triple_count(&self, graphs: &Vec<String>, relative: &str) -> (r: Result<
        usize,
        String,
    >)
        ensures
            match source_triples(*self, texts(graphs@), relative@) {
                Err(e) => r matches Err(m) && m@ == e,
                Ok(n) => r matches Ok(c) ==> c == n,
            },
    {
        let graph = match graph_name(relative) {
            Ok(g) => g,
            Err(e) => return Err(e),
        };
        let mut count = match self.graph_len(graph.as_str()) {
            Ok(n) => n,
            Err(e) => return Err(e),
        };
        let scoped = match scoped_graphs_for_source(graphs, relative) {
            Ok(found) => found,
            Err(e) => return Err(e),
        };
        let ghost sv = texts(scoped@);
        let mut i: usize = 0;
        assert(sv.take(0) =~= Seq::<Seq<char>>::empty());
        while i < scoped.len()
            invariant
                i <= scoped.len(),
                sv == texts(scoped@),
                graph_name_of(relative@) == Ok::<Seq<char>, Seq<char>>(graph@),
                count == quads_in(*self, graph@) + quads_in_all(*self, sv.take(i as int)),
            decreases scoped.len() - i,
        {
            let n = match self.graph_len(scoped[i].as_str()) {
                Ok(n) => n,
                Err(e) => return Err(e),
            };
            proof {
                assert(sv.take(i + 1).drop_last() =~= sv.take(i as int));
                assert(sv.take(i + 1).last() == scoped@[i as int]@);
            }
            count = match count.checked_add(n) {
                Some(c) => c,
                None => return Err(String::from_str("the triple count does not fit in a usize")),
            };
            i = i + 1;
        }
        assert(sv.take(i as int) =~= sv);
        Ok(count)
    }
    /// Replaces the graphs of the sources `affected` in one step: drops each
    /// one's graph, the named graphs of `graphs` (the store's) scoped below
    /// it, and the catalog graph, and inserts the quads `staged` and
    /// `catalog`. When a source's graph name is not an IRI nothing changes;
    /// when the replacement fails nothing changes either.
    pub fn replace_sources(
        &mut self,
        affected: &Vec<String>,
        graphs: &Vec<String>,
        staged: Vec<RdfQuad>,
        catalog: Vec<RdfQuad>,
    ) -> (r: Result<(), String>)
        ensures
            match source_graphs(texts(affected@), texts(graphs@)) {
                Err(e) => r matches Err(m) && m@ == e && dataset_quads(*final(self)) == dataset_quads(
                    *old(self),
                ) && dataset_graphs(*final(self)) == dataset_graphs(*old(self)),
                Ok(dropped) => {
                    let all = dropped.push(catalog_graph_name());
                    let inserted = quad_views(staged@) + quad_views(catalog@);
                    &&& r is Ok ==> dataset_quads(*final(self)) == dataset_quads(*old(self)).filter(
                        |q: QuadView| !in_named(q, all),
                    ).union(stored_quads(inserted)) && dataset_graphs(*final(self)) == dataset_graphs(
                        *old(self),
                    ).difference(named_set(all)).union(graphs_of(inserted))
                    &&& r is Err ==> dataset_quads(*final(self)) == dataset_quads(*old(self))
                        && dataset_graphs(*final(self)) == dataset_graphs(*old(self))
                    &&& (exists|i: int| 0 <= i < inserted.len() && (#[trigger] inserted[i]).subject is Literal)
                        ==> r is Err
                },
            },
    {
        let ghost gv = texts(graphs@);
        let ghost av = texts(affected@);
        let mut remove: Vec<String> = Vec::new();
        let mut i: usize = 0;
        assert(av.take(0) =~= Seq::<Seq<char>>::empty());
        assert(texts(remove@) =~= Seq::<Seq<char>>::empty());
        while i < affected.len()
            invariant
                i <= affected.len(),
                gv == texts(graphs@),
                av == texts(affected@),
                source_graphs(av.take(i as int), gv) == Ok::<Seq<Seq<char>>, Seq<char>>(texts(remove@)),
            decreases affected.len() - i,
        {
            proof {
                assert(av.take(i + 1).drop_last() =~= av.take(i as int));
                assert(av.take(i + 1).last() == affected@[i as int]@);
            }
            let graph = match graph_name(affected[i].as_str()) {
                Ok(g) => g,
                Err(e) => {
                    proof {
                        lemma_source_graphs_persist(av, gv, i + 1);
                    }
                    return Err(e);
                },
            };
            let mut scoped = match scoped_graphs_for_source(graphs, affected[i].as_str()) {
                Ok(found) => found,
                Err(e) => return Err(e),
            };
            let ghost before = texts(remove@);
            let ghost found = texts(scoped@);
            remove.push(graph);
            remove.append(&mut scoped);
            assert(texts(remove@) =~= before + seq![graph@] + found);
            i = i + 1;
        }
        assert(av.take(i as int) =~= av);
        let ghost dropped = texts(remove@);
        remove.push(String::from_str("sparqld:"));
        assert(texts(remove@) =~= dropped.push(catalog_graph_name()));
        let ghost staged_views = quad_views(staged@);
        let ghost catalog_views = quad_views(catalog@);
        let mut inserted = staged;
        let mut catalog = catalog;
        inserted.append(&mut catalog);
        assert(quad_views(inserted@) =~= staged_views + catalog_views);
        proof {
            assert forall|k: int| 0 <= k < inserted.len() implies (#[trigger] quad_views(inserted@)[k])
                == inserted@[k]@ by {}
        }
        self.replace_graphs(&remove, &inserted)
    }
}

proof fn lemma_source_graphs_persist(affected: Seq<Seq<char>>, graphs: Seq<Seq<char>>, k: int)
    requires
        0 <= k <= affected.len(),
        source_graphs(affected.take(k), graphs) is Err,
    ensures
        source_graphs(affected, graphs) == source_graphs(affected.take(k), graphs),
    decreases affected.len(),
{
    if affected.len() == k {
        assert(affected.take(k) =~= affected);
    } else {
        assert(affected.drop_last().take(k) =~= affected.take(k));
        lemma_source_graphs_persist(affected.drop_last(), graphs, k);
    }
}

/// Whether a named graph is one that a reload of the sources `affected`
/// rewrites: the catalog graph, the graph of an affected source, or a graph
/// scoped below one.
pub open spec fn owned_by_reload(name: Seq<char>, affected: Seq<Seq<char>>) -> bool {
    name == catalog_graph_name() || exists|i: int|
        0 <= i < affected.len() && #[trigger] owned_by_source(name, affected[i])
}

/// Whether a named graph is a source's graph or a graph scoped below it.
pub open spec fn owned_by_source(name: Seq<char>, relative: Seq<char>) -> bool {
    match graph_name_of(relative) {
        Ok(graph) => name == graph || has_prefix(name, scope_prefix(relative)),
        Err(_) => false,
    }
}

/// Whether a quad lies in a named graph that a reload of `affected` rewrites.
pub open spec fn in_owned_graph(q: QuadView, affected: Seq<Seq<char>>) -> bool {
    match q.graph {
        GraphView::Named(name) => owned_by_reload(name, affected),
        _ => false,
    }
}

/// The error of the first of `sources` whose graph name is not an IRI.
pub open spec fn first_name_error(sources: Seq<Seq<char>>) -> Option<Seq<char>>
    decreases sources.len(),
{
    if sources.len() == 0 {
        None
    } else {
        match first_name_error(sources.drop_last()) {
            Some(e) => Some(e),
            None => match graph_name_of(sources.last()) {
                Err(e) => Some(e),
                Ok(_) => None,
            },
        }
    }
}

/// The named graphs a catalog lists for a source: those scoped below it among
/// the staged graphs when a reload touched it, else among the current ones.
pub open spec fn listed_graphs(
    source: Seq<char>,
    affected: Seq<String>,
    staged: Seq<Seq<char>>,
    current: Seq<Seq<char>>,
) -> Seq<Seq<char>> {
    if path_set(affected).contains(source) {
        below_graph(staged, scope_prefix(source))
    } else {
        below_graph(current, scope_prefix(source))
    }
}

/// Each source with the named graphs the catalog lists for it, in order: those
/// of the staged graphs for a source of `affected`, else those of the current
/// graphs; or the error of the first source whose graph name is not an IRI.
pub fn described_graphs(
    sources: &Vec<String>,
    affected: &Vec<String>,
    staged: &Vec<String>,
    current: &Vec<String>,
) -> (r: Result<Vec<(String, Vec<String>)>, String>)
    ensures
        match r {
            Ok(v) => {
                &&& first_name_error(texts(sources@)) is None
                &&& v.len() == sources.len()
                &&& forall|i: int|
                    0 <= i < v.len() ==> (#[trigger] v@[i]).0@ == sources@[i]@ && texts(v@[i].1@)
                        == listed_graphs(sources@[i]@, affected@, texts(staged@), texts(current@))
            },
            Err(e) => first_name_error(texts(sources@)) == Some(e@),
        },
{
    let ghost sv = texts(sources@);
    let mut described: Vec<(String, Vec<String>)> = Vec::new();
    let mut i: usize = 0;
    assert(sv.take(0) =~= Seq::<Seq<char>>::empty());
    while i < sources.len()
        invariant
            i <= sources.len(),
            sv == texts(sources@),
            first_name_error(sv.take(i as int)) is None,
            described.len() == i,
            forall|k: int|
                0 <= k < i ==> (#[trigger] described@[k]).0@ == sources@[k]@ && texts(described@[k].1@)
                    == listed_graphs(sources@[k]@, affected@, texts(staged@), texts(current@)),
        decreases sources.len() - i,
    {
        proof {
            assert(sv.take(i + 1).drop_last() =~= sv.take(i as int));
            assert(sv.take(i + 1).last() == sources@[i as int]@);
        }
        let graphs = if contains_path(affected, sources[i].as_str()) {
            scoped_graphs_for_source(staged, sources[i].as_str())
        } else {
            scoped_graphs_for_source(current, sources[i].as_str())
        };
        match graphs {
            Ok(graphs) => {
                described.push((sources[i].clone(), graphs));
            },
            Err(e) => {
                proof {
                    lemma_name_error_persists(sv, i + 1);
                }
                return Err(e);
            },
        }
        i = i + 1;
    }
    assert(sv.take(i as int) =~= sv);
    Ok(described)
}

proof fn lemma_name_error_persists(sources: Seq<Seq<char>>, k: int)
    requires
        0 <= k <= sources.len(),
        first_name_error(sources.take(k)) is Some,
    ensures
        first_name_error(sources) == first_name_error(sources.take(k)),
    decreases sources.len(),
{
    if sources.len() == k {
        assert(sources.take(k) =~= sources);
    } else {
        assert(sources.drop_last().take(k) =~= sources.take(k));
        lemma_name_error_persists(sources.drop_last(), k);
    }
}

/// `oxigraph::sparql::QueryResults`, what evaluating a query yields.
#[verifier::external_type_specification]
#[verifier::external_body]
pub struct ExQueryResults<'a>(oxigraph::sparql::QueryResults<'a>);

/// `oxigraph::sparql::QuerySolutionIter`, the solutions of a query.
#[verifier::external_type_specification]
#[verifier::external_body]
pub struct ExQuerySolutionIter<'a>(oxigraph::sparql::QuerySolutionIter<'a>);

/// `oxigraph::sparql::QueryTripleIter`, the triples a query builds.
#[verifier::external_type_specification]
#[verifier::external_body]
pub struct ExQueryTripleIter<'a>(oxigraph::sparql::QueryTripleIter<'a>);

/// `oxigraph::sparql::QuerySolution`, one solution of a query.
#[verifier::external_type_specification]
#[verifier::external_body]
pub struct ExQuerySolution(oxigraph::sparql::QuerySolution);

/// `oxigraph::model::Triple`, one triple a query builds.
#[verifier::external_type_specification]
#[verifier::external_body]
pub struct ExTriple(oxigraph::model::Triple);

/// `oxigraph::sparql::QueryEvaluationError`, why evaluating a query failed.
#[verifier::external_type_specification]
#[verifier::external_body]
pub struct ExQueryEvaluationError(oxigraph::sparql::QueryEvaluationError);

/// Why a query was not answered: it does not parse, or evaluating or
/// serializing it failed.
pub enum QueryFailure {
    Syntax(String),
    Evaluation(String),
}

/// What `oxigraph::sparql::SparqlEvaluator::parse_query` makes of a query:
/// the kind of results its form yields (`SELECT` solutions, an `ASK`
/// boolean, or the triples of a `CONSTRUCT` or `DESCRIBE`), else the text of
/// its syntax error.
pub uninterp spec fn sparql_query_form(query: Seq<char>) -> Result<ResultsKind, Seq<char>>;

/// The media type a kind of results is served with: Turtle for triples,
/// SPARQL results in JSON otherwise.
pub open spec fn media_type_for(kind: ResultsKind) -> Seq<char> {
    if kind == ResultsKind::Graph {
        rdf_media_type()
    } else {
        query_results_media_type()
    }
}

/// Serializes solutions as SPARQL results in JSON, with
/// `oxigraph::sparql::results::QueryResultsSerializer`.
#[verifier::external_body]
fn serialize_solutions(solutions: oxigraph::sparql::QuerySolutionIter<'static>) -> (r: Result<
    Vec<u8>,
    String,
>) {
    let format = oxigraph::sparql::results::QueryResultsFormat::Json;
    let variables = solutions.variables().to_vec();
    let mut serializer = oxigraph::sparql::results::QueryResultsSerializer::from_format(format)
        .serialize_solutions_to_writer(Vec::new(), variables).map_err(|error| error.to_string())?;
    for solution in solutions {
        let solution = solution.map_err(|error| error.to_string())?;
        serializer.serialize(&solution).map_err(|error| error.to_string())?;
    }
    serializer.finish().map_err(|error| error.to_string())
}

/// Serializes a boolean as SPARQL results in JSON, with
/// `oxigraph::sparql::results::QueryResultsSerializer`.
#[verifier::external_body]
fn serialize_boolean(value: bool) -> (r: Result<Vec<u8>, String>) {
    let format = oxigraph::sparql::results::QueryResultsFormat::Json;
    let serializer = oxigraph::sparql::results::QueryResultsSerializer::from_format(format);
    serializer.serialize_boolean_to_writer(Vec::new(), value).map_err(|error| error.to_string())
}

/// Serializes triples as Turtle, with `oxigraph::io::RdfSerializer`.
#[verifier::external_body]
fn serialize_graph(triples: oxigraph::sparql::QueryTripleIter<'static>) -> (r: Result<
    Vec<u8>,
    String,
>) {
    let format = oxigraph::io::RdfFormat::Turtle;
    let mut serializer = oxigraph::io::RdfSerializer::from_format(format).for_writer(Vec::new());
    for triple in triples {
        let triple = triple.map_err(|error| error.to_string())?;
        serializer.serialize_triple(&triple).map_err(|error| error.to_string())?;
    }
    serializer.finish().map_err(|error| error.to_string())
}

/// The kind of `oxigraph` query results, one variant for each, with their
/// serialization.
#[verifier::external_body]
fn serialize_results(results: oxigraph::sparql::QueryResults<'static>) -> (r: Result<
    (ResultsKind, Vec<u8>),
    String,
>) {
    match results {
        oxigraph::sparql::QueryResults::Solutions(s) => Ok((ResultsKind::Solutions, serialize_solutions(s)?)),
        oxigraph::sparql::QueryResults::Boolean(b) => Ok((ResultsKind::Boolean, serialize_boolean(b)?)),
        oxigraph::sparql::QueryResults::Graph(t) => Ok((ResultsKind::Graph, serialize_graph(t)?)),
    }
}

/// Parses the query with `oxigraph::sparql::SparqlEvaluator::parse_query`,
/// makes its default graph the union of the store's graphs
/// (`set_default_graph_as_union`), evaluates it on the store and serializes
/// what it yields. The contract claims that it fails as a syntax error
/// exactly when the query does not parse, with the parser's message, and
/// that results are of the kind the query's form yields. Whether evaluation
/// fails, and what the answer holds, rest on the order in which the store
/// walks its quads and named graphs (the latter a hash map seeded per
/// process), and are not stated.
#[verifier::external_body]
fn run_query(store: &oxigraph::store::Store, query: &str) -> (r: Result<
    (ResultsKind, Vec<u8>),
    QueryFailure,
>)
    ensures
        match sparql_query_form(query@) {
            Err(e) => r matches Err(QueryFailure::Syntax(m)) && m@ == e,
            Ok(kind) => !(r matches Err(QueryFailure::Syntax(_))) && (r matches Ok((k, _)) ==> k
                == kind),
        },
{
    let parsed = oxigraph::sparql::SparqlEvaluator::new().parse_query(query);
    let mut prepared = parsed.map_err(|error| QueryFailure::Syntax(error.to_string()))?;
    prepared.dataset_mut().set_default_graph_as_union();
    let results = prepared.on_store(store).execute();
    let results = results.map_err(|error| QueryFailure::Evaluation(error.to_string()))?;
    serialize_results(results).map_err(QueryFailure::Evaluation)
}

/// The answer to a query from how running it went: the results with the
/// media type of their kind; a syntax error as a bad request (400) with its
/// message; any other failure as an internal error (500) with its message.
pub fn answer_query(outcome: Result<(ResultsKind, Vec<u8>), QueryFailure>) -> (r: Result<
    (&'static str, Vec<u8>),
    HttpError,
>)
    ensures
        match outcome {
            Ok((kind, body)) => r matches Ok((t, b)) && t@ == media_type_for(kind) && b@ == body@,
            Err(QueryFailure::Syntax(m)) => r matches Err(h) && h.status == 400 && h.message@ == m@,
            Err(QueryFailure::Evaluation(m)) => r matches Err(h) && h.status == 500 && h.message@
                == m@,
        },
{
    match outcome {
        Ok((kind, body)) => Ok((results_media_type(kind), body)),
        Err(QueryFailure::Syntax(message)) => Err(HttpError { status: 400, message }),
        Err(QueryFailure::Evaluation(message)) => Err(HttpError { status: 500, message }),
    }
}

/// Evaluates a query on the dataset, its default graph being the union of
/// the dataset's graphs: a query that does not parse is a bad request (400)
/// with the parser's message; the results of `SELECT` and `ASK` come as
/// SPARQL results in JSON, those of `CONSTRUCT` and `DESCRIBE` as Turtle;
/// a failure of evaluation is an internal error (500).
pub fn evaluate_query(dataset: &Dataset, query: &str) -> (r: Result<(&'static str, Vec<u8>), HttpError>)
    ensures
        match sparql_query_form(query@) {
            Err(e) => r matches Err(h) && h.status == 400 && h.message@ == e,
            Ok(kind) => match r {
                Ok((t, _)) => t@ == media_type_for(kind),
                Err(h) => h.status == 500,
            },
        },
{
    answer_query(run_query(&dataset.store, query))
}

/// What a reload leaves in the dataset: the quads `before` held outside the
/// graphs it drops (those of the affected sources, the graphs of `graphs`
/// scoped below them, and the catalog graph), with the staged quads and the
/// new catalog quads `catalog`, which all lie in the catalog graph; `graphs`
/// being the named graphs the dataset listed.
pub open spec fn reloaded(
    before: Set<QuadView>,
    graphs_before: Set<GraphView>,
    affected: Seq<Seq<char>>,
    staged: Seq<QuadView>,
    graphs: Seq<Seq<char>>,
    catalog: Seq<QuadView>,
    after: Set<QuadView>,
) -> bool {
    &&& forall|n: Seq<char>| #[trigger] graphs.contains(n) <==> graphs_before.contains(GraphView::Named(n))
    &&& in_catalog_graph(catalog)
    &&& source_graphs(affected, graphs) is Ok
    &&& after == before.filter(
        |q: QuadView| !in_named(q, source_graphs(affected, graphs)->Ok_0.push(catalog_graph_name())),
    ).union(stored_quads(staged + catalog))
}

impl Dataset {
    /// Puts a reload in place: describes the sources `described` (with the
    /// named graphs staged for the sources of `affected`, the current ones
    /// for the others) and the load errors in a new catalog, then replaces
    /// the graphs of the affected sources, the graphs scoped below them and
    /// the catalog graph by the staged quads and the catalog in one step.
    /// When anything fails the dataset is left as it was. When every staged
    /// quad lies in a graph of an affected source, every other named graph
    /// is left as it was.
    pub fn apply_reload(
        &mut self,
        root_name: Option<&str>,
        affected: &Vec<String>,
        described: &Vec<String>,
        load_errors: &Vec<(String, String)>,
        staged: Vec<RdfQuad>,
        staged_graphs: &Vec<String>,
    ) -> (r: Result<(), String>)
        ensures
            r is Err ==> dataset_quads(*final(self)) == dataset_quads(*old(self)) && dataset_graphs(
                *final(self),
            ) == dataset_graphs(*old(self)),
            r is Ok ==> exists|graphs: Seq<Seq<char>>, catalog: Seq<QuadView>|
                #[trigger] reloaded(
                    dataset_quads(*old(self)),
                    dataset_graphs(*old(self)),
                    texts(affected@),
                    quad_views(staged@),
                    graphs,
                    catalog,
                    dataset_quads(*final(self)),
                ),
            r is Ok && (forall|i: int|
                0 <= i < staged.len() ==> in_owned_graph(#[trigger] staged@[i]@, texts(affected@)))
                ==> forall|q: QuadView|
                q.graph is Named && !in_owned_graph(q, texts(affected@)) ==> (#[trigger] dataset_quads(
                    *final(self),
                ).contains(q) == dataset_quads(*old(self)).contains(q)),
    {
        let current = match self.graph_names() {
            Ok(names) => names,
            Err(e) => return Err(e),
        };
        let listed = match described_graphs(described, affected, staged_graphs, &current) {
            Ok(listed) => listed,
            Err(e) => return Err(e),
        };
        let catalog = match build_catalog(root_name, &listed, load_errors) {
            Ok(quads) => quads,
            Err(e) => return Err(e),
        };
        let ghost catalog_views = quad_views(catalog@);
        let ghost staged_views = quad_views(staged@);
        proof {
            let dv = described_view(listed@);
            let ev = pair_views(load_errors@);
            let root = match root_name {
                Some(n) => Some(n@),
                None => None,
            };
            let blanks = choose|blanks: Seq<Seq<Seq<char>>>|
                blanks_fit(dv, blanks) && crate::catalog::all_labels(blanks).no_duplicates()
                    && catalog_views == root_description(root) + #[trigger] described_quads(dv, blanks)
                    + error_quads(ev);
            lemma_catalog_quads_in_catalog(root, dv, blanks, ev);
        }
        let ghost before = dataset_quads(*self);
        let r = self.replace_sources(affected, &current, staged, catalog);
        proof {
            let av = texts(affected@);
            let gv = texts(current@);
            if r is Ok {
                assert(reloaded(before, dataset_graphs(*old(self)), av, staged_views, gv, catalog_views,
                    dataset_quads(*self)));
                let inserted = staged_views + catalog_views;
                if forall|i: int| 0 <= i < staged_views.len() ==> in_owned_graph(#[trigger] staged_views[i], av) {
                    assert forall|i: int| 0 <= i < inserted.len() implies in_owned_graph(
                        #[trigger] inserted[i],
                        av,
                    ) by {
                        if i < staged_views.len() {
                            assert(inserted[i] == staged_views[i]);
                        } else {
                            assert(inserted[i] == catalog_views[i - staged_views.len()]);
                        }
                    }
                    assert forall|q: QuadView|
                        q.graph is Named && !in_owned_graph(q, av) implies (#[trigger] dataset_quads(
                            *self,
                        ).contains(q) == before.contains(q)) by {
                        law_reload_keeps_other_graphs(before, av, gv, inserted, q);
                    }
                }
            }
        }
        r
    }
}

} // verus!
