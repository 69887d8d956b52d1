//! RDF quads as plain values, and how the quads of one source are scoped to
//! that source's graph.
//!
//! A source that declares named graphs keeps them, renamed below its own
//! graph: the graph `g` of the source whose graph is `sparqld:f` becomes
//! `sparqld:f#g`, and every reference to `g` inside the source follows.

use vstd::prelude::*;

use crate::iri::{check_iri, iri_error};
use crate::text::{chars_equal, chars_of, push_str, string_of};

verus! {

/// An RDF term: an IRI, a blank node, or a literal with its datatype IRI and
/// optional language tag.
#[derive(Clone, Debug, PartialEq, Eq)]
pub enum RdfTerm {
    Named(String),
    Blank(String),
    Literal { value: String, datatype: String, language: Option<String> },
}

/// The graph a quad belongs to.
#[derive(Clone, Debug, PartialEq, Eq)]
pub enum GraphLabel {
    Default,
    Named(String),
    Blank(String),
}

/// A quad: subject, predicate IRI, object and graph.
#[derive(Clone, Debug, PartialEq, Eq)]
pub struct RdfQuad {
    pub subject: RdfTerm,
    pub predicate: String,
    pub object: RdfTerm,
    pub graph: GraphLabel,
}

/// A term as plain text values.
pub enum TermView {
    Named(Seq<char>),
    Blank(Seq<char>),
    Literal(Seq<char>, Seq<char>, Option<Seq<char>>),
}

/// A graph label as plain text values.
pub enum GraphView {
    Default,
    Named(Seq<char>),
    Blank(Seq<char>),
}

/// A quad as plain text values.
pub struct QuadView {
    pub subject: TermView,
    pub predicate: Seq<char>,
    pub object: TermView,
    pub graph: GraphView,
}

impl View for RdfTerm {
    type V = TermView;

    open spec fn view(&self) -> TermView {
        match self {
            RdfTerm::Named(n) => TermView::Named(n@),
            RdfTerm::Blank(b) => TermView::Blank(b@),
            RdfTerm::Literal { value, datatype, language } => TermView::Literal(
                value@,
                datatype@,
                match language {
                    Some(l) => Some(l@),
                    None => None,
                },
            ),
        }
    }
}

impl View for GraphLabel {
    type V = GraphView;

    open spec fn view(&self) -> GraphView {
        match self {
            GraphLabel::Default => GraphView::Default,
            GraphLabel::Named(n) => GraphView::Named(n@),
            GraphLabel::Blank(b) => GraphView::Blank(b@),
        }
    }
}

impl View for RdfQuad {
    type V = QuadView;

    open spec fn view(&self) -> QuadView {
        QuadView {
            subject: self.subject@,
            predicate: self.predicate@,
            object: self.object@,
            graph: self.graph@,
        }
    }
}

/// The views of a sequence of quads.
pub open spec fn quad_views(quads: Seq<RdfQuad>) -> Seq<QuadView> {
    quads.map_values(|q: RdfQuad| q@)
}

/// The name below a source graph that an embedded graph is renamed to.
pub open spec fn scoped_name(source_graph: Seq<char>, graph: GraphView) -> Seq<char> {
    match graph {
        GraphView::Named(n) => source_graph + seq!['#'] + n,
        GraphView::Blank(b) => source_graph + seq!['#', '_', ':'] + b,
        GraphView::Default => source_graph,
    }
}

/// The scoped name of an embedded graph, or why it is not a valid IRI.
pub fn scoped_graph_name(source_graph: &str, graph: &GraphLabel) -> (r: Result<String, String>)
    requires
        !(graph@ is Default),
    ensures
        match r {
            Ok(name) => name@ == scoped_name(source_graph@, graph@) && iri_error(name@) is None,
            Err(message) => iri_error(scoped_name(source_graph@, graph@)) == Some(message@),
        },
{
    let mut out = chars_of(source_graph);
    match graph {
        GraphLabel::Named(n) => {
            out.push('#');
            push_str(&mut out, n.as_str());
        },
        GraphLabel::Blank(b) => {
            out.push('#');
            out.push('_');
            out.push(':');
            push_str(&mut out, b.as_str());
        },
        GraphLabel::Default => {},
    }
    let name = string_of(&out);
    proof {
        match graph@ {
            GraphView::Named(n) => assert(name@ =~= source_graph@ + seq!['#'] + n),
            GraphView::Blank(b) => assert(name@ =~= source_graph@ + seq!['#', '_', ':'] + b),
            GraphView::Default => {},
        }
    }
    match check_iri(name.as_str()) {
        Ok(()) => Ok(name),
        Err(message) => Err(message),
    }
}

/// The scoped name recorded for `graph` in `mapping`, if any.
pub open spec fn lookup(mapping: Seq<(GraphView, Seq<char>)>, graph: GraphView) -> Option<
    Seq<char>,
>
    decreases mapping.len(),
{
    if mapping.len() == 0 {
        None
    } else if mapping[0].0 == graph {
        Some(mapping[0].1)
    } else {
        lookup(mapping.drop_first(), graph)
    }
}

/// The renaming of the embedded graphs of `quads`, in order of first use.
pub open spec fn scoping_of(quads: Seq<QuadView>, source_graph: Seq<char>) -> Seq<
    (GraphView, Seq<char>),
>
    decreases quads.len(),
{
    if quads.len() == 0 {
        seq![]
    } else {
        let before = scoping_of(quads.drop_last(), source_graph);
        let g = quads.last().graph;
        if g is Default || lookup(before, g) is Some {
            before
        } else {
            before.push((g, scoped_name(source_graph, g)))
        }
    }
}

/// The first embedded graph of `quads` whose scoped name is not a valid IRI,
/// with the error.
pub open spec fn scoping_error(quads: Seq<QuadView>, source_graph: Seq<char>) -> Option<Seq<char>>
    decreases quads.len(),
{
    if quads.len() == 0 {
        None
    } else {
        let earlier = scoping_error(quads.drop_last(), source_graph);
        if earlier is Some {
            earlier
        } else if quads.last().graph is Default {
            None
        } else {
            iri_error(scoped_name(source_graph, quads.last().graph))
        }
    }
}

/// Once a prefix of the quads has a scoping error, every longer prefix has
/// the same one.
proof fn lemma_scoping_error_persists(quads: Seq<QuadView>, source_graph: Seq<char>, k: int)
    requires
        0 <= k <= quads.len(),
        scoping_error(quads.take(k), source_graph) is Some,
    ensures
        scoping_error(quads, source_graph) == scoping_error(quads.take(k), source_graph),
    decreases quads.len(),
{
    if quads.len() == k {
        assert(quads.take(k) =~= quads);
    } else {
        assert(quads.drop_last().take(k) =~= quads.take(k));
        lemma_scoping_error_persists(quads.drop_last(), source_graph, k);
    }
}

/// A subject or object after scoping: an IRI or blank node that names an
/// embedded graph becomes that graph's scoped name.
pub open spec fn scoped_term(mapping: Seq<(GraphView, Seq<char>)>, term: TermView) -> TermView {
    match term {
        TermView::Named(n) => match lookup(mapping, GraphView::Named(n)) {
            Some(s) => TermView::Named(s),
            None => TermView::Named(n),
        },
        TermView::Blank(b) => match lookup(mapping, GraphView::Blank(b)) {
            Some(s) => TermView::Named(s),
            None => TermView::Blank(b),
        },
        TermView::Literal(v, d, l) => TermView::Literal(v, d, l),
    }
}

/// A quad after scoping to the source graph: its graph is the source graph
/// or the scoped name of its embedded graph, and its references to embedded
/// graphs follow their renaming.
pub open spec fn scoped_quad(
    mapping: Seq<(GraphView, Seq<char>)>,
    source_graph: Seq<char>,
    q: QuadView,
) -> QuadView {
    QuadView {
        subject: scoped_term(mapping, q.subject),
        predicate: match lookup(mapping, GraphView::Named(q.predicate)) {
            Some(s) => s,
            None => q.predicate,
        },
        object: scoped_term(mapping, q.object),
        graph: match q.graph {
            GraphView::Default => GraphView::Named(source_graph),
            g => GraphView::Named(
                match lookup(mapping, g) {
                    Some(s) => s,
                    None => source_graph,
                },
            ),
        },
    }
}

/// A copy of a graph label.
pub fn clone_label(g: &GraphLabel) -> (r: GraphLabel)
    ensures
        r@ == g@,
{
    match g {
        GraphLabel::Default => GraphLabel::Default,
        GraphLabel::Named(n) => GraphLabel::Named(n.clone()),
        GraphLabel::Blank(b) => GraphLabel::Blank(b.clone()),
    }
}

fn same_label(a: &GraphLabel, b: &GraphLabel) -> (r: bool)
    ensures
        r == (a@ == b@),
{
    match (a, b) {
        (GraphLabel::Default, GraphLabel::Default) => true,
        (GraphLabel::Named(x), GraphLabel::Named(y)) => chars_equal(&chars_of(x), &chars_of(y)),
        (GraphLabel::Blank(x), GraphLabel::Blank(y)) => chars_equal(&chars_of(x), &chars_of(y)),
        _ => false,
    }
}

/// The mapping's views.
pub open spec fn mapping_view(mapping: Seq<(GraphLabel, String)>) -> Seq<(GraphView, Seq<char>)> {
    mapping.map_values(|e: (GraphLabel, String)| (e.0@, e.1@))
}

fn find_scoped(mapping: &Vec<(GraphLabel, String)>, graph: &GraphLabel) -> (r: Option<usize>)
    ensures
        match r {
            Some(i) => i < mapping.len() && lookup(mapping_view(mapping@), graph@) == Some(
                mapping@[i as int].1@,
            ),
            None => lookup(mapping_view(mapping@), graph@) is None,
        },
{
    let ghost m = mapping_view(mapping@);
    let mut i: usize = 0;
    assert(m.skip(0) =~= m);
    while i < mapping.len()
        invariant
            i <= mapping.len(),
            m == mapping_view(mapping@),
            lookup(m, graph@) == lookup(m.skip(i as int), graph@),
        decreases mapping.len() - i,
    {
        assert(m.skip(i as int)[0] == (mapping@[i as int].0@, mapping@[i as int].1@));
        if same_label(&mapping[i].0, graph) {
            return Some(i);
        }
        assert(m.skip(i as int).drop_first() =~= m.skip(i + 1));
        i = i + 1;
    }
    None
}

fn term_named(mapping: &Vec<(GraphLabel, String)>, n: &String) -> (r: Option<String>)
    ensures
        match r {
            Some(s) => lookup(mapping_view(mapping@), GraphView::Named(n@)) == Some(s@),
            None => lookup(mapping_view(mapping@), GraphView::Named(n@)) is None,
        },
{
    let label = GraphLabel::Named(n.clone());
    match find_scoped(mapping, &label) {
        Some(i) => Some(mapping[i].1.clone()),
        None => None,
    }
}

fn scope_term(mapping: &Vec<(GraphLabel, String)>, term: RdfTerm) -> (r: RdfTerm)
    ensures
        r@ == scoped_term(mapping_view(mapping@), term@),
{
    match term {
        RdfTerm::Named(n) => match term_named(mapping, &n) {
            Some(s) => RdfTerm::Named(s),
            None => RdfTerm::Named(n),
        },
        RdfTerm::Blank(b) => {
            let label = GraphLabel::Blank(b.clone());
            assert(label@ == GraphView::Blank(b@));
            match find_scoped(mapping, &label) {
                Some(i) => RdfTerm::Named(mapping[i].1.clone()),
                None => RdfTerm::Blank(b),
            }
        },
        RdfTerm::Literal { value, datatype, language } => RdfTerm::Literal { value, datatype, language },
    }
}

/// A quad scoped to the source graph under the given renaming.
pub fn scope_quad(quad: RdfQuad, source_graph: &String, mapping: &Vec<(GraphLabel, String)>) -> (r:
    RdfQuad)
    ensures
        r@ == scoped_quad(mapping_view(mapping@), source_graph@, quad@),
{
    let predicate = match term_named(mapping, &quad.predicate) {
        Some(s) => s,
        None => quad.predicate,
    };
    let graph = match quad.graph {
        GraphLabel::Default => GraphLabel::Named(source_graph.clone()),
        g => match find_scoped(mapping, &g) {
            Some(i) => GraphLabel::Named(mapping[i].1.clone()),
            None => GraphLabel::Named(source_graph.clone()),
        },
    };
    RdfQuad {
        subject: scope_term(mapping, quad.subject),
        predicate,
        object: scope_term(mapping, quad.object),
        graph,
    }
}

/// The quads of one source scoped to its graph, with the scoped names of its
/// embedded graphs in order of first use; or the error of the first embedded
/// graph whose scoped name is not a valid IRI.
pub fn load_scoped_quads(quads: Vec<RdfQuad>, source_graph: &String) -> (r: Result<
    (Vec<RdfQuad>, Vec<String>),
    String,
>)
    ensures
        match r {
            Ok((scoped, names)) => {
                let mapping = scoping_of(quad_views(quads@), source_graph@);
                &&& scoping_error(quad_views(quads@), source_graph@) is None
                &&& quad_views(scoped@) == quad_views(quads@).map_values(
                    |q: QuadView| scoped_quad(mapping, source_graph@, q),
                )
                &&& names@.map_values(|n: String| n@) == mapping.map_values(
                    |e: (GraphView, Seq<char>)| e.1,
                )
            },
            Err(message) => scoping_error(quad_views(quads@), source_graph@) == Some(message@),
        },
{
    let ghost qs = quad_views(quads@);
    let mut mapping: Vec<(GraphLabel, String)> = Vec::new();
    let mut i: usize = 0;
    while i < quads.len()
        invariant
            i <= quads.len(),
            qs == quad_views(quads@),
            mapping_view(mapping@) == scoping_of(qs.take(i as int), source_graph@),
            scoping_error(qs.take(i as int), source_graph@) is None,
        decreases quads.len() - i,
    {
        proof {
            assert(qs.take(i + 1).drop_last() =~= qs.take(i as int));
            assert(qs.take(i + 1).last() == quads@[i as int]@);
        }
        let g = &quads[i].graph;
        let is_default = match g {
            GraphLabel::Default => true,
            _ => false,
        };
        if !is_default {
            match scoped_graph_name(source_graph.as_str(), g) {
                Err(message) => {
                    proof {
                        lemma_scoping_error_persists(qs, source_graph@, i + 1);
                    }
                    return Err(message);
                },
                Ok(name) => {
                    if find_scoped(&mapping, g).is_none() {
                        let ghost before = mapping_view(mapping@);
                        mapping.push((clone_label(g), name));
                        assert(mapping_view(mapping@) =~= before.push((g@, scoped_name(source_graph@, g@))));
                    }
                },
            }
        }
        i = i + 1;
    }
    proof {
        assert(qs.take(i as int) =~= qs);
    }
    let ghost m = mapping_view(mapping@);
    let mut scoped: Vec<RdfQuad> = Vec::new();
    let mut pending = quads;
    let mut rest: Vec<RdfQuad> = Vec::new();
    // Turn the quads around so that popping hands them out in order.
    while pending.len() > 0
        invariant
            pending.len() + rest.len() == qs.len(),
            forall|k: int| 0 <= k < pending.len() ==> #[trigger] pending@[k]@ == qs[k],
            forall|k: int| 0 <= k < rest.len() ==> #[trigger] rest@[k]@ == qs[qs.len() - 1 - k],
        decreases pending.len(),
    {
        let q = pending.pop().unwrap();
        rest.push(q);
    }
    while rest.len() > 0
        invariant
            m == mapping_view(mapping@),
            scoped.len() + rest.len() == qs.len(),
            forall|k: int| 0 <= k < rest.len() ==> #[trigger] rest@[k]@ == qs[qs.len() - 1 - k],
            quad_views(scoped@) == qs.take(scoped.len() as int).map_values(
                |q: QuadView| scoped_quad(m, source_graph@, q),
            ),
        decreases rest.len(),
    {
        let ghost k = scoped.len();
        let q = rest.pop().unwrap();
        assert(q@ == qs[k as int]);
        let ghost before = quad_views(scoped@);
        let s = scope_quad(q, source_graph, &mapping);
        scoped.push(s);
        assert(quad_views(scoped@) =~= before.push(scoped_quad(m, source_graph@, qs[k as int])));
        assert(qs.take(k + 1).map_values(|q: QuadView| scoped_quad(m, source_graph@, q))
            =~= qs.take(k as int).map_values(|q: QuadView| scoped_quad(m, source_graph@, q)).push(
            scoped_quad(m, source_graph@, qs[k as int]),
        ));
    }
    assert(qs.take(qs.len() as int) =~= qs);
    let mut names: Vec<String> = Vec::new();
    let mut j: usize = 0;
    while j < mapping.len()
        invariant
            j <= mapping.len(),
            m == mapping_view(mapping@),
            names@.map_values(|n: String| n@) == m.take(j as int).map_values(
                |e: (GraphView, Seq<char>)| e.1,
            ),
        decreases mapping.len() - j,
    {
        let ghost before = names@.map_values(|n: String| n@);
        names.push(mapping[j].1.clone());
        assert(names@.map_values(|n: String| n@) =~= before.push(m[j as int].1));
        assert(m.take(j + 1).map_values(|e: (GraphView, Seq<char>)| e.1) =~= m.take(
            j as int,
        ).map_values(|e: (GraphView, Seq<char>)| e.1).push(m[j as int].1));
        j = j + 1;
    }
    assert(m.take(j as int) =~= m);
    Ok((scoped, names))
}

} // verus!
