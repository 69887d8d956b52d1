//! Parsing RDF sources with `oxigraph`, and loading what a source of an RDF
//! syntax holds: its quads, scoped to its graph.

use vstd::prelude::*;

use crate::formats::{RdfSyntax, SourceFormat};
use crate::loading::LoadPlan;
use crate::rdf::{
    GraphLabel, GraphView, QuadView, RdfQuad, RdfTerm, load_scoped_quads, quad_views, scoped_quad,
    scoping_error, scoping_of,
};

verus! {

/// `oxigraph::model::Quad`, declared so that parsed quads can be handed over.
#[verifier::external_type_specification]
#[verifier::external_body]
pub struct ExQuad(oxigraph::model::Quad);

/// `oxigraph::model::NamedOrBlankNode`, the subject of a parsed quad.
#[verifier::external_type_specification]
#[verifier::external_body]
pub struct ExNamedOrBlankNode(oxigraph::model::NamedOrBlankNode);

/// `oxigraph::model::Term`, the object of a parsed quad.
#[verifier::external_type_specification]
#[verifier::external_body]
pub struct ExTerm(oxigraph::model::Term);

/// `oxigraph::model::GraphName`, the graph of a parsed quad.
#[verifier::external_type_specification]
#[verifier::external_body]
pub struct ExGraphName(oxigraph::model::GraphName);

/// `oxigraph::io::RdfFormat`, the syntax a parser reads.
#[verifier::external_type_specification]
#[verifier::external_body]
pub struct ExRdfFormat(oxigraph::io::RdfFormat);

/// What `oxigraph::io::RdfParser` reports when it parses `source` in `syntax`
/// with base IRI `base_iri`: `None` when every quad parses, else the text of
/// the first error (of the base IRI, or of the document).
pub uninterp spec fn rdf_parse_error(syntax: RdfSyntax, base_iri: Seq<char>, source: Seq<u8>) -> Option<
    Seq<char>,
>;

/// The `oxigraph::io::RdfFormat` of a syntax, one variant for each.
#[verifier::external_body]
fn rdf_format(syntax: RdfSyntax) -> (r: oxigraph::io::RdfFormat) {
    match syntax {
        RdfSyntax::JsonLd => oxigraph::io::RdfFormat::JsonLd {
            profile: oxigraph::io::JsonLdProfileSet::empty(),
        },
        RdfSyntax::N3 => oxigraph::io::RdfFormat::N3,
        RdfSyntax::NQuads => oxigraph::io::RdfFormat::NQuads,
        RdfSyntax::NTriples => oxigraph::io::RdfFormat::NTriples,
        RdfSyntax::RdfXml => oxigraph::io::RdfFormat::RdfXml,
        RdfSyntax::TriG => oxigraph::io::RdfFormat::TriG,
        RdfSyntax::Turtle => oxigraph::io::RdfFormat::Turtle,
    }
}

/// Calls `oxigraph::io::RdfParser::from_format`, `with_base_iri` and
/// `for_slice`, and collects the quads. The contract claims that whether and
/// how it fails is a function of the syntax, the base IRI and the bytes
/// (named `rdf_parse_error`), the error text being its `Display`. Of the quads
/// nothing is claimed: the parser gives blank nodes fresh random labels.
#[verifier::external_body]
fn parse_rdf(syntax: RdfSyntax, base_iri: &str, source: &[u8]) -> (r: Result<
    Vec<oxigraph::model::Quad>,
    String,
>)
    ensures
        r is Err <==> rdf_parse_error(syntax, base_iri@, source@) is Some,
        r matches Err(e) ==> rdf_parse_error(syntax, base_iri@, source@) == Some(e@),
{
    let parser = oxigraph::io::RdfParser::from_format(rdf_format(syntax)).with_base_iri(
        base_iri,
    ).map_err(|error| error.to_string())?;
    parser.for_slice(source).collect::<Result<Vec<_>, _>>().map_err(|error| error.to_string())
}

/// The parts of an `oxigraph` quad: subject, predicate IRI, object, graph.
#[verifier::external_body]
fn quad_parts(quad: oxigraph::model::Quad) -> (r: (
    oxigraph::model::NamedOrBlankNode,
    String,
    oxigraph::model::Term,
    oxigraph::model::GraphName,
)) {
    (quad.subject, quad.predicate.into_string(), quad.object, quad.graph_name)
}

/// An `oxigraph` subject as a term: an IRI or a blank node label.
#[verifier::external_body]
fn subject_value(subject: oxigraph::model::NamedOrBlankNode) -> (r: RdfTerm)
    ensures
        !(r is Literal),
{
    match subject {
        oxigraph::model::NamedOrBlankNode::NamedNode(node) => RdfTerm::Named(node.into_string()),
        oxigraph::model::NamedOrBlankNode::BlankNode(node) => RdfTerm::Blank(node.into_string()),
    }
}

/// An `oxigraph` term as a term: an IRI, a blank node label, or a literal's
/// value, datatype IRI and language tag.
#[verifier::external_body]
fn term_value(term: oxigraph::model::Term) -> (r: RdfTerm) {
    match term {
        oxigraph::model::Term::NamedNode(node) => RdfTerm::Named(node.into_string()),
        oxigraph::model::Term::BlankNode(node) => RdfTerm::Blank(node.into_string()),
        oxigraph::model::Term::Literal(literal) => RdfTerm::Literal {
            value: literal.value().to_owned(),
            datatype: literal.datatype().as_str().to_owned(),
            language: literal.language().map(str::to_owned),
        },
    }
}

/// An `oxigraph` graph name as a graph label.
#[verifier::external_body]
fn graph_value(graph: oxigraph::model::GraphName) -> (r: GraphLabel) {
    match graph {
        oxigraph::model::GraphName::DefaultGraph => GraphLabel::Default,
        oxigraph::model::GraphName::NamedNode(node) => GraphLabel::Named(node.into_string()),
        oxigraph::model::GraphName::BlankNode(node) => GraphLabel::Blank(node.into_string()),
    }
}

/// The library's quads for parsed `oxigraph` quads, in order.
pub fn quads_of(parsed: Vec<oxigraph::model::Quad>) -> (r: Vec<RdfQuad>)
    ensures
        r.len() == parsed.len(),
        forall|i: int| 0 <= i < r.len() ==> !(#[trigger] r@[i].subject is Literal),
{
    let ghost total = parsed.len();
    let mut rest = parsed;
    let mut reversed: Vec<RdfQuad> = Vec::new();
    while rest.len() > 0
        invariant
            rest.len() + reversed.len() == total,
            forall|i: int| 0 <= i < reversed.len() ==> !(#[trigger] reversed@[i].subject is Literal),
        decreases rest.len(),
    {
        let quad = rest.pop().unwrap();
        let (subject, predicate, object, graph) = quad_parts(quad);
        reversed.push(
            RdfQuad {
                subject: subject_value(subject),
                predicate,
                object: term_value(object),
                graph: graph_value(graph),
            },
        );
    }
    let mut quads: Vec<RdfQuad> = Vec::new();
    while reversed.len() > 0
        invariant
            quads.len() + reversed.len() == total,
            forall|i: int| 0 <= i < reversed.len() ==> !(#[trigger] reversed@[i].subject is Literal),
            forall|i: int| 0 <= i < quads.len() ==> !(#[trigger] quads@[i].subject is Literal),
        decreases reversed.len(),
    {
        let quad = reversed.pop().unwrap();
        quads.push(quad);
    }
    quads
}

/// What loading a source from quads gives: the quads scoped to the source's
/// graph with the names of its embedded graphs, or the scoping error.
pub open spec fn loaded_from(
    quads: Seq<QuadView>,
    graph: Seq<char>,
    r: Result<(Vec<RdfQuad>, Vec<String>), String>,
) -> bool {
    match r {
        Ok((scoped, names)) => {
            let mapping = scoping_of(quads, graph);
            &&& scoping_error(quads, graph) is None
            &&& quad_views(scoped@) == quads.map_values(|q: QuadView| scoped_quad(mapping, graph, q))
            &&& names@.map_values(|n: String| n@) == mapping.map_values(
                |e: (GraphView, Seq<char>)| e.1,
            )
        },
        Err(message) => scoping_error(quads, graph) == Some(message@),
    }
}

/// Loads a source of an RDF syntax: parses its bytes with its base IRI, then
/// scopes the quads to its graph. It fails with the parse error when the bytes
/// do not parse; else it gives what scoping the parsed quads gives.
pub fn load_rdf_source(plan: &LoadPlan, source: &[u8]) -> (r: Result<
    (Vec<RdfQuad>, Vec<String>),
    String,
>)
    requires
        plan.format is Rdf,
    ensures
        match rdf_parse_error(plan.format->Rdf_0, plan.base_iri@, source@) {
            Some(e) => r matches Err(m) && m@ == e,
            None => exists|quads: Seq<QuadView>| #[trigger] loaded_from(quads, plan.graph@, r),
        },
{
    let syntax = match plan.format {
        SourceFormat::Rdf(syntax) => syntax,
        _ => RdfSyntax::Turtle,
    };
    let parsed = match parse_rdf(syntax, plan.base_iri.as_str(), source) {
        Ok(parsed) => parsed,
        Err(e) => return Err(e),
    };
    let quads = quads_of(parsed);
    let ghost views = quad_views(quads@);
    let r = load_scoped_quads(quads, &plan.graph);
    assert(loaded_from(views, plan.graph@, r));
    r
}

} // verus!
