//! The file catalog: quads in the graph `sparqld:` that describe the served
//! directory, its folders, each source file, the named graphs a source
//! declares, and each source that failed to load.

use vstd::prelude::*;

use crate::context::components;
use crate::iri::{check_iri, graph_name, graph_name_of, iri_error, iri_scheme, path_iri, path_iri_of};
use crate::paths::{file_name, file_name_of, find_last, lemma_last_index_of, parent, parent_of};
use crate::rdf::{GraphLabel, GraphView, QuadView, RdfQuad, RdfTerm, TermView, quad_views};
use crate::pathset::{insert_path, is_path_set, lemma_take_to_set, path_set};
use crate::text::{chars_equal, chars_of, has_prefix, joined, texts, push_chars, slice_chars, string_of};

verus! {

/// `rdf:type`.
pub open spec fn rdf_type() -> Seq<char> {
    "http://www.w3.org/1999/02/22-rdf-syntax-ns#type"@
}

/// The datatype of a plain string literal.
pub open spec fn xsd_string() -> Seq<char> {
    "http://www.w3.org/2001/XMLSchema#string"@
}

/// `nfo:FileDataObject`.
pub open spec fn nfo_file_data_object() -> Seq<char> {
    "http://www.semanticdesktop.org/ontologies/2007/03/22/nfo#FileDataObject"@
}

/// `nfo:Folder`.
pub open spec fn nfo_folder() -> Seq<char> {
    "http://www.semanticdesktop.org/ontologies/2007/03/22/nfo#Folder"@
}

/// `nfo:fileName`.
pub open spec fn nfo_file_name() -> Seq<char> {
    "http://www.semanticdesktop.org/ontologies/2007/03/22/nfo#fileName"@
}

/// `nfo:belongsToContainer`.
pub open spec fn nfo_belongs_to_container() -> Seq<char> {
    "http://www.semanticdesktop.org/ontologies/2007/03/22/nfo#belongsToContainer"@
}

/// `rlog:Entry`.
pub open spec fn rlog_entry() -> Seq<char> {
    "http://persistence.uni-leipzig.org/nlp2rdf/ontologies/rlog#Entry"@
}

/// `rlog:ERROR`.
pub open spec fn rlog_error() -> Seq<char> {
    "http://persistence.uni-leipzig.org/nlp2rdf/ontologies/rlog#ERROR"@
}

/// `rlog:level`.
pub open spec fn rlog_level() -> Seq<char> {
    "http://persistence.uni-leipzig.org/nlp2rdf/ontologies/rlog#level"@
}

/// `rlog:message`.
pub open spec fn rlog_message() -> Seq<char> {
    "http://persistence.uni-leipzig.org/nlp2rdf/ontologies/rlog#message"@
}

/// `rlog:resource`.
pub open spec fn rlog_resource() -> Seq<char> {
    "http://persistence.uni-leipzig.org/nlp2rdf/ontologies/rlog#resource"@
}

/// `sd:Dataset`.
pub open spec fn sd_dataset() -> Seq<char> {
    "http://www.w3.org/ns/sparql-service-description#Dataset"@
}

/// `sd:name`.
pub open spec fn sd_name() -> Seq<char> {
    "http://www.w3.org/ns/sparql-service-description#name"@
}

/// `sd:namedGraph`.
pub open spec fn sd_named_graph() -> Seq<char> {
    "http://www.w3.org/ns/sparql-service-description#namedGraph"@
}

/// `sd:NamedGraph`.
pub open spec fn sd_named_graph_class() -> Seq<char> {
    "http://www.w3.org/ns/sparql-service-description#NamedGraph"@
}

/// The graph that holds the catalog, which is also the IRI of the served
/// directory itself.
pub open spec fn catalog_graph() -> Seq<char> {
    iri_scheme()
}

/// A quad of the catalog graph.
pub open spec fn catalog_quad(subject: TermView, predicate: Seq<char>, object: TermView) -> QuadView {
    QuadView { subject, predicate, object, graph: GraphView::Named(catalog_graph()) }
}

/// A plain string literal.
pub open spec fn text_literal(text: Seq<char>) -> TermView {
    TermView::Literal(text, xsd_string(), None)
}

/// `resource rdf:type class`.
pub open spec fn type_quad(resource: Seq<char>, class: Seq<char>) -> QuadView {
    catalog_quad(TermView::Named(resource), rdf_type(), TermView::Named(class))
}

/// `resource nfo:fileName "name"`.
pub open spec fn file_name_quad(resource: Seq<char>, name: Seq<char>) -> QuadView {
    catalog_quad(TermView::Named(resource), nfo_file_name(), text_literal(name))
}

/// `resource nfo:belongsToContainer container`.
pub open spec fn container_quad(resource: Seq<char>, container: Seq<char>) -> QuadView {
    catalog_quad(TermView::Named(resource), nfo_belongs_to_container(), TermView::Named(container))
}

/// What the catalog says of the served directory, given its name when it
/// has one.
pub open spec fn root_description(root_name: Option<Seq<char>>) -> Seq<QuadView> {
    let base = seq![
        type_quad(catalog_graph(), nfo_file_data_object()),
        type_quad(catalog_graph(), nfo_folder()),
    ];
    match root_name {
        Some(name) => base.push(file_name_quad(catalog_graph(), name)),
        None => base,
    }
}

/// What the catalog says of one folder.
pub open spec fn folder_quads(folder: Seq<char>, name: Seq<char>, container: Seq<char>) -> Seq<
    QuadView,
> {
    seq![
        type_quad(folder, nfo_file_data_object()),
        type_quad(folder, nfo_folder()),
        file_name_quad(folder, name),
        container_quad(folder, container),
    ]
}

/// The error for a directory path that is not relative.
pub open spec fn not_relative_message(directory: Seq<char>) -> Seq<char> {
    "directory path is not relative: "@ + directory
}

/// The folders named by the leading components `parts` of `directory`, each
/// inside the one before: the innermost folder's IRI and the quads that
/// describe them, or the first error met on the way.
pub open spec fn folder_walk(directory: Seq<char>, parts: Seq<Seq<char>>) -> Result<
    (Seq<char>, Seq<QuadView>),
    Seq<char>,
>
    decreases parts.len(),
{
    if parts.len() == 0 {
        Ok((catalog_graph(), seq![]))
    } else {
        match folder_walk(directory, parts.drop_last()) {
            Err(e) => Err(e),
            Ok((container, quads)) => if parts.last() == seq!['.', '.'] {
                Err(not_relative_message(directory))
            } else {
                let folder = path_iri_of(joined(parts, seq!['/']), true);
                match iri_error(folder) {
                    Some(e) => Err(e),
                    None => Ok((folder, quads + folder_quads(folder, parts.last(), container))),
                }
            },
        }
    }
}

/// The folders of a relative directory path: the IRI of the directory and the
/// quads that describe it and the folders around it, or why it cannot be
/// described.
pub open spec fn directories_of(directory: Seq<char>) -> Result<(Seq<char>, Seq<QuadView>), Seq<char>> {
    if directory.len() == 0 {
        Ok((catalog_graph(), seq![]))
    } else if directory[0] == '/' {
        Err(not_relative_message(directory))
    } else {
        folder_walk(directory, components(directory))
    }
}

/// What the catalog says of a source in its own right: its type, its file name,
/// its folder, and each named graph it declares, described by a blank node of
/// `blanks`.
pub open spec fn source_quads(
    graph: Seq<char>,
    container: Seq<char>,
    name: Seq<char>,
    embedded: Seq<Seq<char>>,
    blanks: Seq<Seq<char>>,
) -> Seq<QuadView> {
    let own = seq![
        type_quad(graph, nfo_file_data_object()),
        file_name_quad(graph, name),
        container_quad(graph, container),
    ];
    let dataset = if embedded.len() > 0 {
        seq![type_quad(graph, sd_dataset())]
    } else {
        seq![]
    };
    own + dataset + embedded_descriptions(graph, embedded, blanks)
}

/// The description of each named graph that a source declares.
pub open spec fn embedded_descriptions(
    graph: Seq<char>,
    embedded: Seq<Seq<char>>,
    blanks: Seq<Seq<char>>,
) -> Seq<QuadView>
    decreases embedded.len(),
{
    if embedded.len() == 0 {
        seq![]
    } else {
        let k = embedded.len() - 1;
        embedded_descriptions(graph, embedded.drop_last(), blanks) + named_graph_quads(
            graph,
            embedded[k],
            blanks[k],
        )
    }
}

/// `graph sd:namedGraph _:b . _:b rdf:type sd:NamedGraph . _:b sd:name name`.
pub open spec fn named_graph_quads(graph: Seq<char>, name: Seq<char>, blank: Seq<char>) -> Seq<
    QuadView,
> {
    seq![
        catalog_quad(TermView::Named(graph), sd_named_graph(), TermView::Blank(blank)),
        catalog_quad(TermView::Blank(blank), rdf_type(), TermView::Named(sd_named_graph_class())),
        catalog_quad(TermView::Blank(blank), sd_name(), TermView::Named(name)),
    ]
}

/// Everything the catalog says of a source: the folders around it, then the
/// source itself; or why it cannot be described.
pub open spec fn source_entry(
    relative: Seq<char>,
    embedded: Seq<Seq<char>>,
    blanks: Seq<Seq<char>>,
) -> Result<Seq<QuadView>, Seq<char>> {
    match graph_name_of(relative) {
        Err(e) => Err(e),
        Ok(graph) => match directories_of(parent_of(relative)) {
            Err(e) => Err(e),
            Ok((container, folders)) => Ok(
                folders + source_quads(graph, container, file_name_of(relative), embedded, blanks),
            ),
        },
    }
}

/// The IRI of the catalog entry for a source's load error.
pub open spec fn error_entry_of(graph: Seq<char>) -> Seq<char> {
    graph + "#load-error"@
}

/// What the catalog says of a source that failed to load, or why it cannot.
pub open spec fn load_error_entry(relative: Seq<char>, message: Seq<char>) -> Result<
    Seq<QuadView>,
    Seq<char>,
> {
    match graph_name_of(relative) {
        Err(e) => Err(e),
        Ok(graph) => {
            let entry = error_entry_of(graph);
            match iri_error(entry) {
                Some(e) => Err(e),
                None => Ok(
                    seq![
                        type_quad(entry, rlog_entry()),
                        catalog_quad(
                            TermView::Named(entry),
                            rlog_level(),
                            TermView::Named(rlog_error()),
                        ),
                        catalog_quad(
                            TermView::Named(entry),
                            rlog_resource(),
                            TermView::Named(graph),
                        ),
                        catalog_quad(TermView::Named(entry), rlog_message(), text_literal(message)),
                    ],
                ),
            }
        },
    }
}

fn iri_text(s: &str) -> (r: String)
    ensures
        r@ == s@,
{
    s.to_owned()
}

fn catalog_graph_name() -> (r: String)
    ensures
        r@ == catalog_graph(),
{
    iri_text("sparqld:")
}

fn named(iri: &String) -> (r: RdfTerm)
    ensures
        r@ == TermView::Named(iri@),
{
    RdfTerm::Named(iri.clone())
}

fn catalog_quad_of(subject: RdfTerm, predicate: String, object: RdfTerm) -> (r: RdfQuad)
    ensures
        r@ == catalog_quad(subject@, predicate@, object@),
{
    RdfQuad { subject, predicate, object, graph: GraphLabel::Named(catalog_graph_name()) }
}

fn literal_of(text: &str) -> (r: RdfTerm)
    ensures
        r@ == text_literal(text@),
{
    RdfTerm::Literal {
        value: text.to_owned(),
        datatype: iri_text("http://www.w3.org/2001/XMLSchema#string"),
        language: None,
    }
}

fn type_quad_of(resource: &String, class: &str) -> (r: RdfQuad)
    ensures
        r@ == type_quad(resource@, class@),
{
    catalog_quad_of(
        named(resource),
        iri_text("http://www.w3.org/1999/02/22-rdf-syntax-ns#type"),
        RdfTerm::Named(iri_text(class)),
    )
}

fn file_name_quad_of(resource: &String, name: &str) -> (r: RdfQuad)
    ensures
        r@ == file_name_quad(resource@, name@),
{
    catalog_quad_of(
        named(resource),
        iri_text("http://www.semanticdesktop.org/ontologies/2007/03/22/nfo#fileName"),
        literal_of(name),
    )
}

fn container_quad_of(resource: &String, container: &String) -> (r: RdfQuad)
    ensures
        r@ == container_quad(resource@, container@),
{
    catalog_quad_of(
        named(resource),
        iri_text("http://www.semanticdesktop.org/ontologies/2007/03/22/nfo#belongsToContainer"),
        named(container),
    )
}

/// Appends `extra` to `quads`.
fn append_quads(quads: &mut Vec<RdfQuad>, extra: Vec<RdfQuad>)
    ensures
        quad_views(final(quads)@) == quad_views(old(quads)@) + quad_views(extra@),
{
    let ghost start = quad_views(quads@);
    let ghost added = quad_views(extra@);
    let mut rest = extra;
    let mut reversed: Vec<RdfQuad> = Vec::new();
    while rest.len() > 0
        invariant
            rest.len() + reversed.len() == added.len(),
            forall|k: int| 0 <= k < rest.len() ==> #[trigger] rest@[k]@ == added[k],
            forall|k: int|
                0 <= k < reversed.len() ==> #[trigger] reversed@[k]@ == added[added.len() - 1 - k],
        decreases rest.len(),
    {
        let q = rest.pop().unwrap();
        reversed.push(q);
    }
    while reversed.len() > 0
        invariant
            forall|k: int|
                0 <= k < reversed.len() ==> #[trigger] reversed@[k]@ == added[added.len() - 1 - k],
            quad_views(quads@) == start + added.take(added.len() - reversed.len()),
            reversed.len() <= added.len(),
        decreases reversed.len(),
    {
        let ghost before = quad_views(quads@);
        let ghost n = added.len() - reversed.len();
        let q = reversed.pop().unwrap();
        quads.push(q);
        assert(quad_views(quads@) =~= before.push(added[n]));
        assert(added.take(n + 1) =~= added.take(n).push(added[n]));
    }
    assert(added.take(added.len() as int) =~= added);
}

/// What the catalog says of the served directory, whose own name is
/// `root_name` when it has one.
pub fn describe_root(root_name: Option<&str>) -> (r: Vec<RdfQuad>)
    ensures
        quad_views(r@) == root_description(
            match root_name {
                Some(n) => Some(n@),
                None => None,
            },
        ),
{
    let root = catalog_graph_name();
    let mut quads: Vec<RdfQuad> = Vec::new();
    quads.push(type_quad_of(&root, "http://www.semanticdesktop.org/ontologies/2007/03/22/nfo#FileDataObject"));
    quads.push(type_quad_of(&root, "http://www.semanticdesktop.org/ontologies/2007/03/22/nfo#Folder"));
    if let Some(name) = root_name {
        quads.push(file_name_quad_of(&root, name));
    }
    assert(quad_views(quads@) =~= root_description(
        match root_name {
            Some(n) => Some(n@),
            None => None,
        },
    ));
    quads
}

/// The components of a path, split at each `/`.
fn split_components(p: &Vec<char>) -> (r: Vec<Vec<char>>)
    ensures
        r@.map_values(|v: Vec<char>| v@) == components(p@),
    decreases p.len(),
{
    proof {
        lemma_last_index_of(p@, '/');
    }
    match find_last(p, '/') {
        None => {
            let mut r: Vec<Vec<char>> = Vec::new();
            r.push(p.clone());
            assert(r@.map_values(|v: Vec<char>| v@) =~= seq![p@]);
            r
        },
        Some(k) => {
            let head = slice_chars(p, 0, k);
            let tail = slice_chars(p, k + 1, p.len());
            assert(head@ =~= p@.take(k as int));
            assert(tail@ =~= p@.skip(k + 1));
            let mut r = split_components(&head);
            let ghost before = r@.map_values(|v: Vec<char>| v@);
            r.push(tail);
            assert(r@.map_values(|v: Vec<char>| v@) =~= before.push(p@.skip(k + 1)));
            r
        },
    }
}

/// Describes the folders of a relative directory path: the IRI of the
/// directory, with the quads that describe it and every folder around it.
pub fn describe_directories(directory: &str) -> (r: Result<(String, Vec<RdfQuad>), String>)
    ensures
        match r {
            Ok((container, quads)) => directories_of(directory@) == Ok::<
                (Seq<char>, Seq<QuadView>),
                Seq<char>,
            >((container@, quad_views(quads@))),
            Err(e) => directories_of(directory@) == Err::<(Seq<char>, Seq<QuadView>), Seq<char>>(
                e@,
            ),
        },
{
    let d = chars_of(directory);
    if d.len() == 0 {
        let quads: Vec<RdfQuad> = Vec::new();
        assert(quad_views(quads@) =~= Seq::<QuadView>::empty());
        return Ok((catalog_graph_name(), quads));
    }
    if d[0] == '/' {
        let mut message = chars_of("directory path is not relative: ");
        push_chars(&mut message, &d);
        return Err(string_of(&message));
    }
    let parts = split_components(&d);
    let ghost ps = parts@.map_values(|v: Vec<char>| v@);
    let mut container = catalog_graph_name();
    let mut quads: Vec<RdfQuad> = Vec::new();
    let mut current: Vec<char> = Vec::new();
    let mut i: usize = 0;
    assert(quad_views(quads@) =~= Seq::<QuadView>::empty());
    while i < parts.len()
        invariant
            i <= parts.len(),
            ps == parts@.map_values(|v: Vec<char>| v@),
            ps == components(directory@),
            d@ == directory@,
            directory@.len() > 0,
            directory@[0] != '/',
            current@ == joined(ps.take(i as int), seq!['/']),
            folder_walk(directory@, ps.take(i as int)) == Ok::<
                (Seq<char>, Seq<QuadView>),
                Seq<char>,
            >((container@, quad_views(quads@))),
        decreases parts.len() - i,
    {
        let part = &parts[i];
        assert(ps.take(i + 1).drop_last() =~= ps.take(i as int));
        assert(ps.take(i + 1).last() == part@);
        if part.len() == 2 && part[0] == '.' && part[1] == '.' {
            assert(part@ =~= seq!['.', '.']);
            let mut message = chars_of("directory path is not relative: ");
            push_chars(&mut message, &d);
            proof {
                lemma_walk_error_persists(directory@, ps, i + 1);
            }
            return Err(string_of(&message));
        }
        assert(part@ != seq!['.', '.']) by {
            if part@ == seq!['.', '.'] {
                assert(part@.len() == 2 && part@[0] == '.' && part@[1] == '.');
            }
        }
        if i > 0 {
            current.push('/');
        }
        push_chars(&mut current, part);
        proof {
            if i == 0 {
                assert(current@ =~= part@);
            } else {
                assert(current@ =~= joined(ps.take(i as int), seq!['/']) + seq!['/'] + part@);
            }
            assert(current@ == joined(ps.take(i + 1), seq!['/']));
        }
        let current_text = string_of(&current);
        let folder = path_iri(current_text.as_str(), true);
        match check_iri(folder.as_str()) {
            Err(e) => {
                proof {
                    assert(folder_walk(directory@, ps.take(i + 1)) == Err::<
                        (Seq<char>, Seq<QuadView>),
                        Seq<char>,
                    >(e@));
                    lemma_walk_error_persists(directory@, ps, i + 1);
                }
                return Err(e);
            },
            Ok(()) => {},
        }
        let name = string_of(part);
        let mut added: Vec<RdfQuad> = Vec::new();
        added.push(type_quad_of(&folder, "http://www.semanticdesktop.org/ontologies/2007/03/22/nfo#FileDataObject"));
        added.push(type_quad_of(&folder, "http://www.semanticdesktop.org/ontologies/2007/03/22/nfo#Folder"));
        added.push(file_name_quad_of(&folder, name.as_str()));
        added.push(container_quad_of(&folder, &container));
        assert(quad_views(added@) =~= folder_quads(folder@, part@, container@));
        append_quads(&mut quads, added);
        container = folder;
        i = i + 1;
    }
    assert(ps.take(i as int) =~= ps);
    Ok((container, quads))
}

/// Once a prefix of the components meets an error, the whole walk ends in it.
proof fn lemma_walk_error_persists(directory: Seq<char>, parts: Seq<Seq<char>>, k: int)
    requires
        0 <= k <= parts.len(),
        folder_walk(directory, parts.take(k)) is Err,
    ensures
        folder_walk(directory, parts) == folder_walk(directory, parts.take(k)),
    decreases parts.len(),
{
    if parts.len() == k {
        assert(parts.take(k) =~= parts);
    } else {
        assert(parts.drop_last().take(k) =~= parts.take(k));
        lemma_walk_error_persists(directory, parts.drop_last(), k);
    }
}

/// A fresh blank node label from `oxigraph::model::BlankNode::default`. The
/// label is random; what holds of every label is claimed: it is a random
/// `u128` in lower-case hexadecimal (1 to 32 digits) whose first digit is a
/// letter from `a` to `f`.
#[verifier::external_body]
fn fresh_blank_node() -> (r: String)
    ensures
        1 <= r@.len() <= 32,
        'a' <= r@[0] <= 'f',
        forall|i: int|
            0 <= i < r@.len() ==> ('0' <= #[trigger] r@[i] <= '9' || 'a' <= r@[i] <= 'f'),
{
    oxigraph::model::BlankNode::default().as_str().to_owned()
}

fn describe_embedded(graph: &String, embedded: &Vec<String>, blanks: &Vec<String>) -> (r: Vec<
    RdfQuad,
>)
    requires
        blanks.len() == embedded.len(),
    ensures
        quad_views(r@) == embedded_descriptions(
            graph@,
            texts(embedded@),
            texts(blanks@),
        ),
{
    let ghost es = texts(embedded@);
    let ghost bs = texts(blanks@);
    let mut quads: Vec<RdfQuad> = Vec::new();
    let mut i: usize = 0;
    assert(quad_views(quads@) =~= Seq::<QuadView>::empty());
    while i < embedded.len()
        invariant
            i <= embedded.len(),
            blanks.len() == embedded.len(),
            es == texts(embedded@),
            bs == texts(blanks@),
            quad_views(quads@) == embedded_descriptions(graph@, es.take(i as int), bs),
        decreases embedded.len() - i,
    {
        let blank = &blanks[i];
        let mut added: Vec<RdfQuad> = Vec::new();
        added.push(
            catalog_quad_of(
                named(graph),
                iri_text("http://www.w3.org/ns/sparql-service-description#namedGraph"),
                RdfTerm::Blank(blank.clone()),
            ),
        );
        added.push(
            catalog_quad_of(
                RdfTerm::Blank(blank.clone()),
                iri_text("http://www.w3.org/1999/02/22-rdf-syntax-ns#type"),
                RdfTerm::Named(iri_text("http://www.w3.org/ns/sparql-service-description#NamedGraph")),
            ),
        );
        added.push(
            catalog_quad_of(
                RdfTerm::Blank(blank.clone()),
                iri_text("http://www.w3.org/ns/sparql-service-description#name"),
                named(&embedded[i]),
            ),
        );
        assert(quad_views(added@) =~= named_graph_quads(graph@, es[i as int], bs[i as int]));
        append_quads(&mut quads, added);
        assert(es.take(i + 1).drop_last() =~= es.take(i as int));
        i = i + 1;
    }
    assert(es.take(i as int) =~= es);
    quads
}

/// Describes a source in the catalog, with the named graphs it declares each
/// described by the blank node of `blanks` at the same index.
pub fn describe_source_with(relative: &str, embedded: &Vec<String>, blanks: &Vec<String>) -> (r:
    Result<Vec<RdfQuad>, String>)
    requires
        blanks.len() == embedded.len(),
    ensures
        match r {
            Ok(quads) => source_entry(
                relative@,
                texts(embedded@),
                texts(blanks@),
            ) == Ok::<Seq<QuadView>, Seq<char>>(quad_views(quads@)),
            Err(e) => source_entry(
                relative@,
                texts(embedded@),
                texts(blanks@),
            ) == Err::<Seq<QuadView>, Seq<char>>(e@),
        },
{
    let graph = match graph_name(relative) {
        Ok(g) => g,
        Err(e) => return Err(e),
    };
    let r = chars_of(relative);
    let directory = string_of(&parent(&r));
    let (container, mut quads) = match describe_directories(directory.as_str()) {
        Ok(found) => found,
        Err(e) => return Err(e),
    };
    let name = string_of(&file_name(&r));
    let mut own: Vec<RdfQuad> = Vec::new();
    own.push(type_quad_of(&graph, "http://www.semanticdesktop.org/ontologies/2007/03/22/nfo#FileDataObject"));
    own.push(file_name_quad_of(&graph, name.as_str()));
    own.push(container_quad_of(&graph, &container));
    if embedded.len() > 0 {
        own.push(type_quad_of(&graph, "http://www.w3.org/ns/sparql-service-description#Dataset"));
    }
    let ghost es = texts(embedded@);
    let ghost bs = texts(blanks@);
    let descriptions = describe_embedded(&graph, embedded, blanks);
    append_quads(&mut own, descriptions);
    assert(quad_views(own@) =~= source_quads(graph@, container@, name@, es, bs));
    append_quads(&mut quads, own);
    Ok(quads)
}

/// Whether every quad lies in the catalog graph.
pub open spec fn in_catalog_graph(quads: Seq<QuadView>) -> bool {
    forall|i: int| 0 <= i < quads.len() ==> (#[trigger] quads[i]).graph == GraphView::Named(catalog_graph())
}

proof fn lemma_catalog_concat(a: Seq<QuadView>, b: Seq<QuadView>)
    requires
        in_catalog_graph(a),
        in_catalog_graph(b),
    ensures
        in_catalog_graph(a + b),
{
    assert forall|i: int| 0 <= i < (a + b).len() implies (#[trigger] (a + b)[i]).graph == GraphView::Named(
        catalog_graph(),
    ) by {
        if i < a.len() {
            assert((a + b)[i] == a[i]);
        } else {
            assert((a + b)[i] == b[i - a.len()]);
        }
    }
}

proof fn lemma_walk_in_catalog(directory: Seq<char>, parts: Seq<Seq<char>>)
    ensures
        folder_walk(directory, parts) matches Ok((_, quads)) ==> in_catalog_graph(quads),
    decreases parts.len(),
{
    if parts.len() > 0 {
        lemma_walk_in_catalog(directory, parts.drop_last());
        if let Ok((container, quads)) = folder_walk(directory, parts.drop_last()) {
            let folder = path_iri_of(joined(parts, seq!['/']), true);
            lemma_catalog_concat(quads, folder_quads(folder, parts.last(), container));
        }
    }
}

proof fn lemma_embedded_in_catalog(graph: Seq<char>, embedded: Seq<Seq<char>>, blanks: Seq<Seq<char>>)
    ensures
        in_catalog_graph(embedded_descriptions(graph, embedded, blanks)),
    decreases embedded.len(),
{
    if embedded.len() > 0 {
        let k = embedded.len() - 1;
        lemma_embedded_in_catalog(graph, embedded.drop_last(), blanks);
        lemma_catalog_concat(
            embedded_descriptions(graph, embedded.drop_last(), blanks),
            named_graph_quads(graph, embedded[k], blanks[k]),
        );
    }
}

proof fn lemma_entry_in_catalog(relative: Seq<char>, embedded: Seq<Seq<char>>, blanks: Seq<Seq<char>>)
    ensures
        source_entry(relative, embedded, blanks) matches Ok(quads) ==> in_catalog_graph(quads),
{
    if let Ok(graph) = graph_name_of(relative) {
        let directory = parent_of(relative);
        if directory.len() > 0 && directory[0] != '/' {
            lemma_walk_in_catalog(directory, components(directory));
        }
        if let Ok((container, folders)) = directories_of(directory) {
            let name = file_name_of(relative);
            let own = seq![
                type_quad(graph, nfo_file_data_object()),
                file_name_quad(graph, name),
                container_quad(graph, container),
            ];
            let dataset = if embedded.len() > 0 {
                seq![type_quad(graph, sd_dataset())]
            } else {
                seq![]
            };
            lemma_embedded_in_catalog(graph, embedded, blanks);
            lemma_catalog_concat(own, dataset);
            lemma_catalog_concat(own + dataset, embedded_descriptions(graph, embedded, blanks));
            if directory.len() == 0 {
                assert(folders =~= Seq::<QuadView>::empty());
            }
            lemma_catalog_concat(folders, source_quads(graph, container, name, embedded, blanks));
        }
    }
}

/// The quads of a catalog all lie in the catalog graph.
pub proof fn lemma_catalog_quads_in_catalog(
    root_name: Option<Seq<char>>,
    described: Seq<(Seq<char>, Seq<Seq<char>>)>,
    blanks: Seq<Seq<Seq<char>>>,
    errors: Seq<(Seq<char>, Seq<char>)>,
)
    ensures
        in_catalog_graph(
            root_description(root_name) + described_quads(described, blanks) + error_quads(errors),
        ),
    decreases described.len() + errors.len(),
{
    if errors.len() > 0 {
        lemma_catalog_quads_in_catalog(root_name, described, blanks, errors.drop_last());
        let last = errors.last();
        if let Ok(entry) = load_error_entry(last.0, last.1) {
            lemma_catalog_concat(
                root_description(root_name) + described_quads(described, blanks) + error_quads(
                    errors.drop_last(),
                ),
                entry,
            );
        } else {
            assert(error_quads(errors) =~= error_quads(errors.drop_last()) + Seq::<QuadView>::empty());
        }
        assert(root_description(root_name) + described_quads(described, blanks) + error_quads(errors)
            =~= root_description(root_name) + described_quads(described, blanks) + error_quads(
            errors.drop_last(),
        ) + match load_error_entry(last.0, last.1) {
            Ok(q) => q,
            Err(_) => seq![],
        });
    } else if described.len() > 0 {
        lemma_catalog_quads_in_catalog(root_name, described.drop_last(), blanks, errors);
        let k = described.len() - 1;
        lemma_entry_in_catalog(described[k].0, described[k].1, blanks[k]);
        let entry = match source_entry(described[k].0, described[k].1, blanks[k]) {
            Ok(q) => q,
            Err(_) => seq![],
        };
        let front = root_description(root_name) + described_quads(described.drop_last(), blanks);
        assert(error_quads(errors) =~= Seq::<QuadView>::empty());
        lemma_catalog_concat(front, entry);
        assert(root_description(root_name) + described_quads(described, blanks) + error_quads(errors)
            =~= front + entry);
    } else {
        assert(error_quads(errors) =~= Seq::<QuadView>::empty());
        assert(described_quads(described, blanks) =~= Seq::<QuadView>::empty());
        let base = seq![
            type_quad(catalog_graph(), nfo_file_data_object()),
            type_quad(catalog_graph(), nfo_folder()),
        ];
        if let Some(name) = root_name {
            lemma_catalog_concat(base, seq![file_name_quad(catalog_graph(), name)]);
            assert(base.push(file_name_quad(catalog_graph(), name)) =~= base + seq![
                file_name_quad(catalog_graph(), name),
            ]);
        }
        assert(root_description(root_name) + described_quads(described, blanks) + error_quads(errors)
            =~= root_description(root_name));
    }
}

/// The error given when two freshly drawn blank node labels coincide.
pub open spec fn blank_collision_message() -> Seq<char> {
    "two fresh blank node labels coincided"@
}

/// Whether the labels are pairwise distinct.
fn distinct_labels(labels: &Vec<String>) -> (r: bool)
    ensures
        r == texts(labels@).no_duplicates(),
{
    let ghost ls = texts(labels@);
    let mut i: usize = 0;
    while i < labels.len()
        invariant
            i <= labels.len(),
            ls == texts(labels@),
            forall|a: int, b: int| 0 <= a < b < labels.len() && a < i ==> ls[a] != ls[b],
        decreases labels.len() - i,
    {
        let a = chars_of(labels[i].as_str());
        let mut j: usize = i + 1;
        while j < labels.len()
            invariant
                i < j <= labels.len(),
                ls == texts(labels@),
                a@ == ls[i as int],
                forall|x: int, y: int| 0 <= x < y < labels.len() && x < i ==> ls[x] != ls[y],
                forall|y: int| i < y < j ==> ls[i as int] != ls[y],
            decreases labels.len() - j,
        {
            let b = chars_of(labels[j].as_str());
            if chars_equal(&a, &b) {
                assert(!ls.no_duplicates()) by {
                    assert(ls[i as int] == ls[j as int]);
                }
                return false;
            }
            j = j + 1;
        }
        i = i + 1;
    }
    true
}

/// Describes a source in the catalog, with a fresh blank node for each named
/// graph it declares.
/// graph it declares: each named graph gets a blank node of its own. In the
/// unlikely event that two drawn labels coincide, it fails with
/// `blank_collision_message`.
pub fn describe_source(relative: &str, embedded: &Vec<String>) -> (r: Result<Vec<RdfQuad>, String>)
    ensures
        match r {
            Ok(quads) => exists|blanks: Seq<Seq<char>>|
                blanks.len() == embedded.len() && blanks.no_duplicates() && #[trigger] source_entry(
                    relative@,
                    texts(embedded@),
                    blanks,
                ) == Ok::<Seq<QuadView>, Seq<char>>(quad_views(quads@)),
            Err(e) => (forall|blanks: Seq<Seq<char>>|
                #[trigger] source_entry(relative@, texts(embedded@), blanks)
                    == Err::<Seq<QuadView>, Seq<char>>(e@)) || (e@ == blank_collision_message()
                && forall|blanks: Seq<Seq<char>>|
                #[trigger] source_entry(relative@, texts(embedded@), blanks) is Ok),
        },
{
    let mut blanks: Vec<String> = Vec::new();
    while blanks.len() < embedded.len()
        invariant
            blanks.len() <= embedded.len(),
        decreases embedded.len() - blanks.len(),
    {
        blanks.push(fresh_blank_node());
    }
    let r = describe_source_with(relative, embedded, &blanks);
    proof {
        let bs = texts(blanks@);
        assert forall|other: Seq<Seq<char>>|
            (#[trigger] source_entry(relative@, texts(embedded@), other)) is Ok == source_entry(
                relative@,
                texts(embedded@),
                bs,
            ) is Ok by {}
        if r is Err {
            assert forall|other: Seq<Seq<char>>|
                #[trigger] source_entry(relative@, texts(embedded@), other)
                    == source_entry(relative@, texts(embedded@), bs) by {}
        }
    }
    if r.is_ok() && !distinct_labels(&blanks) {
        return Err(String::from_str("two fresh blank node labels coincided"));
    }
    r
}

/// Describes in the catalog a source that failed to load with `message`.
pub fn describe_load_error(relative: &str, message: &str) -> (r: Result<Vec<RdfQuad>, String>)
    ensures
        match r {
            Ok(quads) => load_error_entry(relative@, message@) == Ok::<Seq<QuadView>, Seq<char>>(
                quad_views(quads@),
            ),
            Err(e) => load_error_entry(relative@, message@) == Err::<Seq<QuadView>, Seq<char>>(e@),
        },
{
    let graph = match graph_name(relative) {
        Ok(g) => g,
        Err(e) => return Err(e),
    };
    let mut entry_chars = chars_of(graph.as_str());
    crate::text::push_str(&mut entry_chars, "#load-error");
    let entry = string_of(&entry_chars);
    match check_iri(entry.as_str()) {
        Ok(()) => {},
        Err(e) => return Err(e),
    }
    let mut quads: Vec<RdfQuad> = Vec::new();
    quads.push(type_quad_of(&entry, "http://persistence.uni-leipzig.org/nlp2rdf/ontologies/rlog#Entry"));
    quads.push(
        catalog_quad_of(
            named(&entry),
            iri_text("http://persistence.uni-leipzig.org/nlp2rdf/ontologies/rlog#level"),
            RdfTerm::Named(iri_text("http://persistence.uni-leipzig.org/nlp2rdf/ontologies/rlog#ERROR")),
        ),
    );
    quads.push(
        catalog_quad_of(
            named(&entry),
            iri_text("http://persistence.uni-leipzig.org/nlp2rdf/ontologies/rlog#resource"),
            named(&graph),
        ),
    );
    quads.push(
        catalog_quad_of(
            named(&entry),
            iri_text("http://persistence.uni-leipzig.org/nlp2rdf/ontologies/rlog#message"),
            literal_of(message),
        ),
    );
    assert(quad_views(quads@) =~= load_error_entry(relative@, message@)->Ok_0);
    Ok(quads)
}

/// Why a source cannot be described in the catalog: its graph name is not an
/// IRI, or one of its folders cannot be described.
pub open spec fn entry_error(relative: Seq<char>) -> Option<Seq<char>> {
    match graph_name_of(relative) {
        Err(e) => Some(e),
        Ok(_) => match directories_of(parent_of(relative)) {
            Err(e) => Some(e),
            Ok(_) => None,
        },
    }
}

/// The first error met while describing the sources `described` and then the
/// load errors `errors`, in order.
pub open spec fn catalog_error(
    described: Seq<(Seq<char>, Seq<Seq<char>>)>,
    errors: Seq<(Seq<char>, Seq<char>)>,
) -> Option<Seq<char>>
    decreases described.len() + errors.len(),
{
    if errors.len() > 0 {
        match catalog_error(described, errors.drop_last()) {
            Some(e) => Some(e),
            None => match load_error_entry(errors.last().0, errors.last().1) {
                Err(e) => Some(e),
                Ok(_) => None,
            },
        }
    } else if described.len() > 0 {
        match catalog_error(described.drop_last(), errors) {
            Some(e) => Some(e),
            None => entry_error(described.last().0),
        }
    } else {
        None
    }
}

/// The quads that describe the sources `described`, each with its named
/// graphs described by the blank nodes of `blanks` at the same index.
pub open spec fn described_quads(
    described: Seq<(Seq<char>, Seq<Seq<char>>)>,
    blanks: Seq<Seq<Seq<char>>>,
) -> Seq<QuadView>
    decreases described.len(),
{
    if described.len() == 0 {
        seq![]
    } else {
        let k = described.len() - 1;
        described_quads(described.drop_last(), blanks) + match source_entry(
            described[k].0,
            described[k].1,
            blanks[k],
        ) {
            Ok(q) => q,
            Err(_) => seq![],
        }
    }
}

/// The quads that describe the load errors `errors`.
pub open spec fn error_quads(errors: Seq<(Seq<char>, Seq<char>)>) -> Seq<QuadView>
    decreases errors.len(),
{
    if errors.len() == 0 {
        seq![]
    } else {
        error_quads(errors.drop_last()) + match load_error_entry(errors.last().0, errors.last().1) {
            Ok(q) => q,
            Err(_) => seq![],
        }
    }
}

/// Blank node labels fit the named graphs: one list per source, one label per
/// named graph.
pub open spec fn blanks_fit(described: Seq<(Seq<char>, Seq<Seq<char>>)>, blanks: Seq<Seq<Seq<char>>>) -> bool {
    &&& blanks.len() == described.len()
    &&& forall|i: int| 0 <= i < described.len() ==> #[trigger] blanks[i].len() == described[i].1.len()
}

/// The sources with their named graphs as plain values.
pub open spec fn described_view(described: Seq<(String, Vec<String>)>) -> Seq<
    (Seq<char>, Seq<Seq<char>>),
> {
    described.map_values(|e: (String, Vec<String>)| (e.0@, texts(e.1@)))
}

proof fn lemma_catalog_error_persists_errors(
    described: Seq<(Seq<char>, Seq<Seq<char>>)>,
    errors: Seq<(Seq<char>, Seq<char>)>,
    k: int,
)
    requires
        0 <= k <= errors.len(),
        catalog_error(described, errors.take(k)) is Some,
    ensures
        catalog_error(described, errors) == catalog_error(described, errors.take(k)),
    decreases errors.len(),
{
    if errors.len() == k {
        assert(errors.take(k) =~= errors);
    } else {
        assert(errors.drop_last().take(k) =~= errors.take(k));
        lemma_catalog_error_persists_errors(described, errors.drop_last(), k);
    }
}

proof fn lemma_catalog_error_persists(
    described: Seq<(Seq<char>, Seq<Seq<char>>)>,
    errors: Seq<(Seq<char>, Seq<char>)>,
    k: int,
)
    requires
        0 <= k <= described.len(),
        catalog_error(described.take(k), seq![]) is Some,
    ensures
        catalog_error(described, errors) == catalog_error(described.take(k), seq![]),
    decreases described.len() + errors.len(),
{
    if errors.len() > 0 {
        lemma_catalog_error_persists(described, errors.drop_last(), k);
    } else if described.len() == k {
        assert(described.take(k) =~= described);
        assert(errors =~= Seq::<(Seq<char>, Seq<char>)>::empty());
    } else {
        assert(described.drop_last().take(k) =~= described.take(k));
        lemma_catalog_error_persists(described.drop_last(), errors, k);
        assert(errors =~= Seq::<(Seq<char>, Seq<char>)>::empty());
    }
}

/// Builds the whole catalog: the served directory, named `root_name` when it
/// has one, each source of `described` with its named graphs, each described
/// by the blank node of `blanks` at the same place, and each load error.
pub fn build_catalog_with(
    root_name: Option<&str>,
    described: &Vec<(String, Vec<String>)>,
    load_errors: &Vec<(String, String)>,
    blanks: &Vec<Vec<String>>,
) -> (r: Result<Vec<RdfQuad>, String>)
    requires
        blanks_fit(described_view(described@), blanks@.map_values(|b: Vec<String>| texts(b@))),
    ensures
        match r {
            Ok(quads) => {
                &&& catalog_error(described_view(described@), pair_views(load_errors@)) is None
                &&& quad_views(quads@) == root_description(
                    match root_name {
                        Some(n) => Some(n@),
                        None => None,
                    },
                ) + described_quads(
                    described_view(described@),
                    blanks@.map_values(|b: Vec<String>| texts(b@)),
                ) + error_quads(pair_views(load_errors@))
            },
            Err(e) => catalog_error(described_view(described@), pair_views(load_errors@)) == Some(
                e@,
            ),
        },
{
    let ghost dv = described_view(described@);
    let ghost bv = blanks@.map_values(|b: Vec<String>| texts(b@));
    let ghost ev = pair_views(load_errors@);
    let mut quads = describe_root(root_name);
    let ghost root = quad_views(quads@);
    let mut i: usize = 0;
    proof {
        assert(dv.take(0) =~= Seq::<(Seq<char>, Seq<Seq<char>>)>::empty());
        assert(quad_views(quads@) =~= root + described_quads(dv.take(0), bv));
    }
    while i < described.len()
        invariant
            i <= described.len(),
            dv == described_view(described@),
            bv == blanks@.map_values(|b: Vec<String>| texts(b@)),
            ev == pair_views(load_errors@),
            blanks_fit(dv, bv),
            catalog_error(dv.take(i as int), seq![]) is None,
            quad_views(quads@) == root + described_quads(dv.take(i as int), bv),
        decreases described.len() - i,
    {
        proof {
            assert(dv.take(i + 1).drop_last() =~= dv.take(i as int));
            assert(dv[i as int] == (described@[i as int].0@, texts(described@[i as int].1@)));
            assert(bv[i as int] == texts(blanks@[i as int]@));
            assert(bv[i as int].len() == dv[i as int].1.len());
            assert(blanks@[i as int].len() == described@[i as int].1.len());
        }
        let ghost before = quad_views(quads@);
        match describe_source_with(described[i].0.as_str(), &described[i].1, &blanks[i]) {
            Err(e) => {
                proof {
                    assert(catalog_error(dv.take(i + 1), seq![]) == Some(e@));
                    lemma_catalog_error_persists(dv, ev, i + 1);
                }
                return Err(e);
            },
            Ok(added) => {
                append_quads(&mut quads, added);
                proof {
                    let t = dv.take(i + 1);
                    assert(t.len() - 1 == i);
                    assert(described_quads(t, bv) == described_quads(t.drop_last(), bv) + quad_views(
                        added@,
                    ));
                }
            },
        }
        i = i + 1;
    }
    assert(dv.take(i as int) =~= dv);
    let mut j: usize = 0;
    proof {
        assert(ev.take(0) =~= Seq::<(Seq<char>, Seq<char>)>::empty());
        assert(quad_views(quads@) =~= root + described_quads(dv, bv) + error_quads(ev.take(0)));
    }
    while j < load_errors.len()
        invariant
            j <= load_errors.len(),
            ev == pair_views(load_errors@),
            dv == described_view(described@),
            catalog_error(dv, ev.take(j as int)) is None,
            quad_views(quads@) == root + described_quads(dv, bv) + error_quads(ev.take(j as int)),
        decreases load_errors.len() - j,
    {
        proof {
            assert(ev.take(j + 1).drop_last() =~= ev.take(j as int));
            assert(ev[j as int] == (load_errors@[j as int].0@, load_errors@[j as int].1@));
        }
        match describe_load_error(load_errors[j].0.as_str(), load_errors[j].1.as_str()) {
            Err(e) => {
                proof {
                    lemma_catalog_error_persists_errors(dv, ev, j + 1);
                }
                return Err(e);
            },
            Ok(added) => {
                let ghost before = quad_views(quads@);
                append_quads(&mut quads, added);
                assert(quad_views(quads@) =~= root + described_quads(dv, bv) + error_quads(
                    ev.take(j + 1),
                ));
            },
        }
        j = j + 1;
    }
    assert(ev.take(j as int) =~= ev);
    Ok(quads)
}

/// Pairs of strings as plain values.
pub open spec fn pair_views(v: Seq<(String, String)>) -> Seq<(Seq<char>, Seq<char>)> {
    v.map_values(|e: (String, String)| (e.0@, e.1@))
}

/// All the labels of `blanks`, source by source.
pub open spec fn all_labels(blanks: Seq<Seq<Seq<char>>>) -> Seq<Seq<char>>
    decreases blanks.len(),
{
    if blanks.len() == 0 {
        seq![]
    } else {
        all_labels(blanks.drop_last()) + blanks.last()
    }
}

/// Builds the whole catalog, with a fresh blank node for each named graph
/// that a source declares: no two named graphs share one. In the unlikely
/// event that two drawn labels coincide, it fails with
/// `blank_collision_message`.
pub fn build_catalog(
    root_name: Option<&str>,
    described: &Vec<(String, Vec<String>)>,
    load_errors: &Vec<(String, String)>,
) -> (r: Result<Vec<RdfQuad>, String>)
    ensures
        match r {
            Ok(quads) => {
                &&& catalog_error(described_view(described@), pair_views(load_errors@)) is None
                &&& exists|blanks: Seq<Seq<Seq<char>>>|
                    blanks_fit(described_view(described@), blanks) && all_labels(blanks).no_duplicates()
                        && quad_views(quads@) == root_description(
                        match root_name {
                            Some(n) => Some(n@),
                            None => None,
                        },
                    ) + #[trigger] described_quads(described_view(described@), blanks) + error_quads(
                        pair_views(load_errors@),
                    )
            },
            Err(e) => catalog_error(described_view(described@), pair_views(load_errors@)) == Some(
                e@,
            ) || (catalog_error(described_view(described@), pair_views(load_errors@)) is None && e@
                == blank_collision_message()),
        },
{
    let ghost dv = described_view(described@);
    let mut blanks: Vec<Vec<String>> = Vec::new();
    let mut drawn: Vec<String> = Vec::new();
    let mut i: usize = 0;
    while i < described.len()
        invariant
            i <= described.len(),
            dv == described_view(described@),
            blanks.len() == i,
            forall|k: int| 0 <= k < i ==> #[trigger] blanks@[k].len() == described@[k].1.len(),
            texts(drawn@) == all_labels(blanks@.map_values(|b: Vec<String>| texts(b@))),
        decreases described.len() - i,
    {
        let ghost before = texts(drawn@);
        let mut labels: Vec<String> = Vec::new();
        while labels.len() < described[i].1.len()
            invariant
                labels.len() <= described@[i as int].1.len(),
                i < described.len(),
                texts(drawn@) == before + texts(labels@),
            decreases described@[i as int].1.len() - labels.len(),
        {
            let label = fresh_blank_node();
            let ghost drawn_before = texts(drawn@);
            let ghost labels_before = texts(labels@);
            drawn.push(label.clone());
            labels.push(label);
            assert(texts(drawn@) =~= drawn_before.push(labels@.last()@));
            assert(texts(labels@) =~= labels_before.push(labels@.last()@));
        }
        let ghost prev = blanks@.map_values(|b: Vec<String>| texts(b@));
        blanks.push(labels);
        proof {
            let bv = blanks@.map_values(|b: Vec<String>| texts(b@));
            assert(bv.drop_last() =~= prev);
            assert(bv.last() == texts(blanks@.last()@));
        }
        i = i + 1;
    }
    proof {
        let bv = blanks@.map_values(|b: Vec<String>| texts(b@));
        assert forall|k: int| 0 <= k < dv.len() implies #[trigger] bv[k].len() == dv[k].1.len() by {
            assert(bv[k] == texts(blanks@[k]@));
            assert(dv[k] == (described@[k].0@, texts(described@[k].1@)));
            assert(blanks@[k].len() == described@[k].1.len());
        }
    }
    let r = build_catalog_with(root_name, described, load_errors, &blanks);
    if r.is_ok() && !distinct_labels(&drawn) {
        return Err(String::from_str("two fresh blank node labels coincided"));
    }
    r
}

/// The sources the catalog describes: those loaded and those that failed,
/// in path order.
pub fn described_sources(sources: &Vec<String>, load_errors: &Vec<(String, String)>) -> (r: Vec<String>)
    requires
        is_path_set(sources@),
    ensures
        is_path_set(r@),
        path_set(r@) == path_set(sources@).union(
            load_errors@.map_values(|e: (String, String)| e.0@).to_set(),
        ),
{
    let ghost keys = load_errors@.map_values(|e: (String, String)| e.0@);
    let mut r = sources.clone();
    let mut i: usize = 0;
    assert(path_set(r@) =~= path_set(sources@).union(keys.take(0).to_set()));
    while i < load_errors.len()
        invariant
            i <= load_errors.len(),
            keys == load_errors@.map_values(|e: (String, String)| e.0@),
            is_path_set(r@),
            path_set(r@) == path_set(sources@).union(keys.take(i as int).to_set()),
        decreases load_errors.len() - i,
    {
        insert_path(&mut r, load_errors[i].0.clone());
        proof {
            lemma_take_to_set(keys, i as int);
        }
        assert(path_set(r@) =~= path_set(sources@).union(keys.take(i + 1).to_set()));
        i = i + 1;
    }
    assert(keys.take(i as int) =~= keys);
    r
}

/// The named graphs of `graphs` that lie below a source's graph: those whose
/// name begins with the source's graph name and `#`.
pub open spec fn below_graph(graphs: Seq<Seq<char>>, prefix: Seq<char>) -> Seq<Seq<char>>
    decreases graphs.len(),
{
    if graphs.len() == 0 {
        seq![]
    } else {
        let before = below_graph(graphs.drop_last(), prefix);
        if has_prefix(graphs.last(), prefix) {
            before.push(graphs.last())
        } else {
            before
        }
    }
}

/// The named graphs of the dataset, `graphs`, that a source declared: those
/// scoped below its graph.
pub fn scoped_graphs_for_source(graphs: &Vec<String>, relative: &str) -> (r: Result<Vec<String>, String>)
    ensures
        match r {
            Ok(found) => graph_name_of(relative@) is Ok && texts(found@) == below_graph(
                texts(graphs@),
                path_iri_of(relative@, false).push('#'),
            ),
            Err(e) => graph_name_of(relative@) == Err::<Seq<char>, Seq<char>>(e@),
        },
{
    let graph = match graph_name(relative) {
        Ok(g) => g,
        Err(e) => return Err(e),
    };
    let mut prefix = chars_of(graph.as_str());
    prefix.push('#');
    let ghost gs = texts(graphs@);
    let mut found: Vec<String> = Vec::new();
    let mut i: usize = 0;
    assert(texts(found@) =~= below_graph(gs.take(0), prefix@));
    while i < graphs.len()
        invariant
            i <= graphs.len(),
            gs == texts(graphs@),
            texts(found@) == below_graph(gs.take(i as int), prefix@),
        decreases graphs.len() - i,
    {
        assert(gs.take(i + 1).drop_last() =~= gs.take(i as int));
        assert(gs.take(i + 1).last() == graphs@[i as int]@);
        if crate::text::starts_with(&chars_of(graphs[i].as_str()), &prefix) {
            let ghost before = texts(found@);
            found.push(graphs[i].clone());
            assert(texts(found@) =~= before.push(graphs@[i as int]@));
        }
        i = i + 1;
    }
    assert(gs.take(i as int) =~= gs);
    Ok(found)
}

} // verus!
