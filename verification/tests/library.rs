use sparqld::catalog::{build_catalog, describe_directories, describe_source, scoped_graphs_for_source};
use sparqld::changes::{EntryKind, FileChange, PathChange, WatchEventKind};
use sparqld::context::{local_context_relative, resolve_context, ContextSource};
use sparqld::dataset::{described_graphs, evaluate_query, Dataset};
use sparqld::formats::{source_format, RdfSyntax, SourceFormat};
use sparqld::iri::graph_name;
use sparqld::loading::{
    affected_union, json_ld_document, plan_load, select_sources, settle_initial_load,
    settle_reload, source_impacts, update_context_dependents, ChangedPath, LoadOutcome,
};
use sparqld::markdown::{markdown_front_matter, trim_line_ending};
use sparqld::messages::{
    dependent_update_message, direct_update_message, failure_message, format_changed_path,
    triple_count,
};
use sparqld::parsing::load_rdf_source;
use sparqld::patterns::{validate_pattern, SourcePatterns};
use sparqld::rdf::{load_scoped_quads, GraphLabel, RdfQuad, RdfTerm};
use sparqld::report::{SourceFailure, SourceUpdate, SourceUpdateKind};
use sparqld::server::{allow_header, body_text, query_parameter, route_request, HttpMethod, Route};
use sparqld::serving::check_addresses;
use sparqld::watch::{WatchAction, WatchInput, WatchState};
use sparqld::{serve, serve_at_with_options, ServeOptions};

fn strings(items: &[&str]) -> Vec<String> {
    items.iter().map(|item| item.to_string()).collect()
}

fn named(iri: &str) -> RdfTerm {
    RdfTerm::Named(iri.to_owned())
}

fn pairs(items: &[(&str, &str)]) -> Vec<(String, String)> {
    items
        .iter()
        .map(|(a, b)| (a.to_string(), b.to_string()))
        .collect()
}

#[test]
fn parses_yaml_with_yaml_1_2_scalar_rules() {
    let json = json_ld_document(
        SourceFormat::YamlLd,
        b"legacy_boolean: yes\nboolean: true\ndate: 2026-07-31\n",
    )
    .unwrap()
    .unwrap();
    let json: serde_json::Value = serde_json::from_slice(&json).unwrap();

    assert_eq!(json["legacy_boolean"], "yes");
    assert_eq!(json["boolean"], true);
    assert_eq!(json["date"], "2026-07-31");
}

#[test]
fn reads_markdown_front_matter_as_json() {
    let json = json_ld_document(SourceFormat::Markdown, b"---\nname: Proxima\n---\n# Body\n")
        .unwrap()
        .unwrap();
    let json: serde_json::Value = serde_json::from_slice(&json).unwrap();

    assert_eq!(json["name"], "Proxima");
    assert_eq!(
        json_ld_document(SourceFormat::Markdown, b"# Body only\n").unwrap(),
        None
    );
    assert_eq!(
        json_ld_document(SourceFormat::JsonLd, b"{}").unwrap(),
        Some(b"{}".to_vec())
    );
}

#[test]
fn refuses_unterminated_front_matter_and_invalid_utf8() {
    assert_eq!(
        markdown_front_matter(b"---\nname: x\n").err(),
        Some("unterminated YAML front matter".to_owned())
    );
    assert!(markdown_front_matter(b"\xff\xfe").is_err());
}

#[test]
fn plans_how_a_source_is_loaded() {
    let plan = plan_load("examples/alpha-centauri.yamlld").unwrap();

    assert_eq!(plan.format, SourceFormat::YamlLd);
    assert_eq!(plan.graph, "sparqld:examples/alpha-centauri.yamlld");
    assert_eq!(plan.base_iri, "sparqld:examples/");
    assert_eq!(
        plan_load("notes/readme.css").err(),
        Some("unknown RDF format".to_owned())
    );
}

#[test]
fn recognises_source_formats_by_extension() {
    assert_eq!(
        source_format("a/b.ttl"),
        Some(SourceFormat::Rdf(RdfSyntax::Turtle))
    );
    assert_eq!(
        source_format("notes.TXT"),
        Some(SourceFormat::Rdf(RdfSyntax::NTriples))
    );
    assert_eq!(source_format("data.JSON"), Some(SourceFormat::JsonLd));
    assert_eq!(source_format("page.md"), Some(SourceFormat::Markdown));
    assert_eq!(source_format("style.css"), None);
    assert_eq!(SourceFormat::Rdf(RdfSyntax::RdfXml).name(), "RDF/XML");
    assert_eq!(SourceFormat::Markdown.name(), "Markdown-LD");
}

#[test]
fn refuses_graph_names_that_are_not_iris() {
    let error = graph_name("a|b").err().unwrap();

    assert!(!error.is_empty());
}

#[test]
fn rejects_invalid_globs() {
    assert!(validate_pattern("[").is_err());
    assert_eq!(validate_pattern("!docs/**"), Ok("!docs/**".to_owned()));
}

#[test]
fn selects_recognised_files_that_the_patterns_select() {
    let patterns = SourcePatterns::compile(&strings(&["!archive"])).unwrap();
    let files = strings(&["a.ttl", "archive/b.ttl", "c.css", "d.jsonld"]);

    assert_eq!(
        select_sources(&files, &patterns),
        strings(&["a.ttl", "d.jsonld"])
    );
}

#[test]
fn scopes_a_named_graph_below_its_source() {
    let quads = vec![
        RdfQuad {
            subject: named("urn:head"),
            predicate: "urn:links".to_owned(),
            object: named("urn:graph"),
            graph: GraphLabel::Named("urn:graph".to_owned()),
        },
        RdfQuad {
            subject: named("urn:graph"),
            predicate: "urn:p".to_owned(),
            object: RdfTerm::Blank("b0".to_owned()),
            graph: GraphLabel::Default,
        },
    ];
    let (scoped, graphs) = load_scoped_quads(quads, &"sparqld:dataset.nq".to_owned()).unwrap();

    assert_eq!(graphs, strings(&["sparqld:dataset.nq#urn:graph"]));
    assert_eq!(
        scoped,
        vec![
            RdfQuad {
                subject: named("urn:head"),
                predicate: "urn:links".to_owned(),
                object: named("sparqld:dataset.nq#urn:graph"),
                graph: GraphLabel::Named("sparqld:dataset.nq#urn:graph".to_owned()),
            },
            RdfQuad {
                subject: named("sparqld:dataset.nq#urn:graph"),
                predicate: "urn:p".to_owned(),
                object: RdfTerm::Blank("b0".to_owned()),
                graph: GraphLabel::Named("sparqld:dataset.nq".to_owned()),
            },
        ]
    );
}

#[test]
fn names_blank_embedded_graphs_after_their_label() {
    let quads = vec![RdfQuad {
        subject: named("urn:s"),
        predicate: "urn:p".to_owned(),
        object: named("urn:o"),
        graph: GraphLabel::Blank("g1".to_owned()),
    }];
    let (scoped, graphs) = load_scoped_quads(quads, &"sparqld:x.trig".to_owned()).unwrap();

    assert_eq!(graphs, strings(&["sparqld:x.trig#_:g1"]));
    assert_eq!(
        scoped[0].graph,
        GraphLabel::Named("sparqld:x.trig#_:g1".to_owned())
    );
}

#[test]
fn finds_the_graphs_scoped_below_a_source() {
    let graphs = strings(&[
        "sparqld:a.trig",
        "sparqld:a.trig#urn:g",
        "sparqld:a.trig.bak#urn:g",
        "sparqld:b.trig#urn:g",
    ]);

    assert_eq!(
        scoped_graphs_for_source(&graphs, "a.trig").unwrap(),
        strings(&["sparqld:a.trig#urn:g"])
    );
}

#[test]
fn resolves_context_urls() {
    assert_eq!(
        resolve_context("https://json-ld.org/contexts/dollar-convenience.jsonld"),
        Ok(ContextSource::DollarConvenience)
    );
    assert_eq!(
        resolve_context("sparqld:contexts/people%20list.jsonld"),
        Ok(ContextSource::Local("contexts/people list.jsonld".to_owned()))
    );
    assert_eq!(
        resolve_context("https://example.org/context.jsonld"),
        Err("context URL is not supported: https://example.org/context.jsonld".to_owned())
    );
    assert_eq!(
        local_context_relative("sparqld:../secret.jsonld"),
        Err("context is outside the served directory: sparqld:../secret.jsonld".to_owned())
    );
    assert_eq!(
        local_context_relative("sparqld:%FF.jsonld"),
        Err("context URL is not UTF-8: sparqld:%FF.jsonld".to_owned())
    );
}

#[test]
fn describes_folders_inside_each_other() {
    let (container, quads) = describe_directories("examples/nested").unwrap();

    assert_eq!(container, "sparqld:examples/nested/");
    assert_eq!(quads.len(), 8);
    assert_eq!(quads[0].subject, named("sparqld:examples/"));
    assert_eq!(quads[3].object, named("sparqld:"));
    assert_eq!(quads[7].object, named("sparqld:examples/"));
    assert_eq!(
        describe_directories("../outside").err(),
        Some("directory path is not relative: ../outside".to_owned())
    );
    assert_eq!(
        describe_directories("/srv").err(),
        Some("directory path is not relative: /srv".to_owned())
    );
}

#[test]
fn describes_a_source_and_its_named_graphs() {
    let quads = describe_source(
        "examples/data.trig",
        &strings(&["sparqld:examples/data.trig#urn:a", "sparqld:examples/data.trig#urn:b"]),
    )
    .unwrap();
    let blank_nodes = quads
        .iter()
        .filter(|quad| quad.predicate.ends_with("#namedGraph"))
        .map(|quad| quad.object.clone())
        .collect::<Vec<_>>();

    assert_eq!(blank_nodes.len(), 2);
    assert_ne!(blank_nodes[0], blank_nodes[1]);
    for blank in &blank_nodes {
        match blank {
            RdfTerm::Blank(label) => {
                assert!(matches!(label.chars().next(), Some('a'..='f')));
                assert!(label.len() <= 32);
                assert!(label.chars().all(|c| c.is_ascii_digit() || ('a'..='f').contains(&c)));
            }
            other => panic!("not a blank node: {other:?}"),
        }
    }
    assert!(quads.iter().any(|quad| quad.subject == named("sparqld:examples/data.trig")
        && quad.object == named("http://www.w3.org/ns/sparql-service-description#Dataset")));
}

#[test]
fn catalogs_each_source_and_load_error() {
    let described = vec![
        ("a.ttl".to_owned(), Vec::new()),
        ("docs/b.xml".to_owned(), Vec::new()),
    ];
    let errors = pairs(&[("docs/b.xml", "broken")]);
    let quads = build_catalog(Some("served"), &described, &errors).unwrap();

    assert!(quads.iter().any(|quad| quad.subject == named("sparqld:a.ttl")
        && quad.object
            == named("http://www.semanticdesktop.org/ontologies/2007/03/22/nfo#FileDataObject")));
    assert!(quads.iter().any(|quad| quad.subject == named("sparqld:docs/b.xml#load-error")
        && quad.predicate == "http://persistence.uni-leipzig.org/nlp2rdf/ontologies/rlog#message"
        && quad.object
            == RdfTerm::Literal {
                value: "broken".to_owned(),
                datatype: "http://www.w3.org/2001/XMLSchema#string".to_owned(),
                language: None,
            }));
    assert!(quads.iter().any(|quad| quad.subject == named("sparqld:")
        && quad.object
            == RdfTerm::Literal {
                value: "served".to_owned(),
                datatype: "http://www.w3.org/2001/XMLSchema#string".to_owned(),
                language: None,
            }));
}

#[test]
fn records_the_contexts_each_source_depends_on() {
    let mut dependents = pairs(&[("ctx/a.jsonld", "x.jsonld"), ("ctx/b.jsonld", "y.jsonld")]);
    update_context_dependents(&mut dependents, "x.jsonld", &strings(&["ctx/b.jsonld"]));
    dependents.sort();

    assert_eq!(
        dependents,
        pairs(&[("ctx/b.jsonld", "x.jsonld"), ("ctx/b.jsonld", "y.jsonld")])
    );
}

#[test]
fn finds_the_sources_a_change_affects() {
    let changed = vec![
        ChangedPath {
            path: "/srv/data/ctx/people.jsonld".to_owned(),
            is_directory: false,
        },
        ChangedPath {
            path: "/srv/data/nested".to_owned(),
            is_directory: true,
        },
        ChangedPath {
            path: "/elsewhere/x.ttl".to_owned(),
            is_directory: false,
        },
        ChangedPath {
            path: "/srv/data/a.ttl".to_owned(),
            is_directory: false,
        },
    ];
    let previous = strings(&["a.ttl", "nested/b.ttl", "people.jsonld"]);
    let current = strings(&["a.ttl", "nested/b.ttl", "nested/c.ttl", "people.jsonld"]);
    let dependents = pairs(&[("ctx/people.jsonld", "people.jsonld")]);
    let impacts = source_impacts("/srv/data", &changed, &previous, &current, &dependents);

    let find = |key: &str| {
        impacts
            .iter()
            .find(|(path, _)| path == key)
            .map(|(_, sources)| sources.clone())
    };
    assert_eq!(impacts.len(), 3);
    assert_eq!(find("ctx/people.jsonld"), Some(strings(&["people.jsonld"])));
    assert_eq!(
        find("nested"),
        Some(strings(&["nested/b.ttl", "nested/c.ttl"]))
    );
    assert_eq!(find("a.ttl"), Some(strings(&["a.ttl"])));
    assert_eq!(
        affected_union(&impacts),
        strings(&["a.ttl", "nested/b.ttl", "nested/c.ttl", "people.jsonld"])
    );
}

#[test]
fn settles_a_reload_from_what_each_source_gave() {
    let loaded = strings(&["a.ttl", "b.ttl"]);
    let errors = pairs(&[("c.ttl", "old error")]);
    let affected = strings(&["a.ttl", "c.ttl", "d.jsonld"]);
    let outcomes = vec![
        LoadOutcome::Failed {
            error: "bad turtle".to_owned(),
            contexts: Vec::new(),
        },
        LoadOutcome::Loaded {
            triples: 4,
            contexts: Vec::new(),
        },
        LoadOutcome::Absent,
    ];
    let report = settle_reload(
        &loaded,
        &errors,
        &Vec::new(),
        Vec::new(),
        &affected,
        &outcomes,
        &vec![7, 0, 0],
    )
    .unwrap();

    assert_eq!(report.loaded_sources, strings(&["b.ttl", "c.ttl"]));
    assert_eq!(report.load_errors, pairs(&[("a.ttl", "bad turtle")]));
    assert_eq!(report.updates.len(), 2);
    assert_eq!(report.updates[0].path, "a.ttl");
    assert_eq!(report.updates[0].kind, SourceUpdateKind::Removed);
    assert_eq!(report.updates[0].triples, 7);
    assert_eq!(report.updates[1].graph, "sparqld:c.ttl");
    assert_eq!(report.updates[1].kind, SourceUpdateKind::Loaded);
    assert_eq!(report.updates[1].triples, 4);
    assert_eq!(report.failures.len(), 1);
    assert_eq!(report.failures[0].format, "Turtle");
    assert_eq!(report.failures[0].error, "bad turtle");
}

#[test]
fn refuses_to_report_a_failed_source_of_no_known_format() {
    let result = settle_reload(
        &Vec::new(),
        &Vec::new(),
        &Vec::new(),
        Vec::new(),
        &strings(&["notes.css"]),
        &vec![LoadOutcome::Failed {
            error: "unreadable".to_owned(),
            contexts: Vec::new(),
        }],
        &vec![0],
    );

    assert_eq!(
        result.err(),
        Some("failed source has no recognized format".to_owned())
    );
}

#[test]
fn counts_every_file_of_the_first_load_once() {
    let sources = strings(&["a.ttl", "b.md", "c.ttl"]);
    let outcomes = vec![
        LoadOutcome::Loaded {
            triples: 3,
            contexts: strings(&["ctx.jsonld"]),
        },
        LoadOutcome::Empty {
            contexts: Vec::new(),
        },
        LoadOutcome::Failed {
            error: "broken".to_owned(),
            contexts: Vec::new(),
        },
    ];
    let load = settle_initial_load(5, &sources, &outcomes);

    assert_eq!(load.loaded_sources, strings(&["a.ttl"]));
    assert_eq!(load.load_errors, pairs(&[("c.ttl", "broken")]));
    assert_eq!(load.context_dependents, pairs(&[("ctx.jsonld", "a.ttl")]));
    assert_eq!(load.ignored_files, 3);
}

#[test]
fn merges_the_changes_seen_before_a_reload() {
    let mut state = WatchState::new();
    let event = |kind| WatchInput::Event {
        kind,
        paths: vec![("/srv/a.ttl".to_owned(), Some(EntryKind::File))],
    };

    assert!(matches!(
        state.step(event(WatchEventKind::Create(EntryKind::File))),
        WatchAction::Rearm
    ));
    assert!(matches!(
        state.step(event(WatchEventKind::Modify)),
        WatchAction::Rearm
    ));
    assert!(matches!(
        state.step(event(WatchEventKind::Access)),
        WatchAction::Wait
    ));
    match state.step(WatchInput::Timeout) {
        WatchAction::Reload(changes) => assert_eq!(
            changes,
            vec![(
                "/srv/a.ttl".to_owned(),
                PathChange {
                    change: FileChange::Created,
                    entry_kind: EntryKind::File,
                }
            )]
        ),
        other => panic!("unexpected action {other:?}"),
    }
    assert!(matches!(state.step(WatchInput::Timeout), WatchAction::Wait));
}

#[test]
fn reports_a_deletion_then_creation_as_a_change() {
    assert_eq!(FileChange::Deleted.merge(FileChange::Created), FileChange::Changed);
    assert_eq!(FileChange::Created.merge(FileChange::Changed), FileChange::Created);
    assert_eq!(FileChange::Changed.merge(FileChange::Deleted), FileChange::Deleted);
}

#[test]
fn reads_the_query_field_of_a_form() {
    assert_eq!(
        query_parameter("query=ASK%20%7B%7D&format=json").ok(),
        Some(Some("ASK {}".to_owned()))
    );
    assert_eq!(query_parameter("format=json").ok(), Some(None));
    assert_eq!(query_parameter("query=a+b").ok(), Some(Some("a b".to_owned())));
}

#[test]
fn trims_content_type_parameters() {
    assert!(matches!(
        route_request(
            HttpMethod::Post,
            "/",
            None,
            Some(" application/x-www-form-urlencoded ;charset=utf-8")
        ),
        Ok(Route::FormBody)
    ));
    match route_request(HttpMethod::Get, "/", Some("query=ASK%20%7B%7D"), None) {
        Ok(Route::Query(query)) => assert_eq!(query, "ASK {}"),
        _ => panic!("the query was not found"),
    }
}

#[test]
fn reads_query_bodies_as_utf8() {
    assert_eq!(body_text(b"ASK {}").ok(), Some("ASK {}".to_owned()));
    let error = body_text(b"\xff").err().unwrap();
    assert_eq!(error.status, 400);
    assert_eq!(allow_header(404), None);
}

#[test]
fn plans_serving_with_defaults_and_rejects_bad_patterns() {
    let plan = serve("docs").ok().unwrap();
    assert_eq!(plan.host, "127.0.0.1");
    assert_eq!(plan.port, 7737);
    assert!(plan.watch);

    let options = ServeOptions {
        watch: false,
        patterns: strings(&["**/*.ttl", "!"]),
    };
    assert_eq!(
        serve_at_with_options("docs", "localhost", 8080, options).err(),
        Some("exclusion pattern must follow !".to_owned())
    );
    let defaults = ServeOptions::default();
    assert!(defaults.watch && defaults.patterns.is_empty());
    assert_eq!(
        check_addresses(0),
        Err("host resolved to no addresses".to_owned())
    );
    assert_eq!(check_addresses(2), Ok(()));
}

#[test]
fn words_the_parts_of_a_reload_report() {
    assert_eq!(triple_count(1), "1 triple");
    assert_eq!(triple_count(0), "0 triples");
    let update = SourceUpdate {
        path: "a.ttl".to_owned(),
        graph: "sparqld:a.ttl".to_owned(),
        triples: 2,
        kind: SourceUpdateKind::Reloaded,
    };
    assert_eq!(
        direct_update_message(&update),
        "reloaded as sparqld:a.ttl (2 triples)"
    );
    assert_eq!(
        dependent_update_message(&update),
        "reloaded sparqld:a.ttl (2 triples)"
    );
    let failure = SourceFailure {
        path: "b.nt".to_owned(),
        graph: "sparqld:b.nt".to_owned(),
        format: "N-Triples",
        error: "oops".to_owned(),
    };
    assert_eq!(
        failure_message(&failure),
        "failed to load as N-Triples into sparqld:b.nt: oops"
    );
    assert_eq!(format_changed_path("/srv", "/srv"), ".");
    assert_eq!(format_changed_path("/srv", "/srv/x/y.ttl"), "x/y.ttl");
    assert_eq!(format_changed_path("/srv", "/other/z.ttl"), "/other/z.ttl");
    assert_eq!(trim_line_ending(b"---\r\n"), b"---");
}

#[test]
fn gives_distinct_paths_distinct_graphs() {
    let spaced = graph_name("a b.ttl").unwrap();
    let escaped = graph_name("a%20b.ttl").unwrap();

    assert_eq!(spaced, "sparqld:a%20b.ttl");
    assert_eq!(escaped, "sparqld:a%2520b.ttl");
    assert_ne!(spaced, escaped);
}

#[test]
fn reads_a_context_url_back_as_the_path_it_names() {
    let url = graph_name("dir/my ctx.jsonld").unwrap();

    assert_eq!(
        local_context_relative(&url),
        Ok("dir/my ctx.jsonld".to_owned())
    );
}

#[test]
fn refuses_local_contexts_outside_or_of_unknown_syntax() {
    assert_eq!(
        sparqld::context::context_syntax("/srv/ctx.ttl", "sparqld:ctx.ttl"),
        Err("unsupported local context format: sparqld:ctx.ttl".to_owned())
    );
    assert_eq!(
        sparqld::context::context_syntax("/srv/ctx.YAMLLD", "sparqld:ctx.YAMLLD"),
        Ok(sparqld::context::ContextSyntax::YamlLd)
    );
    assert_eq!(
        sparqld::context::local_context_path("/srv/data", "/srv/other/ctx.jsonld", "sparqld:../other/ctx.jsonld"),
        Err("context is outside the served directory: sparqld:../other/ctx.jsonld".to_owned())
    );
    assert_eq!(
        sparqld::context::local_context_path("/srv/data", "/srv/data/ctx.jsonld", "sparqld:ctx.jsonld"),
        Ok("/srv/data/ctx.jsonld".to_owned())
    );
}

#[test]
fn refuses_to_catalog_a_source_outside_the_directory() {
    let described = vec![("../x.ttl".to_owned(), Vec::new())];

    assert_eq!(
        build_catalog(None, &described, &Vec::new()).err(),
        Some("directory path is not relative: ..".to_owned())
    );
}

#[test]
fn reports_watch_errors_and_stops_when_told() {
    let mut state = WatchState::new();

    assert!(matches!(
        state.step(WatchInput::EventError),
        WatchAction::ReportError
    ));
    assert!(matches!(state.step(WatchInput::Stop), WatchAction::Stop));
}

fn quad(subject: &str, graph: &str) -> RdfQuad {
    RdfQuad {
        subject: named(subject),
        predicate: "urn:p".to_owned(),
        object: named("urn:o"),
        graph: GraphLabel::Named(graph.to_owned()),
    }
}

#[test]
fn loads_a_turtle_source_into_its_graph() {
    let plan = plan_load("data/a.ttl").unwrap();
    let (quads, graphs) = load_rdf_source(&plan, b"<s> <urn:p> \"x\"@en .").unwrap();

    assert_eq!(graphs, Vec::<String>::new());
    assert_eq!(
        quads,
        vec![RdfQuad {
            subject: named("sparqld:data/s"),
            predicate: "urn:p".to_owned(),
            object: RdfTerm::Literal {
                value: "x".to_owned(),
                datatype: "http://www.w3.org/1999/02/22-rdf-syntax-ns#langString".to_owned(),
                language: Some("en".to_owned()),
            },
            graph: GraphLabel::Named("sparqld:data/a.ttl".to_owned()),
        }]
    );
}

#[test]
fn scopes_the_named_graphs_of_a_trig_source() {
    let plan = plan_load("b.trig").unwrap();
    let (quads, graphs) = load_rdf_source(&plan, b"<urn:g> { <urn:s> <urn:p> <urn:o> }").unwrap();

    assert_eq!(graphs, strings(&["sparqld:b.trig#urn:g"]));
    assert_eq!(quads, vec![RdfQuad {
        subject: named("urn:s"),
        predicate: "urn:p".to_owned(),
        object: named("urn:o"),
        graph: GraphLabel::Named("sparqld:b.trig#urn:g".to_owned()),
    }]);
}

#[test]
fn reports_a_source_that_does_not_parse() {
    let plan = plan_load("broken.ttl").unwrap();

    assert!(load_rdf_source(&plan, b"<urn:s> <urn:p> .").is_err());
}

#[test]
fn answers_a_query_that_does_not_parse_with_a_bad_request() {
    let dataset = Dataset::new().unwrap();
    let error = evaluate_query(&dataset, "SELECT WHERE").unwrap_err();

    assert_eq!(error.status, 400);
    assert!(!error.message.is_empty());
}

#[test]
fn refuses_a_literal_subject() {
    let mut dataset = Dataset::new().unwrap();
    let mut bad = quad("urn:s", "urn:g");
    bad.subject = RdfTerm::Literal {
        value: "x".to_owned(),
        datatype: "http://www.w3.org/2001/XMLSchema#string".to_owned(),
        language: None,
    };

    assert!(dataset.insert(&bad).is_err());
    assert_eq!(dataset.len().unwrap(), 0);
}

#[test]
fn counts_the_triples_of_a_source_and_its_scoped_graphs() {
    let mut dataset = Dataset::new().unwrap();
    dataset
        .insert_all(&vec![
            quad("urn:s1", "sparqld:a.trig"),
            quad("urn:s2", "sparqld:a.trig"),
            quad("urn:s1", "sparqld:a.trig#urn:g"),
            quad("urn:s1", "sparqld:b.ttl"),
            quad("urn:s1", "sparqld:a.trig"),
        ])
        .unwrap();
    let graphs = dataset.graph_names().unwrap();

    assert_eq!(graphs.len(), 3);
    assert_eq!(dataset.len().unwrap(), 4);
    assert_eq!(dataset.source_triple_count(&graphs, "a.trig").unwrap(), 3);
    assert_eq!(dataset.source_triple_count(&graphs, "b.ttl").unwrap(), 1);
    assert_eq!(dataset.source_triple_count(&graphs, "c.ttl").unwrap(), 0);
}

#[test]
fn replaces_the_graphs_of_the_affected_sources_and_the_catalog() {
    let mut dataset = Dataset::new().unwrap();
    dataset
        .insert_all(&vec![
            quad("urn:old", "sparqld:a.trig"),
            quad("urn:old", "sparqld:a.trig#urn:g"),
            quad("urn:kept", "sparqld:b.ttl"),
            quad("urn:catalog", "sparqld:"),
        ])
        .unwrap();
    let graphs = dataset.graph_names().unwrap();

    dataset
        .replace_sources(
            &strings(&["a.trig"]),
            &graphs,
            vec![quad("urn:new", "sparqld:a.trig")],
            vec![quad("urn:catalog2", "sparqld:")],
        )
        .unwrap();

    let graphs = dataset.graph_names().unwrap();
    assert_eq!(dataset.len().unwrap(), 3);
    assert_eq!(graphs.len(), 3);
    assert!(!graphs.contains(&"sparqld:a.trig#urn:g".to_owned()));
    assert_eq!(dataset.source_triple_count(&graphs, "b.ttl").unwrap(), 1);
    assert_eq!(dataset.graph_len("sparqld:").unwrap(), 1);
}

#[test]
fn leaves_the_dataset_unchanged_when_a_replacement_fails() {
    let mut dataset = Dataset::new().unwrap();
    dataset.insert(&quad("urn:old", "sparqld:a.ttl")).unwrap();
    let graphs = dataset.graph_names().unwrap();
    let mut bad = quad("urn:new", "sparqld:a.ttl");
    bad.subject = RdfTerm::Literal {
        value: "x".to_owned(),
        datatype: "http://www.w3.org/2001/XMLSchema#string".to_owned(),
        language: None,
    };

    assert!(dataset
        .replace_sources(&strings(&["a.ttl"]), &graphs, vec![bad], Vec::new())
        .is_err());
    assert_eq!(dataset.len().unwrap(), 1);
    assert_eq!(dataset.graph_len("sparqld:a.ttl").unwrap(), 1);
}

#[test]
fn lists_staged_graphs_for_affected_sources_and_current_ones_otherwise() {
    let described = described_graphs(
        &strings(&["a.trig", "b.trig"]),
        &strings(&["a.trig"]),
        &strings(&["sparqld:a.trig#urn:new"]),
        &strings(&["sparqld:a.trig#urn:old", "sparqld:b.trig#urn:g"]),
    )
    .unwrap();

    assert_eq!(
        described,
        vec![
            ("a.trig".to_owned(), strings(&["sparqld:a.trig#urn:new"])),
            ("b.trig".to_owned(), strings(&["sparqld:b.trig#urn:g"])),
        ]
    );
}

#[test]
fn batches_changes_to_several_paths_until_the_deadline() {
    let mut state = WatchState::new();
    let event = |kind, path: &str| WatchInput::Event {
        kind,
        paths: vec![(path.to_owned(), Some(EntryKind::File))],
    };

    assert!(matches!(state.step(event(WatchEventKind::Other, "/srv/a.ttl")), WatchAction::Wait));
    assert!(matches!(state.step(WatchInput::Timeout), WatchAction::Wait));
    assert!(matches!(state.step(event(WatchEventKind::Remove(EntryKind::File), "/srv/b.ttl")), WatchAction::Rearm));
    assert!(matches!(state.step(WatchInput::EventError), WatchAction::ReportError));
    assert!(matches!(state.step(event(WatchEventKind::Modify, "/srv/a.ttl")), WatchAction::Rearm));
    assert!(matches!(state.step(event(WatchEventKind::Create(EntryKind::File), "/srv/b.ttl")), WatchAction::Rearm));
    match state.step(WatchInput::Timeout) {
        WatchAction::Reload(changes) => assert_eq!(
            changes,
            vec![
                (
                    "/srv/a.ttl".to_owned(),
                    PathChange { change: FileChange::Changed, entry_kind: EntryKind::File }
                ),
                (
                    "/srv/b.ttl".to_owned(),
                    PathChange { change: FileChange::Changed, entry_kind: EntryKind::File }
                ),
            ]
        ),
        other => panic!("unexpected action {other:?}"),
    }
    assert!(matches!(state.step(WatchInput::Timeout), WatchAction::Wait));
    assert!(matches!(state.step(WatchInput::Stop), WatchAction::Stop));
}

#[test]
fn removes_a_graph_and_its_quads() {
    let mut dataset = Dataset::new().unwrap();
    dataset
        .insert_all(&vec![quad("urn:s", "sparqld:a.ttl"), quad("urn:s", "sparqld:b.ttl")])
        .unwrap();

    dataset.remove_graph("sparqld:a.ttl").unwrap();

    assert_eq!(dataset.len().unwrap(), 1);
    assert_eq!(dataset.graph_len("sparqld:a.ttl").unwrap(), 0);
    assert_eq!(dataset.graph_names().unwrap(), strings(&["sparqld:b.ttl"]));
}

#[test]
fn serves_each_query_form_with_its_media_type() {
    let dataset = Dataset::new().unwrap();
    let media = |query: &str| evaluate_query(&dataset, query).unwrap().0;

    assert_eq!(media("SELECT * WHERE { ?s ?p ?o }"), "application/sparql-results+json");
    assert_eq!(media("ASK { ?s ?p ?o }"), "application/sparql-results+json");
    assert_eq!(media("CONSTRUCT WHERE { ?s ?p ?o }"), "text/turtle");
    assert_eq!(media("DESCRIBE <urn:s>"), "text/turtle");
}

#[test]
fn keeps_numeric_literals_in_their_canonical_form() {
    let mut dataset = Dataset::new().unwrap();
    let integer = |value: &str| RdfQuad {
        subject: named("urn:s"),
        predicate: "urn:p".to_owned(),
        object: RdfTerm::Literal {
            value: value.to_owned(),
            datatype: "http://www.w3.org/2001/XMLSchema#integer".to_owned(),
            language: None,
        },
        graph: GraphLabel::Named("urn:g".to_owned()),
    };

    dataset.insert_all(&vec![integer("01"), integer("1")]).unwrap();

    assert_eq!(dataset.len().unwrap(), 1);
}

#[test]
fn gives_each_declared_graph_its_own_blank_node() {
    let described = vec![
        ("a.trig".to_owned(), strings(&["sparqld:a.trig#urn:x", "sparqld:a.trig#urn:y"])),
        ("b.trig".to_owned(), strings(&["sparqld:b.trig#urn:x"])),
    ];
    let quads = build_catalog(None, &described, &Vec::new()).unwrap();
    let blanks = quads
        .iter()
        .filter(|quad| quad.predicate.ends_with("#namedGraph"))
        .map(|quad| quad.object.clone())
        .collect::<Vec<_>>();

    assert_eq!(blanks.len(), 3);
    assert_ne!(blanks[0], blanks[1]);
    assert_ne!(blanks[0], blanks[2]);
    assert_ne!(blanks[1], blanks[2]);
}

#[test]
fn puts_a_reload_in_place_and_leaves_other_graphs_alone() {
    let mut dataset = Dataset::new().unwrap();
    dataset
        .insert_all(&vec![
            quad("urn:old", "sparqld:a.trig"),
            quad("urn:old", "sparqld:a.trig#urn:g"),
            quad("urn:kept", "sparqld:b.ttl"),
            quad("urn:catalog", "sparqld:"),
        ])
        .unwrap();

    dataset
        .apply_reload(
            Some("served"),
            &strings(&["a.trig"]),
            &strings(&["a.trig", "b.ttl"]),
            &Vec::new(),
            vec![quad("urn:new", "sparqld:a.trig#urn:h")],
            &strings(&["sparqld:a.trig#urn:h"]),
        )
        .unwrap();

    let graphs = dataset.graph_names().unwrap();
    assert!(!graphs.contains(&"sparqld:a.trig#urn:g".to_owned()));
    assert_eq!(dataset.graph_len("sparqld:a.trig").unwrap(), 0);
    assert_eq!(dataset.graph_len("sparqld:a.trig#urn:h").unwrap(), 1);
    assert_eq!(dataset.graph_len("sparqld:b.ttl").unwrap(), 1);
    let catalog = dataset.graph_len("sparqld:").unwrap();
    assert!(catalog > 1);
}

#[test]
fn leaves_the_dataset_alone_when_a_reload_cannot_be_described() {
    let mut dataset = Dataset::new().unwrap();
    dataset.insert(&quad("urn:kept", "sparqld:b.ttl")).unwrap();

    let result = dataset.apply_reload(
        None,
        &strings(&["b.ttl"]),
        &strings(&["../b.ttl"]),
        &Vec::new(),
        Vec::new(),
        &Vec::new(),
    );

    assert!(result.is_err());
    assert_eq!(dataset.len().unwrap(), 1);
}
