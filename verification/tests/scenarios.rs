use sparqld::changes::{explicit_entry_kind, EntryKind, FileChange, PathChange, WatchEventKind};
use sparqld::iri::{directory_iri, graph_name};
use sparqld::markdown::markdown_front_matter;
use sparqld::messages::{format_changed_paths, reload_messages, ObservedPath};
use sparqld::patterns::{validate_pattern, SourcePatterns};
use sparqld::report::{ReloadReport, SourceFailure, SourceUpdate, SourceUpdateKind};
use sparqld::dataset::{evaluate_query, Dataset};
use sparqld::rdf::{GraphLabel, RdfQuad, RdfTerm};
use sparqld::server::{
    allow_header, body_text, check_declared_length, form_body_query, landing_message,
    route_request, startup_refusal, HttpError, HttpMethod, Route, StartupState, MAX_QUERY_SIZE,
};
use sparqld::summary::{dataset_summary, serving_message, DatasetStats};

fn strings(items: &[&str]) -> Vec<String> {
    items.iter().map(|item| item.to_string()).collect()
}

#[test]
fn logs_the_directory_and_address() {
    assert_eq!(
        serving_message("docs", "localhost", 8080),
        "Serving docs at localhost:8080"
    );
}

#[test]
fn formats_dataset_statistics() {
    assert_eq!(
        dataset_summary(DatasetStats {
            loaded_files: 3,
            failed_files: 2,
            ignored_files: 6,
            triples: 24,
        }),
        "Dataset: 3 source files loaded; 2 source files failed; 6 files ignored; 24 triples total"
    );
    assert_eq!(
        dataset_summary(DatasetStats {
            loaded_files: 1,
            failed_files: 1,
            ignored_files: 1,
            triples: 1,
        }),
        "Dataset: 1 source file loaded; 1 source file failed; 1 file ignored; 1 triple total"
    );
}

#[test]
fn uses_the_containing_directory_as_the_base_iri() {
    assert_eq!(
        directory_iri("examples/alpha-centauri.yamlld"),
        "sparqld:examples/"
    );
    assert_eq!(directory_iri("alpha-centauri.yamlld"), "sparqld:");
}

#[test]
fn extracts_yaml_ld_from_markdown_front_matter() {
    assert_eq!(
        markdown_front_matter(b"---\r\n\"@id\": example\r\n---\r\n# Body\r\n").unwrap(),
        Some(b"\"@id\": example\r\n".as_slice())
    );
    assert_eq!(markdown_front_matter(b"# No front matter\n").unwrap(), None);
}

#[test]
fn percent_encodes_graph_names() {
    assert_eq!(
        graph_name("examples/alpha centauri.jsonld").unwrap(),
        "sparqld:examples/alpha%20centauri.jsonld"
    );
}

#[test]
fn rejects_empty_patterns() {
    assert_eq!(
        validate_pattern(""),
        Err("pattern must not be empty".to_owned())
    );
    assert_eq!(
        validate_pattern("!"),
        Err("exclusion pattern must follow !".to_owned())
    );
}

#[test]
fn defaults_to_all_paths() {
    assert!(SourcePatterns::all().matches("nested/source.ttl"));
}

#[test]
fn applies_includes_before_exclusions() {
    let patterns = SourcePatterns::compile(&strings(&["**/*.ttl", "!archive/**"])).unwrap();

    assert!(patterns.matches("nested/source.ttl"));
    assert!(!patterns.matches("archive/source.ttl"));
    assert!(!patterns.matches("nested/source.jsonld"));
}

#[test]
fn exclusions_without_includes_start_from_all_paths() {
    let patterns = SourcePatterns::compile(&strings(&["!archive/**"])).unwrap();

    assert!(patterns.matches("source.ttl"));
    assert!(!patterns.matches("archive/source.ttl"));
}

#[test]
fn plain_directory_exclusions_match_descendants() {
    let patterns = SourcePatterns::compile(&strings(&["!node_modules"])).unwrap();

    assert!(patterns.matches("source.ttl"));
    assert!(!patterns.matches("node_modules/package/index.jsonld"));
}

#[test]
fn formats_changed_paths_relative_to_the_served_directory() {
    let directory = "/srv/documents";
    let paths = strings(&["/srv/documents/nested/alpha.md", "/srv/documents/zeta.ttl"]);

    assert_eq!(
        format_changed_paths(directory, &paths),
        "nested/alpha.md, zeta.ttl"
    );
}

#[test]
fn takes_the_entry_kind_from_remove_events() {
    assert_eq!(
        explicit_entry_kind(WatchEventKind::Remove(EntryKind::Directory)),
        Some(EntryKind::Directory)
    );
}

fn observed(path: &str, change: FileChange, entry_kind: EntryKind, exists: bool) -> ObservedPath {
    ObservedPath {
        path: path.to_owned(),
        observed: PathChange { change, entry_kind },
        exists,
    }
}

fn impact(path: &str, sources: &[&str]) -> (String, Vec<String>) {
    (path.to_owned(), strings(sources))
}

#[test]
fn describes_each_files_loader_outcome() {
    let directory = "/tmp/served";
    let changed = vec![
        observed("/tmp/served/foo.yamlld", FileChange::Created, EntryKind::File, true),
        observed("/tmp/served/index.js", FileChange::Created, EntryKind::File, true),
        observed("/tmp/served/index.md", FileChange::Changed, EntryKind::File, true),
        observed(
            "/tmp/served/stylesheets/extra.css",
            FileChange::Changed,
            EntryKind::File,
            true,
        ),
    ];
    let report = ReloadReport {
        loaded_sources: strings(&["foo.yamlld", "index.md"]),
        load_errors: Vec::new(),
        context_dependents: Vec::new(),
        updates: vec![
            SourceUpdate {
                path: "foo.yamlld".to_owned(),
                graph: "sparqld:foo.yamlld".to_owned(),
                triples: 8,
                kind: SourceUpdateKind::Loaded,
            },
            SourceUpdate {
                path: "index.md".to_owned(),
                graph: "sparqld:index.md".to_owned(),
                triples: 5,
                kind: SourceUpdateKind::Reloaded,
            },
        ],
        failures: Vec::new(),
        impacts: vec![
            impact("foo.yamlld", &["foo.yamlld"]),
            impact("index.md", &["index.md"]),
            impact("index.js", &[]),
            impact("stylesheets/extra.css", &[]),
        ],
    };

    assert_eq!(
        reload_messages(directory, &changed, &report),
        [
            "File created: foo.yamlld; loaded as sparqld:foo.yamlld (8 triples)",
            "File created: index.js; ignored",
            "File changed: index.md; reloaded as sparqld:index.md (5 triples)",
            "File changed: stylesheets/extra.css; ignored",
        ]
    );
}

#[test]
fn describes_a_failed_source_with_its_path_and_graph() {
    let directory = "/tmp/served";
    let changed = vec![observed(
        "/tmp/served/broken.xml",
        FileChange::Created,
        EntryKind::File,
        true,
    )];
    let error = "XML namespaces are required in RDF/XML";
    let report = ReloadReport {
        loaded_sources: Vec::new(),
        load_errors: vec![("broken.xml".to_owned(), error.to_owned())],
        context_dependents: Vec::new(),
        updates: vec![SourceUpdate {
            path: "broken.xml".to_owned(),
            graph: "sparqld:broken.xml".to_owned(),
            triples: 3,
            kind: SourceUpdateKind::Removed,
        }],
        failures: vec![SourceFailure {
            path: "broken.xml".to_owned(),
            graph: "sparqld:broken.xml".to_owned(),
            format: "RDF/XML",
            error: error.to_owned(),
        }],
        impacts: vec![impact("broken.xml", &["broken.xml"])],
    };

    assert_eq!(
        reload_messages(directory, &changed, &report),
        [
            "File created: broken.xml; failed to load as RDF/XML into sparqld:broken.xml: XML namespaces are required in RDF/XML"
        ]
    );
}

#[test]
fn describes_a_deleted_directory_as_a_directory() {
    let directory = "/tmp/served";
    let changed = vec![observed(
        "/tmp/served/examples/context-files/people",
        FileChange::Deleted,
        EntryKind::Directory,
        false,
    )];
    let report = ReloadReport {
        loaded_sources: Vec::new(),
        load_errors: Vec::new(),
        context_dependents: Vec::new(),
        updates: Vec::new(),
        failures: Vec::new(),
        impacts: vec![impact("examples/context-files/people", &[])],
    };

    assert_eq!(
        reload_messages(directory, &changed, &report),
        ["Directory deleted: examples/context-files/people; ignored"]
    );
}

#[test]
fn does_not_attribute_a_source_failure_to_its_created_directory() {
    let directory = "/tmp/served";
    let changed = vec![
        observed(
            "/tmp/served/conversations",
            FileChange::Created,
            EntryKind::Directory,
            true,
        ),
        observed(
            "/tmp/served/conversations/user.txt",
            FileChange::Created,
            EntryKind::File,
            true,
        ),
    ];
    let error = "The subject of a triple must be an IRI or a blank node";
    let report = ReloadReport {
        loaded_sources: Vec::new(),
        load_errors: vec![("conversations/user.txt".to_owned(), error.to_owned())],
        context_dependents: Vec::new(),
        updates: Vec::new(),
        failures: vec![SourceFailure {
            path: "conversations/user.txt".to_owned(),
            graph: "sparqld:conversations/user.txt".to_owned(),
            format: "N-Triples",
            error: error.to_owned(),
        }],
        impacts: vec![
            impact("conversations", &["conversations/user.txt"]),
            impact("conversations/user.txt", &["conversations/user.txt"]),
        ],
    };

    assert_eq!(
        reload_messages(directory, &changed, &report),
        [
            "Directory created: conversations; ignored",
            "File created: conversations/user.txt; failed to load as N-Triples into sparqld:conversations/user.txt: The subject of a triple must be an IRI or a blank node",
        ]
    );
}

fn refusal(
    method: HttpMethod,
    path: &str,
    query: Option<&str>,
    content_type: Option<&str>,
) -> (u16, String) {
    match route_request(method, path, query, content_type) {
        Ok(_) => panic!("the request was not refused"),
        Err(error) => (error.status, error.message),
    }
}

#[test]
fn serves_a_landing_response() {
    assert!(matches!(
        route_request(HttpMethod::Get, "/", None, None),
        Ok(Route::Landing)
    ));
    assert_eq!(landing_message(), "sparqld read-only SPARQL endpoint");
}

const QUERY_RESULTS_MEDIA_TYPE: &str = "application/sparql-results+json";
const RDF_MEDIA_TYPE: &str = "text/turtle";

/// Answers a request on `dataset` the way the endpoint does: routes it, reads
/// the query from where the route says, and evaluates it.
fn respond_on(
    dataset: &Dataset,
    method: HttpMethod,
    uri: &str,
    content_type: Option<&str>,
    body: &str,
) -> Result<(&'static str, String), HttpError> {
    let (path, query) = match uri.split_once('?') {
        Some((path, query)) => (path, Some(query)),
        None => (uri, None),
    };
    let query = match route_request(method, path, query, content_type)? {
        Route::Landing => return Ok(("text/plain", landing_message().to_owned())),
        Route::Query(query) => query,
        Route::QueryBody => body_text(body.as_bytes())?,
        Route::FormBody => form_body_query(&body_text(body.as_bytes())?)?,
    };
    let (content_type, body) = evaluate_query(dataset, &query)?;
    Ok((content_type, String::from_utf8(body).unwrap()))
}

/// The status the endpoint answers with: 200 for an answer, else the
/// refusal's status.
fn status_of(response: &Result<(&'static str, String), HttpError>) -> u16 {
    match response {
        Ok(_) => 200,
        Err(error) => error.status,
    }
}

fn respond(
    method: HttpMethod,
    uri: &str,
    content_type: Option<&str>,
    body: &str,
) -> Result<(&'static str, String), HttpError> {
    respond_on(&Dataset::new().unwrap(), method, uri, content_type, body)
}

#[test]
fn creates_an_empty_dataset() {
    let dataset = Dataset::new().unwrap();

    assert_eq!(dataset.len().unwrap(), 0);
}

#[test]
fn evaluates_a_get_query() {
    let (content_type, body) = respond(
        HttpMethod::Get,
        "/?query=ASK%20%7B%20%3Fs%20%3Fp%20%3Fo%20%7D",
        None,
        "",
    )
    .unwrap();

    assert_eq!(content_type, QUERY_RESULTS_MEDIA_TYPE);
    assert!(body.contains("\"boolean\":false"));
}

#[test]
fn queries_the_union_of_named_graphs_by_default() {
    let mut dataset = Dataset::new().unwrap();
    dataset
        .insert(&RdfQuad {
            subject: RdfTerm::Named("urn:subject".to_owned()),
            predicate: "urn:predicate".to_owned(),
            object: RdfTerm::Named("urn:object".to_owned()),
            graph: GraphLabel::Named("urn:graph".to_owned()),
        })
        .unwrap();

    let (_, body) = respond_on(
        &dataset,
        HttpMethod::Get,
        "/?query=ASK%20%7B%20%3Fs%20%3Fp%20%3Fo%20%7D",
        None,
        "",
    )
    .unwrap();

    assert!(body.contains("\"boolean\":true"));
}

#[test]
fn evaluates_a_post_query() {
    let (content_type, body) = respond(
        HttpMethod::Post,
        "/",
        Some("application/sparql-query"),
        "SELECT * WHERE { ?s ?p ?o }",
    )
    .unwrap();

    assert_eq!(content_type, QUERY_RESULTS_MEDIA_TYPE);
    assert!(body.contains("\"bindings\":[]"));
}

#[test]
fn evaluates_a_form_query() {
    let response = respond(
        HttpMethod::Post,
        "/",
        Some("application/x-www-form-urlencoded"),
        "query=ASK%20%7B%20%7D",
    );

    assert_eq!(status_of(&response), 200);
}

#[test]
fn serializes_graph_queries_as_turtle() {
    let response = respond(
        HttpMethod::Post,
        "/",
        Some("application/sparql-query"),
        "CONSTRUCT WHERE { ?s ?p ?o }",
    );

    assert_eq!(status_of(&response), 200);
    assert_eq!(response.unwrap().0, RDF_MEDIA_TYPE);
}

#[test]
fn accepts_content_type_parameters() {
    assert!(matches!(
        route_request(
            HttpMethod::Post,
            "/",
            None,
            Some("application/sparql-query; charset=utf-8")
        ),
        Ok(Route::QueryBody)
    ));
    let response = respond(
        HttpMethod::Post,
        "/",
        Some("application/sparql-query; charset=utf-8"),
        "ASK {}",
    );

    assert_eq!(status_of(&response), 200);
}

#[test]
fn rejects_a_missing_query_parameter() {
    assert_eq!(
        refusal(HttpMethod::Get, "/", Some("format=json"), None),
        (400, "Missing query parameter".to_owned())
    );
}

#[test]
fn rejects_a_repeated_query_parameter() {
    assert_eq!(
        refusal(
            HttpMethod::Get,
            "/",
            Some("query=ASK%20%7B%7D&query=ASK%20%7B%7D"),
            None
        ),
        (400, "The query parameter must not be repeated".to_owned())
    );
}

#[test]
fn rejects_a_post_without_a_content_type() {
    assert_eq!(
        refusal(HttpMethod::Post, "/", None, None),
        (400, "Missing Content-Type".to_owned())
    );
}

#[test]
fn rejects_an_unsupported_content_type() {
    assert_eq!(
        refusal(HttpMethod::Post, "/", None, Some("application/json")),
        (415, "Unsupported Content-Type: application/json".to_owned())
    );
}

#[test]
fn rejects_an_oversized_query() {
    let body = "x".repeat(MAX_QUERY_SIZE + 1);
    let error = body_text(body.as_bytes()).err().unwrap();

    assert_eq!(error.status, 413);
    assert_eq!(error.message, "Query is too large");
    let declared = check_declared_length(Some((MAX_QUERY_SIZE + 1) as u64))
        .err()
        .unwrap();
    assert_eq!(declared.status, 413);
}

#[test]
fn rejects_updates() {
    let (status, _) = refusal(
        HttpMethod::Post,
        "/",
        None,
        Some("application/sparql-update"),
    );

    assert_eq!(status, 405);
    assert_eq!(allow_header(status), Some("GET, POST"));
}

#[test]
fn rejects_unknown_paths() {
    assert_eq!(refusal(HttpMethod::Get, "/update", None, None).0, 404);
}

#[test]
fn rejects_other_http_methods() {
    let (status, _) = refusal(HttpMethod::Other, "/", None, None);

    assert_eq!(status, 405);
    assert_eq!(allow_header(status), Some("GET, POST"));
}

#[test]
fn rejects_root_requests_after_startup_fails() {
    let error = startup_refusal(StartupState::Failed).unwrap();

    assert_eq!(error.status, 503);
    assert_eq!(error.message, "Initial dataset failed to load");
}

#[test]
fn rejects_unknown_paths_while_starting() {
    assert_eq!(refusal(HttpMethod::Get, "/readyz", None, None).0, 404);
}
