//! How the endpoint answers an HTTP request: which requests it serves, where
//! the query comes from, and the status and text of each refusal.
//!
//! The server around it waits for the dataset, reads request bodies, runs the
//! query and writes the response.

use vstd::prelude::*;

use crate::text::{chars_equal_str, chars_of, push_str, string_of, texts, utf8_error_message, utf8_text};
use vstd::utf8::{decode_utf8, valid_utf8};

verus! {

/// The largest query, in bytes, that the endpoint reads from a request body.
pub const MAX_QUERY_SIZE: usize = 1048576;

/// The media type of SPARQL query results.
pub open spec fn query_results_media_type() -> Seq<char> {
    "application/sparql-results+json"@
}

/// The media type of graphs that `CONSTRUCT` and `DESCRIBE` queries return.
pub open spec fn rdf_media_type() -> Seq<char> {
    "text/turtle"@
}

/// The text of the landing response.
pub open spec fn landing_text() -> Seq<char> {
    "sparqld read-only SPARQL endpoint"@
}

/// A refusal: the HTTP status and the text of the response.
#[derive(Debug)]
pub struct HttpError {
    pub status: u16,
    pub message: String,
}

/// The request methods the endpoint tells apart.
#[derive(Clone, Copy, Debug, PartialEq, Eq, Structural)]
pub enum HttpMethod {
    Get,
    Post,
    Other,
}

/// Where the query of a request comes from.
pub enum Route {
    /// A `GET` of the endpoint without a query string: the landing text.
    Landing,
    /// The query given in the query string.
    Query(String),
    /// The request body is the query.
    QueryBody,
    /// The request body is a form whose `query` field is the query.
    FormBody,
}

/// The kinds of result a SPARQL query gives.
#[derive(Clone, Copy, Debug, PartialEq, Eq, Structural)]
pub enum ResultsKind {
    Solutions,
    Boolean,
    Graph,
}

/// How far the first load of the dataset has come.
#[derive(Clone, Copy, Debug, PartialEq, Eq, Structural)]
pub enum StartupState {
    Loading,
    Ready,
    Failed,
}

/// The `(name, value)` pairs that `form_urlencoded::parse` decodes from
/// `encoded`, in order.
pub uninterp spec fn form_pairs(encoded: Seq<char>) -> Seq<(Seq<char>, Seq<char>)>;

/// Calls `form_urlencoded::parse` on the bytes of `encoded` and takes each
/// decoded name and value as owned text. The contract names the result, and
/// states that empty input yields no pair; percent-decoding and `+` are left
/// to `form_urlencoded`.
#[verifier::external_body]
fn parse_form(encoded: &str) -> (r: Vec<(String, String)>)
    ensures
        r@.map_values(|e: (String, String)| (e.0@, e.1@)) == form_pairs(encoded@),
        encoded@.len() == 0 ==> r@.len() == 0,
{
    form_urlencoded::parse(encoded.as_bytes()).map(|(name, value)| (name.into_owned(), value.into_owned())).collect()
}

/// The values of the fields named `query`, in order.
pub open spec fn query_values(pairs: Seq<(Seq<char>, Seq<char>)>) -> Seq<Seq<char>>
    decreases pairs.len(),
{
    if pairs.len() == 0 {
        seq![]
    } else {
        let before = query_values(pairs.drop_last());
        if pairs.last().0 == "query"@ {
            before.push(pairs.last().1)
        } else {
            before
        }
    }
}

/// The text for a repeated `query` field.
pub open spec fn repeated_query_message() -> Seq<char> {
    "The query parameter must not be repeated"@
}

/// The query that a form gives, from the decoded pairs: none without a
/// `query` field, its value with one, and an error with more.
pub open spec fn form_query(pairs: Seq<(Seq<char>, Seq<char>)>) -> Result<Option<Seq<char>>, Seq<char>> {
    let values = query_values(pairs);
    if values.len() == 0 {
        Ok(None)
    } else if values.len() == 1 {
        Ok(Some(values[0]))
    } else {
        Err(repeated_query_message())
    }
}

fn error(status: u16, message: &str) -> (r: HttpError)
    ensures
        r.status == status,
        r.message@ == message@,
{
    HttpError { status, message: message.to_owned() }
}

/// The `query` field of URL-encoded form data: none, the one value, or a
/// `400` refusal when the field is repeated.
pub fn query_parameter(encoded: &str) -> (r: Result<Option<String>, HttpError>)
    ensures
        match r {
            Ok(None) => form_query(form_pairs(encoded@)) == Ok::<Option<Seq<char>>, Seq<char>>(None),
            Ok(Some(q)) => form_query(form_pairs(encoded@)) == Ok::<Option<Seq<char>>, Seq<char>>(
                Some(q@),
            ),
            Err(e) => e.status == 400 && form_query(form_pairs(encoded@)) == Err::<
                Option<Seq<char>>,
                Seq<char>,
            >(e.message@),
        },
        encoded@.len() == 0 ==> r matches Ok(None),
{
    let pairs = parse_form(encoded);
    let ghost ps = pairs@.map_values(|e: (String, String)| (e.0@, e.1@));
    let mut found: Option<String> = None;
    let mut i: usize = 0;
    proof {
        reveal_strlit("query");
    }
    while i < pairs.len()
        invariant
            i <= pairs.len(),
            ps == pairs@.map_values(|e: (String, String)| (e.0@, e.1@)),
            ps == form_pairs(encoded@),
            encoded@.len() == 0 ==> pairs.len() == 0,
            query_values(ps.take(i as int)).len() <= 1,
            match found {
                None => query_values(ps.take(i as int)).len() == 0,
                Some(q) => query_values(ps.take(i as int)) == seq![q@],
            },
        decreases pairs.len() - i,
    {
        proof {
            reveal_strlit("query");
            assert(ps.take(i + 1).drop_last() =~= ps.take(i as int));
            assert(ps.take(i + 1).last() == (pairs@[i as int].0@, pairs@[i as int].1@));
        }
        let name = chars_of(pairs[i].0.as_str());
        if chars_equal_str(&name, "query") {
            match found {
                Some(_) => {
                    proof {
                        assert(query_values(ps.take(i + 1)).len() == 2);
                        lemma_query_values_grow(ps, i + 1);
                    }
                    return Err(error(400, "The query parameter must not be repeated"));
                },
                None => {
                    found = Some(pairs[i].1.clone());
                    assert(query_values(ps.take(i + 1)) =~= seq![pairs@[i as int].1@]);
                },
            }
        }
        i = i + 1;
    }
    assert(ps.take(i as int) =~= ps);
    Ok(found)
}

proof fn lemma_query_values_grow(ps: Seq<(Seq<char>, Seq<char>)>, k: int)
    requires
        0 <= k <= ps.len(),
    ensures
        query_values(ps).len() >= query_values(ps.take(k)).len(),
    decreases ps.len(),
{
    if ps.len() == k {
        assert(ps.take(k) =~= ps);
    } else {
        assert(ps.drop_last().take(k) =~= ps.take(k));
        lemma_query_values_grow(ps.drop_last(), k);
    }
}

/// Whether `c` is white space to `str::trim`: Unicode `White_Space`.
pub open spec fn is_white_space(c: char) -> bool {
    ('\u{9}' <= c && c <= '\u{d}') || c == ' ' || c == '\u{85}' || c == '\u{a0}' || c
        == '\u{1680}' || ('\u{2000}' <= c && c <= '\u{200a}') || c == '\u{2028}' || c == '\u{2029}'
        || c == '\u{202f}' || c == '\u{205f}' || c == '\u{3000}'
}

fn white_space(c: char) -> (r: bool)
    ensures
        r == is_white_space(c),
{
    ('\u{9}' <= c && c <= '\u{d}') || c == ' ' || c == '\u{85}' || c == '\u{a0}' || c == '\u{1680}'
        || ('\u{2000}' <= c && c <= '\u{200a}') || c == '\u{2028}' || c == '\u{2029}' || c
        == '\u{202f}' || c == '\u{205f}' || c == '\u{3000}'
}

/// The index of the first `;` in `s`, or its length.
pub open spec fn first_semicolon(s: Seq<char>) -> int
    decreases s.len(),
{
    if s.len() == 0 {
        0
    } else if s[0] == ';' {
        0
    } else {
        1 + first_semicolon(s.drop_first())
    }
}

/// `s` without white space at either end.
pub open spec fn trim_both(s: Seq<char>) -> Seq<char>
    decreases s.len(),
{
    if s.len() > 0 && is_white_space(s[0]) {
        trim_both(s.drop_first())
    } else if s.len() > 0 && is_white_space(s.last()) {
        trim_both(s.drop_last())
    } else {
        s
    }
}

/// The media type of a `Content-Type` value: the text before the first `;`,
/// trimmed.
pub open spec fn media_type_of(content_type: Seq<char>) -> Seq<char> {
    trim_both(content_type.take(first_semicolon(content_type)))
}

proof fn lemma_first_semicolon(s: Seq<char>)
    ensures
        0 <= first_semicolon(s) <= s.len(),
        forall|j: int| 0 <= j < first_semicolon(s) ==> s[j] != ';',
        first_semicolon(s) < s.len() ==> s[first_semicolon(s)] == ';',
    decreases s.len(),
{
    if s.len() > 0 && s[0] != ';' {
        lemma_first_semicolon(s.drop_first());
        assert forall|j: int| 0 <= j < first_semicolon(s) implies s[j] != ';' by {
            if j > 0 {
                assert(s[j] == s.drop_first()[j - 1]);
            }
        }
    }
}

proof fn lemma_trim_both(s: Seq<char>, a: int, b: int)
    requires
        0 <= a <= b <= s.len(),
        forall|j: int| 0 <= j < a ==> is_white_space(#[trigger] s[j]),
        forall|j: int| b <= j < s.len() ==> is_white_space(#[trigger] s[j]),
        a < b ==> !is_white_space(s[a]) && !is_white_space(s[b - 1]),
    ensures
        trim_both(s) == s.subrange(a, b),
    decreases s.len(),
{
    if a > 0 {
        assert forall|j: int| 0 <= j < a - 1 implies is_white_space(#[trigger] s.drop_first()[j]) by {
            assert(s.drop_first()[j] == s[j + 1]);
        }
        assert forall|j: int| b - 1 <= j < s.len() - 1 implies is_white_space(
            #[trigger] s.drop_first()[j],
        ) by {
            assert(s.drop_first()[j] == s[j + 1]);
        }
        lemma_trim_both(s.drop_first(), a - 1, b - 1);
        assert(s.drop_first().subrange(a - 1, b - 1) =~= s.subrange(a, b));
    } else if b < s.len() {
        if s.len() > 0 && is_white_space(s[0]) {
            assert(a == b);
            assert forall|j: int| 0 <= j < s.len() - 1 implies is_white_space(
                #[trigger] s.drop_first()[j],
            ) by {
                assert(s.drop_first()[j] == s[j + 1]);
            }
            lemma_trim_both(s.drop_first(), 0, 0);
            assert(s.drop_first().subrange(0, 0) =~= s.subrange(a, b));
        } else {
            assert forall|j: int| b <= j < s.len() - 1 implies is_white_space(
                #[trigger] s.drop_last()[j],
            ) by {
                assert(s.drop_last()[j] == s[j]);
            }
            assert forall|j: int| 0 <= j < a implies is_white_space(#[trigger] s.drop_last()[j]) by {}
            lemma_trim_both(s.drop_last(), a, b);
            assert(s.drop_last().subrange(a, b) =~= s.subrange(a, b));
        }
    } else {
        assert(s.subrange(a, b) =~= s);
        if s.len() > 0 {
            assert(!is_white_space(s[0]));
            assert(!is_white_space(s.last()));
        }
    }
}

/// The media type of a `Content-Type` value.
pub fn media_type(content_type: &str) -> (r: String)
    ensures
        r@ == media_type_of(content_type@),
{
    let s = chars_of(content_type);
    proof {
        lemma_first_semicolon(s@);
    }
    let mut end: usize = 0;
    while end < s.len() && s[end] != ';'
        invariant
            end <= s.len(),
            forall|j: int| 0 <= j < end ==> s@[j] != ';',
            end <= first_semicolon(s@),
            0 <= first_semicolon(s@) <= s.len(),
            forall|j: int| 0 <= j < first_semicolon(s@) ==> s@[j] != ';',
            first_semicolon(s@) < s.len() ==> s@[first_semicolon(s@)] == ';',
        decreases s.len() - end,
    {
        end = end + 1;
    }
    assert(end == first_semicolon(s@));
    let head = crate::text::slice_chars(&s, 0, end);
    assert(head@ =~= s@.take(end as int));
    let mut a: usize = 0;
    while a < head.len() && white_space(head[a])
        invariant
            a <= head.len(),
            forall|j: int| 0 <= j < a ==> is_white_space(#[trigger] head@[j]),
        decreases head.len() - a,
    {
        a = a + 1;
    }
    let mut b: usize = head.len();
    while b > a && white_space(head[b - 1])
        invariant
            a <= b <= head.len(),
            forall|j: int| b <= j < head.len() ==> is_white_space(#[trigger] head@[j]),
        decreases b,
    {
        b = b - 1;
    }
    proof {
        if a < b {
            assert(!is_white_space(head@[a as int]));
            assert(!is_white_space(head@[b - 1]));
        }
        lemma_trim_both(head@, a as int, b as int);
    }
    let trimmed = crate::text::slice_chars(&head, a, b);
    string_of(&trimmed)
}

/// The text for a request without a query.
pub open spec fn missing_query_message() -> Seq<char> {
    "Missing query parameter"@
}

/// How the endpoint answers a request with `path`, `method`, the query
/// string `query` if the target has one, and the `Content-Type` header if it
/// has a textual one.
pub open spec fn route_of(
    method: HttpMethod,
    path: Seq<char>,
    query: Option<Seq<char>>,
    content_type: Option<Seq<char>>,
) -> Result<RouteView, (u16, Seq<char>)> {
    if path != "/"@ {
        Err((404, "Not found"@))
    } else {
        match method {
            HttpMethod::Get => match query {
                None => Ok(RouteView::Landing),
                Some(q) => match form_query(form_pairs(q)) {
                    Err(m) => Err((400, m)),
                    Ok(Some(value)) => Ok(RouteView::Query(value)),
                    Ok(None) => Err((400, missing_query_message())),
                },
            },
            HttpMethod::Post => match content_type {
                None => Err((400, "Missing Content-Type"@)),
                Some(value) => {
                    let media = media_type_of(value);
                    if media == "application/sparql-query"@ {
                        Ok(RouteView::QueryBody)
                    } else if media == "application/x-www-form-urlencoded"@ {
                        Ok(RouteView::FormBody)
                    } else if media == "application/sparql-update"@ {
                        Err((405, read_only_message()))
                    } else {
                        Err((415, "Unsupported Content-Type: "@ + media))
                    }
                },
            },
            HttpMethod::Other => Err((405, read_only_message())),
        }
    }
}

/// A route as plain values.
pub enum RouteView {
    Landing,
    Query(Seq<char>),
    QueryBody,
    FormBody,
}

/// The view of a route.
pub open spec fn route_view(r: Route) -> RouteView {
    match r {
        Route::Landing => RouteView::Landing,
        Route::Query(q) => RouteView::Query(q@),
        Route::QueryBody => RouteView::QueryBody,
        Route::FormBody => RouteView::FormBody,
    }
}

/// The text for a request that would change the dataset.
pub open spec fn read_only_message() -> Seq<char> {
    "This SPARQL endpoint is read-only"@
}

/// The refusal of a request for any target but the endpoint itself.
pub fn target_refusal(path: &str) -> (r: Option<HttpError>)
    ensures
        match r {
            None => path@ == "/"@,
            Some(e) => path@ != "/"@ && e.status == 404 && e.message@ == "Not found"@,
        },
{
    if chars_equal_str(&chars_of(path), "/") {
        None
    } else {
        Some(error(404, "Not found"))
    }
}

/// The text of the landing response.
pub fn landing_message() -> (r: &'static str)
    ensures
        r@ == landing_text(),
{
    "sparqld read-only SPARQL endpoint"
}

/// Decides how to answer a request: the route its query takes, or the
/// refusal.
pub fn route_request(
    method: HttpMethod,
    path: &str,
    query: Option<&str>,
    content_type: Option<&str>,
) -> (r: Result<Route, HttpError>)
    ensures
        match r {
            Ok(route) => route_of(
                method,
                path@,
                match query {
                    Some(q) => Some(q@),
                    None => None,
                },
                match content_type {
                    Some(c) => Some(c@),
                    None => None,
                },
            ) == Ok::<RouteView, (u16, Seq<char>)>(route_view(route)),
            Err(e) => route_of(
                method,
                path@,
                match query {
                    Some(q) => Some(q@),
                    None => None,
                },
                match content_type {
                    Some(c) => Some(c@),
                    None => None,
                },
            ) == Err::<RouteView, (u16, Seq<char>)>((e.status, e.message@)),
        },
{
    proof {
        reveal_strlit("/");
        reveal_strlit("");
        assert(""@ =~= Seq::<char>::empty());
    }
    if let Some(e) = target_refusal(path) {
        return Err(e);
    }
    match method {
        HttpMethod::Get => {
            let encoded = match query {
                Some(q) => q,
                None => "",
            };
            match query_parameter(encoded) {
                Err(e) => Err(e),
                Ok(Some(q)) => Ok(Route::Query(q)),
                Ok(None) => {
                    if query.is_none() {
                        Ok(Route::Landing)
                    } else {
                        Err(error(400, "Missing query parameter"))
                    }
                },
            }
        },
        HttpMethod::Post => match content_type {
            None => Err(error(400, "Missing Content-Type")),
            Some(value) => {
                let media = media_type(value);
                let m = chars_of(media.as_str());
                if chars_equal_str(&m, "application/sparql-query") {
                    Ok(Route::QueryBody)
                } else if chars_equal_str(&m, "application/x-www-form-urlencoded") {
                    Ok(Route::FormBody)
                } else if chars_equal_str(&m, "application/sparql-update") {
                    Err(error(405, "This SPARQL endpoint is read-only"))
                } else {
                    let mut text = chars_of("Unsupported Content-Type: ");
                    push_str(&mut text, media.as_str());
                    Err(HttpError { status: 415, message: string_of(&text) })
                }
            },
        },
        HttpMethod::Other => Err(error(405, "This SPARQL endpoint is read-only")),
    }
}

/// The text for a body over the limit.
pub open spec fn too_large_message() -> Seq<char> {
    "Query is too large"@
}

/// Refuses a body whose declared length is over the limit, before it is read.
pub fn check_declared_length(length: Option<u64>) -> (r: Result<(), HttpError>)
    ensures
        match r {
            Ok(()) => !(length matches Some(n) && n > MAX_QUERY_SIZE),
            Err(e) => (length matches Some(n) && n > MAX_QUERY_SIZE) && e.status == 413
                && e.message@ == too_large_message(),
        },
{
    match length {
        Some(n) => {
            if n > 1048576u64 {
                Err(error(413, "Query is too large"))
            } else {
                Ok(())
            }
        },
        None => Ok(()),
    }
}

/// The query in a request body, read up to one byte past the limit: a `413`
/// refusal over the limit, a `400` refusal unless it is UTF-8, else its text.
pub fn body_text(bytes: &[u8]) -> (r: Result<String, HttpError>)
    ensures
        match r {
            Ok(text) => bytes.len() <= MAX_QUERY_SIZE && valid_utf8(bytes@) && text@ == decode_utf8(
                bytes@,
            ),
            Err(e) => if bytes.len() > MAX_QUERY_SIZE {
                e.status == 413 && e.message@ == too_large_message()
            } else {
                !valid_utf8(bytes@) && e.status == 400 && e.message@ == utf8_error_message(bytes@)
            },
        },
{
    if bytes.len() > 1048576 {
        return Err(error(413, "Query is too large"));
    }
    match utf8_text(bytes) {
        Ok(text) => Ok(text),
        Err(message) => Err(HttpError { status: 400, message }),
    }
}

/// The query of a form body: its `query` field, or a `400` refusal when the
/// field is missing or repeated.
pub fn form_body_query(body: &str) -> (r: Result<String, HttpError>)
    ensures
        match r {
            Ok(q) => form_query(form_pairs(body@)) == Ok::<Option<Seq<char>>, Seq<char>>(Some(q@)),
            Err(e) => e.status == 400 && match form_query(form_pairs(body@)) {
                Err(m) => e.message@ == m,
                Ok(None) => e.message@ == missing_query_message(),
                Ok(Some(_)) => false,
            },
        },
{
    match query_parameter(body) {
        Err(e) => Err(e),
        Ok(Some(q)) => Ok(q),
        Ok(None) => Err(error(400, "Missing query parameter")),
    }
}

/// The refusal of a request while the first load has failed; none once it
/// is ready.
pub fn startup_refusal(state: StartupState) -> (r: Option<HttpError>)
    requires
        state != StartupState::Loading,
    ensures
        match r {
            None => state == StartupState::Ready,
            Some(e) => state == StartupState::Failed && e.status == 503 && e.message@
                == "Initial dataset failed to load"@,
        },
{
    match state {
        StartupState::Failed => Some(error(503, "Initial dataset failed to load")),
        _ => None,
    }
}

/// The `Allow` header of a response with `status`: the methods the endpoint
/// serves, on a `405`.
pub fn allow_header(status: u16) -> (r: Option<&'static str>)
    ensures
        match r {
            Some(v) => status == 405 && v@ == "GET, POST"@,
            None => status != 405,
        },
{
    if status == 405 {
        Some("GET, POST")
    } else {
        None
    }
}

/// The media type of a query's results.
pub fn results_media_type(kind: ResultsKind) -> (r: &'static str)
    ensures
        r@ == if kind == ResultsKind::Graph {
            rdf_media_type()
        } else {
            query_results_media_type()
        },
{
    match kind {
        ResultsKind::Graph => "text/turtle",
        _ => "application/sparql-results+json",
    }
}

} // verus!
