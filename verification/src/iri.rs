//! The `sparqld:` IRIs of source graphs, directories and the file catalog.

use vstd::prelude::*;
use vstd::utf8::encode_utf8;

use crate::paths::{parent, parent_of};
use crate::text::{chars_of, push_chars, push_str, string_of};

verus! {

/// The upper-case hexadecimal digit for `n` below 16.
pub open spec fn hex_upper(n: u8) -> char {
    if n < 10 {
        ((n + 48) as u8) as char
    } else {
        ((n + 55) as u8) as char
    }
}

/// The percent-escape of a byte: `%` and two upper-case hexadecimal digits.
pub open spec fn percent_escape(b: u8) -> Seq<char> {
    seq!['%', hex_upper(b / 16), hex_upper(b % 16)]
}

/// Calls `percent_encoding::percent_encode_byte`; the contract restates that
/// it gives `%` followed by the byte's two upper-case hexadecimal digits.
#[verifier::external_body]
fn percent_encode_byte(b: u8) -> (r: &'static str)
    ensures
        r@ == percent_escape(b),
{
    percent_encoding::percent_encode_byte(b)
}

/// The ASCII bytes that a path escapes in a graph IRI: the controls, space,
/// `"`, `#`, `%`, `<`, `>`, `?`, backquote, `{` and `}`.
pub open spec fn escaped_in_graph_path(b: u8) -> bool {
    b < 0x20 || b == 0x7f || b == 0x20 || b == 0x22 || b == 0x23 || b == 0x25 || b == 0x3c
        || b == 0x3e || b == 0x3f || b == 0x60 || b == 0x7b || b == 0x7d
}

/// How one UTF-8 byte of a path appears in its graph IRI: escaped when it is
/// not ASCII or is escaped in graph paths, else as the character it encodes.
pub open spec fn encoded_byte(b: u8) -> Seq<char> {
    if b >= 0x80 || escaped_in_graph_path(b) {
        percent_escape(b)
    } else {
        seq![b as char]
    }
}

/// The percent-encoding of UTF-8 bytes for a graph IRI.
pub open spec fn percent_encoded(bytes: Seq<u8>) -> Seq<char>
    decreases bytes.len(),
{
    if bytes.len() == 0 {
        seq![]
    } else {
        percent_encoded(bytes.drop_last()) + encoded_byte(bytes.last())
    }
}

/// The IRI prefix of everything the library names.
pub open spec fn iri_scheme() -> Seq<char> {
    "sparqld:"@
}

/// The IRI of a relative path: `sparqld:`, the encoded path, and for a
/// directory other than the served one a closing `/`.
pub open spec fn path_iri_of(relative: Seq<char>, directory: bool) -> Seq<char> {
    let base = iri_scheme() + percent_encoded(encode_utf8(relative));
    if directory && relative.len() > 0 {
        base.push('/')
    } else {
        base
    }
}

/// Appends the graph-IRI encoding of `s` to `out`.
pub fn push_encoded(out: &mut Vec<char>, s: &str)
    ensures
        final(out)@ == old(out)@ + percent_encoded(encode_utf8(s@)),
{
    let bytes = s.as_bytes();
    let ghost start = out@;
    let mut i: usize = 0;
    while i < bytes.len()
        invariant
            i <= bytes.len(),
            bytes@ == encode_utf8(s@),
            out@ == start + percent_encoded(bytes@.take(i as int)),
        decreases bytes.len() - i,
    {
        let b = bytes[i];
        assert(bytes@.take(i + 1).drop_last() =~= bytes@.take(i as int));
        if b >= 0x80 || b < 0x20 || b == 0x7f || b == 0x20 || b == 0x22 || b == 0x23 || b == 0x25
            || b == 0x3c || b == 0x3e || b == 0x3f || b == 0x60 || b == 0x7b || b == 0x7d {
            push_str(out, percent_encode_byte(b));
        } else {
            out.push(b as char);
        }
        i = i + 1;
        assert(out@ =~= start + percent_encoded(bytes@.take(i as int)));
    }
    assert(bytes@.take(i as int) =~= bytes@);
}

/// The IRI of a relative path, for a directory when `directory` holds.
pub fn path_iri(relative: &str, directory: bool) -> (r: String)
    ensures
        r@ == path_iri_of(relative@, directory),
{
    let mut iri: Vec<char> = Vec::new();
    push_str(&mut iri, "sparqld:");
    push_encoded(&mut iri, relative);
    if directory && !relative.is_empty() {
        iri.push('/');
    }
    string_of(&iri)
}

/// What `oxigraph::model::NamedNode::new` reports for `iri`: `None` when it
/// accepts the IRI, else the text of its error.
pub uninterp spec fn iri_error(iri: Seq<char>) -> Option<Seq<char>>;

/// Calls `oxigraph::model::NamedNode::new`. The contract claims only that its
/// verdict is a function of the text (named `iri_error`) and that the error
/// text is the `Display` of its error; IRI syntax is left to `oxigraph`.
#[verifier::external_body]
pub(crate) fn check_iri(iri: &str) -> (r: Result<(), String>)
    ensures
        match r {
            Ok(()) => iri_error(iri@) is None,
            Err(message) => iri_error(iri@) == Some(message@),
        },
{
    match oxigraph::model::NamedNode::new(iri) {
        Ok(_) => Ok(()),
        Err(error) => Err(error.to_string()),
    }
}

/// The name of the graph that holds a source, or why it is not a valid IRI.
pub open spec fn graph_name_of(relative: Seq<char>) -> Result<Seq<char>, Seq<char>> {
    let iri = path_iri_of(relative, false);
    match iri_error(iri) {
        None => Ok(iri),
        Some(message) => Err(message),
    }
}

/// The named graph of the source at a relative path.
pub fn graph_name(relative: &str) -> (r: Result<String, String>)
    ensures
        match r {
            Ok(g) => graph_name_of(relative@) == Ok::<Seq<char>, Seq<char>>(g@),
            Err(m) => graph_name_of(relative@) == Err::<Seq<char>, Seq<char>>(m@),
        },
{
    let iri = path_iri(relative, false);
    match check_iri(iri.as_str()) {
        Ok(()) => Ok(iri),
        Err(message) => Err(message),
    }
}

/// The IRI of the directory that holds a source: the base of its relative IRIs.
pub fn directory_iri(relative: &str) -> (r: String)
    ensures
        r@ == path_iri_of(parent_of(relative@), true),
{
    let p = chars_of(relative);
    let dir = string_of(&parent(&p));
    path_iri(dir.as_str(), true)
}

} // verus!
