//! Source formats, chosen from a file's extension.

use vstd::prelude::*;

use crate::paths::{extension, extension_of};
use crate::text::chars_of;

verus! {

/// An RDF syntax that `oxigraph` parses.
#[derive(Clone, Copy, Debug, PartialEq, Eq, Structural)]
pub enum RdfSyntax {
    JsonLd,
    N3,
    NQuads,
    NTriples,
    RdfXml,
    TriG,
    Turtle,
}

/// The syntax in which a source file is written.
#[derive(Clone, Copy, Debug, PartialEq, Eq, Structural)]
pub enum SourceFormat {
    Rdf(RdfSyntax),
    JsonLd,
    YamlLd,
    Markdown,
}

/// A character folded to ASCII lower case, as a code point.
pub open spec fn ascii_folded(c: char) -> u32 {
    if 'A' <= c && c <= 'Z' {
        (c as u32 + 32) as u32
    } else {
        c as u32
    }
}

/// Whether two texts are equal up to ASCII case.
pub open spec fn equal_ignoring_ascii_case(a: Seq<char>, b: Seq<char>) -> bool {
    a.len() == b.len() && forall|i: int| 0 <= i < a.len() ==> ascii_folded(#[trigger] a[i]) == ascii_folded(b[i])
}

fn fold(c: char) -> (r: u32)
    ensures
        r == ascii_folded(c),
{
    if 'A' <= c && c <= 'Z' {
        c as u32 + 32
    } else {
        c as u32
    }
}

/// Whether `a` equals the text `b` up to ASCII case.
pub fn eq_ignore_ascii_case(a: &Vec<char>, b: &str) -> (r: bool)
    ensures
        r == equal_ignoring_ascii_case(a@, b@),
{
    let bc = chars_of(b);
    if a.len() != bc.len() {
        return false;
    }
    let mut i: usize = 0;
    while i < a.len()
        invariant
            a.len() == bc.len(),
            bc@ == b@,
            i <= a.len(),
            forall|j: int| 0 <= j < i ==> ascii_folded(#[trigger] a@[j]) == ascii_folded(bc@[j]),
        decreases a.len() - i,
    {
        if fold(a[i]) != fold(bc[i]) {
            assert(ascii_folded(a@[i as int]) != ascii_folded(b@[i as int]));
            return false;
        }
        i = i + 1;
    }
    true
}

/// The RDF syntax that `oxigraph::io::RdfFormat::from_extension` gives for an
/// extension: the first entry of its table that equals it up to ASCII case.
pub open spec fn rdf_syntax_for_extension(ext: Seq<char>) -> Option<RdfSyntax> {
    if equal_ignoring_ascii_case(ext, "json"@) {
        Some(RdfSyntax::JsonLd)
    } else if equal_ignoring_ascii_case(ext, "jsonld"@) {
        Some(RdfSyntax::JsonLd)
    } else if equal_ignoring_ascii_case(ext, "n3"@) {
        Some(RdfSyntax::N3)
    } else if equal_ignoring_ascii_case(ext, "nq"@) {
        Some(RdfSyntax::NQuads)
    } else if equal_ignoring_ascii_case(ext, "nt"@) {
        Some(RdfSyntax::NTriples)
    } else if equal_ignoring_ascii_case(ext, "rdf"@) {
        Some(RdfSyntax::RdfXml)
    } else if equal_ignoring_ascii_case(ext, "trig"@) {
        Some(RdfSyntax::TriG)
    } else if equal_ignoring_ascii_case(ext, "ttl"@) {
        Some(RdfSyntax::Turtle)
    } else if equal_ignoring_ascii_case(ext, "txt"@) {
        Some(RdfSyntax::NTriples)
    } else if equal_ignoring_ascii_case(ext, "xml"@) {
        Some(RdfSyntax::RdfXml)
    } else {
        None
    }
}

/// Calls `oxigraph::io::RdfFormat::from_extension`. The contract restates the
/// ten-entry extension table of its source, compared up to ASCII case; JSON-LD
/// there carries the empty profile set.
#[verifier::external_body]
fn rdf_format_from_extension(ext: &str) -> (r: Option<RdfSyntax>)
    ensures
        r == rdf_syntax_for_extension(ext@),
{
    match oxigraph::io::RdfFormat::from_extension(ext)? {
        oxigraph::io::RdfFormat::JsonLd { .. } => Some(RdfSyntax::JsonLd),
        oxigraph::io::RdfFormat::N3 => Some(RdfSyntax::N3),
        oxigraph::io::RdfFormat::NQuads => Some(RdfSyntax::NQuads),
        oxigraph::io::RdfFormat::NTriples => Some(RdfSyntax::NTriples),
        oxigraph::io::RdfFormat::RdfXml => Some(RdfSyntax::RdfXml),
        oxigraph::io::RdfFormat::TriG => Some(RdfSyntax::TriG),
        oxigraph::io::RdfFormat::Turtle => Some(RdfSyntax::Turtle),
        _ => None,
    }
}

/// The name that `oxigraph::io::RdfFormat::name` gives a syntax.
pub open spec fn rdf_syntax_name(syntax: RdfSyntax) -> Seq<char> {
    match syntax {
        RdfSyntax::JsonLd => "JSON-LD"@,
        RdfSyntax::N3 => "N3"@,
        RdfSyntax::NQuads => "N-Quads"@,
        RdfSyntax::NTriples => "N-Triples"@,
        RdfSyntax::RdfXml => "RDF/XML"@,
        RdfSyntax::TriG => "TriG"@,
        RdfSyntax::Turtle => "Turtle"@,
    }
}

/// Calls `oxigraph::io::RdfFormat::name` on the format a syntax stands for
/// (JSON-LD with the empty profile set). The contract restates the names its
/// source gives.
#[verifier::external_body]
fn rdf_format_name(syntax: RdfSyntax) -> (r: &'static str)
    ensures
        r@ == rdf_syntax_name(syntax),
{
    let format = match syntax {
        RdfSyntax::JsonLd => oxigraph::io::RdfFormat::JsonLd { profile: oxigraph::io::JsonLdProfileSet::empty() },
        RdfSyntax::N3 => oxigraph::io::RdfFormat::N3,
        RdfSyntax::NQuads => oxigraph::io::RdfFormat::NQuads,
        RdfSyntax::NTriples => oxigraph::io::RdfFormat::NTriples,
        RdfSyntax::RdfXml => oxigraph::io::RdfFormat::RdfXml,
        RdfSyntax::TriG => oxigraph::io::RdfFormat::TriG,
        RdfSyntax::Turtle => oxigraph::io::RdfFormat::Turtle,
    };
    format.name()
}

/// The format in which the file at `path` is read, if it is a source at all.
pub open spec fn source_format_of(path: Seq<char>) -> Option<SourceFormat> {
    match extension_of(path) {
        None => None,
        Some(ext) => if equal_ignoring_ascii_case(ext, "jsonld"@) || equal_ignoring_ascii_case(
            ext,
            "json"@,
        ) {
            Some(SourceFormat::JsonLd)
        } else if equal_ignoring_ascii_case(ext, "yamlld"@) {
            Some(SourceFormat::YamlLd)
        } else if equal_ignoring_ascii_case(ext, "md"@) {
            Some(SourceFormat::Markdown)
        } else {
            match rdf_syntax_for_extension(ext) {
                Some(syntax) => Some(SourceFormat::Rdf(syntax)),
                None => None,
            }
        },
    }
}

/// The name under which a format is reported.
pub open spec fn format_name(format: SourceFormat) -> Seq<char> {
    match format {
        SourceFormat::Rdf(syntax) => rdf_syntax_name(syntax),
        SourceFormat::JsonLd => "JSON-LD"@,
        SourceFormat::YamlLd => "YAML-LD"@,
        SourceFormat::Markdown => "Markdown-LD"@,
    }
}

/// The format of the file at `path`, chosen from its extension.
pub fn source_format(path: &str) -> (r: Option<SourceFormat>)
    ensures
        r == source_format_of(path@),
{
    let p = chars_of(path);
    match extension(&p) {
        None => None,
        Some(ext) => {
            if eq_ignore_ascii_case(&ext, "jsonld") || eq_ignore_ascii_case(&ext, "json") {
                Some(SourceFormat::JsonLd)
            } else if eq_ignore_ascii_case(&ext, "yamlld") {
                Some(SourceFormat::YamlLd)
            } else if eq_ignore_ascii_case(&ext, "md") {
                Some(SourceFormat::Markdown)
            } else {
                let ext_string = crate::text::string_of(&ext);
                match rdf_format_from_extension(ext_string.as_str()) {
                    Some(syntax) => Some(SourceFormat::Rdf(syntax)),
                    None => None,
                }
            }
        },
    }
}

impl SourceFormat {
    /// The name under which this format is reported.
    pub fn name(self) -> (r: &'static str)
        ensures
            r@ == format_name(self),
    {
        match self {
            SourceFormat::Rdf(syntax) => rdf_format_name(syntax),
            SourceFormat::JsonLd => "JSON-LD",
            SourceFormat::YamlLd => "YAML-LD",
            SourceFormat::Markdown => "Markdown-LD",
        }
    }
}

} // verus!
