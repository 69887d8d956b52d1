//! Which JSON-LD contexts a source may load, and from where.
//!
//! A context is either the bundled dollar-keyword context or a file inside the
//! served directory, named by a `sparqld:` URL relative to it.

use vstd::prelude::*;
use vstd::utf8::{decode_utf8, encode_utf8, valid_utf8};

use crate::formats::{equal_ignoring_ascii_case, eq_ignore_ascii_case};
use crate::paths::{
    extension, extension_of, find_last, is_path_prefix, last_index_of, lemma_last_index_of,
    path_starts_with,
};
use crate::text::{chars_equal_str, chars_of, has_prefix, push_str, slice_chars, string_of};

verus! {

/// The URL of the bundled dollar-keyword context.
pub open spec fn dollar_context_url() -> Seq<char> {
    "https://json-ld.org/contexts/dollar-convenience.jsonld"@
}

/// The value of an ASCII hexadecimal digit.
pub open spec fn hex_value(b: u8) -> Option<u8> {
    if 48 <= b <= 57 {
        Some((b - 48) as u8)
    } else if 97 <= b <= 102 {
        Some((b - 87) as u8)
    } else if 65 <= b <= 70 {
        Some((b - 55) as u8)
    } else {
        None
    }
}

/// Bytes with each `%` followed by two hexadecimal digits replaced by the
/// byte those digits spell.
pub open spec fn percent_decoded(bytes: Seq<u8>) -> Seq<u8>
    decreases bytes.len(),
{
    if bytes.len() == 0 {
        seq![]
    } else if bytes[0] == 37 && bytes.len() >= 3 && hex_value(bytes[1]) is Some && hex_value(
        bytes[2],
    ) is Some {
        seq![(hex_value(bytes[1])->0 * 16 + hex_value(bytes[2])->0) as u8] + percent_decoded(
            bytes.skip(3),
        )
    } else {
        seq![bytes[0]] + percent_decoded(bytes.drop_first())
    }
}

/// Calls `percent_encoding::percent_decode_str` and `decode_utf8` on its
/// result. The contract restates the crate's documentation: every `%`
/// followed by two hexadecimal digits is decoded, and the bytes that result
/// are read as UTF-8, which fails exactly when they are not valid UTF-8.
#[verifier::external_body]
fn percent_decode_utf8(s: &str) -> (r: Option<String>)
    ensures
        match r {
            Some(t) => valid_utf8(percent_decoded(encode_utf8(s@))) && t@ == decode_utf8(
                percent_decoded(encode_utf8(s@)),
            ),
            None => !valid_utf8(percent_decoded(encode_utf8(s@))),
        },
{
    match percent_encoding::percent_decode_str(s).decode_utf8() {
        Ok(text) => Some(text.into_owned()),
        Err(_) => None,
    }
}

/// The components of a path, split at each `/`.
pub open spec fn components(p: Seq<char>) -> Seq<Seq<char>>
    decreases p.len(),
{
    let k = last_index_of(p, '/');
    if k < 0 {
        seq![p]
    } else {
        proof {
            lemma_last_index_of(p, '/');
        }
        components(p.take(k)).push(p.skip(k + 1))
    }
}

/// Whether a relative path leaves the served directory: it is rooted, or one
/// of its components is `..`.
pub open spec fn escapes_root(path: Seq<char>) -> bool {
    (path.len() > 0 && path[0] == '/') || components(path).contains(seq!['.', '.'])
}

/// The text of a context error about `url`.
pub open spec fn context_error(reason: Seq<char>, url: Seq<char>) -> Seq<char> {
    reason + url
}

/// Where a `sparqld:` context URL points inside the served directory, or why
/// it is refused.
pub open spec fn local_context_relative_of(url: Seq<char>) -> Result<Seq<char>, Seq<char>> {
    if !has_prefix(url, "sparqld:"@) {
        Err(context_error("context URL is not supported: "@, url))
    } else {
        let decoded = percent_decoded(encode_utf8(url.skip(8)));
        if !valid_utf8(decoded) {
            Err(context_error("context URL is not UTF-8: "@, url))
        } else if escapes_root(decode_utf8(decoded)) {
            Err(context_error("context is outside the served directory: "@, url))
        } else {
            Ok(decode_utf8(decoded))
        }
    }
}

fn error_for(reason: &str, url: &str) -> (r: String)
    ensures
        r@ == context_error(reason@, url@),
{
    let mut out = chars_of(reason);
    push_str(&mut out, url);
    string_of(&out)
}

/// Whether a relative path leaves the served directory.
pub fn leaves_root(p: &Vec<char>) -> (r: bool)
    ensures
        r == escapes_root(p@),
{
    if p.len() > 0 && p[0] == '/' {
        return true;
    }
    let mut end: usize = p.len();
    assert(p@.take(end as int) =~= p@);
    loop
        invariant
            end <= p.len(),
            !(p.len() > 0 && p@[0] == '/'),
            escapes_root(p@) == components(p@.take(end as int)).contains(seq!['.', '.']),
        decreases end,
    {
        let prefix = slice_chars(p, 0, end);
        assert(prefix@ =~= p@.take(end as int));
        proof {
            lemma_last_index_of(prefix@, '/');
        }
        match find_last(&prefix, '/') {
            None => {
                let last = chars_equal_str(&prefix, "..");
                proof {
                    reveal_strlit("..");
                    assert(".."@ =~= seq!['.', '.']);
                    assert(components(prefix@) == seq![prefix@]);
                    if last {
                        assert(components(prefix@)[0] == seq!['.', '.']);
                    } else {
                        assert(!components(prefix@).contains(seq!['.', '.'])) by {
                            if components(prefix@).contains(seq!['.', '.']) {
                                assert(components(prefix@)[0] == seq!['.', '.']);
                            }
                        }
                    }
                }
                return last;
            },
            Some(k) => {
                let component = slice_chars(&prefix, k + 1, end);
                assert(component@ =~= prefix@.skip(k + 1));
                let ghost comps = components(prefix@);
                assert(comps == components(prefix@.take(k as int)).push(prefix@.skip(k + 1)));
                if chars_equal_str(&component, "..") {
                    proof {
                        reveal_strlit("..");
                        assert(".."@ =~= seq!['.', '.']);
                        assert(comps[comps.len() - 1] == seq!['.', '.']);
                    }
                    return true;
                }
                proof {
                    reveal_strlit("..");
                    assert(".."@ =~= seq!['.', '.']);
                    assert(comps[comps.len() - 1] == component@);
                    assert(component@ != seq!['.', '.']);
                    assert(prefix@.take(k as int) =~= p@.take(k as int));
                    let before = components(prefix@.take(k as int));
                    assert(comps.contains(seq!['.', '.']) == before.contains(seq!['.', '.'])) by {
                        if comps.contains(seq!['.', '.']) {
                            let x = choose|x: int| 0 <= x < comps.len() && comps[x] == seq!['.', '.'];
                            assert(x < before.len());
                            assert(before[x] == comps[x]);
                        }
                        if before.contains(seq!['.', '.']) {
                            let x = choose|x: int| 0 <= x < before.len() && before[x] == seq!['.', '.'];
                            assert(comps[x] == before[x]);
                        }
                    }
                }
                end = k;
            },
        }
    }
}

/// Where a `sparqld:` context URL points inside the served directory.
pub fn local_context_relative(url: &str) -> (r: Result<String, String>)
    ensures
        match r {
            Ok(relative) => local_context_relative_of(url@) == Ok::<Seq<char>, Seq<char>>(
                relative@,
            ),
            Err(message) => local_context_relative_of(url@) == Err::<Seq<char>, Seq<char>>(
                message@,
            ),
        },
{
    let u = chars_of(url);
    let scheme = chars_of("sparqld:");
    proof {
        reveal_strlit("sparqld:");
    }
    if !crate::text::starts_with(&u, &scheme) {
        return Err(error_for("context URL is not supported: ", url));
    }
    let rest = string_of(&slice_chars(&u, 8, u.len()));
    assert(rest@ =~= url@.skip(8));
    match percent_decode_utf8(rest.as_str()) {
        None => Err(error_for("context URL is not UTF-8: ", url)),
        Some(relative) => {
            if leaves_root(&chars_of(relative.as_str())) {
                Err(error_for("context is outside the served directory: ", url))
            } else {
                Ok(relative)
            }
        },
    }
}

/// Where a context comes from.
#[derive(Debug, PartialEq, Eq)]
pub enum ContextSource {
    /// The bundled dollar-keyword context.
    DollarConvenience,
    /// A file at this path relative to the served directory.
    Local(String),
}

/// Where the context a document names by `url` comes from, or why it is
/// refused.
pub fn resolve_context(url: &str) -> (r: Result<ContextSource, String>)
    ensures
        url@ == dollar_context_url() ==> r == Ok::<ContextSource, String>(
            ContextSource::DollarConvenience,
        ),
        url@ != dollar_context_url() ==> match r {
            Ok(ContextSource::Local(relative)) => local_context_relative_of(url@) == Ok::<
                Seq<char>,
                Seq<char>,
            >(relative@),
            Err(message) => local_context_relative_of(url@) == Err::<Seq<char>, Seq<char>>(
                message@,
            ),
            _ => false,
        },
{
    if chars_equal_str(&chars_of(url), "https://json-ld.org/contexts/dollar-convenience.jsonld") {
        return Ok(ContextSource::DollarConvenience);
    }
    match local_context_relative(url) {
        Ok(relative) => Ok(ContextSource::Local(relative)),
        Err(message) => Err(message),
    }
}

/// Checks that the resolved location of a local context lies inside the
/// served directory, handing it back when it does.
pub fn local_context_path(root: &str, resolved: &str, url: &str) -> (r: Result<String, String>)
    ensures
        is_path_prefix(root@, resolved@) ==> r == Ok::<String, String>(r->Ok_0) && r->Ok_0@
            == resolved@,
        !is_path_prefix(root@, resolved@) ==> (r matches Err(message) && message@ == context_error(
            "context is outside the served directory: "@,
            url@,
        )),
{
    if path_starts_with(&chars_of(resolved), &chars_of(root)) {
        Ok(String::from_str(resolved))
    } else {
        Err(error_for("context is outside the served directory: ", url))
    }
}

/// The syntax a local context file is written in.
#[derive(Debug, PartialEq, Eq)]
pub enum ContextSyntax {
    JsonLd,
    YamlLd,
}

/// The syntax of a local context file, chosen from its extension, or why it
/// is refused.
pub open spec fn context_syntax_of(path: Seq<char>) -> Option<ContextSyntax> {
    match extension_of(path) {
        Some(ext) => if equal_ignoring_ascii_case(ext, "jsonld"@) {
            Some(ContextSyntax::JsonLd)
        } else if equal_ignoring_ascii_case(ext, "yamlld"@) {
            Some(ContextSyntax::YamlLd)
        } else {
            None
        },
        None => None,
    }
}

/// The syntax of the local context file at `path`; other extensions are
/// refused.
pub fn context_syntax(path: &str, url: &str) -> (r: Result<ContextSyntax, String>)
    ensures
        match r {
            Ok(syntax) => context_syntax_of(path@) == Some(syntax),
            Err(message) => context_syntax_of(path@) is None && message@ == context_error(
                "unsupported local context format: "@,
                url@,
            ),
        },
{
    match extension(&chars_of(path)) {
        Some(ext) => {
            if eq_ignore_ascii_case(&ext, "jsonld") {
                Ok(ContextSyntax::JsonLd)
            } else if eq_ignore_ascii_case(&ext, "yamlld") {
                Ok(ContextSyntax::YamlLd)
            } else {
                Err(error_for("unsupported local context format: ", url))
            }
        },
        None => Err(error_for("unsupported local context format: ", url)),
    }
}

} // verus!
