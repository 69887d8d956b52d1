//! YAML front matter of Markdown-LD sources.

use vstd::prelude::*;
use vstd::slice::slice_subrange;
use vstd::utf8::valid_utf8;

use crate::text::{utf8_error_message, utf8_text};

verus! {

/// A line without its trailing carriage returns and line feeds.
pub open spec fn trimmed(line: Seq<u8>) -> Seq<u8>
    decreases line.len(),
{
    if line.len() > 0 && (line.last() == 10 || line.last() == 13) {
        trimmed(line.drop_last())
    } else {
        line
    }
}

/// The index just after the line that starts at `start`: after its line
/// feed, or the end of the text.
pub open spec fn line_end(s: Seq<u8>, start: int) -> int
    decreases s.len() - start,
{
    if start >= s.len() {
        s.len() as int
    } else if s[start] == 10 {
        start + 1
    } else {
        line_end(s, start + 1)
    }
}

pub proof fn lemma_line_end(s: Seq<u8>, start: int)
    requires
        0 <= start,
    ensures
        start < s.len() ==> start < line_end(s, start) <= s.len(),
        start >= s.len() ==> line_end(s, start) == s.len(),
    decreases s.len() - start,
{
    if start < s.len() && s[start] != 10 {
        lemma_line_end(s, start + 1);
    }
}

/// `---`.
pub open spec fn fence() -> Seq<u8> {
    seq![45u8, 45u8, 45u8]
}

/// `...`.
pub open spec fn dots() -> Seq<u8> {
    seq![46u8, 46u8, 46u8]
}

/// Where the line that closes front matter begins, searching from `pos`.
pub open spec fn closing_line(s: Seq<u8>, pos: int) -> Option<int>
    decreases s.len() - pos,
{
    if pos < 0 || pos >= s.len() {
        None
    } else {
        let end = line_end(s, pos);
        let line = trimmed(s.subrange(pos, end));
        if line == fence() || line == dots() {
            Some(pos)
        } else {
            proof {
                lemma_line_end(s, pos);
            }
            closing_line(s, end)
        }
    }
}

/// Where front matter lies in a Markdown text: `Ok(None)` when the text does
/// not open with a `---` line, `Ok(Some((start, end)))` for the lines between
/// the opening line and the first later `---` or `...` line, and `Err(())`
/// when no such line closes it.
pub open spec fn front_matter_span(s: Seq<u8>) -> Result<Option<(int, int)>, ()> {
    if s.len() == 0 {
        Ok(None)
    } else if trimmed(s.subrange(0, line_end(s, 0))) != fence() {
        Ok(None)
    } else {
        match closing_line(s, line_end(s, 0)) {
            Some(end) => Ok(Some((line_end(s, 0), end))),
            None => Err(()),
        }
    }
}

/// The message for front matter that no line closes.
pub open spec fn unterminated_message() -> Seq<char> {
    "unterminated YAML front matter"@
}

fn find_line_end(s: &[u8], start: usize) -> (r: usize)
    requires
        start <= s.len(),
    ensures
        r as int == line_end(s@, start as int),
{
    proof {
        lemma_line_end(s@, start as int);
    }
    let mut i = start;
    while i < s.len()
        invariant
            start <= i <= s.len(),
            line_end(s@, start as int) == line_end(s@, i as int),
        decreases s.len() - i,
    {
        if s[i] == 10 {
            return i + 1;
        }
        i = i + 1;
    }
    i
}

/// The length of a line once its trailing carriage returns and line feeds
/// are gone.
fn trimmed_len(s: &[u8], start: usize, end: usize) -> (r: usize)
    requires
        start <= end <= s.len(),
    ensures
        start <= r <= end,
        trimmed(s@.subrange(start as int, end as int)) == s@.subrange(start as int, r as int),
    decreases end - start,
{
    if end > start && (s[end - 1] == 10 || s[end - 1] == 13) {
        assert(s@.subrange(start as int, end as int).drop_last() =~= s@.subrange(
            start as int,
            end - 1,
        ));
        trimmed_len(s, start, end - 1)
    } else {
        end
    }
}

fn is_marker(s: &[u8], start: usize, end: usize, marker: u8) -> (r: bool)
    requires
        start <= end <= s.len(),
    ensures
        r == (s@.subrange(start as int, end as int) == seq![marker, marker, marker]),
{
    if end - start != 3 {
        assert(s@.subrange(start as int, end as int).len() != seq![marker, marker, marker].len());
        return false;
    }
    let r = s[start] == marker && s[start + 1] == marker && s[start + 2] == marker;
    if r {
        assert(s@.subrange(start as int, end as int) =~= seq![marker, marker, marker]);
    } else {
        assert(s@.subrange(start as int, end as int) != seq![marker, marker, marker]) by {
            if s@.subrange(start as int, end as int) == seq![marker, marker, marker] {
                assert(s@.subrange(start as int, end as int)[0] == s@[start as int]);
                assert(s@.subrange(start as int, end as int)[1] == s@[start + 1]);
                assert(s@.subrange(start as int, end as int)[2] == s@[start + 2]);
            }
        }
    }
    r
}

/// A line without its trailing carriage returns and line feeds.
pub fn trim_line_ending(line: &[u8]) -> (r: &[u8])
    ensures
        r@ == trimmed(line@),
{
    let n = trimmed_len(line, 0, line.len());
    assert(line@.subrange(0, line.len() as int) =~= line@);
    slice_subrange(line, 0, n)
}

/// The YAML front matter of a Markdown source: the lines between an opening
/// `---` line and the next `---` or `...` line. A text that is not UTF-8, or
/// whose front matter is never closed, is rejected.
pub fn markdown_front_matter(source: &[u8]) -> (r: Result<Option<&[u8]>, String>)
    ensures
        !valid_utf8(source@) ==> (r matches Err(message) && message@ == utf8_error_message(source@)),
        valid_utf8(source@) ==> match (r, front_matter_span(source@)) {
            (Ok(None), Ok(None)) => true,
            (Ok(Some(yaml)), Ok(Some((start, end)))) => yaml@ == source@.subrange(start, end),
            (Err(message), Err(())) => message@ == unterminated_message(),
            _ => false,
        },
{
    match utf8_text(source) {
        Err(message) => {
            return Err(message);
        },
        Ok(_) => {},
    }
    if source.len() == 0 {
        return Ok(None);
    }
    proof {
        lemma_line_end(source@, 0);
    }
    let start = find_line_end(source, 0);
    let opening = trimmed_len(source, 0, start);
    if !is_marker(source, 0, opening, 45) {
        assert(trimmed(source@.subrange(0, start as int)) != fence());
        return Ok(None);
    }
    assert(trimmed(source@.subrange(0, start as int)) == fence());
    let mut pos = start;
    while pos < source.len()
        invariant
            0 < start <= pos <= source.len(),
            valid_utf8(source@),
            trimmed(source@.subrange(0, start as int)) == fence(),
            start as int == line_end(source@, 0),
            closing_line(source@, start as int) == closing_line(source@, pos as int),
        decreases source.len() - pos,
    {
        let end = find_line_end(source, pos);
        proof {
            lemma_line_end(source@, pos as int);
        }
        let t = trimmed_len(source, pos, end);
        if is_marker(source, pos, t, 45) || is_marker(source, pos, t, 46) {
            assert(closing_line(source@, pos as int) == Some(pos as int));
            return Ok(Some(slice_subrange(source, start, pos)));
        }
        assert(closing_line(source@, pos as int) == closing_line(source@, end as int));
        pos = end;
    }
    Err(String::from_str("unterminated YAML front matter"))
}

} // verus!
