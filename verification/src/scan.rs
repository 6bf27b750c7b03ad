//! Locating byte tokens and boundary delimiters inside a body.

use vstd::prelude::*;
use vstd::slice::slice_to_vec;

verus! {

/// `needle` stands in `hay` at offset `i`.
pub open spec fn matches_at(hay: Seq<u8>, needle: Seq<u8>, i: int) -> bool {
    &&& 0 <= i
    &&& i + needle.len() <= hay.len()
    &&& hay.subrange(i, i + needle.len()) == needle
}

/// The least offset at or after `from` at which `needle` stands in `hay`.
pub open spec fn first_match(hay: Seq<u8>, needle: Seq<u8>, from: int) -> Option<int>
    decreases hay.len() - from + 1,
{
    if from < 0 || from + needle.len() > hay.len() {
        None
    } else if matches_at(hay, needle, from) {
        Some(from)
    } else {
        first_match(hay, needle, from + 1)
    }
}

/// The two bytes that end a line.
pub open spec fn crlf() -> Seq<u8> {
    seq![13u8, 10u8]
}

/// The blank line that ends a header block.
pub open spec fn blank_line() -> Seq<u8> {
    seq![13u8, 10u8, 13u8, 10u8]
}

/// The two dashes that open a delimiter and close the last one.
pub open spec fn dashes() -> Seq<u8> {
    seq![45u8, 45u8]
}

/// The delimiter as it stands at the very start of a body: `--` and the boundary.
pub open spec fn opening(boundary: Seq<u8>) -> Seq<u8> {
    dashes() + boundary
}

/// The delimiter as it stands after content: a line end, `--` and the boundary.
pub open spec fn delimiter(boundary: Seq<u8>) -> Seq<u8> {
    crlf() + dashes() + boundary
}

/// What follows a delimiter.
pub enum Mark {
    /// `--`: the delimiter was the last one.
    Terminal,
    /// A line end: the headers of another part start at the offset.
    Next(usize),
    /// Anything else, or the end of the input.
    Broken,
}

/// What stands in `body` at offset `at`, just after a delimiter.
pub open spec fn mark_at(body: Seq<u8>, at: int) -> Mark {
    if matches_at(body, dashes(), at) {
        Mark::Terminal
    } else if matches_at(body, crlf(), at) {
        Mark::Next((at + 2) as usize)
    } else {
        Mark::Broken
    }
}

/// The offset just after the first delimiter of `body`: the one at offset 0,
/// or else the first one that follows a line end. All before it is preamble.
pub open spec fn first_boundary_end(body: Seq<u8>, boundary: Seq<u8>) -> Option<int> {
    if matches_at(body, opening(boundary), 0) {
        Some(opening(boundary).len() as int)
    } else {
        match first_match(body, delimiter(boundary), 0) {
            Some(p) => Some(p + delimiter(boundary).len()),
            None => None,
        }
    }
}

/// A match that `first_match` reports is a match, it is not before `from`,
/// and no offset between `from` and it holds one.
pub proof fn lemma_first_match_some(hay: Seq<u8>, needle: Seq<u8>, from: int, p: int)
    requires
        first_match(hay, needle, from) == Some(p),
    ensures
        from <= p,
        matches_at(hay, needle, p),
        forall|q: int| from <= q < p ==> !matches_at(hay, needle, q),
    decreases hay.len() - from + 1,
{
    if from < 0 || from + needle.len() > hay.len() {
    } else if matches_at(hay, needle, from) {
    } else {
        lemma_first_match_some(hay, needle, from + 1, p);
    }
}

/// Where `first_match` reports nothing, no offset from `from` on holds a match.
pub proof fn lemma_first_match_none(hay: Seq<u8>, needle: Seq<u8>, from: int)
    requires
        0 <= from,
        first_match(hay, needle, from) is None,
    ensures
        forall|q: int| from <= q ==> !matches_at(hay, needle, q),
    decreases hay.len() - from + 1,
{
    if from + needle.len() > hay.len() {
    } else {
        lemma_first_match_none(hay, needle, from + 1);
    }
}

/// The first match is the least one: where `needle` stands at `p` and at no
/// offset between `from` and `p`, the search from `from` ends at `p`.
pub proof fn lemma_first_match_least(hay: Seq<u8>, needle: Seq<u8>, from: int, p: int)
    requires
        0 <= from <= p,
        matches_at(hay, needle, p),
        forall|q: int| from <= q < p ==> !matches_at(hay, needle, q),
    ensures
        first_match(hay, needle, from) == Some(p),
    decreases p - from,
{
    if from < p {
        lemma_first_match_least(hay, needle, from + 1, p);
    }
}

/// Boundary text inside content does not end the content early: where the
/// body holds `content` at `start`, then the delimiter, and the delimiter
/// stands at no offset inside the content, the search from `start` ends
/// exactly `content.len()` bytes on, whatever else the content holds.
pub proof fn lemma_content_length_exact(
    body: Seq<u8>,
    boundary: Seq<u8>,
    start: int,
    content: Seq<u8>,
)
    requires
        0 <= start,
        start + content.len() + delimiter(boundary).len() <= body.len(),
        body.subrange(start, start + content.len()) == content,
        matches_at(body, delimiter(boundary), start + content.len()),
        forall|q: int| start <= q < start + content.len() ==> !matches_at(body, delimiter(boundary), q),
    ensures
        first_match(body, delimiter(boundary), start) == Some(start + content.len()),
        body.subrange(start, first_match(body, delimiter(boundary), start).unwrap()) == content,
{
    lemma_first_match_least(body, delimiter(boundary), start, start + content.len());
}

/// Tells whether `needle` stands in `hay` at offset `i`.
pub fn starts_at(hay: &[u8], needle: &[u8], i: usize) -> (found: bool)
    ensures
        found == matches_at(hay@, needle@, i as int),
{
    if needle.len() > hay.len() || i > hay.len() - needle.len() {
        return false;
    }
    let mut k: usize = 0;
    while k < needle.len()
        invariant
            k <= needle.len(),
            i + needle.len() <= hay.len(),
            forall|j: int| 0 <= j < k ==> hay@[i + j] == needle@[j],
        decreases needle.len() - k,
    {
        if hay[i + k] != needle[k] {
            proof {
                let part = hay@.subrange(i as int, i + needle.len());
                assert(part[k as int] == hay@[i + k]);
            }
            return false;
        }
        k += 1;
    }
    proof {
        assert(hay@.subrange(i as int, i + needle.len()) =~= needle@);
    }
    true
}

/// Searches `hay` for `needle` from offset `from` on.
pub fn find_token(hay: &[u8], needle: &[u8], from: usize) -> (found: Option<usize>)
    ensures
        match found {
            Some(p) => first_match(hay@, needle@, from as int) == Some(p as int),
            None => first_match(hay@, needle@, from as int) is None,
        },
        found matches Some(p) ==> from <= p && p + needle.len() <= hay.len(),
{
    let mut i: usize = from;
    while i <= hay.len() && needle.len() <= hay.len() - i
        invariant
            from <= i,
            first_match(hay@, needle@, from as int) == first_match(hay@, needle@, i as int),
        decreases hay.len() + 1 - i,
    {
        if starts_at(hay, needle, i) {
            return Some(i);
        }
        if i == hay.len() {
            assert(first_match(hay@, needle@, i + 1) is None);
            return None;
        }
        i += 1;
    }
    None
}

/// Reads what follows a delimiter that ends at offset `at`.
pub fn mark_after(body: &[u8], at: usize) -> (mark: Mark)
    ensures
        mark == mark_at(body@, at as int),
{
    let two_dashes: [u8; 2] = [45, 45];
    let line_end: [u8; 2] = [13, 10];
    proof {
        assert(two_dashes@ =~= dashes());
        assert(line_end@ =~= crlf());
    }
    if starts_at(body, two_dashes.as_slice(), at) {
        Mark::Terminal
    } else if starts_at(body, line_end.as_slice(), at) {
        let len = body.len();
        assert(at + 2 <= len) by {
            assert(line_end@.len() == 2);
        }
        Mark::Next(at + 2)
    } else {
        Mark::Broken
    }
}

/// `head` followed by `tail`, as one vector.
pub fn joined(head: &[u8], tail: &[u8]) -> (all: Vec<u8>)
    ensures
        all@ == head@ + tail@,
{
    let mut all = slice_to_vec(head);
    let mut i: usize = 0;
    while i < tail.len()
        invariant
            i <= tail.len(),
            all@ == head@ + tail@.subrange(0, i as int),
        decreases tail.len() - i,
    {
        all.push(tail[i]);
        proof {
            assert(all@ =~= head@ + tail@.subrange(0, i + 1));
        }
        i += 1;
    }
    proof {
        assert(tail@.subrange(0, tail.len() as int) =~= tail@);
    }
    all
}

/// The delimiter of a boundary as it stands at the start of a body.
pub fn opening_bytes(boundary: &[u8]) -> (first: Vec<u8>)
    ensures
        first@ == opening(boundary@),
{
    let two_dashes: [u8; 2] = [45, 45];
    proof {
        assert(two_dashes@ =~= dashes());
    }
    joined(two_dashes.as_slice(), boundary)
}

/// The delimiter of a boundary as it stands after content.
pub fn delimiter_bytes(boundary: &[u8]) -> (delim: Vec<u8>)
    ensures
        delim@ == delimiter(boundary@),
{
    let line_end: [u8; 2] = [13, 10];
    proof {
        assert(line_end@ =~= crlf());
    }
    let first = opening_bytes(boundary);
    let delim = joined(line_end.as_slice(), first.as_slice());
    proof {
        assert(delim@ =~= delimiter(boundary@));
    }
    delim
}

/// What a line is to the decoder.
pub enum Line {
    /// No delimiter: content goes on.
    Content,
    /// A delimiter, with what follows it.
    Boundary(Mark),
}

/// What the line that starts at offset `at` is: a delimiter where it starts
/// with `--` and the boundary, and then mid-stream, terminal or broken by
/// what follows; content otherwise.
pub open spec fn line_at(body: Seq<u8>, boundary: Seq<u8>, at: int) -> Line {
    if matches_at(body, opening(boundary), at) {
        Line::Boundary(mark_at(body, at + opening(boundary).len()))
    } else {
        Line::Content
    }
}

/// Reads the line that starts at offset `at` as a delimiter or as content.
pub fn scan_line(body: &[u8], boundary: &[u8], at: usize) -> (line: Line)
    ensures
        line == line_at(body@, boundary@, at as int),
{
    let first = opening_bytes(boundary);
    if starts_at(body, first.as_slice(), at) {
        let len = body.len();
        assert(at + first@.len() <= len);
        Line::Boundary(mark_after(body, at + first.len()))
    } else {
        Line::Content
    }
}

} // verus!
