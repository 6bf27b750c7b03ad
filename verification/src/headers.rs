//! Header blocks: finding where one ends, splitting it into lines, and
//! looking a header up by name.

use crate::error::MultipartError;
use crate::scan::{blank_line, crlf, find_token, first_match};
use vstd::prelude::*;
use vstd::slice::{slice_subrange, slice_to_vec};

verus! {

/// One header line: its name and its raw value.
#[derive(Debug)]
pub struct Header {
    pub name: Vec<u8>,
    pub value: Vec<u8>,
}

/// A header block as a sequence of name and value pairs, in the order of the lines.
pub type Lines = Seq<(Seq<u8>, Seq<u8>)>;

/// The pairs that a list of headers holds.
pub open spec fn lines_of(headers: Seq<Header>) -> Lines {
    Seq::new(headers.len(), |i: int| (headers[i].name@, headers[i].value@))
}

/// The most header lines that one block may hold.
pub const MAX_HEADERS: usize = 32;

/// What `httparse::parse_headers` makes of a block of bytes when it is given
/// room for `room` headers: the lines, `None` where it calls the block
/// partial, or its error.
pub uninterp spec fn header_lines(block: Seq<u8>, room: int) -> Result<Option<Lines>, httparse::Error>;

/// The outcome of splitting a block, with the headers taken by their pairs.
pub open spec fn split_outcome(split: Result<Option<Vec<Header>>, httparse::Error>) -> Result<
    Option<Lines>,
    httparse::Error,
> {
    match split {
        Ok(Some(headers)) => Ok(Some(lines_of(headers@))),
        Ok(None) => Ok(None),
        Err(e) => Err(e),
    }
}

/// Calls `httparse::parse_headers` on `block` with room for `room` headers
/// and copies the headers that it found. The contract says only that the
/// outcome is the one that httparse gives for these bytes and this room.
#[verifier::external_body]
fn split_lines(block: &[u8], room: usize) -> (split: Result<Option<Vec<Header>>, httparse::Error>)
    ensures
        split_outcome(split) == header_lines(block@, room as int),
{
    let mut slots = vec![httparse::EMPTY_HEADER; room];
    match httparse::parse_headers(block, &mut slots) {
        Ok(httparse::Status::Complete((_, found))) => Ok(Some(
            found.iter().map(|h| Header { name: h.name.as_bytes().to_vec(), value: h.value.to_vec() }).collect(),
        )),
        Ok(httparse::Status::Partial) => Ok(None),
        Err(e) => Err(e),
    }
}

/// `:`, which parts a header's name from its value.
pub open spec fn colon() -> Seq<u8> {
    seq![58u8]
}

/// Every line of a block from offset `i` on, the start of a line, can be
/// split into a name and a value: it is empty or holds a colon.
pub open spec fn lines_split(block: Seq<u8>, i: int) -> bool
    decreases block.len() - i,
{
    if i < 0 || i >= block.len() {
        true
    } else {
        let end = match first_match(block, crlf(), i) {
            Some(p) => p,
            None => block.len() as int,
        };
        if end < i || end > block.len() {
            false
        } else if end > i && first_match(block.subrange(i, end), colon(), 0) is None {
            false
        } else if end + 2 <= block.len() {
            lines_split(block, end + 2)
        } else {
            true
        }
    }
}

/// Tells whether every line of a block can be split into a name and a value.
pub fn lines_can_split(block: &[u8]) -> (ok: bool)
    ensures
        ok == lines_split(block@, 0),
{
    let line_end: [u8; 2] = [13, 10];
    let sep: [u8; 1] = [58];
    proof {
        assert(line_end@ =~= crlf());
        assert(sep@ =~= colon());
    }
    let mut i: usize = 0;
    while i < block.len()
        invariant
            i <= block.len(),
            line_end@ == crlf(),
            sep@ == colon(),
            lines_split(block@, 0) == lines_split(block@, i as int),
        decreases block.len() - i,
    {
        let end: usize = match find_token(block, line_end.as_slice(), i) {
            Some(p) => p,
            None => block.len(),
        };
        if end > i {
            match find_token(slice_subrange(block, i, end), sep.as_slice(), 0) {
                Some(_) => {},
                None => {
                    return false;
                },
            }
        }
        if block.len() - end < 2 {
            return true;
        }
        i = end + 2;
    }
    true
}

/// What a block and its split mean to the decoder: `PartialHeaders` where a
/// line of the block holds no colon, or where the split calls the block
/// partial; any other failure of the grammar as its own error, wrapped; and
/// else the lines.
pub open spec fn lines_or_error(block: Seq<u8>, split: Result<Option<Lines>, httparse::Error>) -> Result<
    Lines,
    MultipartError,
> {
    if !lines_split(block, 0) {
        Err(MultipartError::PartialHeaders)
    } else {
        match split {
            Ok(Some(lines)) => Ok(lines),
            Ok(None) => Err(MultipartError::PartialHeaders),
            Err(e) => Err(MultipartError::Httparse(e)),
        }
    }
}

/// The headers of a block that was split, or the error that the block and
/// its split stand for.
pub fn accept_lines(block: &[u8], split: Result<Option<Vec<Header>>, httparse::Error>) -> (res: Result<
    Vec<Header>,
    MultipartError,
>)
    ensures
        match res {
            Ok(headers) => lines_or_error(block@, split_outcome(split)) == Ok::<Lines, MultipartError>(
                lines_of(headers@),
            ),
            Err(e) => lines_or_error(block@, split_outcome(split)) == Err::<Lines, MultipartError>(e),
        },
{
    if !lines_can_split(block) {
        return Err(MultipartError::PartialHeaders);
    }
    match split {
        Ok(Some(headers)) => Ok(headers),
        Ok(None) => Err(MultipartError::PartialHeaders),
        Err(e) => Err(MultipartError::Httparse(e)),
    }
}

/// A header block from offset `i` on with its continuation lines folded
/// into the lines before them: a line end that is followed by a space or a
/// tab, and is not the start of the block, is left out.
pub open spec fn unfolded(block: Seq<u8>, i: int) -> Seq<u8>
    decreases block.len() - i,
{
    if i < 0 || i >= block.len() {
        Seq::empty()
    } else if is_fold(block, i) {
        unfolded(block, i + 2)
    } else {
        seq![block[i]] + unfolded(block, i + 1)
    }
}

/// A line end at offset `i` that continues the line before it.
pub open spec fn is_fold(block: Seq<u8>, i: int) -> bool {
    &&& 0 < i
    &&& i + 2 < block.len()
    &&& block[i] == 13
    &&& block[i + 1] == 10
    &&& (block[i + 2] == 32 || block[i + 2] == 9)
}

/// Folds the continuation lines of a header block into the lines before them.
pub fn unfold(block: &[u8]) -> (flat: Vec<u8>)
    ensures
        flat@ == unfolded(block@, 0),
{
    let mut flat: Vec<u8> = Vec::new();
    let mut i: usize = 0;
    proof {
        assert(flat@ + unfolded(block@, 0) =~= unfolded(block@, 0));
    }
    while i < block.len()
        invariant
            i <= block.len(),
            unfolded(block@, 0) == flat@ + unfolded(block@, i as int),
        decreases block.len() - i,
    {
        let ghost before = flat@;
        if 0 < i && block.len() - i > 2 && block[i] == 13 && block[i + 1] == 10 && (block[i + 2] == 32
            || block[i + 2] == 9) {
            i += 2;
        } else {
            flat.push(block[i]);
            proof {
                let rest = unfolded(block@, i + 1);
                assert(flat@ + rest =~= before + (seq![block@[i as int]] + rest));
            }
            i += 1;
        }
    }
    proof {
        assert(flat@ + unfolded(block@, i as int) =~= flat@);
    }
    flat
}

/// The error for an input that ends inside a header block.
pub open spec fn eof_in_headers(outer: bool) -> MultipartError {
    if outer {
        MultipartError::EofInMainHeaders
    } else {
        MultipartError::EofInPartHeaders
    }
}

/// The header block that starts at offset `at` and ends with the first
/// blank line: its lines, continuation lines folded, and the offset just
/// after the blank line. A line without a colon makes it `PartialHeaders`. `outer` tells the message's own headers from those
/// of a part.
pub open spec fn headers_at(input: Seq<u8>, at: int, outer: bool) -> Result<(Lines, int), MultipartError> {
    match first_match(input, blank_line(), at) {
        None => Err(eof_in_headers(outer)),
        Some(p) => match lines_or_error(
            unfolded(input.subrange(at, p + 4), 0),
            header_lines(unfolded(input.subrange(at, p + 4), 0), MAX_HEADERS as int),
        ) {
            Ok(lines) => Ok((lines, p + 4)),
            Err(e) => Err(e),
        },
    }
}

/// Reads the header block that starts at offset `at` of `input`.
pub fn read_headers(input: &[u8], at: usize, outer: bool) -> (res: Result<(Vec<Header>, usize), MultipartError>)
    ensures
        match res {
            Ok((headers, next)) => headers_at(input@, at as int, outer) == Ok::<(Lines, int), MultipartError>(
                (lines_of(headers@), next as int),
            ) && at + 4 <= next <= input.len(),
            Err(e) => headers_at(input@, at as int, outer) == Err::<(Lines, int), MultipartError>(e),
        },
{
    let blank: [u8; 4] = [13, 10, 13, 10];
    proof {
        assert(blank@ =~= blank_line());
    }
    match find_token(input, blank.as_slice(), at) {
        None => Err(if outer {
            MultipartError::EofInMainHeaders
        } else {
            MultipartError::EofInPartHeaders
        }),
        Some(p) => {
            let block = unfold(slice_subrange(input, at, p + 4));
            match accept_lines(block.as_slice(), split_lines(block.as_slice(), MAX_HEADERS)) {
                Ok(headers) => Ok((headers, p + 4)),
                Err(e) => Err(e),
            }
        },
    }
}

/// An ASCII capital letter as its small letter; any other byte as it is.
pub open spec fn lower(b: u8) -> u8 {
    if 65 <= b <= 90 {
        (b + 32) as u8
    } else {
        b
    }
}

/// Two names are the same but for the case of ASCII letters.
pub open spec fn same_name(a: Seq<u8>, b: Seq<u8>) -> bool {
    &&& a.len() == b.len()
    &&& forall|k: int| 0 <= k < a.len() ==> lower(#[trigger] a[k]) == lower(b[k])
}

/// Compares two names without regard to the case of ASCII letters.
pub fn eq_ignore_case(a: &[u8], b: &[u8]) -> (same: bool)
    ensures
        same == same_name(a@, b@),
{
    if a.len() != b.len() {
        return false;
    }
    let mut k: usize = 0;
    while k < a.len()
        invariant
            k <= a.len(),
            a.len() == b.len(),
            forall|j: int| 0 <= j < k ==> lower(#[trigger] a@[j]) == lower(b@[j]),
        decreases a.len() - k,
    {
        let x: u8 = a[k];
        let y: u8 = b[k];
        let lx: u8 = if 65 <= x && x <= 90 { x + 32 } else { x };
        let ly: u8 = if 65 <= y && y <= 90 { y + 32 } else { y };
        if lx != ly {
            return false;
        }
        k += 1;
    }
    true
}

/// The value of the first line named `name`, if there is one.
pub open spec fn lookup(lines: Lines, name: Seq<u8>) -> Option<Seq<u8>>
    decreases lines.len(),
{
    if lines.len() == 0 {
        None
    } else if same_name(lines[0].0, name) {
        Some(lines[0].1)
    } else {
        lookup(lines.drop_first(), name)
    }
}

/// Looks up the first header named `name`, without regard to case, and
/// copies its value.
pub fn find_header(headers: &Vec<Header>, name: &[u8]) -> (value: Option<Vec<u8>>)
    ensures
        match value {
            Some(v) => lookup(lines_of(headers@), name@) == Some(v@),
            None => lookup(lines_of(headers@), name@) is None,
        },
{
    let ghost all = lines_of(headers@);
    let mut i: usize = 0;
    proof {
        assert(all.subrange(0, all.len() as int) =~= all);
    }
    while i < headers.len()
        invariant
            i <= headers.len(),
            all == lines_of(headers@),
            lookup(all, name@) == lookup(all.subrange(i as int, all.len() as int), name@),
        decreases headers.len() - i,
    {
        let ghost rest = all.subrange(i as int, all.len() as int);
        proof {
            assert(rest[0] == all[i as int]);
            assert(rest.drop_first() =~= all.subrange(i + 1, all.len() as int));
        }
        if eq_ignore_case(headers[i].name.as_slice(), name) {
            return Some(slice_to_vec(headers[i].value.as_slice()));
        }
        i += 1;
    }
    proof {
        assert(all.subrange(all.len() as int, all.len() as int).len() == 0);
    }
    None
}

} // verus!
