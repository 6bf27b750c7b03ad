//! The decoder proper: from a body and its boundary to the parts.

use crate::classify::{
    boundary_from_content_type, boundary_of, classify, content_type_name, kind_of, Kind, KindView,
};
use crate::error::MultipartError;
use crate::headers::{find_header, headers_at, lines_of, lookup, read_headers};
use crate::scan::{
    blank_line, crlf, dashes, delimiter, delimiter_bytes, find_token, first_boundary_end,
    first_match, lemma_first_match_some, mark_after, mark_at, matches_at, opening, opening_bytes,
    starts_at, Mark,
};
use vstd::prelude::*;
use vstd::slice::{slice_subrange, slice_to_vec};

verus! {

/// Where the content of a file part belongs.
#[derive(Debug, Clone, Copy, PartialEq, Eq, Structural)]
pub enum Sink {
    /// Small enough to stay in memory.
    Memory,
    /// To be handed to external storage by the caller.
    Storage,
}

/// The limits under which a message is decoded.
#[derive(Debug, Clone, Copy)]
pub struct Config {
    /// How deep multipart sections may nest; the top level is depth 0.
    pub max_depth: usize,
    /// The longest file content, in bytes, that stays in memory.
    pub memory_limit: usize,
}

impl Default for Config {
    fn default() -> (config: Config)
        ensures
            config.max_depth == 8,
            config.memory_limit == 65536,
    {
        Config { max_depth: 8, memory_limit: 65536 }
    }
}

/// One section of a multipart body.
#[derive(Debug)]
pub enum Part {
    /// A plain field and its bytes.
    Field { name: Vec<u8>, value: Vec<u8> },
    /// A file, with the place where its content belongs.
    File { name: Vec<u8>, filename: Vec<u8>, content_type: Vec<u8>, content: Vec<u8>, sink: Sink },
    /// A multipart section of its own.
    Nested { name: Vec<u8>, parts: Vec<Part> },
}

/// A `Part` over byte sequences.
pub enum PartView {
    Field { name: Seq<u8>, value: Seq<u8> },
    File { name: Seq<u8>, filename: Seq<u8>, content_type: Seq<u8>, content: Seq<u8>, sink: Sink },
    Nested { name: Seq<u8>, parts: Seq<PartView> },
}

impl View for Part {
    type V = PartView;

    open spec fn view(&self) -> PartView {
        part_view(*self)
    }
}

/// A part over byte sequences; its nested parts are taken the same way.
pub open spec fn part_view(part: Part) -> PartView
    decreases part, 0nat,
{
    match part {
        Part::Field { name, value } => PartView::Field { name: name@, value: value@ },
        Part::File { name, filename, content_type, content, sink } => PartView::File {
            name: name@,
            filename: filename@,
            content_type: content_type@,
            content: content@,
            sink,
        },
        Part::Nested { name, parts } => PartView::Nested { name: name@, parts: first_views(parts, parts.len() as nat) },
    }
}

/// The views of the first `n` parts of a list.
pub open spec fn first_views(parts: Vec<Part>, n: nat) -> Seq<PartView>
    decreases parts, n,
{
    if n == 0 || n > parts.len() {
        Seq::empty()
    } else {
        first_views(parts, (n - 1) as nat).push(part_view(parts[n - 1]))
    }
}

/// The views of the first `n` parts are the views of those parts, in order.
pub proof fn lemma_first_views(parts: Vec<Part>, n: nat)
    requires
        n <= parts.len(),
    ensures
        first_views(parts, n) == views(parts@.subrange(0, n as int)),
    decreases n,
{
    if n > 0 {
        lemma_first_views(parts, (n - 1) as nat);
    }
    assert(first_views(parts, n) =~= views(parts@.subrange(0, n as int)));
}

/// The name under which a part was sent.
pub open spec fn name_of(part: PartView) -> Seq<u8> {
    match part {
        PartView::Field { name, .. } => name,
        PartView::File { name, .. } => name,
        PartView::Nested { name, .. } => name,
    }
}

impl Part {
    /// The name under which the part was sent.
    pub fn name(&self) -> (name: &Vec<u8>)
        ensures
            name@ == name_of(self@),
    {
        match self {
            Part::Field { name, .. } => name,
            Part::File { name, .. } => name,
            Part::Nested { name, .. } => name,
        }
    }
}

/// The views of a list of parts, in order.
pub open spec fn views(parts: Seq<Part>) -> Seq<PartView> {
    Seq::new(parts.len(), |i: int| parts[i]@)
}

/// Content longer than the limit goes to storage; the rest stays in memory.
pub open spec fn route(len: int, limit: int) -> Sink {
    if len > limit {
        Sink::Storage
    } else {
        Sink::Memory
    }
}

/// The error for a body that ends inside the content of a part, `read`
/// bytes into it: `EofInFile` where the part is a file and that many bytes
/// are more than stay in memory, so that it was on its way to storage;
/// `EofInPart` for all that was still held in memory.
pub open spec fn eof_in_content(kind: KindView, read: int, limit: int) -> MultipartError {
    match kind {
        KindView::File { .. } => if route(read, limit) is Storage {
            MultipartError::EofInFile
        } else {
            MultipartError::EofInPart
        },
        _ => MultipartError::EofInPart,
    }
}

/// A part put in front of the parts that follow it, if they decoded.
pub open spec fn prepend(part: PartView, rest: Result<Seq<PartView>, MultipartError>) -> Result<
    Seq<PartView>,
    MultipartError,
> {
    match rest {
        Ok(parts) => Ok(seq![part] + parts),
        Err(e) => Err(e),
    }
}

/// The parts already decoded, followed by those still to come.
pub open spec fn join(done: Seq<PartView>, rest: Result<Seq<PartView>, MultipartError>) -> Result<
    Seq<PartView>,
    MultipartError,
> {
    match rest {
        Ok(parts) => Ok(done + parts),
        Err(e) => Err(e),
    }
}

/// What a body decodes to at nesting depth `depth`. An empty boundary is
/// `BoundaryNotSpecified`. All before the first delimiter is preamble; a body
/// without one is `EofBeforeFirstBoundary`. `--` after the first delimiter
/// means a message without parts.
pub open spec fn decoded(body: Seq<u8>, boundary: Seq<u8>, config: Config, depth: nat) -> Result<
    Seq<PartView>,
    MultipartError,
>
    decreases config.max_depth - depth, 2int, 0int,
{
    if boundary.len() == 0 {
        Err(MultipartError::BoundaryNotSpecified)
    } else {
        match first_boundary_end(body, boundary) {
            None => Err(MultipartError::EofBeforeFirstBoundary),
            Some(after) => match mark_at(body, after) {
                Mark::Terminal => Ok(Seq::empty()),
                Mark::Broken => Err(MultipartError::NoCrLfAfterBoundary),
                Mark::Next(start) => parts_from(body, boundary, config, depth, start as int),
            },
        }
    }
}

/// The parts of a body from the part whose headers start at offset `start`:
/// its header block, what the headers make of it, its content up to the next
/// delimiter without the line end before it, and then, by what follows the
/// delimiter, the end or the parts after it. The first failure is the result.
pub open spec fn parts_from(body: Seq<u8>, boundary: Seq<u8>, config: Config, depth: nat, start: int) -> Result<
    Seq<PartView>,
    MultipartError,
>
    decreases config.max_depth - depth, 1int, body.len() - start,
{
    match headers_at(body, start, false) {
        Err(e) => Err(e),
        Ok((lines, content_start)) => match kind_of(lines) {
            Err(e) => Err(e),
            Ok(kind) => match first_match(body, delimiter(boundary), content_start) {
                None => Err(eof_in_content(kind, body.len() - content_start, config.memory_limit as int)),
                Some(content_end) => match part_of(kind, body.subrange(content_start, content_end), config, depth) {
                    Err(e) => Err(e),
                    Ok(part) => match mark_at(body, content_end + delimiter(boundary).len()) {
                        Mark::Terminal => Ok(seq![part]),
                        Mark::Broken => Err(MultipartError::NoCrLfAfterBoundary),
                        // A next part always lies further on (`lemma_next_part_is_further`);
                        // the condition lets the recursion be seen to end.
                        Mark::Next(next) => if start < next <= body.len() {
                            prepend(part, parts_from(body, boundary, config, depth, next as int))
                        } else {
                            Err(MultipartError::NoCrLfAfterBoundary)
                        },
                    },
                },
            },
        },
    }
}

/// The part that a kind and its content make. A nested section is decoded
/// one level deeper, and is `NestingTooDeep` at the deepest level allowed.
pub open spec fn part_of(kind: KindView, content: Seq<u8>, config: Config, depth: nat) -> Result<
    PartView,
    MultipartError,
>
    decreases config.max_depth - depth, 0int, 0int,
{
    match kind {
        KindView::Field { name } => Ok(PartView::Field { name, value: content }),
        KindView::File { name, filename, content_type } => Ok(
            PartView::File {
                name,
                filename,
                content_type,
                content,
                sink: route(content.len() as int, config.memory_limit as int),
            },
        ),
        KindView::Nested { name, boundary } => if depth >= config.max_depth {
            Err(MultipartError::NestingTooDeep)
        } else {
            match decoded(content, boundary, config, depth + 1) {
                Ok(parts) => Ok(PartView::Nested { name, parts }),
                Err(e) => Err(e),
            }
        },
    }
}

/// What a whole message decodes to: its own header block, the boundary that
/// its `Content-Type` specifies, and then the body behind the headers.
pub open spec fn message_decoded(input: Seq<u8>, config: Config) -> Result<Seq<PartView>, MultipartError> {
    match headers_at(input, 0, true) {
        Err(e) => Err(e),
        Ok((lines, body_start)) => match boundary_of(lookup(lines, content_type_name())) {
            Err(e) => Err(e),
            Ok(boundary) => decoded(input.subrange(body_start, input.len() as int), boundary, config, 0),
        },
    }
}

/// The headers of a next part always start further on in the body than
/// those of the part before it, and inside the body.
pub proof fn lemma_next_part_is_further(body: Seq<u8>, boundary: Seq<u8>, start: int)
    requires
        0 <= start,
        body.len() <= usize::MAX,
        headers_at(body, start, false) is Ok,
        first_match(body, delimiter(boundary), headers_at(body, start, false)->Ok_0.1) is Some,
    ensures
        ({
            let content_start = headers_at(body, start, false)->Ok_0.1;
            let content_end = first_match(body, delimiter(boundary), content_start)->Some_0;
            &&& start < content_start <= content_end
            &&& mark_at(body, content_end + delimiter(boundary).len()) matches Mark::Next(next) ==> start < next
                <= body.len()
        }),
{
    let blank = first_match(body, blank_line(), start)->Some_0;
    lemma_first_match_some(body, blank_line(), start, blank);
    let content_start = blank + 4;
    let content_end = first_match(body, delimiter(boundary), content_start)->Some_0;
    lemma_first_match_some(body, delimiter(boundary), content_start, content_end);
    assert(crlf().len() == 2);
}

/// A body that starts with the closing delimiter decodes to no parts.
pub proof fn lemma_empty_message(body: Seq<u8>, boundary: Seq<u8>, config: Config)
    requires
        boundary.len() > 0,
        matches_at(body, opening(boundary) + dashes(), 0),
    ensures
        decoded(body, boundary, config, 0) == Ok::<Seq<PartView>, MultipartError>(Seq::empty()),
{
    let open = opening(boundary);
    let whole = open + dashes();
    let n = open.len() as int;
    assert(body.subrange(0, n) =~= whole.subrange(0, n));
    assert(whole.subrange(0, n) =~= open);
    assert(body.subrange(n, n + 2) =~= whole.subrange(n, n + 2));
    assert(whole.subrange(n, n + 2) =~= dashes());
    assert(matches_at(body, open, 0));
    assert(matches_at(body, dashes(), n));
}

/// Decides where file content of `len` bytes belongs.
pub fn choose_sink(len: usize, limit: usize) -> (sink: Sink)
    ensures
        sink == route(len as int, limit as int),
{
    if len > limit {
        Sink::Storage
    } else {
        Sink::Memory
    }
}

/// Passes over the preamble and the first delimiter of a body, and gives
/// the offset just after that delimiter, if the body holds one.
pub fn skip_preamble(body: &[u8], boundary: &[u8]) -> (after: Option<usize>)
    ensures
        match after {
            Some(a) => first_boundary_end(body@, boundary@) == Some(a as int) && a <= body.len(),
            None => first_boundary_end(body@, boundary@) is None,
        },
{
    let first = opening_bytes(boundary);
    if starts_at(body, first.as_slice(), 0) {
        return Some(first.len());
    }
    let delim = delimiter_bytes(boundary);
    match find_token(body, delim.as_slice(), 0) {
        Some(p) => Some(p + delim.len()),
        None => None,
    }
}

/// Finds where the content that starts at offset `from` ends: at the next
/// delimiter, whose line end is no part of the content. A body that ends
/// first fails by where the bytes read so far belong: `EofInFile` for a file
/// with more of them than `limit`, `EofInPart` otherwise.
pub fn content_end(body: &[u8], delim: &[u8], from: usize, kind: &Kind, limit: usize) -> (res: Result<
    usize,
    MultipartError,
>)
    ensures
        match res {
            Ok(end) => first_match(body@, delim@, from as int) == Some(end as int) && from <= end && end
                + delim.len() <= body.len(),
            Err(e) => first_match(body@, delim@, from as int) is None && e == eof_in_content(
                kind@,
                body.len() - from,
                limit as int,
            ),
        },
{
    match find_token(body, delim, from) {
        Some(end) => Ok(end),
        None => {
            let read: usize = if from <= body.len() {
                body.len() - from
            } else {
                0
            };
            Err(
                match kind {
                    Kind::File { .. } => match choose_sink(read, limit) {
                        Sink::Storage => MultipartError::EofInFile,
                        Sink::Memory => MultipartError::EofInPart,
                    },
                    _ => MultipartError::EofInPart,
                },
            )
        },
    }
}

/// Makes the part that a kind and its content stand for.
fn build_part(kind: Kind, content: &[u8], config: &Config, depth: usize) -> (res: Result<Part, MultipartError>)
    ensures
        match res {
            Ok(part) => part_of(kind@, content@, *config, depth as nat) == Ok::<PartView, MultipartError>(part@),
            Err(e) => part_of(kind@, content@, *config, depth as nat) == Err::<PartView, MultipartError>(e),
        },
    decreases config.max_depth - depth, 0int,
{
    match kind {
        Kind::Field { name } => Ok(Part::Field { name, value: slice_to_vec(content) }),
        Kind::File { name, filename, content_type } => Ok(
            Part::File {
                name,
                filename,
                content_type,
                content: slice_to_vec(content),
                sink: choose_sink(content.len(), config.memory_limit),
            },
        ),
        Kind::Nested { name, boundary } => {
            if depth >= config.max_depth {
                return Err(MultipartError::NestingTooDeep);
            }
            match decode_at(content, boundary.as_slice(), config, depth + 1) {
                Ok(parts) => {
                    let ghost inner = views(parts@);
                    let ghost held = parts@;
                    let part = Part::Nested { name, parts };
                    proof {
                        lemma_first_views(part->Nested_parts, held.len());
                        assert(held.subrange(0, held.len() as int) =~= held);
                    }
                    Ok(part)
                },
                Err(e) => Err(e),
            }
        },
    }
}

/// Where the decoder stands in a body. A message's own headers are read
/// before any of these, when no boundary is known yet.
#[derive(Debug)]
pub enum State {
    /// Before the first delimiter; what precedes it is preamble.
    AwaitingFirstBoundary,
    /// At the start of the header block of a part.
    ReadingPartHeaders { at: usize },
    /// At the start of the content of a part of the given kind.
    ReadingPartBody { kind: Kind, at: usize },
    /// Behind the closing delimiter.
    Done,
}

/// The parts of a body from the content, at offset `at`, of a part of the
/// given kind: the content up to the next delimiter, and then the end or the
/// parts after it.
pub open spec fn content_from(
    body: Seq<u8>,
    boundary: Seq<u8>,
    config: Config,
    depth: nat,
    kind: KindView,
    at: int,
) -> Result<Seq<PartView>, MultipartError> {
    match first_match(body, delimiter(boundary), at) {
        None => Err(eof_in_content(kind, body.len() - at, config.memory_limit as int)),
        Some(content_end) => match part_of(kind, body.subrange(at, content_end), config, depth) {
            Err(e) => Err(e),
            Ok(part) => match mark_at(body, content_end + delimiter(boundary).len()) {
                Mark::Terminal => Ok(seq![part]),
                Mark::Broken => Err(MultipartError::NoCrLfAfterBoundary),
                Mark::Next(next) => prepend(part, parts_from(body, boundary, config, depth, next as int)),
            },
        },
    }
}

/// What decoding comes to from a state, with the parts decoded so far.
pub open spec fn outcome(
    body: Seq<u8>,
    boundary: Seq<u8>,
    config: Config,
    depth: nat,
    state: State,
    done: Seq<PartView>,
) -> Result<Seq<PartView>, MultipartError> {
    match state {
        State::AwaitingFirstBoundary => join(done, decoded(body, boundary, config, depth)),
        State::ReadingPartHeaders { at } => join(done, parts_from(body, boundary, config, depth, at as int)),
        State::ReadingPartBody { kind, at } => join(
            done,
            content_from(body, boundary, config, depth, kind@, at as int),
        ),
        State::Done => Ok(done),
    }
}

/// A bound on the transitions that are left from a state.
pub open spec fn steps_left(len: int, state: State) -> int {
    match state {
        State::AwaitingFirstBoundary => 2 * len + 4,
        State::ReadingPartHeaders { at } => 2 * (len - at) + 2,
        State::ReadingPartBody { at, .. } => 2 * (len - at) + 1,
        State::Done => 0,
    }
}

/// Once a part's headers are read and its kind is known, what is left of the
/// body is what follows from the content of that part.
pub proof fn lemma_parts_from_content(body: Seq<u8>, boundary: Seq<u8>, config: Config, depth: nat, start: int)
    requires
        0 <= start,
        body.len() <= usize::MAX,
        headers_at(body, start, false) is Ok,
        kind_of(headers_at(body, start, false)->Ok_0.0) is Ok,
    ensures
        parts_from(body, boundary, config, depth, start) == content_from(
            body,
            boundary,
            config,
            depth,
            kind_of(headers_at(body, start, false)->Ok_0.0)->Ok_0,
            headers_at(body, start, false)->Ok_0.1,
        ),
{
    let content_start = headers_at(body, start, false)->Ok_0.1;
    if first_match(body, delimiter(boundary), content_start) is Some {
        lemma_next_part_is_further(body, boundary, start);
    }
}

/// Makes one transition of the decoder: from the first delimiter to the
/// headers of a part or to the end, from the headers of a part to its
/// content, from its content to the next part or to the end. A part that is
/// complete is put behind `parts`. What decoding comes to is the same before
/// and after the transition; a failure is what it comes to.
pub fn advance(
    body: &[u8],
    boundary: &[u8],
    config: &Config,
    depth: usize,
    state: State,
    parts: &mut Vec<Part>,
) -> (res: Result<State, MultipartError>)
    ensures
        match res {
            Ok(next) => {
                &&& outcome(body@, boundary@, *config, depth as nat, next, views(final(parts)@)) == outcome(
                    body@,
                    boundary@,
                    *config,
                    depth as nat,
                    state,
                    views(old(parts)@),
                )
                &&& state is Done ==> next is Done && final(parts)@ == old(parts)@
                &&& !(state is Done) ==> 0 <= steps_left(body.len() as int, next) < steps_left(
                    body.len() as int,
                    state,
                )
            },
            Err(e) => outcome(body@, boundary@, *config, depth as nat, state, views(old(parts)@)) == Err::<
                Seq<PartView>,
                MultipartError,
            >(e),
        },
    decreases config.max_depth - depth, 1int,
{
    let ghost done = views(parts@);
    match state {
        State::AwaitingFirstBoundary => {
            if boundary.len() == 0 {
                return Err(MultipartError::BoundaryNotSpecified);
            }
            match skip_preamble(body, boundary) {
                None => Err(MultipartError::EofBeforeFirstBoundary),
                Some(after) => match mark_after(body, after) {
                    Mark::Terminal => {
                        proof {
                            assert(done + Seq::<PartView>::empty() =~= done);
                        }
                        Ok(State::Done)
                    },
                    Mark::Broken => Err(MultipartError::NoCrLfAfterBoundary),
                    Mark::Next(at) => {
                        proof {
                            assert(crlf().len() == 2);
                        }
                        Ok(State::ReadingPartHeaders { at })
                    },
                },
            }
        },
        State::ReadingPartHeaders { at } => {
            let (headers, content_start) = match read_headers(body, at, false) {
                Ok(found) => found,
                Err(e) => {
                    return Err(e);
                },
            };
            let kind = match classify(&headers) {
                Ok(kind) => kind,
                Err(e) => {
                    return Err(e);
                },
            };
            proof {
                lemma_parts_from_content(body@, boundary@, *config, depth as nat, at as int);
            }
            Ok(State::ReadingPartBody { kind, at: content_start })
        },
        State::ReadingPartBody { kind, at } => {
            let delim = delimiter_bytes(boundary);
            let end: usize = match content_end(body, delim.as_slice(), at, &kind, config.memory_limit) {
                Ok(end) => end,
                Err(e) => {
                    return Err(e);
                },
            };
            let part = match build_part(kind, slice_subrange(body, at, end), config, depth) {
                Ok(part) => part,
                Err(e) => {
                    return Err(e);
                },
            };
            let ghost view = part@;
            match mark_after(body, end + delim.len()) {
                Mark::Terminal => {
                    parts.push(part);
                    proof {
                        assert(views(parts@) =~= done + seq![view]);
                    }
                    Ok(State::Done)
                },
                Mark::Broken => Err(MultipartError::NoCrLfAfterBoundary),
                Mark::Next(next) => {
                    parts.push(part);
                    proof {
                        assert(crlf().len() == 2);
                        let rest = parts_from(body@, boundary@, *config, depth as nat, next as int);
                        assert(views(parts@) =~= done + seq![view]);
                        assert(rest is Ok ==> (done + seq![view]) + rest->Ok_0 =~= done + (seq![view]
                            + rest->Ok_0));
                    }
                    Ok(State::ReadingPartHeaders { at: next })
                },
            }
        },
        State::Done => Ok(State::Done),
    }
}

/// Decodes a body at a given nesting depth: transitions from the first
/// delimiter on until the end is reached or one fails.
fn decode_at(body: &[u8], boundary: &[u8], config: &Config, depth: usize) -> (res: Result<Vec<Part>, MultipartError>)
    ensures
        match res {
            Ok(parts) => decoded(body@, boundary@, *config, depth as nat) == Ok::<Seq<PartView>, MultipartError>(
                views(parts@),
            ),
            Err(e) => decoded(body@, boundary@, *config, depth as nat) == Err::<Seq<PartView>, MultipartError>(e),
        },
    decreases config.max_depth - depth, 2int,
{
    let ghost whole = decoded(body@, boundary@, *config, depth as nat);
    let mut parts: Vec<Part> = Vec::new();
    let mut state = State::AwaitingFirstBoundary;
    proof {
        assert(views(parts@) =~= Seq::<PartView>::empty());
        assert(whole is Ok ==> Seq::<PartView>::empty() + whole->Ok_0 =~= whole->Ok_0);
    }
    loop
        invariant
            whole == decoded(body@, boundary@, *config, depth as nat),
            whole == outcome(body@, boundary@, *config, depth as nat, state, views(parts@)),
        decreases steps_left(body.len() as int, state),
    {
        if is_done(&state) {
            return Ok(parts);
        }
        state = match advance(body, boundary, config, depth, state, &mut parts) {
            Ok(next) => next,
            Err(e) => {
                return Err(e);
            },
        };
    }
}

/// Whether the decoder has reached the end of the body.
pub fn is_done(state: &State) -> (done: bool)
    ensures
        done == (state is Done),
{
    match state {
        State::Done => true,
        _ => false,
    }
}

/// Decodes a multipart body with the default limits.
pub fn parse(body: &[u8], boundary: &[u8]) -> (res: Result<Vec<Part>, MultipartError>)
    ensures
        match res {
            Ok(parts) => decoded(body@, boundary@, Config { max_depth: 8, memory_limit: 65536 }, 0) == Ok::<
                Seq<PartView>,
                MultipartError,
            >(views(parts@)),
            Err(e) => decoded(body@, boundary@, Config { max_depth: 8, memory_limit: 65536 }, 0) == Err::<
                Seq<PartView>,
                MultipartError,
            >(e),
        },
{
    let config = Config::default();
    decode_at(body, boundary, &config, 0)
}

/// Decodes a multipart body under the given limits.
pub fn parse_with(body: &[u8], boundary: &[u8], config: &Config) -> (res: Result<Vec<Part>, MultipartError>)
    ensures
        match res {
            Ok(parts) => decoded(body@, boundary@, *config, 0) == Ok::<Seq<PartView>, MultipartError>(views(parts@)),
            Err(e) => decoded(body@, boundary@, *config, 0) == Err::<Seq<PartView>, MultipartError>(e),
        },
{
    decode_at(body, boundary, config, 0)
}

/// Decodes a whole message: its own headers, then its body.
pub fn parse_message(input: &[u8], config: &Config) -> (res: Result<Vec<Part>, MultipartError>)
    ensures
        match res {
            Ok(parts) => message_decoded(input@, *config) == Ok::<Seq<PartView>, MultipartError>(views(parts@)),
            Err(e) => message_decoded(input@, *config) == Err::<Seq<PartView>, MultipartError>(e),
        },
{
    let type_header: [u8; 12] = [99, 111, 110, 116, 101, 110, 116, 45, 116, 121, 112, 101];
    proof {
        assert(type_header@ =~= content_type_name());
    }
    let (headers, body_start) = match read_headers(input, 0, true) {
        Ok(found) => found,
        Err(e) => {
            return Err(e);
        },
    };
    let content_type = find_header(&headers, type_header.as_slice());
    let boundary = match content_type {
        Some(ct) => boundary_from_content_type(Some(ct.as_slice())),
        None => boundary_from_content_type(None),
    };
    match boundary {
        Ok(b) => decode_at(slice_subrange(input, body_start, input.len()), b.as_slice(), config, 0),
        Err(e) => Err(e),
    }
}

} // verus!
