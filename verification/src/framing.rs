//! What the decoder makes of a body that was written part by part.

use crate::classify::{
    boundary_of, content_type_name, disposition_name, kind_of, name_key, param, KindView,
};
use crate::error::MultipartError;
use crate::headers::{
    header_lines, headers_at, lines_or_error, lookup, unfolded, Lines, MAX_HEADERS,
};
use crate::parser::{
    decoded, eof_in_content, join, message_decoded, part_of, parts_from, prepend, Config, PartView,
};
use crate::scan::{
    blank_line, crlf, dashes, delimiter, first_boundary_end, first_match, lemma_first_match_least,
    lemma_first_match_some, mark_at, matches_at, opening, Mark,
};
use vstd::prelude::*;

verus! {

/// One part as it is written: its header block, blank line included, and
/// its content.
pub struct Frame {
    pub head: Seq<u8>,
    pub content: Seq<u8>,
}

/// A frame can be found again: its header block ends with its first blank
/// line, and its content, with a delimiter behind it, holds no delimiter
/// before that one.
pub open spec fn well_framed(frame: Frame, boundary: Seq<u8>) -> bool {
    &&& first_match(frame.head, blank_line(), 0) == Some(frame.head.len() - 4)
    &&& first_match(frame.content + delimiter(boundary), delimiter(boundary), 0) == Some(
        frame.content.len() as int,
    )
}

/// The kind that a header block stands for: the block folded and split
/// into lines, and what the lines make of the part.
pub open spec fn framed_kind(head: Seq<u8>) -> Result<KindView, MultipartError> {
    match lines_or_error(unfolded(head, 0), header_lines(unfolded(head, 0), MAX_HEADERS as int)) {
        Err(e) => Err(e),
        Ok(lines) => kind_of(lines),
    }
}

/// The part that a frame stands for: the kind that its header block gives,
/// and the content under that kind.
pub open spec fn framed_part(frame: Frame, config: Config, depth: nat) -> Result<PartView, MultipartError> {
    match framed_kind(frame.head) {
        Err(e) => Err(e),
        Ok(kind) => part_of(kind, frame.content, config, depth),
    }
}

/// The parts that the frames from the `i`-th on stand for, in order.
pub open spec fn framed_parts(frames: Seq<Frame>, config: Config, depth: nat, i: int) -> Seq<PartView> {
    Seq::new((frames.len() - i) as nat, |k: int| framed_part(frames[i + k], config, depth)->Ok_0)
}

/// What is written behind a delimiter for the frames from the `i`-th on:
/// for each a line end, the header block, the content and a delimiter, and
/// behind the last delimiter `tail`.
pub open spec fn written_from(frames: Seq<Frame>, boundary: Seq<u8>, tail: Seq<u8>, i: int) -> Seq<u8>
    decreases frames.len() - i,
{
    if i < 0 || i >= frames.len() {
        tail
    } else {
        crlf() + frames[i].head + frames[i].content + delimiter(boundary) + written_from(
            frames,
            boundary,
            tail,
            i + 1,
        )
    }
}

/// The body that holds the frames, in order, between delimiters, with the
/// closing `--` behind the last.
pub open spec fn written(frames: Seq<Frame>, boundary: Seq<u8>) -> Seq<u8> {
    opening(boundary) + written_from(frames, boundary, dashes(), 0)
}

/// What decoding comes to from just behind a delimiter: nothing more at the
/// closing `--`, and behind a line end the parts from there on.
pub open spec fn resumed(body: Seq<u8>, boundary: Seq<u8>, config: Config, depth: nat, at: int) -> Result<
    Seq<PartView>,
    MultipartError,
> {
    match mark_at(body, at) {
        Mark::Terminal => Ok(Seq::empty()),
        Mark::Broken => Err(MultipartError::NoCrLfAfterBoundary),
        Mark::Next(next) => parts_from(body, boundary, config, depth, next as int),
    }
}

/// A search that starts at the head of a window ends where the search of the
/// window alone ends, when that match closes the window.
pub proof fn lemma_first_match_in_window(hay: Seq<u8>, needle: Seq<u8>, from: int, window: Seq<u8>, p: int)
    requires
        0 <= from,
        from + window.len() <= hay.len(),
        hay.subrange(from, from + window.len()) == window,
        first_match(window, needle, 0) == Some(p),
        p + needle.len() == window.len(),
    ensures
        first_match(hay, needle, from) == Some(from + p),
{
    lemma_first_match_some(window, needle, 0, p);
    assert(hay.subrange(from + p, from + p + needle.len()) =~= window.subrange(p, p + needle.len()));
    assert forall|q: int| from <= q < from + p implies !matches_at(hay, needle, q) by {
        if matches_at(hay, needle, q) {
            assert(window.subrange(q - from, q - from + needle.len()) =~= hay.subrange(q, q + needle.len()));
            assert(matches_at(window, needle, q - from));
        }
    }
    lemma_first_match_least(hay, needle, from, from + p);
}

/// A range of the tail of a body is the same range of the body, moved by
/// where the tail starts.
proof fn lemma_tail_range(body: Seq<u8>, start: int, tail: Seq<u8>, from: int, to: int)
    requires
        0 <= start <= body.len(),
        body.subrange(start, body.len() as int) == tail,
        0 <= from <= to <= tail.len(),
    ensures
        body.subrange(start + from, start + to) == tail.subrange(from, to),
{
    assert(body.subrange(start + from, start + to) =~= tail.subrange(from, to));
}

/// The pieces of four sequences put together, cut out again.
proof fn lemma_four_pieces(a: Seq<u8>, b: Seq<u8>, c: Seq<u8>, d: Seq<u8>)
    ensures
        (a + b + c + d).len() == a.len() + b.len() + c.len() + d.len(),
        (a + b + c + d).subrange(0, a.len() as int) == a,
        (a + b + c + d).subrange(a.len() as int, (a.len() + b.len()) as int) == b,
        (a + b + c + d).subrange(a.len() as int, (a.len() + b.len() + c.len()) as int) == b + c,
        (a + b + c + d).subrange((a.len() + b.len() + c.len()) as int, (a + b + c + d).len() as int) == d,
{
    let whole = a + b + c + d;
    assert(whole.subrange(0, a.len() as int) =~= a);
    assert(whole.subrange(a.len() as int, (a.len() + b.len()) as int) =~= b);
    assert(whole.subrange(a.len() as int, (a.len() + b.len() + c.len()) as int) =~= b + c);
    assert(whole.subrange((a.len() + b.len() + c.len()) as int, whole.len() as int) =~= d);
}

/// `--` as the last bytes of a body closes it.
proof fn lemma_mark_closing(body: Seq<u8>, at: int)
    requires
        0 <= at <= body.len(),
        body.subrange(at, body.len() as int) == dashes(),
    ensures
        mark_at(body, at) == Mark::Terminal,
{
    assert(body.subrange(at, at + 2) =~= dashes());
}

/// A line end behind a delimiter leads to what follows the line end.
proof fn lemma_mark_line_end(body: Seq<u8>, at: int, rest: Seq<u8>)
    requires
        0 <= at <= body.len() <= usize::MAX,
        body.subrange(at, body.len() as int) == crlf() + rest,
    ensures
        mark_at(body, at) == Mark::Next((at + 2) as usize),
        at + 2 <= body.len(),
        body.subrange(at + 2, body.len() as int) == rest,
{
    let tail = crlf() + rest;
    assert(tail.subrange(0, 2) =~= crlf());
    lemma_tail_range(body, at, tail, 0, 2);
    assert(body.subrange(at, at + 2)[0] == 13u8);
    assert(dashes()[0] == 45u8);
    assert(!matches_at(body, dashes(), at));
    assert(matches_at(body, crlf(), at));
    assert(tail.subrange(2, tail.len() as int) =~= rest);
    lemma_tail_range(body, at, tail, 2, tail.len() as int);
}

/// Where a body holds a well-framed frame at `start`, the searches for the
/// blank line and for the delimiter end at the ends of the header block and
/// of the content.
proof fn lemma_frame_found(body: Seq<u8>, boundary: Seq<u8>, start: int, frame: Frame, rest: Seq<u8>)
    requires
        0 <= start <= body.len(),
        body.subrange(start, body.len() as int) == frame.head + frame.content + delimiter(boundary) + rest,
        well_framed(frame, boundary),
    ensures
        first_match(body, blank_line(), start) == Some(start + frame.head.len() - 4),
        body.subrange(start, start + frame.head.len()) == frame.head,
        first_match(body, delimiter(boundary), start + frame.head.len()) == Some(
            start + frame.head.len() + frame.content.len(),
        ),
        body.subrange(start + frame.head.len(), start + frame.head.len() + frame.content.len())
            == frame.content,
        start + frame.head.len() + frame.content.len() + delimiter(boundary).len() <= body.len(),
        body.subrange(
            start + frame.head.len() + frame.content.len() + delimiter(boundary).len(),
            body.len() as int,
        ) == rest,
{
    let head = frame.head;
    let content = frame.content;
    let delim = delimiter(boundary);
    let tail = head + content + delim + rest;
    let h = head.len() as int;
    let c = content.len() as int;
    let d = delim.len() as int;
    lemma_four_pieces(head, content, delim, rest);
    lemma_tail_range(body, start, tail, 0, h);
    lemma_tail_range(body, start, tail, h, h + c);
    lemma_tail_range(body, start, tail, h, h + c + d);
    lemma_tail_range(body, start, tail, h + c + d, tail.len() as int);
    lemma_first_match_some(head, blank_line(), 0, h - 4);
    lemma_first_match_in_window(body, blank_line(), start, head, h - 4);
    lemma_first_match_in_window(body, delim, start + h, content + delim, c);
}

/// What follows a part that was found: the end, or the parts after it.
pub open spec fn continued(
    body: Seq<u8>,
    boundary: Seq<u8>,
    config: Config,
    depth: nat,
    start: int,
    part: PartView,
    after: int,
) -> Result<Seq<PartView>, MultipartError> {
    match mark_at(body, after) {
        Mark::Terminal => Ok(seq![part]),
        Mark::Broken => Err(MultipartError::NoCrLfAfterBoundary),
        Mark::Next(next) => if start < next <= body.len() {
            prepend(part, parts_from(body, boundary, config, depth, next as int))
        } else {
            Err(MultipartError::NoCrLfAfterBoundary)
        },
    }
}

/// Where the searches from `start` end at the ends of a frame's header
/// block and content, decoding from `start` gives the frame's part and
/// goes on behind the delimiter.
proof fn lemma_part_found(
    body: Seq<u8>,
    boundary: Seq<u8>,
    config: Config,
    depth: nat,
    start: int,
    frame: Frame,
)
    requires
        first_match(body, blank_line(), start) == Some(start + frame.head.len() - 4),
        body.subrange(start, start + frame.head.len()) == frame.head,
        first_match(body, delimiter(boundary), start + frame.head.len()) == Some(
            start + frame.head.len() + frame.content.len(),
        ),
        body.subrange(start + frame.head.len(), start + frame.head.len() + frame.content.len())
            == frame.content,
        framed_part(frame, config, depth) is Ok,
    ensures
        parts_from(body, boundary, config, depth, start) == continued(
            body,
            boundary,
            config,
            depth,
            start,
            framed_part(frame, config, depth)->Ok_0,
            start + frame.head.len() + frame.content.len() + delimiter(boundary).len(),
        ),
{
    let p = start + frame.head.len() - 4;
    assert(body.subrange(start, p + 4) == frame.head);
}

/// A part that was found, followed by what decoding comes to behind its
/// delimiter.
proof fn lemma_continued_resumes(
    body: Seq<u8>,
    boundary: Seq<u8>,
    config: Config,
    depth: nat,
    start: int,
    part: PartView,
    after: int,
)
    requires
        0 <= start <= after,
        body.len() <= usize::MAX,
    ensures
        continued(body, boundary, config, depth, start, part, after) == prepend(
            part,
            resumed(body, boundary, config, depth, after),
        ),
{
    assert(crlf().len() == 2);
    assert(seq![part] + Seq::<PartView>::empty() =~= seq![part]);
}

/// What is written for the frames from the `i`-th on starts with a line end
/// and ends with the tail.
proof fn lemma_written_unfolds(frames: Seq<Frame>, boundary: Seq<u8>, tail: Seq<u8>, i: int)
    requires
        0 <= i < frames.len(),
    ensures
        written_from(frames, boundary, tail, i) == crlf() + (frames[i].head + frames[i].content + delimiter(
            boundary,
        ) + written_from(frames, boundary, tail, i + 1)),
{
    let further = frames[i].head + frames[i].content + delimiter(boundary) + written_from(
        frames,
        boundary,
        tail,
        i + 1,
    );
    assert(written_from(frames, boundary, tail, i) =~= crlf() + further);
}

/// Behind a delimiter that is followed by the frames from the `i`-th on and
/// then by a tail, decoding comes to the parts of those frames, followed by
/// what it comes to at the tail.
proof fn lemma_frames_then(
    body: Seq<u8>,
    frames: Seq<Frame>,
    boundary: Seq<u8>,
    tail: Seq<u8>,
    config: Config,
    depth: nat,
    i: int,
    at: int,
)
    requires
        0 <= i <= frames.len(),
        0 <= at <= body.len() <= usize::MAX,
        body.subrange(at, body.len() as int) == written_from(frames, boundary, tail, i),
        forall|j: int| 0 <= j < frames.len() ==> well_framed(#[trigger] frames[j], boundary),
        forall|j: int| 0 <= j < frames.len() ==> framed_part(#[trigger] frames[j], config, depth) is Ok,
    ensures
        tail.len() <= body.len() - at,
        body.subrange(body.len() - tail.len(), body.len() as int) == tail,
        resumed(body, boundary, config, depth, at) == join(
            framed_parts(frames, config, depth, i),
            resumed(body, boundary, config, depth, body.len() - tail.len()),
        ),
    decreases frames.len() - i,
{
    let end = resumed(body, boundary, config, depth, body.len() - tail.len());
    if i >= frames.len() {
        assert(framed_parts(frames, config, depth, i) =~= Seq::<PartView>::empty());
        assert(end is Ok ==> Seq::<PartView>::empty() + end->Ok_0 =~= end->Ok_0);
    } else {
        let frame = frames[i];
        let rest = written_from(frames, boundary, tail, i + 1);
        let further = frame.head + frame.content + delimiter(boundary) + rest;
        let start = at + 2;
        let after = start + frame.head.len() + frame.content.len() + delimiter(boundary).len();
        lemma_written_unfolds(frames, boundary, tail, i);
        lemma_mark_line_end(body, at, further);
        lemma_frame_found(body, boundary, start, frame, rest);
        lemma_part_found(body, boundary, config, depth, start, frame);
        let part = framed_part(frame, config, depth)->Ok_0;
        lemma_continued_resumes(body, boundary, config, depth, start, part, after);
        lemma_frames_then(body, frames, boundary, tail, config, depth, i + 1, after);
        let later = framed_parts(frames, config, depth, i + 1);
        assert(framed_parts(frames, config, depth, i) =~= seq![part] + later);
        assert(end is Ok ==> seq![part] + (later + end->Ok_0) =~= (seq![part] + later) + end->Ok_0);
    }
}

/// The delimiter that opens a body is found at its start.
proof fn lemma_opening_found(body: Seq<u8>, boundary: Seq<u8>, rest: Seq<u8>)
    requires
        body == opening(boundary) + rest,
    ensures
        first_boundary_end(body, boundary) == Some(opening(boundary).len() as int),
        body.subrange(opening(boundary).len() as int, body.len() as int) == rest,
{
    let n = opening(boundary).len() as int;
    assert(body.subrange(0, n) =~= opening(boundary));
    assert(body.subrange(n, body.len() as int) =~= rest);
}

/// Complete parts do not disturb what follows them: a body that holds N
/// well-framed frames, each of which stands for a part, and behind their
/// last delimiter any tail at all, decodes to those N parts, in the order in
/// which they were written, followed by what decoding comes to at the tail;
/// where that fails, the failure is the result.
pub proof fn lemma_written_then(
    frames: Seq<Frame>,
    boundary: Seq<u8>,
    tail: Seq<u8>,
    config: Config,
    depth: nat,
)
    requires
        boundary.len() > 0,
        (opening(boundary) + written_from(frames, boundary, tail, 0)).len() <= usize::MAX,
        forall|j: int| 0 <= j < frames.len() ==> well_framed(#[trigger] frames[j], boundary),
        forall|j: int| 0 <= j < frames.len() ==> framed_part(#[trigger] frames[j], config, depth) is Ok,
    ensures
        ({
            let body = opening(boundary) + written_from(frames, boundary, tail, 0);
            &&& tail.len() <= body.len()
            &&& body.subrange(body.len() - tail.len(), body.len() as int) == tail
            &&& decoded(body, boundary, config, depth) == join(
                framed_parts(frames, config, depth, 0),
                resumed(body, boundary, config, depth, body.len() - tail.len()),
            )
        }),
{
    let body = opening(boundary) + written_from(frames, boundary, tail, 0);
    let n = opening(boundary).len() as int;
    lemma_opening_found(body, boundary, written_from(frames, boundary, tail, 0));
    lemma_frames_then(body, frames, boundary, tail, config, depth, 0, n);
}

/// Writing and decoding are inverse: a body that holds N well-framed
/// frames, each of which stands for a part, decodes to exactly those N
/// parts, in the order in which they were written, each with exactly the
/// content that was written for it.
pub proof fn lemma_written_decodes(frames: Seq<Frame>, boundary: Seq<u8>, config: Config, depth: nat)
    requires
        boundary.len() > 0,
        written(frames, boundary).len() <= usize::MAX,
        forall|j: int| 0 <= j < frames.len() ==> well_framed(#[trigger] frames[j], boundary),
        forall|j: int| 0 <= j < frames.len() ==> framed_part(#[trigger] frames[j], config, depth) is Ok,
    ensures
        decoded(written(frames, boundary), boundary, config, depth) == Ok::<Seq<PartView>, MultipartError>(
            framed_parts(frames, config, depth, 0),
        ),
        framed_parts(frames, config, depth, 0).len() == frames.len(),
{
    let body = written(frames, boundary);
    lemma_written_then(frames, boundary, dashes(), config, depth);
    lemma_mark_closing(body, body.len() - 2);
    assert(framed_parts(frames, config, depth, 0) + Seq::<PartView>::empty() =~= framed_parts(
        frames,
        config,
        depth,
        0,
    ));
}

/// A body without a delimiter at its start or behind a line end fails with
/// `EofBeforeFirstBoundary`, whatever else it holds.
pub proof fn lemma_eof_before_first_boundary(body: Seq<u8>, boundary: Seq<u8>, config: Config, depth: nat)
    requires
        boundary.len() > 0,
        !matches_at(body, opening(boundary), 0),
        forall|q: int| 0 <= q ==> !matches_at(body, delimiter(boundary), q),
    ensures
        decoded(body, boundary, config, depth) == Err::<Seq<PartView>, MultipartError>(
            MultipartError::EofBeforeFirstBoundary,
        ),
{
    if first_match(body, delimiter(boundary), 0) is Some {
        lemma_first_match_some(body, delimiter(boundary), 0, first_match(body, delimiter(boundary), 0).unwrap());
    }
}

/// A body that ends inside the header block of a part, before any blank
/// line, fails with `EofInPartHeaders`.
pub proof fn lemma_eof_in_part_headers(body: Seq<u8>, boundary: Seq<u8>, config: Config, depth: nat, start: int)
    requires
        0 <= start,
        forall|q: int| start <= q ==> !matches_at(body, blank_line(), q),
    ensures
        parts_from(body, boundary, config, depth, start) == Err::<Seq<PartView>, MultipartError>(
            MultipartError::EofInPartHeaders,
        ),
{
    if first_match(body, blank_line(), start) is Some {
        lemma_first_match_some(body, blank_line(), start, first_match(body, blank_line(), start).unwrap());
    }
}

/// A body that ends inside the content of a part, before any delimiter,
/// fails with `EofInFile` where the part's headers make it a file and the
/// bytes read of it are more than stay in memory, and with `EofInPart`
/// otherwise.
pub proof fn lemma_eof_in_content(body: Seq<u8>, boundary: Seq<u8>, config: Config, depth: nat, start: int)
    requires
        headers_at(body, start, false) is Ok,
        kind_of(headers_at(body, start, false)->Ok_0.0) is Ok,
        forall|q: int| headers_at(body, start, false)->Ok_0.1 <= q ==> !matches_at(body, delimiter(boundary), q),
    ensures
        parts_from(body, boundary, config, depth, start) == Err::<Seq<PartView>, MultipartError>(
            eof_in_content(
                kind_of(headers_at(body, start, false)->Ok_0.0)->Ok_0,
                body.len() - headers_at(body, start, false)->Ok_0.1,
                config.memory_limit as int,
            ),
        ),
{
    let content_start = headers_at(body, start, false)->Ok_0.1;
    if first_match(body, delimiter(boundary), content_start) is Some {
        lemma_first_match_some(
            body,
            delimiter(boundary),
            content_start,
            first_match(body, delimiter(boundary), content_start).unwrap(),
        );
    }
}

/// A token that stands nowhere in the rest of a body stands nowhere in the
/// body from where the rest starts.
proof fn lemma_absent_in_rest(body: Seq<u8>, needle: Seq<u8>, from: int, rest: Seq<u8>)
    requires
        0 <= from <= body.len(),
        body.subrange(from, body.len() as int) == rest,
        forall|q: int| 0 <= q ==> !matches_at(rest, needle, q),
    ensures
        forall|q: int| from <= q ==> !matches_at(body, needle, q),
{
    assert forall|q: int| from <= q implies !matches_at(body, needle, q) by {
        if matches_at(body, needle, q) {
            assert(rest.subrange(q - from, q - from + needle.len()) =~= body.subrange(q, q + needle.len()));
            assert(matches_at(rest, needle, q - from));
        }
    }
}

/// A body that is cut inside the header block of a part, behind any number
/// of complete parts, fails with `EofInPartHeaders`: `cut`, what is left of
/// the header block, holds no blank line.
pub proof fn lemma_cut_in_part_headers(
    frames: Seq<Frame>,
    boundary: Seq<u8>,
    cut: Seq<u8>,
    config: Config,
    depth: nat,
)
    requires
        boundary.len() > 0,
        (opening(boundary) + written_from(frames, boundary, crlf() + cut, 0)).len() <= usize::MAX,
        forall|j: int| 0 <= j < frames.len() ==> well_framed(#[trigger] frames[j], boundary),
        forall|j: int| 0 <= j < frames.len() ==> framed_part(#[trigger] frames[j], config, depth) is Ok,
        forall|q: int| 0 <= q ==> !matches_at(cut, blank_line(), q),
    ensures
        decoded(opening(boundary) + written_from(frames, boundary, crlf() + cut, 0), boundary, config, depth)
            == Err::<Seq<PartView>, MultipartError>(MultipartError::EofInPartHeaders),
{
    let tail = crlf() + cut;
    let body = opening(boundary) + written_from(frames, boundary, tail, 0);
    let at = body.len() - tail.len();
    lemma_written_then(frames, boundary, tail, config, depth);
    lemma_mark_line_end(body, at, cut);
    lemma_absent_in_rest(body, blank_line(), at + 2, cut);
    lemma_eof_in_part_headers(body, boundary, config, depth, at + 2);
}

/// A body that is cut inside the content of a part, behind any number of
/// complete parts, fails with `EofInFile` where the headers of the part that
/// was cut make it a file and `cut`, what is left of the content, is longer
/// than what stays in memory, and with `EofInPart` otherwise; `cut` holds no
/// delimiter.
pub proof fn lemma_cut_in_content(
    frames: Seq<Frame>,
    boundary: Seq<u8>,
    head: Seq<u8>,
    cut: Seq<u8>,
    config: Config,
    depth: nat,
)
    requires
        boundary.len() > 0,
        (opening(boundary) + written_from(frames, boundary, crlf() + (head + cut), 0)).len() <= usize::MAX,
        forall|j: int| 0 <= j < frames.len() ==> well_framed(#[trigger] frames[j], boundary),
        forall|j: int| 0 <= j < frames.len() ==> framed_part(#[trigger] frames[j], config, depth) is Ok,
        first_match(head, blank_line(), 0) == Some(head.len() - 4),
        framed_kind(head) is Ok,
        forall|q: int| 0 <= q ==> !matches_at(cut, delimiter(boundary), q),
    ensures
        decoded(
            opening(boundary) + written_from(frames, boundary, crlf() + (head + cut), 0),
            boundary,
            config,
            depth,
        ) == Err::<Seq<PartView>, MultipartError>(
            eof_in_content(framed_kind(head)->Ok_0, cut.len() as int, config.memory_limit as int),
        ),
{
    let tail = crlf() + (head + cut);
    let body = opening(boundary) + written_from(frames, boundary, tail, 0);
    let at = body.len() - tail.len();
    let start = at + 2;
    lemma_written_then(frames, boundary, tail, config, depth);
    lemma_mark_line_end(body, at, head + cut);
    lemma_first_match_some(head, blank_line(), 0, head.len() - 4);
    assert((head + cut).subrange(0, head.len() as int) =~= head);
    assert((head + cut).subrange(head.len() as int, (head + cut).len() as int) =~= cut);
    lemma_tail_range(body, start, head + cut, 0, head.len() as int);
    lemma_tail_range(body, start, head + cut, head.len() as int, (head + cut).len() as int);
    lemma_first_match_in_window(body, blank_line(), start, head, head.len() - 4);
    assert(body.subrange(start, start + head.len() - 4 + 4) == head);
    lemma_absent_in_rest(body, delimiter(boundary), start + head.len(), cut);
    lemma_eof_in_content(body, boundary, config, depth, start);
}

/// A message that ends inside its own headers, before any blank line, fails
/// with `EofInMainHeaders`.
pub proof fn lemma_eof_in_main_headers(input: Seq<u8>, config: Config)
    requires
        forall|q: int| 0 <= q ==> !matches_at(input, blank_line(), q),
    ensures
        message_decoded(input, config) == Err::<Seq<PartView>, MultipartError>(MultipartError::EofInMainHeaders),
{
    if first_match(input, blank_line(), 0) is Some {
        lemma_first_match_some(input, blank_line(), 0, first_match(input, blank_line(), 0).unwrap());
    }
}

/// A part whose content type is `multipart` with a boundary is nested,
/// whether or not its disposition names a file, and its parts are what its
/// content decodes to one level deeper.
pub proof fn lemma_nested_part(lines: Lines, content: Seq<u8>, config: Config, depth: nat)
    requires
        lookup(lines, disposition_name()) is Some,
        param(lookup(lines, disposition_name())->Some_0, name_key()) is Some,
        lookup(lines, content_type_name()) is Some,
        boundary_of(lookup(lines, content_type_name())) is Ok,
        depth < config.max_depth,
    ensures
        kind_of(lines) == Ok::<KindView, MultipartError>(
            KindView::Nested {
                name: param(lookup(lines, disposition_name())->Some_0, name_key())->Some_0,
                boundary: boundary_of(lookup(lines, content_type_name()))->Ok_0,
            },
        ),
        part_of(kind_of(lines)->Ok_0, content, config, depth) == match decoded(
            content,
            boundary_of(lookup(lines, content_type_name()))->Ok_0,
            config,
            (depth + 1) as nat,
        ) {
            Ok(parts) => Ok::<PartView, MultipartError>(
                PartView::Nested { name: param(lookup(lines, disposition_name())->Some_0, name_key())->Some_0, parts },
            ),
            Err(e) => Err(e),
        },
{
}

} // verus!
