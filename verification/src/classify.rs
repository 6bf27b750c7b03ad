//! Deciding from a part's headers what the part is.

use crate::error::MultipartError;
use crate::headers::{eq_ignore_case, find_header, lines_of, lookup, same_name, Header, Lines};
use crate::scan::{find_token, first_match};
use vstd::prelude::*;
use vstd::slice::{slice_subrange, slice_to_vec};

verus! {

/// `;`, which separates the parameters of a header value.
pub open spec fn semicolon() -> Seq<u8> {
    seq![59u8]
}

/// `content-disposition`
pub open spec fn disposition_name() -> Seq<u8> {
    seq![99u8, 111u8, 110u8, 116u8, 101u8, 110u8, 116u8, 45u8, 100u8, 105u8, 115u8, 112u8, 111u8, 115u8, 105u8, 116u8, 105u8, 111u8, 110u8]
}

/// `content-type`
pub open spec fn content_type_name() -> Seq<u8> {
    seq![99u8, 111u8, 110u8, 116u8, 101u8, 110u8, 116u8, 45u8, 116u8, 121u8, 112u8, 101u8]
}

/// `name`
pub open spec fn name_key() -> Seq<u8> {
    seq![110u8, 97u8, 109u8, 101u8]
}

/// `filename`
pub open spec fn filename_key() -> Seq<u8> {
    seq![102u8, 105u8, 108u8, 101u8, 110u8, 97u8, 109u8, 101u8]
}

/// `boundary`
pub open spec fn boundary_key() -> Seq<u8> {
    seq![98u8, 111u8, 117u8, 110u8, 100u8, 97u8, 114u8, 121u8]
}

/// `multipart/`
pub open spec fn multipart_prefix() -> Seq<u8> {
    seq![109u8, 117u8, 108u8, 116u8, 105u8, 112u8, 97u8, 114u8, 116u8, 47u8]
}

/// `text/plain`, the content type of a part that names none.
pub open spec fn text_plain() -> Seq<u8> {
    seq![116u8, 101u8, 120u8, 116u8, 47u8, 112u8, 108u8, 97u8, 105u8, 110u8]
}

/// The first offset at or after `i` that holds neither a space nor a tab.
pub open spec fn skip_blanks(v: Seq<u8>, i: int) -> int
    decreases v.len() - i,
{
    if 0 <= i < v.len() && (v[i] == 32 || v[i] == 9) {
        skip_blanks(v, i + 1)
    } else {
        i
    }
}

/// A value without the double quotes around it, if it has them.
pub open spec fn unquote(v: Seq<u8>) -> Seq<u8> {
    if v.len() >= 2 && v[0] == 34 && v[v.len() - 1] == 34 {
        v.subrange(1, v.len() - 1)
    } else {
        v
    }
}

/// The value that one parameter segment gives to `key`: the segment is
/// blanks, the key in any case, `=`, and the value, quoted or not.
pub open spec fn segment_param(seg: Seq<u8>, key: Seq<u8>) -> Option<Seq<u8>> {
    let s = skip_blanks(seg, 0);
    let e = s + key.len();
    if e < seg.len() && same_name(seg.subrange(s, e), key) && seg[e] == 61 {
        Some(unquote(seg.subrange(e + 1, seg.len() as int)))
    } else {
        None
    }
}

/// The value of the first parameter named `key` among the segments of `v`
/// that start at offset `i` or later; `i` is the start of a segment.
pub open spec fn param_from(v: Seq<u8>, key: Seq<u8>, i: int) -> Option<Seq<u8>>
    decreases v.len() - i,
{
    if i < 0 || i > v.len() {
        None
    } else {
        let end = match first_match(v, semicolon(), i) {
            Some(p) => p,
            None => v.len() as int,
        };
        if end < i || end > v.len() {
            None
        } else {
            match segment_param(v.subrange(i, end), key) {
                Some(x) => Some(x),
                None => if end < v.len() {
                    param_from(v, key, end + 1)
                } else {
                    None
                },
            }
        }
    }
}

/// The value of the parameter `key` of a header value: what precedes the
/// first `;` is the value proper, and holds no parameter.
pub open spec fn param(v: Seq<u8>, key: Seq<u8>) -> Option<Seq<u8>> {
    match first_match(v, semicolon(), 0) {
        Some(p) => param_from(v, key, p + 1),
        None => None,
    }
}

/// Skips spaces and tabs from offset `i` on.
pub fn skip_blanks_from(v: &[u8], i: usize) -> (j: usize)
    requires
        i <= v.len(),
    ensures
        j == skip_blanks(v@, i as int),
        i <= j <= v.len(),
{
    let mut j: usize = i;
    while j < v.len() && (v[j] == 32 || v[j] == 9)
        invariant
            i <= j <= v.len(),
            skip_blanks(v@, i as int) == skip_blanks(v@, j as int),
        decreases v.len() - j,
    {
        j += 1;
    }
    j
}

/// Removes the double quotes around a value, if it has them.
pub fn strip_quotes(v: &[u8]) -> (inner: Vec<u8>)
    ensures
        inner@ == unquote(v@),
{
    let n = v.len();
    if n >= 2 && v[0] == 34 && v[n - 1] == 34 {
        slice_to_vec(slice_subrange(v, 1, n - 1))
    } else {
        slice_to_vec(v)
    }
}

/// Reads one parameter segment for the value that it gives to `key`.
pub fn read_segment(seg: &[u8], key: &[u8]) -> (value: Option<Vec<u8>>)
    ensures
        match value {
            Some(x) => segment_param(seg@, key@) == Some(x@),
            None => segment_param(seg@, key@) is None,
        },
{
    let s = skip_blanks_from(seg, 0);
    if key.len() >= seg.len() - s {
        return None;
    }
    let e = s + key.len();
    if eq_ignore_case(slice_subrange(seg, s, e), key) && seg[e] == 61 {
        Some(strip_quotes(slice_subrange(seg, e + 1, seg.len())))
    } else {
        None
    }
}

/// Reads the parameter `key` of a header value.
pub fn read_param(v: &[u8], key: &[u8]) -> (value: Option<Vec<u8>>)
    ensures
        match value {
            Some(x) => param(v@, key@) == Some(x@),
            None => param(v@, key@) is None,
        },
{
    let semi: [u8; 1] = [59];
    proof {
        assert(semi@ =~= semicolon());
    }
    let mut i: usize = match find_token(v, semi.as_slice(), 0) {
        Some(p) => p + 1,
        None => {
            return None;
        },
    };
    loop
        invariant
            i <= v.len(),
            semi@ == semicolon(),
            param(v@, key@) == param_from(v@, key@, i as int),
        decreases v.len() - i,
    {
        let end: usize = match find_token(v, semi.as_slice(), i) {
            Some(p) => p,
            None => v.len(),
        };
        match read_segment(slice_subrange(v, i, end), key) {
            Some(x) => {
                return Some(x);
            },
            None => {},
        }
        if end >= v.len() {
            return None;
        }
        i = end + 1;
    }
}

/// What a part is, as its headers tell.
#[derive(Debug)]
pub enum Kind {
    /// A plain field.
    Field { name: Vec<u8> },
    /// A file: the part names one.
    File { name: Vec<u8>, filename: Vec<u8>, content_type: Vec<u8> },
    /// A multipart section of its own, with its own boundary.
    Nested { name: Vec<u8>, boundary: Vec<u8> },
}

/// A `Kind` over byte sequences.
pub enum KindView {
    Field { name: Seq<u8> },
    File { name: Seq<u8>, filename: Seq<u8>, content_type: Seq<u8> },
    Nested { name: Seq<u8>, boundary: Seq<u8> },
}

impl View for Kind {
    type V = KindView;

    open spec fn view(&self) -> KindView {
        match self {
            Kind::Field { name } => KindView::Field { name: name@ },
            Kind::File { name, filename, content_type } => KindView::File {
                name: name@,
                filename: filename@,
                content_type: content_type@,
            },
            Kind::Nested { name, boundary } => KindView::Nested { name: name@, boundary: boundary@ },
        }
    }
}

/// Whether a content type's top-level type is `multipart`.
pub open spec fn is_multipart(content_type: Seq<u8>) -> bool {
    content_type.len() >= 10 && same_name(content_type.subrange(0, 10), multipart_prefix())
}

/// The boundary that a content type specifies: `NoRequestContentType`
/// without a content type, `NotMultipart` where its top-level type is not
/// `multipart`, `BoundaryNotSpecified` where it has no `boundary` parameter
/// or an empty one.
pub open spec fn boundary_of(content_type: Option<Seq<u8>>) -> Result<Seq<u8>, MultipartError> {
    match content_type {
        None => Err(MultipartError::NoRequestContentType),
        Some(ct) => if !is_multipart(ct) {
            Err(MultipartError::NotMultipart)
        } else {
            match param(ct, boundary_key()) {
                Some(b) => if b.len() > 0 {
                    Ok(b)
                } else {
                    Err(MultipartError::BoundaryNotSpecified)
                },
                None => Err(MultipartError::BoundaryNotSpecified),
            }
        },
    }
}

/// What a part with these header lines is. A part needs a
/// `Content-Disposition` with a `name`. A `multipart` content type makes it
/// nested, whether or not it names a file; otherwise a `filename` makes it a
/// file, and without one it is a field. The content type defaults to
/// `text/plain`.
pub open spec fn kind_of(lines: Lines) -> Result<KindView, MultipartError> {
    match lookup(lines, disposition_name()) {
        None => Err(MultipartError::MissingPartName),
        Some(disposition) => match param(disposition, name_key()) {
            None => Err(MultipartError::MissingPartName),
            Some(name) => {
                let content_type = match lookup(lines, content_type_name()) {
                    Some(ct) => ct,
                    None => text_plain(),
                };
                if is_multipart(content_type) {
                    match boundary_of(Some(content_type)) {
                        Ok(boundary) => Ok(KindView::Nested { name, boundary }),
                        Err(e) => Err(e),
                    }
                } else {
                    match param(disposition, filename_key()) {
                        Some(filename) => Ok(KindView::File { name, filename, content_type }),
                        None => Ok(KindView::Field { name }),
                    }
                }
            },
        },
    }
}

/// The bytes of an optional slice.
pub open spec fn bytes_of(v: Option<&[u8]>) -> Option<Seq<u8>> {
    match v {
        Some(s) => Some(s@),
        None => None,
    }
}

/// Tells whether a content type's top-level type is `multipart`.
pub fn has_multipart_type(content_type: &[u8]) -> (multi: bool)
    ensures
        multi == is_multipart(content_type@),
{
    let prefix: [u8; 10] = [109, 117, 108, 116, 105, 112, 97, 114, 116, 47];
    proof {
        assert(prefix@ =~= multipart_prefix());
    }
    content_type.len() >= 10 && eq_ignore_case(slice_subrange(content_type, 0, 10), prefix.as_slice())
}

/// Extracts the boundary from a content type, if one is given.
pub fn boundary_from_content_type(content_type: Option<&[u8]>) -> (res: Result<Vec<u8>, MultipartError>)
    ensures
        match res {
            Ok(b) => boundary_of(bytes_of(content_type)) == Ok::<Seq<u8>, MultipartError>(b@) && b@.len() > 0,
            Err(e) => boundary_of(bytes_of(content_type)) == Err::<Seq<u8>, MultipartError>(e),
        },
{
    let key: [u8; 8] = [98, 111, 117, 110, 100, 97, 114, 121];
    proof {
        assert(key@ =~= boundary_key());
    }
    match content_type {
        None => Err(MultipartError::NoRequestContentType),
        Some(ct) => {
            if !has_multipart_type(ct) {
                return Err(MultipartError::NotMultipart);
            }
            match read_param(ct, key.as_slice()) {
                Some(b) => if b.len() > 0 {
                    Ok(b)
                } else {
                    Err(MultipartError::BoundaryNotSpecified)
                },
                None => Err(MultipartError::BoundaryNotSpecified),
            }
        },
    }
}

/// Decides from a part's headers what the part is.
pub fn classify(headers: &Vec<Header>) -> (res: Result<Kind, MultipartError>)
    ensures
        match res {
            Ok(kind) => kind_of(lines_of(headers@)) == Ok::<KindView, MultipartError>(kind@),
            Err(e) => kind_of(lines_of(headers@)) == Err::<KindView, MultipartError>(e),
        },
{
    let disposition_header: [u8; 19] = [99, 111, 110, 116, 101, 110, 116, 45, 100, 105, 115, 112, 111, 115, 105, 116, 105, 111, 110];
    let type_header: [u8; 12] = [99, 111, 110, 116, 101, 110, 116, 45, 116, 121, 112, 101];
    let name: [u8; 4] = [110, 97, 109, 101];
    let filename: [u8; 8] = [102, 105, 108, 101, 110, 97, 109, 101];
    let plain: [u8; 10] = [116, 101, 120, 116, 47, 112, 108, 97, 105, 110];
    proof {
        assert(disposition_header@ =~= disposition_name());
        assert(type_header@ =~= content_type_name());
        assert(name@ =~= name_key());
        assert(filename@ =~= filename_key());
        assert(plain@ =~= text_plain());
    }
    let disposition = match find_header(headers, disposition_header.as_slice()) {
        Some(d) => d,
        None => {
            return Err(MultipartError::MissingPartName);
        },
    };
    let part_name = match read_param(disposition.as_slice(), name.as_slice()) {
        Some(n) => n,
        None => {
            return Err(MultipartError::MissingPartName);
        },
    };
    let content_type = match find_header(headers, type_header.as_slice()) {
        Some(ct) => ct,
        None => slice_to_vec(plain.as_slice()),
    };
    if has_multipart_type(content_type.as_slice()) {
        match boundary_from_content_type(Some(content_type.as_slice())) {
            Ok(boundary) => Ok(Kind::Nested { name: part_name, boundary }),
            Err(e) => Err(e),
        }
    } else {
        match read_param(disposition.as_slice(), filename.as_slice()) {
            Some(f) => Ok(Kind::File { name: part_name, filename: f, content_type }),
            None => Ok(Kind::Field { name: part_name }),
        }
    }
}

} // verus!
