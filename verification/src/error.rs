//! The ways in which decoding a multipart message can fail.

use std::borrow::Cow;
use std::string::FromUtf8Error;
use vstd::prelude::*;
use vstd::std_specs::convert::FromSpecImpl;
use vstd::string::*;

verus! {

/// An error met while decoding a multipart message.
#[derive(Debug)]
pub enum MultipartError {
    /// The request did not have a Content-Type header.
    NoRequestContentType,
    /// The Content-Type's top-level type was not `multipart`.
    NotMultipart,
    /// The Content-Type header failed to specify a boundary token.
    BoundaryNotSpecified,
    /// A multipart section contained only partial headers.
    PartialHeaders,
    /// The input ended inside the message's own headers.
    EofInMainHeaders,
    /// The input ended before the first boundary.
    EofBeforeFirstBoundary,
    /// A boundary was followed neither by `--` nor by a line end.
    NoCrLfAfterBoundary,
    /// The input ended inside the headers of a part.
    EofInPartHeaders,
    /// The input ended inside the content of a file part that was on its way
    /// to storage.
    EofInFile,
    /// The input ended inside the content of a part that was held in memory.
    EofInPart,
    /// A part carried no `Content-Disposition` header with a `name` parameter.
    MissingPartName,
    /// Multipart sections were nested deeper than the configured limit.
    NestingTooDeep,
    /// An HTTP parsing error from a multipart section.
    Httparse(httparse::Error),
    /// An I/O error.
    Io(std::io::Error),
    /// An error was returned from Hyper.
    Hyper(hyper::Error),
    /// An error occurred during UTF-8 processing.
    Utf8(FromUtf8Error),
    /// An error occurred during character decoding.
    Decoding(Cow<'static, str>),
}

impl From<std::io::Error> for MultipartError {
    fn from(err: std::io::Error) -> (e: MultipartError) {
        MultipartError::Io(err)
    }
}

impl FromSpecImpl<std::io::Error> for MultipartError {
    open spec fn obeys_from_spec() -> bool {
        true
    }

    open spec fn from_spec(err: std::io::Error) -> MultipartError {
        MultipartError::Io(err)
    }
}

impl From<httparse::Error> for MultipartError {
    fn from(err: httparse::Error) -> (e: MultipartError) {
        MultipartError::Httparse(err)
    }
}

impl FromSpecImpl<httparse::Error> for MultipartError {
    open spec fn obeys_from_spec() -> bool {
        true
    }

    open spec fn from_spec(err: httparse::Error) -> MultipartError {
        MultipartError::Httparse(err)
    }
}

impl From<hyper::Error> for MultipartError {
    fn from(err: hyper::Error) -> (e: MultipartError) {
        MultipartError::Hyper(err)
    }
}

impl FromSpecImpl<hyper::Error> for MultipartError {
    open spec fn obeys_from_spec() -> bool {
        true
    }

    open spec fn from_spec(err: hyper::Error) -> MultipartError {
        MultipartError::Hyper(err)
    }
}

impl From<FromUtf8Error> for MultipartError {
    fn from(err: FromUtf8Error) -> (e: MultipartError) {
        MultipartError::Utf8(err)
    }
}

impl FromSpecImpl<FromUtf8Error> for MultipartError {
    open spec fn obeys_from_spec() -> bool {
        true
    }

    open spec fn from_spec(err: FromUtf8Error) -> MultipartError {
        MultipartError::Utf8(err)
    }
}

/// The text that httparse gives each of its errors.
pub open spec fn httparse_text(err: httparse::Error) -> Seq<char> {
    match err {
        httparse::Error::HeaderName => "invalid header name"@,
        httparse::Error::HeaderValue => "invalid header value"@,
        httparse::Error::NewLine => "invalid new line"@,
        httparse::Error::Status => "invalid response status"@,
        httparse::Error::Token => "invalid token"@,
        httparse::Error::TooManyHeaders => "too many headers"@,
        httparse::Error::Version => "invalid HTTP version"@,
    }
}

/// `Display` of an `httparse::Error`: httparse writes one fixed text for
/// each variant, and the contract lists them.
#[verifier::external_body]
fn httparse_cause(err: &httparse::Error) -> (text: String)
    ensures
        text@ == httparse_text(*err),
{
    format!("{}", err)
}

/// `Display` of a `std::io::Error`. The text may depend on the platform, so
/// nothing is claimed of it.
#[verifier::external_body]
fn io_cause(err: &std::io::Error) -> (text: String) {
    format!("{}", err)
}

/// `Display` of a `hyper::Error`. It may wrap an I/O error, so nothing is
/// claimed of it.
#[verifier::external_body]
fn hyper_cause(err: &hyper::Error) -> (text: String) {
    format!("{}", err)
}

/// `Display` of a `FromUtf8Error`. Nothing is claimed of it.
#[verifier::external_body]
fn utf8_cause(err: &FromUtf8Error) -> (text: String) {
    format!("{}", err)
}

/// The text that a `Cow` holds, borrowed or owned.
fn cow_text<'a>(message: &'a Cow<'static, str>) -> (text: &'a str)
    ensures
        text@ == message@,
{
    match message {
        Cow::Borrowed(borrowed) => borrowed,
        Cow::Owned(owned) => owned.as_str(),
    }
}

impl MultipartError {
    /// Whether the error wraps a cause whose text follows the label.
    pub open spec fn has_cause(&self) -> bool {
        match self {
            MultipartError::Httparse(_) | MultipartError::Io(_) | MultipartError::Hyper(_) | MultipartError::Utf8(_) | MultipartError::Decoding(_) => true,
            _ => false,
        }
    }

    /// The fixed text with which the error's message starts.
    pub open spec fn label(&self) -> Seq<char> {
        match self {
            MultipartError::NoRequestContentType => "No request Content-Type"@,
            MultipartError::NotMultipart => "Not a multipart"@,
            MultipartError::BoundaryNotSpecified => "Boundary not specified"@,
            MultipartError::PartialHeaders => "Partial headers"@,
            MultipartError::EofInMainHeaders => "EOF in Main headers"@,
            MultipartError::EofBeforeFirstBoundary => "EOF Before First boundary"@,
            MultipartError::NoCrLfAfterBoundary => "No CR-LF After boundary"@,
            MultipartError::EofInPartHeaders => "EOF in Partial headers"@,
            MultipartError::EofInFile => "EOF in File"@,
            MultipartError::EofInPart => "EOF in Part"@,
            MultipartError::MissingPartName => "Part without a name"@,
            MultipartError::NestingTooDeep => "Multipart nested too deep"@,
            MultipartError::Httparse(_) => "Httparse: "@,
            MultipartError::Io(_) => "Io: "@,
            MultipartError::Hyper(_) => "Hyper: "@,
            MultipartError::Utf8(_) => "Utf8: "@,
            MultipartError::Decoding(_) => "Decoding: "@,
        }
    }

    /// The message of the error, given the text of its cause: the label, and
    /// behind it the cause where the error wraps one.
    pub open spec fn message(&self, cause: Seq<char>) -> Seq<char> {
        if self.has_cause() {
            self.label() + cause
        } else {
            self.label()
        }
    }

    /// The sentence that explains the error.
    pub open spec fn explanation(&self) -> Seq<char> {
        match self {
            MultipartError::NoRequestContentType => "The Hyper request did not have a Content-Type header."@,
            MultipartError::NotMultipart => "The Hyper request Content-Type top-level Mime was not multipart."@,
            MultipartError::BoundaryNotSpecified => "The Content-Type header failed to specify a boundary token."@,
            MultipartError::PartialHeaders => "A multipart section contained only partial headers."@,
            MultipartError::EofInMainHeaders => "The request headers ended pre-maturely."@,
            MultipartError::EofBeforeFirstBoundary => "The request body ended prior to reaching the expected starting boundary."@,
            MultipartError::NoCrLfAfterBoundary => "Missing CRLF after boundary."@,
            MultipartError::EofInPartHeaders => "The request body ended prematurely while parsing headers of a multipart part."@,
            MultipartError::EofInFile => "The request body ended prematurely while streaming a file part."@,
            MultipartError::EofInPart => "The request body ended prematurely while reading a multipart part."@,
            MultipartError::MissingPartName => "A multipart part had no Content-Disposition header with a name parameter."@,
            MultipartError::NestingTooDeep => "Multipart sections were nested deeper than the limit allows."@,
            MultipartError::Httparse(_) => "A parse error occurred while parsing the headers of a multipart section."@,
            MultipartError::Io(_) => "An I/O error occurred."@,
            MultipartError::Hyper(_) => "A Hyper error occurred."@,
            MultipartError::Utf8(_) => "A UTF-8 error occurred."@,
            MultipartError::Decoding(_) => "A decoding error occurred."@,
        }
    }

    /// The fixed text with which the error's message starts.
    pub fn prefix(&self) -> (text: &'static str)
        ensures
            text@ == self.label(),
    {
        match self {
            MultipartError::NoRequestContentType => "No request Content-Type",
            MultipartError::NotMultipart => "Not a multipart",
            MultipartError::BoundaryNotSpecified => "Boundary not specified",
            MultipartError::PartialHeaders => "Partial headers",
            MultipartError::EofInMainHeaders => "EOF in Main headers",
            MultipartError::EofBeforeFirstBoundary => "EOF Before First boundary",
            MultipartError::NoCrLfAfterBoundary => "No CR-LF After boundary",
            MultipartError::EofInPartHeaders => "EOF in Partial headers",
            MultipartError::EofInFile => "EOF in File",
            MultipartError::EofInPart => "EOF in Part",
            MultipartError::MissingPartName => "Part without a name",
            MultipartError::NestingTooDeep => "Multipart nested too deep",
            MultipartError::Httparse(_) => "Httparse: ",
            MultipartError::Io(_) => "Io: ",
            MultipartError::Hyper(_) => "Hyper: ",
            MultipartError::Utf8(_) => "Utf8: ",
            MultipartError::Decoding(_) => "Decoding: ",
        }
    }

    /// Whether the error wraps a cause.
    pub fn wraps_cause(&self) -> (wraps: bool)
        ensures
            wraps == self.has_cause(),
    {
        match self {
            MultipartError::Httparse(_) | MultipartError::Io(_) | MultipartError::Hyper(_) | MultipartError::Utf8(_) | MultipartError::Decoding(_) => true,
            _ => false,
        }
    }

    /// Writes the error's message around the text of its cause.
    pub fn render(&self, cause: &str) -> (text: String)
        ensures
            text@ == self.message(cause@),
    {
        let head = String::from_str(self.prefix());
        if self.wraps_cause() {
            head.concat(cause)
        } else {
            head
        }
    }

    /// The text of the wrapped cause; empty where the error wraps none.
    pub fn cause_text(&self) -> (text: String)
        ensures
            !self.has_cause() ==> text@ == Seq::<char>::empty(),
            self matches MultipartError::Decoding(m) ==> text@ == m@,
            self matches MultipartError::Httparse(e) ==> text@ == httparse_text(*e),
    {
        match self {
            MultipartError::Httparse(e) => httparse_cause(e),
            MultipartError::Io(e) => io_cause(e),
            MultipartError::Hyper(e) => hyper_cause(e),
            MultipartError::Utf8(e) => utf8_cause(e),
            MultipartError::Decoding(m) => String::from_str(cow_text(m)),
            _ => String::new(),
        }
    }

    /// The error's message: its label, and behind it the text of its cause
    /// where it wraps one.
    pub fn to_string(&self) -> (text: String)
        ensures
            !self.has_cause() ==> text@ == self.label(),
            self matches MultipartError::Decoding(m) ==> text@ == self.label() + m@,
            self matches MultipartError::Httparse(e) ==> text@ == self.label() + httparse_text(*e),
            exists|cause: Seq<char>| text@ == self.message(cause),
    {
        let cause = self.cause_text();
        self.render(cause.as_str())
    }

    /// The error as it is shown for debugging: its message. No error here
    /// has a source of its own to show behind it.
    pub fn debug_string(&self) -> (text: String)
        ensures
            !self.has_cause() ==> text@ == self.label(),
            self matches MultipartError::Decoding(m) ==> text@ == self.label() + m@,
            self matches MultipartError::Httparse(e) ==> text@ == self.label() + httparse_text(*e),
            exists|cause: Seq<char>| text@ == self.message(cause),
    {
        self.to_string()
    }

    /// The sentence that explains the error.
    pub fn description(&self) -> (text: &'static str)
        ensures
            text@ == self.explanation(),
    {
        match self {
            MultipartError::NoRequestContentType => "The Hyper request did not have a Content-Type header.",
            MultipartError::NotMultipart => "The Hyper request Content-Type top-level Mime was not multipart.",
            MultipartError::BoundaryNotSpecified => "The Content-Type header failed to specify a boundary token.",
            MultipartError::PartialHeaders => "A multipart section contained only partial headers.",
            MultipartError::EofInMainHeaders => "The request headers ended pre-maturely.",
            MultipartError::EofBeforeFirstBoundary => "The request body ended prior to reaching the expected starting boundary.",
            MultipartError::NoCrLfAfterBoundary => "Missing CRLF after boundary.",
            MultipartError::EofInPartHeaders => "The request body ended prematurely while parsing headers of a multipart part.",
            MultipartError::EofInFile => "The request body ended prematurely while streaming a file part.",
            MultipartError::EofInPart => "The request body ended prematurely while reading a multipart part.",
            MultipartError::MissingPartName => "A multipart part had no Content-Disposition header with a name parameter.",
            MultipartError::NestingTooDeep => "Multipart sections were nested deeper than the limit allows.",
            MultipartError::Httparse(_) => "A parse error occurred while parsing the headers of a multipart section.",
            MultipartError::Io(_) => "An I/O error occurred.",
            MultipartError::Hyper(_) => "A Hyper error occurred.",
            MultipartError::Utf8(_) => "A UTF-8 error occurred.",
            MultipartError::Decoding(_) => "A decoding error occurred.",
        }
    }
}

} // verus!
