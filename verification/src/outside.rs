//! Types of other crates that this library carries without looking inside.

use vstd::prelude::*;

verus! {

/// `httparse::Error`, with its variants.
#[verifier::external_type_specification]
pub struct ExHttparseError(httparse::Error);

/// `hyper::Error`, carried as an opaque value.
#[verifier::external_type_specification]
#[verifier::external_body]
pub struct ExHyperError(hyper::Error);

/// `std::io::Error`, carried as an opaque value.
#[verifier::external_type_specification]
#[verifier::external_body]
pub struct ExIoError(std::io::Error);

/// `std::string::FromUtf8Error`, carried as an opaque value.
#[verifier::external_type_specification]
#[verifier::external_body]
pub struct ExFromUtf8Error(std::string::FromUtf8Error);

} // verus!
