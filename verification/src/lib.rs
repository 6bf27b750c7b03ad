//! Decoding of HTTP `multipart/*` bodies into fields, files and nested
//! multipart sections, with every step stated as a contract over byte
//! sequences.

pub mod classify;
pub mod error;
pub mod framing;
pub mod headers;
pub mod outside;
pub mod parser;
pub mod scan;
