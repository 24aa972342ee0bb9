//! Errors of the byte-reading helpers.

use vstd::prelude::*;

verus! {

/// `std::string::FromUtf8Error` is carried through unchanged; its contents are not inspected.
#[verifier::external_type_specification]
#[verifier::external_body]
pub struct ExFromUtf8Error(std::string::FromUtf8Error);

/// Errors of the byte-reading helpers.
#[derive(Debug)]
pub enum UtilReadError {
    /// The input ended before the requested bytes
    IoError(std::io::Error),
    /// The bytes read are not valid UTF-8
    Utf8ParseError(std::string::FromUtf8Error),
}

} // verus!
