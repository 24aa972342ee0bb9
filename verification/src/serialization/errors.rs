//! Errors produced when building, reading, or writing pak files.

use vstd::prelude::*;

verus! {

/// `std::io::Error` is carried through unchanged; its contents are not inspected.
#[verifier::external_type_specification]
#[verifier::external_body]
pub struct ExIoError(std::io::Error);

/// Errors produced when building, reading, or writing pak files.
#[derive(Debug)]
pub enum PakError {
    /// Underlying I/O failure (including input that ends too early)
    Io(std::io::Error),
    /// Path not present in the pak
    NotFound(String),
    /// A destination buffer is smaller than the file it should receive
    BufferTooSmall { needed: u64, got: usize },
    /// The input does not start with `pkfs`
    BadMagic,
    /// Structurally invalid header, manifest or metadata
    Malformed(&'static str),
    /// A manifest entry names a codec id this reader does not know
    UnknownCodec(u8),
    /// A path was staged twice
    DuplicatePath(String),
    /// Failure reported by a compression library
    Compression(String),
}

/// The error `std::io::Read::read_exact` reports when its input ends early.
///
/// Builds `std::io::Error::from(std::io::ErrorKind::UnexpectedEof)`; nothing is
/// stated about the value.
#[verifier::external_body]
pub(crate) fn unexpected_eof() -> std::io::Error {
    std::io::Error::from(std::io::ErrorKind::UnexpectedEof)
}

} // verus!
