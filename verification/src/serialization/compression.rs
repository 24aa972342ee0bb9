//! The two compression libraries a pak can use, zstd and LZ4, both in their
//! standard frame formats.
//!
//! What these libraries produce is not restated here: each output is named by an
//! uninterpreted function of the inputs, and the only further fact relied upon is
//! the one both libraries document, that decoding a frame they produced gives the
//! original bytes back.

use vstd::prelude::*;

verus! {

/// What `zstd::stream::encode_all` produces for `data` at `level`: the frame, or
/// `None` when it reports an error.
pub uninterp spec fn zstd_frame(data: Seq<u8>, level: i32) -> Option<Seq<u8>>;

/// What `zstd::stream::decode_all` decodes from `frame` (`None` when it reports an error).
pub uninterp spec fn zstd_content(frame: Seq<u8>) -> Option<Seq<u8>>;

/// What an `lz4::Encoder` (built with `EncoderBuilder::level(level)`) writes for
/// `data`: the frame, or `None` when building, writing or finishing reports an error.
pub uninterp spec fn lz4_frame(data: Seq<u8>, level: u32) -> Option<Seq<u8>>;

/// What reading `lz4::Decoder` over `frame` to its end yields (`None` when it
/// reports an error).
pub uninterp spec fn lz4_content(frame: Seq<u8>) -> Option<Seq<u8>>;

/// Calls `zstd::stream::encode_all`. Claimed: it succeeds exactly when the named
/// outcome for `data` at `level` is a frame, returns that frame, and the frame
/// decodes back to `data`. Which inputs make the native encoder fail is not stated.
#[verifier::external_body]
pub(crate) fn zstd_encode(data: &[u8], level: i32) -> (r: Result<Vec<u8>, std::io::Error>)
    ensures
        r is Ok <==> zstd_frame(data@, level) is Some,
        r matches Ok(c) ==> zstd_frame(data@, level) == Some(c@) && zstd_content(c@) == Some(
            data@,
        ),
{
    zstd::stream::encode_all(data, level)
}

/// Calls `zstd::stream::decode_all`. Claimed: it succeeds exactly when the named
/// decoding of `frame` exists, and then returns it.
#[verifier::external_body]
pub(crate) fn zstd_decode(frame: &[u8]) -> (r: Result<Vec<u8>, std::io::Error>)
    ensures
        r is Ok <==> zstd_content(frame@) is Some,
        r matches Ok(v) ==> zstd_content(frame@) == Some(v@),
{
    zstd::stream::decode_all(frame)
}

/// Builds an `lz4::Encoder` over a fresh `Vec` with `EncoderBuilder::level(level)`,
/// writes all of `data` and finishes the frame. Claimed: it succeeds exactly when the
/// named outcome for `data` at `level` is a frame, returns that frame, and the frame
/// decodes back to `data`. Which inputs make the native encoder fail is not stated.
#[verifier::external_body]
pub(crate) fn lz4_encode(data: &[u8], level: u32) -> (r: Result<Vec<u8>, std::io::Error>)
    ensures
        r is Ok <==> lz4_frame(data@, level) is Some,
        r matches Ok(c) ==> lz4_frame(data@, level) == Some(c@) && lz4_content(c@) == Some(
            data@,
        ),
{
    let mut enc = lz4::EncoderBuilder::new().level(level).build(Vec::new())?;
    std::io::Write::write_all(&mut enc, data)?;
    let (out, res) = enc.finish();
    match res {
        Ok(()) => Ok(out),
        Err(e) => Err(e),
    }
}

/// Reads an `lz4::Decoder` over `frame` to its end. Claimed: it succeeds exactly
/// when the named decoding of `frame` exists, and then returns it.
#[verifier::external_body]
pub(crate) fn lz4_decode(frame: &[u8]) -> (r: Result<Vec<u8>, std::io::Error>)
    ensures
        r is Ok <==> lz4_content(frame@) is Some,
        r matches Ok(v) ==> lz4_content(frame@) == Some(v@),
{
    let mut dec = lz4::Decoder::new(frame)?;
    let mut out = Vec::new();
    std::io::Read::read_to_end(&mut dec, &mut out)?;
    Ok(out)
}

} // verus!
