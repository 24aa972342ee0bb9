//! Helpers that read little-endian integers, byte runs and strings from the front
//! of a byte slice, as a reader positioned at the start of that slice would.

pub mod errors;

use vstd::bytes::*;
use vstd::prelude::*;
use vstd::slice::*;
use vstd::utf8::*;

use crate::serialization::errors::unexpected_eof;
use crate::util::errors::UtilReadError;

verus! {

/// Calls `String::from_utf8`. Claimed, as std documents it: the result is `Ok`
/// exactly when `bytes` is valid UTF-8, and then holds the characters `bytes`
/// encodes.
#[verifier::external_body]
pub(crate) fn string_from_utf8(bytes: Vec<u8>) -> (r: Result<String, std::string::FromUtf8Error>)
    ensures
        r is Ok <==> valid_utf8(bytes@),
        r matches Ok(s) ==> s@ == decode_utf8(bytes@),
{
    String::from_utf8(bytes)
}

/// The error of a read that ran past the end of the input.
fn eof() -> (e: UtilReadError)
    ensures
        e is IoError,
{
    UtilReadError::IoError(unexpected_eof())
}

/// Reads the first `n` bytes of `input`.
pub fn read_n_bytes(input: &[u8], n: usize) -> (r: Result<Vec<u8>, UtilReadError>)
    ensures
        n <= input@.len() ==> (r matches Ok(v) && v@ == input@.take(n as int)),
        n > input@.len() ==> (r matches Err(e) && e is IoError),
{
    if input.len() < n {
        return Err(eof());
    }
    Ok(slice_to_vec(slice_subrange(input, 0, n)))
}

/// Reads a `u8` from the front of `input`.
pub fn read_u8(input: &[u8]) -> (r: Result<u8, UtilReadError>)
    ensures
        input@.len() >= 1 ==> r == Ok::<u8, UtilReadError>(input@[0]),
        input@.len() < 1 ==> (r matches Err(e) && e is IoError),
{
    if input.len() < 1 {
        return Err(eof());
    }
    Ok(input[0])
}

/// Reads a little-endian `u16` from the front of `input`.
pub fn read_u16(input: &[u8]) -> (r: Result<u16, UtilReadError>)
    ensures
        input@.len() >= 2 ==> r == Ok::<u16, UtilReadError>(
            spec_u16_from_le_bytes(input@.take(2)),
        ),
        input@.len() < 2 ==> (r matches Err(e) && e is IoError),
{
    if input.len() < 2 {
        return Err(eof());
    }
    Ok(u16_from_le_bytes(slice_subrange(input, 0, 2)))
}

/// Reads a little-endian `u32` from the front of `input`.
pub fn read_u32(input: &[u8]) -> (r: Result<u32, UtilReadError>)
    ensures
        input@.len() >= 4 ==> r == Ok::<u32, UtilReadError>(
            spec_u32_from_le_bytes(input@.take(4)),
        ),
        input@.len() < 4 ==> (r matches Err(e) && e is IoError),
{
    if input.len() < 4 {
        return Err(eof());
    }
    Ok(u32_from_le_bytes(slice_subrange(input, 0, 4)))
}

/// Reads a little-endian `u64` from the front of `input`.
pub fn read_u64(input: &[u8]) -> (r: Result<u64, UtilReadError>)
    ensures
        input@.len() >= 8 ==> r == Ok::<u64, UtilReadError>(
            spec_u64_from_le_bytes(input@.take(8)),
        ),
        input@.len() < 8 ==> (r matches Err(e) && e is IoError),
{
    if input.len() < 8 {
        return Err(eof());
    }
    Ok(u64_from_le_bytes(slice_subrange(input, 0, 8)))
}

/// The bytes before the first NUL byte, or all of `b` when it holds none.
pub open spec fn before_nul(b: Seq<u8>) -> Seq<u8> {
    if exists|i: int| 0 <= i < b.len() && b[i] == 0 {
        let i = choose|i: int|
            0 <= i < b.len() && b[i] == 0 && forall|j: int| 0 <= j < i ==> b[j] != 0;
        b.take(i)
    } else {
        b
    }
}

/// Reads a C-style string from the front of `input`: the bytes before the first
/// NUL byte (or, when there is none, all of `input`), as UTF-8. The NUL terminates
/// the string and is not part of it.
pub fn read_string(input: &[u8]) -> (r: Result<String, UtilReadError>)
    ensures
        valid_utf8(before_nul(input@)) ==> (r matches Ok(s) && s@ == decode_utf8(
            before_nul(input@),
        )),
        !valid_utf8(before_nul(input@)) ==> (r matches Err(e) && e is Utf8ParseError),
{
    let mut i: usize = 0;
    while i < input.len() && input[i] != 0
        invariant
            i <= input@.len(),
            forall|j: int| 0 <= j < i ==> input@[j] != 0,
        decreases input@.len() - i,
    {
        i = i + 1;
    }
    proof {
        if i < input@.len() {
            assert(exists|k: int| 0 <= k < input@.len() && input@[k] == 0) by {
                assert(input@[i as int] == 0);
            }
            let c = choose|k: int|
                0 <= k < input@.len() && input@[k] == 0 && forall|j: int| 0 <= j < k ==> input@[j]
                    != 0;
            assert(c == i) by {
                if c > i {
                    assert(input@[i as int] == 0);
                }
            }
        } else {
            assert(input@.take(i as int) =~= input@);
        }
    }
    let bytes = slice_to_vec(slice_subrange(input, 0, i));
    assert(bytes@ =~= before_nul(input@));
    match string_from_utf8(bytes) {
        Ok(s) => Ok(s),
        Err(e) => Err(UtilReadError::Utf8ParseError(e)),
    }
}

/// The two bytes ending at `k` (exclusive) are `pattern`.
pub open spec fn pattern_ends_at(b: Seq<u8>, pattern: Seq<u8>, k: int) -> bool {
    2 <= k <= b.len() && b[k - 2] == pattern[0] && b[k - 1] == pattern[1]
}

/// Reads until a 2-byte pattern is read, returning the bytes read including the
/// pattern: the shortest prefix of `input` (of at least 2 bytes) that ends with it.
pub fn read_until_bytes(input: &[u8], pattern: [u8; 2]) -> (r: Result<Vec<u8>, UtilReadError>)
    ensures
        r matches Ok(v) ==> {
            &&& pattern_ends_at(input@, pattern@, v@.len() as int)
            &&& v@ == input@.take(v@.len() as int)
            &&& forall|k: int| 2 <= k < v@.len() ==> !pattern_ends_at(input@, pattern@, k)
        },
        r matches Err(e) ==> e is IoError && forall|k: int|
            2 <= k <= input@.len() ==> !pattern_ends_at(input@, pattern@, k),
{
    if input.len() < 2 {
        return Err(eof());
    }
    let p0 = pattern[0];
    let p1 = pattern[1];
    let mut j: usize = 0;
    while j < input.len() - 1
        invariant
            j + 1 <= input@.len(),
            p0 == pattern@[0],
            p1 == pattern@[1],
            forall|k: int| 2 <= k < j + 2 ==> !pattern_ends_at(input@, pattern@, k),
        decreases input@.len() - j,
    {
        if input[j] == p0 && input[j + 1] == p1 {
            return Ok(slice_to_vec(slice_subrange(input, 0, j + 2)));
        }
        j = j + 1;
    }
    Err(eof())
}

} // verus!
