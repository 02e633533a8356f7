//! The calls that this library makes into blake3, zstd and std's UTF-8
//! validation, each with the contract that the rest of the library relies on.
use vstd::prelude::*;
use vstd::utf8::{decode_utf8, valid_utf8};

verus! {

/// The 32-byte BLAKE3 digest of `data`.
pub uninterp spec fn blake3_digest(data: Seq<u8>) -> Seq<u8>;

/// What zstd's streaming compression at `level` makes of `data` (one frame,
/// written to the end): `None` where it reports an error.
pub uninterp spec fn zstd_compressed(data: Seq<u8>, level: i32) -> Option<Seq<u8>>;

/// What zstd's streaming decompression makes of `data` (every frame in it,
/// one after the other): `None` where it reports an error.
pub uninterp spec fn zstd_decoded(data: Seq<u8>) -> Option<Seq<u8>>;

/// The decompressed bytes of `data` where they are no more than `capacity`.
pub open spec fn zstd_decompressed(data: Seq<u8>, capacity: usize) -> Option<Seq<u8>> {
    match zstd_decoded(data) {
        Some(d) => if d.len() <= capacity {
            Some(d)
        } else {
            None
        },
        None => None,
    }
}

/// Calls `blake3::hash`. Claimed: the result is the 32 bytes of the digest,
/// which depend on `data` alone.
#[verifier::external_body]
pub(crate) fn blake3_hash(data: &[u8]) -> (h: [u8; 32])
    ensures
        h@ == blake3_digest(data@),
        h@.len() == 32,
{
    blake3::hash(data).into()
}

/// Calls `zstd::stream::encode_all` on the bytes of `data`. Claimed: it fails
/// or succeeds, and what it produces, as a function of `data` and `level`
/// alone; and, zstd being lossless, the frame it produces decompresses to
/// `data` again.
#[verifier::external_body]
pub(crate) fn zstd_compress(data: &[u8], level: i32) -> (r: Result<Vec<u8>, ()>)
    ensures
        r is Ok <==> zstd_compressed(data@, level) is Some,
        r matches Ok(c) ==> c@ == zstd_compressed(data@, level).unwrap(),
        r matches Ok(c) ==> zstd_decoded(c@) == Some(data@),
{
    zstd::stream::encode_all(data, level).map_err(|_| ())
}

/// Calls `zstd::stream::decode_all` on the bytes of `data`. Claimed: it
/// fails or succeeds, and what it produces, as a function of `data` alone.
#[verifier::external_body]
fn zstd_decode_all(data: &[u8]) -> (r: Result<Vec<u8>, ()>)
    ensures
        r is Ok <==> zstd_decoded(data@) is Some,
        r matches Ok(d) ==> d@ == zstd_decoded(data@).unwrap(),
{
    zstd::stream::decode_all(data).map_err(|_| ())
}

/// Decompresses `data`, refusing a result longer than `capacity` bytes (see
/// [`zstd_decompressed`]).
pub(crate) fn zstd_decompress(data: &[u8], capacity: usize) -> (r: Result<Vec<u8>, ()>)
    ensures
        r is Ok <==> zstd_decompressed(data@, capacity) is Some,
        r matches Ok(d) ==> d@ == zstd_decompressed(data@, capacity).unwrap(),
{
    match zstd_decode_all(data) {
        Ok(d) => if d.len() <= capacity {
            Ok(d)
        } else {
            Err(())
        },
        Err(()) => Err(()),
    }
}

/// Calls `String::from_utf8`. Claimed, as std documents it: the bytes are
/// accepted exactly when they are valid UTF-8, and then the string holds the
/// characters that they encode.
#[verifier::external_body]
pub(crate) fn string_from_utf8(bytes: Vec<u8>) -> (r: Option<String>)
    ensures
        r is Some <==> valid_utf8(bytes@),
        r matches Some(s) ==> s@ == decode_utf8(bytes@),
{
    String::from_utf8(bytes).ok()
}

/// Calls `String::push`. Claimed, as std documents it: the character is
/// appended to the end of the string.
#[verifier::external_body]
pub(crate) fn string_push(s: &mut String, c: char)
    ensures
        final(s)@ == old(s)@.push(c),
{
    s.push(c)
}

} // verus!
