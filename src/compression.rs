//! Whole-archive LZMA compression, through the `lzma_rs` crate.
use vstd::prelude::*;

use crate::error::Error as ArchiveError;

verus! {

/// What `lzma_rs::lzma_decompress` makes of a byte stream: the decompressed
/// bytes, or nothing when the stream is not valid LZMA.
pub uninterp spec fn lzma_decoded(b: Seq<u8>) -> Option<Seq<u8>>;

/// What `lzma_rs::lzma_compress` makes of a byte stream with its default options.
pub uninterp spec fn lzma_encoded(b: Seq<u8>) -> Seq<u8>;

/// Relies on `lzma_rs::lzma_decompress`: the outcome depends on the input bytes alone.
#[verifier::external_body]
fn lzma_decompress_bytes(data: &[u8]) -> (r: Option<Vec<u8>>)
    ensures
        r is Some <==> lzma_decoded(data@) is Some,
        r matches Some(v) ==> lzma_decoded(data@) == Some(v@),
{
    let mut input = data;
    let mut out: Vec<u8> = Vec::new();
    lzma_rs::lzma_decompress(&mut input, &mut out).ok().map(|_| out)
}

/// Relies on `lzma_rs::lzma_compress`: what it writes depends on the input bytes
/// alone, and it fails only when reading its input or writing its output fails,
/// which a byte slice and a `Vec` never do.
#[verifier::external_body]
fn lzma_compress_bytes(data: &[u8]) -> (r: Option<Vec<u8>>)
    ensures
        r is Some,
        r matches Some(v) ==> v@ == lzma_encoded(data@),
{
    let mut input = data;
    let mut out: Vec<u8> = Vec::new();
    lzma_rs::lzma_compress(&mut input, &mut out).ok().map(|_| out)
}

/// Decompresses a whole LZMA stream.
pub fn decompress(data: &[u8]) -> (r: Result<Vec<u8>, ArchiveError>)
    ensures
        match lzma_decoded(data@) {
            Some(v) => r matches Ok(x) && x@ == v,
            None => r == Err::<Vec<u8>, ArchiveError>(ArchiveError::CompressionError),
        },
{
    match lzma_decompress_bytes(data) {
        Some(v) => Ok(v),
        None => Err(ArchiveError::CompressionError),
    }
}

/// Compresses bytes into an LZMA stream.
pub fn compress(data: &[u8]) -> (r: Result<Vec<u8>, ArchiveError>)
    ensures
        r matches Ok(x) && x@ == lzma_encoded(data@),
{
    match lzma_compress_bytes(data) {
        Some(v) => Ok(v),
        None => Err(ArchiveError::CompressionError),
    }
}

} // verus!
