//! Zstandard compression of the payload, behind trusted wrappers.

use vstd::prelude::*;

verus! {

/// The four magic bytes that open every Zstandard frame.
pub open spec fn spec_zstd_magic() -> Seq<u8> {
    seq![0x28u8, 0xB5u8, 0x2Fu8, 0xFDu8]
}

/// Does `data` begin with the Zstandard frame magic?
pub open spec fn spec_has_zstd_magic(data: Seq<u8>) -> bool {
    data.len() >= 4 && data.subrange(0, 4) == spec_zstd_magic()
}

/// What Zstandard decompression returns for a byte sequence: the
/// original payload for a well-formed compressed stream, nothing
/// otherwise. Decompression depends on the input bytes alone.
pub uninterp spec fn zstd_decompressed(data: Seq<u8>) -> Option<Seq<u8>>;

/// Relies on zstd::stream::encode_all: the output is a Zstandard frame,
/// which begins with the frame magic, and decoding it returns exactly
/// the bytes that were compressed.
#[verifier::external_body]
pub(crate) fn zstd_compress(data: &[u8], level: i32) -> (r: Result<Vec<u8>, String>)
    ensures
        r is Ok ==> spec_has_zstd_magic(r->Ok_0@),
        r is Ok ==> zstd_decompressed(r->Ok_0@) == Some(data@),
{
    match zstd::stream::encode_all(data, level) {
        Ok(v) => Ok(v),
        Err(e) => Err(e.to_string()),
    }
}

/// Relies on zstd::stream::decode_all: decoding is a function of the
/// input bytes alone; it succeeds exactly on well-formed compressed
/// streams and returns the stream's payload.
#[verifier::external_body]
pub(crate) fn zstd_decompress(data: &[u8]) -> (r: Result<Vec<u8>, String>)
    ensures
        r is Ok <==> zstd_decompressed(data@) is Some,
        r is Ok ==> Some(r->Ok_0@) == zstd_decompressed(data@),
{
    match zstd::stream::decode_all(data) {
        Ok(v) => Ok(v),
        Err(e) => Err(e.to_string()),
    }
}

} // verus!
