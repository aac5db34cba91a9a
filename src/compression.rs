//! Symmetric compression of cache payloads (zstd frames).

use vstd::prelude::*;

pub mod lz4;

verus! {

/// The zstd frame that compressing `data` at level 3 produces.
pub uninterp spec fn zstd_compressed(data: Seq<u8>) -> Seq<u8>;

/// What decoding `data` as zstd frames gives, or `None` where it is not valid zstd data.
pub uninterp spec fn zstd_decoded(data: Seq<u8>) -> Option<Seq<u8>>;

pub open spec fn opt_bytes(o: Option<Vec<u8>>) -> Option<Seq<u8>> {
    match o {
        Some(v) => Some(v@),
        None => None,
    }
}

/// Relies on `zstd::bulk::compress` at level 3: a frame holding `data`, from which
/// decoding gives `data` back (zstd is lossless); it fails only where the
/// compression context cannot be set up.
#[verifier::external_body]
pub fn compress(data: &Vec<u8>) -> (r: Option<Vec<u8>>)
    ensures
        r is Some,
        r matches Some(c) ==> c@ == zstd_compressed(data@) && zstd_decoded(c@) == Some(data@),
{
    zstd::bulk::compress(&data[..], 3).ok()
}

/// Relies on `zstd::stream::decode_all`: the decoded bytes, or an error on data that
/// is not valid zstd.
#[verifier::external_body]
pub fn decompress(data: &Vec<u8>) -> (r: Option<Vec<u8>>)
    ensures
        opt_bytes(r) == zstd_decoded(data@),
{
    zstd::stream::decode_all(&data[..]).ok()
}

} // verus!
