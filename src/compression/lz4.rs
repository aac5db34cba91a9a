//! Compression of payloads as LZ4 frames.

use std::io::{Read, Write};
use vstd::prelude::*;
use crate::compression::opt_bytes;

verus! {

/// The LZ4 frame that compressing `data` at level 10 produces.
pub uninterp spec fn lz4_compressed(data: Seq<u8>) -> Seq<u8>;

/// What decoding `data` as an LZ4 frame gives, or `None` where it is not valid LZ4 data.
pub uninterp spec fn lz4_decoded(data: Seq<u8>) -> Option<Seq<u8>>;

/// Relies on `lz4::EncoderBuilder` at level 10 writing into a `Vec`: a frame
/// holding `data`, from which decoding gives `data` back (LZ4 is lossless); it
/// fails only where no compression context can be allocated.
#[verifier::external_body]
pub fn compress(data: &Vec<u8>) -> (r: Option<Vec<u8>>)
    ensures
        r is Some,
        r matches Some(c) ==> c@ == lz4_compressed(data@) && lz4_decoded(c@) == Some(data@),
{
    let mut encoder = lz4::EncoderBuilder::new().level(10).build(Vec::new()).ok()?;
    encoder.write_all(&data[..]).ok()?;
    let (out, result) = encoder.finish();
    match result {
        Ok(()) => Some(out),
        Err(_) => None,
    }
}

/// Relies on `lz4::Decoder` read to the end: the decoded bytes, or an error on
/// data that is not a valid LZ4 frame.
#[verifier::external_body]
pub fn decompress(data: &Vec<u8>) -> (r: Option<Vec<u8>>)
    ensures
        opt_bytes(r) == lz4_decoded(data@),
{
    let mut decoder = lz4::Decoder::new(&data[..]).ok()?;
    let mut out = Vec::new();
    match decoder.read_to_end(&mut out) {
        Ok(_) => Some(out),
        Err(_) => None,
    }
}

} // verus!
