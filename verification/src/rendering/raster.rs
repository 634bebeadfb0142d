//! Deterministic rasterization used by tests and golden fixtures.

use vstd::prelude::*;
use crate::rendering::Screenshot;

verus! {

/// A screenshot with an empty image buffer, kept for compatibility while a
/// real raster path exists elsewhere.
pub fn rasterize_dummy(width: u32, height: u32) -> (s: Screenshot)
    ensures
        s.width == width,
        s.height == height,
        s.png_data@.len() == 0,
{
    Screenshot::empty(width, height)
}

/// The SHA-256 digest of a byte sequence; a function of the bytes alone.
pub uninterp spec fn sha256_of(data: Seq<u8>) -> Seq<u8>;

/// Relies on sha2's SHA-256 hasher: the digest depends on the input bytes
/// alone and is always 32 bytes long.
#[verifier::external_body]
fn sha256_digest(data: &[u8]) -> (r: Vec<u8>)
    ensures
        r@ == sha256_of(data@),
        r@.len() == 32,
{
    let mut h = <sha2::Sha256 as sha2::Digest>::new();
    sha2::Digest::update(&mut h, data);
    sha2::Digest::finalize(h).to_vec()
}

/// The big-endian bytes of a 32-bit value.
pub open spec fn be32(v: u32) -> Seq<u8> {
    seq![(v >> 24) as u8, (v >> 16) as u8, (v >> 8) as u8, v as u8]
}

/// Deterministic raster: the image bytes are the SHA-256 digest of the seed
/// followed by the big-endian width and height.
pub fn rasterize_with_seed(width: u32, height: u32, seed: &[u8]) -> (s: Screenshot)
    ensures
        s.width == width,
        s.height == height,
        s.png_data@ == sha256_of(seed@ + be32(width) + be32(height)),
        s.png_data@.len() == 32,
{
    let mut input: Vec<u8> = Vec::new();
    let mut i: usize = 0;
    while i < seed.len()
        invariant
            i <= seed@.len(),
            input@ == seed@.subrange(0, i as int),
        decreases seed@.len() - i,
    {
        input.push(seed[i]);
        i = i + 1;
    }
    assert(input@ == seed@);
    push_be32(&mut input, width);
    push_be32(&mut input, height);
    assert(input@ == seed@ + be32(width) + be32(height));
    let digest = sha256_digest(input.as_slice());
    Screenshot { width, height, png_data: digest }
}

/// Append the big-endian bytes of `v`.
fn push_be32(out: &mut Vec<u8>, v: u32)
    ensures
        final(out)@ == old(out)@ + be32(v),
{
    out.push((v >> 24) as u8);
    out.push((v >> 16) as u8);
    out.push((v >> 8) as u8);
    out.push(v as u8);
    assert(out@ =~= old(out)@ + be32(v));
}

} // verus!
