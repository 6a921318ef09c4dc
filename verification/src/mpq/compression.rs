//! Sector compression and checksums.
//!
//! Warcraft III's editor compresses sectors with zlib, marked by a leading
//! compression mask of `0x02`; that is the one method read here. Sector
//! checksums are Adler-32 started from zero, as Storm computes them.
use crate::error::MpqError;
use adler32::RollingAdler32;
use flate2::read::ZlibDecoder;
use std::io::Read;
use vstd::prelude::*;

verus! {

/// Compression mask of a zlib sector.
pub const MASK_ZLIB: u8 = 0x02;

/// What inflating the zlib stream at the start of `input` gives when at most
/// `limit` bytes of output are taken: the output and the number of input bytes
/// the decoder consumed, or `None` when the stream is corrupt.
pub uninterp spec fn zlib_inflate(input: Seq<u8>, limit: u64) -> Option<(Seq<u8>, u64)>;

/// Inflates with `flate2::read::ZlibDecoder`, reading at most `limit` bytes of
/// output through `Read::take`, and reports `ZlibDecoder::total_in`. The
/// result is named, not stated; what the contract adds is that no more than
/// `limit` bytes come out and no more input is consumed than was given.
#[verifier::external_body]
pub(crate) fn inflate_zlib(input: &[u8], limit: u64) -> (r: Option<(Vec<u8>, u64)>)
    ensures
        match r {
            Some((v, consumed)) => zlib_inflate(input@, limit) == Some((v@, consumed)) && v@.len() <= limit
                && consumed <= input@.len(),
            None => zlib_inflate(input@, limit) is None,
        },
{
    let mut out = Vec::new();
    let mut decoder = ZlibDecoder::new(input);
    match (&mut decoder).take(limit).read_to_end(&mut out) {
        Ok(_) => Some((out, decoder.total_in())),
        Err(_) => None,
    }
}

/// The two running sums of Adler-32 over `s`, unreduced, when both start at
/// zero: the sum of the bytes, and the sum of those prefix sums.
pub open spec fn adler_sums(s: Seq<u8>) -> (int, int)
    decreases s.len(),
{
    if s.len() == 0 {
        (0, 0)
    } else {
        let (a, b) = adler_sums(s.drop_last());
        (a + s.last(), b + a + s.last())
    }
}

/// Adler-32 of `s` with both sums started at zero (Storm's sector checksum).
pub open spec fn sector_adler(s: Seq<u8>) -> u32 {
    ((adler_sums(s).1 % 65521) * 65536 + adler_sums(s).0 % 65521) as u32
}

/// Calls `RollingAdler32::from_value(0)`, `update_buffer` and `hash`: the
/// source keeps `a` and `b` reduced modulo 65521 and returns `(b << 16) | a`.
#[verifier::external_body]
pub(crate) fn adler32_from_zero(bytes: &[u8]) -> (h: u32)
    ensures
        h == sector_adler(bytes@),
{
    let mut adler = RollingAdler32::from_value(0);
    adler.update_buffer(bytes);
    adler.hash()
}

/// What decompressing a sector into room for `capacity` bytes gives: the
/// compression mask selects the method, and only zlib is supported.
pub open spec fn spec_decompress(input: Seq<u8>, capacity: u64) -> Result<Seq<u8>, MpqError> {
    if input.len() == 0 {
        Err(MpqError::Decompression)
    } else if input[0] == MASK_ZLIB {
        match zlib_inflate(input.skip(1), capacity) {
            Some((v, _)) => Ok(v),
            None => Err(MpqError::Decompression),
        }
    } else {
        Err(MpqError::UnsupportedCompression(input[0]))
    }
}

/// Decompress a sector, producing at most `capacity` bytes.
pub fn decompress(input: &[u8], capacity: u64) -> (r: Result<Vec<u8>, MpqError>)
    ensures
        match r {
            Ok(v) => spec_decompress(input@, capacity) == Ok::<Seq<u8>, MpqError>(v@) && v@.len() <= capacity,
            Err(e) => spec_decompress(input@, capacity) == Err::<Seq<u8>, MpqError>(e),
        },
{
    if input.len() == 0 {
        return Err(MpqError::Decompression);
    }
    if input[0] != MASK_ZLIB {
        return Err(MpqError::UnsupportedCompression(input[0]));
    }
    let rest = &input[1..input.len()];
    assert(rest@ == input@.skip(1));
    match inflate_zlib(rest, capacity) {
        Some((v, _)) => Ok(v),
        None => Err(MpqError::Decompression),
    }
}

} // verus!
