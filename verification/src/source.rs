//! The decoding side of transparent compression.
//!
//! An input byte stream is gzip-compressed exactly when its first two bytes
//! are the gzip magic number `0x1f 0x8b`; anything else — including an input
//! shorter than two bytes — passes through unmodified.  Detection looks at
//! the bytes alone, never at a file name.

use vstd::prelude::*;

verus! {

/// An input that opens with the two-byte gzip magic number.
pub open spec fn is_gz_magic(data: Seq<u8>) -> bool {
    data.len() >= 2 && data[0] == 0x1f && data[1] == 0x8b
}

/// Does this prefix of an input open with the gzip magic number?
pub fn is_gzip_magic(prefix: &[u8]) -> (r: bool)
    ensures
        r == is_gz_magic(prefix@),
{
    prefix.len() >= 2 && prefix[0] == 0x1f && prefix[1] == 0x8b
}

/// What a gzip byte stream holds: `Some` of the decompressed bytes when the
/// stream is well formed, `None` otherwise.
pub uninterp spec fn gunzip_of(data: Seq<u8>) -> Option<Seq<u8>>;

/// Decoding a compressed input can fail only on a malformed gzip stream.
#[derive(PartialEq, Eq, Structural, Clone, Copy, Debug)]
pub enum SourceError {
    CorruptGzip,
}

/// Relies on flate2::read::MultiGzDecoder: decoding a byte buffer depends on
/// the bytes alone, succeeds exactly on a well-formed gzip stream, and then
/// yields its decompressed content.
#[verifier::external_body]
fn gunzip_bytes(data: &[u8]) -> (r: Result<Vec<u8>, SourceError>)
    ensures
        r matches Ok(out) ==> gunzip_of(data@) == Some(out@),
        r is Err ==> gunzip_of(data@) is None,
{
    let mut out = Vec::new();
    let mut dec = flate2::read::MultiGzDecoder::new(data);
    match std::io::Read::read_to_end(&mut dec, &mut out) {
        Ok(_) => Ok(out),
        Err(_) => Err(SourceError::CorruptGzip),
    }
}

/// Decode one input: gzip-compressed content (recognized by its magic number)
/// is decompressed, everything else passes through unchanged.
pub fn decode_source(data: Vec<u8>) -> (r: Result<Vec<u8>, SourceError>)
    ensures
        !is_gz_magic(data@) ==> (r matches Ok(out) && out@ == data@),
        is_gz_magic(data@) ==> match gunzip_of(data@) {
            Some(plain) => r matches Ok(out) && out@ == plain,
            None => r is Err,
        },
{
    if is_gzip_magic(data.as_slice()) {
        gunzip_bytes(data.as_slice())
    } else {
        Ok(data)
    }
}

} // verus!
