//! The encoding side of transparent compression, and output naming.
//!
//! A run writes each logical output either plain or gzip-compressed at a
//! configurable level; the single enumerated choice makes conflicting
//! selections unrepresentable.  A paired run derives its three file names
//! from one base name, with an extension that follows the compression choice.

use vstd::prelude::*;
use vstd::string::StringExecFns;

verus! {

/// The compression applied to every output of a run: none, or gzip at the
/// given level (0 to 9).
#[derive(PartialEq, Eq, Structural, Clone, Copy, Debug)]
pub enum OutputCompression {
    Plain,
    Gzip(u32),
}

/// What the gzip encoder produces for a byte buffer at a given level.
pub uninterp spec fn gzip_of(data: Seq<u8>, level: int) -> Seq<u8>;

/// Relies on flate2::write::GzEncoder at the given level: the compressed form
/// depends on the input bytes and the level alone, opens with the gzip magic
/// number, and flate2's MultiGzDecoder restores the input bytes from it.
#[verifier::external_body]
fn gzip_bytes(data: &[u8], level: u32) -> (r: Vec<u8>)
    requires
        level <= 9,
    ensures
        r@ == gzip_of(data@, level as int),
        crate::source::is_gz_magic(r@),
        crate::source::gunzip_of(r@) == Some(data@),
{
    let mut enc = flate2::write::GzEncoder::new(Vec::new(), flate2::Compression::new(level));
    std::io::Write::write_all(&mut enc, data).unwrap();
    enc.finish().unwrap()
}

/// The bytes written for an output buffer under a compression choice.
pub open spec fn encoded_bytes(data: Seq<u8>, c: OutputCompression) -> Seq<u8> {
    match c {
        OutputCompression::Plain => data,
        OutputCompression::Gzip(level) => gzip_of(data, level as int),
    }
}

/// Encode one output buffer under the chosen compression.  A gzip-compressed
/// output opens with the gzip magic number and decodes back to the input.
pub fn encode_output(data: Vec<u8>, c: &OutputCompression) -> (r: Vec<u8>)
    requires
        *c matches OutputCompression::Gzip(l) ==> l <= 9,
    ensures
        r@ == encoded_bytes(data@, *c),
        *c is Gzip ==> crate::source::is_gz_magic(r@) && crate::source::gunzip_of(r@) == Some(
            data@,
        ),
{
    match c {
        OutputCompression::Plain => data,
        OutputCompression::Gzip(level) => gzip_bytes(data.as_slice(), *level),
    }
}

/// The file extension that reflects a compression choice.
pub open spec fn extension(c: OutputCompression) -> Seq<char> {
    match c {
        OutputCompression::Plain => ".fastq"@,
        OutputCompression::Gzip(_) => ".fastq.gz"@,
    }
}

/// The extension as an executable string.
pub fn extension_str(c: &OutputCompression) -> (r: &'static str)
    ensures
        r@ == extension(*c),
{
    match c {
        OutputCompression::Plain => ".fastq",
        OutputCompression::Gzip(_) => ".fastq.gz",
    }
}

fn name_with(base: &str, tag: &str, ext: &str) -> (r: String)
    ensures
        r@ == base@ + tag@ + ext@,
{
    let mut s = String::new();
    s.append(base);
    s.append(tag);
    s.append(ext);
    proof {
        assert(s@ =~= base@ + tag@ + ext@);
    }
    s
}

/// The three output file names of a paired run, derived from one base name:
/// first mates, second mates, and singletons, each with the extension of the
/// chosen compression.
pub fn make_output_files(base: &str, c: &OutputCompression) -> (r: (String, String, String))
    ensures
        r.0@ == base@ + "_R1"@ + extension(*c),
        r.1@ == base@ + "_R2"@ + extension(*c),
        r.2@ == base@ + "_singletons"@ + extension(*c),
{
    let ext = extension_str(c);
    (name_with(base, "_R1", ext), name_with(base, "_R2", ext), name_with(base, "_singletons", ext))
}

} // verus!
