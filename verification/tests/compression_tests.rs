use rustrimmer::sink::{encode_output, make_output_files, OutputCompression};
use rustrimmer::source::{decode_source, is_gzip_magic, SourceError};
use std::io::Write;

#[test]
fn gzip_magic_needs_both_bytes() {
    assert!(!is_gzip_magic(&[]));
    assert!(!is_gzip_magic(&[0x1f]));
    assert!(is_gzip_magic(&[0x1f, 0x8b]));
    assert!(is_gzip_magic(&[0x1f, 0x8b, 0x08, 0x00]));
    assert!(!is_gzip_magic(&[0x1f, 0x8c]));
    assert!(!is_gzip_magic(&[0x8b, 0x1f]));
    assert!(!is_gzip_magic(b"@read1\nACGT\n"));
}

#[test]
fn plain_input_passes_through_unchanged() {
    let data = b"@r1 desc\nACGT\n+\nIIII\n".to_vec();
    assert_eq!(decode_source(data.clone()), Ok(data));
}

#[test]
fn empty_input_passes_through_unchanged() {
    assert_eq!(decode_source(Vec::new()), Ok(Vec::new()));
}

#[test]
fn gzip_input_is_decompressed() {
    let plain = b"@r1\nACGTACGT\n+\nIIIIIIII\n".to_vec();
    let mut enc = flate2::write::GzEncoder::new(Vec::new(), flate2::Compression::new(6));
    enc.write_all(&plain).unwrap();
    let compressed = enc.finish().unwrap();
    assert!(is_gzip_magic(&compressed));
    assert_ne!(compressed, plain);
    assert_eq!(decode_source(compressed), Ok(plain));
}

#[test]
fn corrupt_gzip_input_is_an_error() {
    // the magic bytes followed by a truncated header cannot decode
    let data = vec![0x1f, 0x8b, 0x08];
    assert_eq!(decode_source(data), Err(SourceError::CorruptGzip));
}

#[test]
fn encode_plain_is_identity() {
    let data = b"@r1\nACGT\n+\nIIII\n".to_vec();
    assert_eq!(encode_output(data.clone(), &OutputCompression::Plain), data);
}

#[test]
fn encode_gzip_round_trips_through_decode() {
    let data = b"@r1\nACGTACGTACGT\n+\nIIIIIIIIIIII\n".to_vec();
    for level in [0u32, 1, 6, 9] {
        let encoded = encode_output(data.clone(), &OutputCompression::Gzip(level));
        assert!(is_gzip_magic(&encoded));
        assert_ne!(encoded, data);
        assert_eq!(decode_source(encoded), Ok(data.clone()));
    }
}

#[test]
fn output_names_follow_base_and_compression() {
    let (r1, r2, s) = make_output_files("out", &OutputCompression::Plain);
    assert_eq!(r1, "out_R1.fastq");
    assert_eq!(r2, "out_R2.fastq");
    assert_eq!(s, "out_singletons.fastq");
    let (r1, r2, s) = make_output_files("sample", &OutputCompression::Gzip(1));
    assert_eq!(r1, "sample_R1.fastq.gz");
    assert_eq!(r2, "sample_R2.fastq.gz");
    assert_eq!(s, "sample_singletons.fastq.gz");
}
