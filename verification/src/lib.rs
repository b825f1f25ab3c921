//! Quality trimming for FASTQ sequencing reads.
//!
//! The library covers the three verified cores of a read trimmer:
//! the trimming algorithm itself (single-base and sliding-window
//! variants), the lock-step synchronization of paired read streams,
//! and the byte-level side of transparent gzip compression.

pub mod pair;
pub mod record;
pub mod single;
pub mod sink;
pub mod source;
pub mod trim;
