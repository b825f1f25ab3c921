//! Reads and trimming parameters as plain data.

use crate::trim;
use vstd::prelude::*;

verus! {

/// A FASTQ record as plain bytes: identifier, optional free-text description,
/// base sequence, and Phred+33 quality string of the same length.
pub struct FastqRecord {
    pub id: Vec<u8>,
    pub desc: Option<Vec<u8>>,
    pub seq: Vec<u8>,
    pub qual: Vec<u8>,
}

/// The mathematical view of a record.
#[verifier::ext_equal]
pub struct RecordView {
    pub id: Seq<u8>,
    pub desc: Option<Seq<u8>>,
    pub seq: Seq<u8>,
    pub qual: Seq<u8>,
}

impl RecordView {
    /// A record is well formed when sequence and quality are equally long.
    pub open spec fn wf(self) -> bool {
        self.seq.len() == self.qual.len()
    }
}

impl View for FastqRecord {
    type V = RecordView;

    open spec fn view(&self) -> RecordView {
        RecordView {
            id: self.id@,
            desc: match self.desc {
                Some(d) => Some(d@),
                None => None,
            },
            seq: self.seq@,
            qual: self.qual@,
        }
    }
}

/// The views of a whole stream of records.
pub open spec fn views_of(rs: Seq<FastqRecord>) -> Seq<RecordView> {
    rs.map_values(|r: FastqRecord| r@)
}

/// The trimming parameters: quality threshold (Phred score), minimum length a
/// kept read must have, and window size (one selects single-base mode).
pub struct TrimParams {
    pub qual_thr: u8,
    pub min_len: usize,
    pub window: usize,
}

/// What trimming does to a whole record: a kept record keeps its identifier
/// and description and holds the trimmed sequence and quality; `None` is a
/// dropped record.
pub open spec fn trim_outcome(r: RecordView, p: TrimParams) -> Option<RecordView> {
    match trim::trim_spec(r.qual, r.seq, p.qual_thr as int, p.min_len as int, p.window as int) {
        Some(t) => Some(RecordView { seq: t.0, qual: t.1, ..r }),
        None => None,
    }
}

fn clone_bytes(v: &Vec<u8>) -> (r: Vec<u8>)
    ensures
        r@ == v@,
{
    let mut out: Vec<u8> = Vec::new();
    out.extend_from_slice(v.as_slice());
    out
}

/// Trim one record with the given parameters.
pub fn trim_fastq_record(rec: &FastqRecord, p: &TrimParams) -> (r: Option<FastqRecord>)
    ensures
        ({
            let t = trim_outcome(rec@, *p);
            &&& r is Some <==> t is Some
            &&& (r matches Some(kept) ==> t == Some(kept@))
        }),
{
    match trim::trim_record(
        rec.qual.as_slice(),
        rec.seq.as_slice(),
        p.qual_thr,
        p.min_len,
        p.window,
    ) {
        Some((s2, q2)) => Some(
            FastqRecord {
                id: clone_bytes(&rec.id),
                desc: match &rec.desc {
                    Some(d) => Some(clone_bytes(d)),
                    None => None,
                },
                seq: s2,
                qual: q2,
            },
        ),
        None => None,
    }
}

} // verus!
