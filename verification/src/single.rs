//! The single-end run: trim every record, keep the survivors in order, count
//! reads, bases, kept and dropped records.

use crate::record::{views_of, trim_outcome, trim_fastq_record, FastqRecord, RecordView,
    TrimParams};
use vstd::prelude::*;

verus! {

/// The counters of a single-end run.
#[derive(PartialEq, Eq, Structural, Clone, Copy, Debug)]
pub struct SingleEndCounters {
    pub reads: u64,
    pub bases: u64,
    pub kept: u64,
    pub dropped: u64,
}

/// Addition clamped to the range of the 64-bit base counter.
pub open spec fn sat_add64(a: int, b: int) -> int {
    if a + b > u64::MAX {
        u64::MAX as int
    } else {
        a + b
    }
}

/// The spec-level result of trimming a prefix of the stream.
#[verifier::ext_equal]
pub struct SingleTallyView {
    pub out: Seq<RecordView>,
    pub reads: int,
    pub bases: int,
    pub kept: int,
    pub dropped: int,
}

/// The result of trimming the first `i` records: the kept records in input
/// order and the counters; the base counter saturates as the running 64-bit
/// counter does.
pub open spec fn single_tally(recs: Seq<RecordView>, p: TrimParams, i: int) -> SingleTallyView
    decreases i,
{
    if i <= 0 {
        SingleTallyView { out: Seq::empty(), reads: 0, bases: 0, kept: 0, dropped: 0 }
    } else {
        let prev = single_tally(recs, p, i - 1);
        let r = recs[i - 1];
        match trim_outcome(r, p) {
            Some(kept) => SingleTallyView {
                out: prev.out.push(kept),
                reads: prev.reads + 1,
                bases: sat_add64(prev.bases, r.seq.len() as int),
                kept: prev.kept + 1,
                dropped: prev.dropped,
            },
            None => SingleTallyView {
                out: prev.out,
                reads: prev.reads + 1,
                bases: sat_add64(prev.bases, r.seq.len() as int),
                kept: prev.kept,
                dropped: prev.dropped + 1,
            },
        }
    }
}

/// Trim a whole single-end stream: return the kept records in input order and
/// the counters of the run.
pub fn trim_single_end(records: &Vec<FastqRecord>, p: &TrimParams) -> (r: (
    Vec<FastqRecord>,
    SingleEndCounters,
))
    ensures
        ({
            let t = single_tally(views_of(records@), *p, records@.len() as int);
            &&& views_of(r.0@) == t.out
            &&& r.1.reads == records@.len()
            &&& r.1.bases == t.bases
            &&& r.1.kept == t.kept
            &&& r.1.dropped == t.dropped
            &&& r.1.kept + r.1.dropped == r.1.reads
        }),
{
    let ghost rv = views_of(records@);
    let n = records.len();
    let mut out: Vec<FastqRecord> = Vec::new();
    let mut counters = SingleEndCounters { reads: 0, bases: 0, kept: 0, dropped: 0 };
    let mut i: usize = 0;
    while i < n
        invariant
            0 <= i <= n,
            n == records@.len(),
            rv == views_of(records@),
            ({
                let t = single_tally(rv, *p, i as int);
                &&& views_of(out@) == t.out
                &&& counters.reads == t.reads == i
                &&& counters.bases == t.bases
                &&& counters.kept == t.kept <= i
                &&& counters.dropped == t.dropped <= i
                &&& counters.kept + counters.dropped == i
            }),
        decreases n - i,
    {
        counters.reads = counters.reads + 1;
        counters.bases = counters.bases.saturating_add(records[i].seq.len() as u64);
        match trim_fastq_record(&records[i], p) {
            Some(kept) => {
                out.push(kept);
                counters.kept = counters.kept + 1;
            },
            None => {
                counters.dropped = counters.dropped + 1;
            },
        }
        proof {
            let t_next = single_tally(rv, *p, i + 1);
            assert(views_of(out@) =~= t_next.out);
        }
        i = i + 1;
    }
    (out, counters)
}

} // verus!
