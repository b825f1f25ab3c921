//! Lock-step synchronization of two paired read streams.
//!
//! The two streams are pre-ordered so that the i-th record of one is the
//! partner of the i-th record of the other; rows are aligned by position, not
//! by identifier.  Each row is in one of four states — both sides present,
//! only the first, only the second, or both exhausted — and each present
//! record is trimmed: a row with both sides kept goes to the two paired
//! outputs, a row with exactly one side kept goes to the singleton output,
//! and a row with neither side kept counts as a dropped pair.

use crate::record::{views_of, trim_outcome, trim_fastq_record, FastqRecord, RecordView,
    TrimParams};
use vstd::prelude::*;

verus! {

/// How one aligned row of the two streams fares after trimming both sides.
pub enum PairOutcome {
    BothKept(FastqRecord, FastqRecord),
    LeftOnlySingleton(FastqRecord),
    RightOnlySingleton(FastqRecord),
    BothDropped,
}

/// The mathematical view of a row outcome.
#[verifier::ext_equal]
pub enum PairOutcomeView {
    BothKept(RecordView, RecordView),
    LeftOnlySingleton(RecordView),
    RightOnlySingleton(RecordView),
    BothDropped,
}

impl View for PairOutcome {
    type V = PairOutcomeView;

    open spec fn view(&self) -> PairOutcomeView {
        match self {
            PairOutcome::BothKept(x, y) => PairOutcomeView::BothKept(x@, y@),
            PairOutcome::LeftOnlySingleton(x) => PairOutcomeView::LeftOnlySingleton(x@),
            PairOutcome::RightOnlySingleton(y) => PairOutcomeView::RightOnlySingleton(y@),
            PairOutcome::BothDropped => PairOutcomeView::BothDropped,
        }
    }
}

/// The outcome of a row on which both streams yield a record.
pub open spec fn pair_outcome_spec(a: RecordView, b: RecordView, p: TrimParams) -> PairOutcomeView {
    match (trim_outcome(a, p), trim_outcome(b, p)) {
        (Some(x), Some(y)) => PairOutcomeView::BothKept(x, y),
        (Some(x), None) => PairOutcomeView::LeftOnlySingleton(x),
        (None, Some(y)) => PairOutcomeView::RightOnlySingleton(y),
        (None, None) => PairOutcomeView::BothDropped,
    }
}

/// Trim both sides of one row and classify it.
pub fn classify_pair(a: &FastqRecord, b: &FastqRecord, p: &TrimParams) -> (r: PairOutcome)
    ensures
        r@ == pair_outcome_spec(a@, b@, *p),
{
    match (trim_fastq_record(a, p), trim_fastq_record(b, p)) {
        (Some(x), Some(y)) => PairOutcome::BothKept(x, y),
        (Some(x), None) => PairOutcome::LeftOnlySingleton(x),
        (None, Some(y)) => PairOutcome::RightOnlySingleton(y),
        (None, None) => PairOutcome::BothDropped,
    }
}

/// The lock-step state at a row: which of the two streams still yields a
/// record there.  `Done` is the sole terminal state.
#[derive(PartialEq, Eq, Structural, Clone, Copy, Debug)]
pub enum StreamState {
    Both,
    AOnly,
    BOnly,
    Done,
}

/// The state of row `i` of two streams holding `m` and `n` records.
pub open spec fn row_state(m: int, n: int, i: int) -> StreamState {
    if i < m && i < n {
        StreamState::Both
    } else if i < m {
        StreamState::AOnly
    } else if i < n {
        StreamState::BOnly
    } else {
        StreamState::Done
    }
}

/// Which stream still yields a record at row `i`.
pub fn stream_state(m: usize, n: usize, i: usize) -> (s: StreamState)
    ensures
        s == row_state(m as int, n as int, i as int),
{
    if i < m && i < n {
        StreamState::Both
    } else if i < m {
        StreamState::AOnly
    } else if i < n {
        StreamState::BOnly
    } else {
        StreamState::Done
    }
}

/// Law: with stream lengths `m > n` exactly the `m - n` trailing rows run
/// one-sided on the first stream: every row before them runs on both sides,
/// every row from `m` on is terminal.
pub proof fn lemma_tail_rows_a_only(m: int, n: int)
    requires
        0 <= n < m,
    ensures
        forall|i: int| 0 <= i < n ==> row_state(m, n, i) is Both,
        forall|i: int| n <= i < m ==> row_state(m, n, i) is AOnly,
        forall|i: int| m <= i ==> row_state(m, n, i) is Done,
{
}

/// The counters of a paired run.
#[derive(PartialEq, Eq, Structural, Clone, Copy, Debug)]
pub struct RunCounters {
    pub reads_r1: u64,
    pub reads_r2: u64,
    pub pairs_total: u64,
    pub pairs_kept: u64,
    pub pairs_dropped: u64,
    pub singletons: u64,
}

/// The three outputs of a paired run.
pub struct PairedOutput {
    pub r1_out: Vec<FastqRecord>,
    pub r2_out: Vec<FastqRecord>,
    pub singletons_out: Vec<FastqRecord>,
}

/// The spec-level result of synchronizing a prefix of the two streams.
#[verifier::ext_equal]
pub struct SyncView {
    pub r1_out: Seq<RecordView>,
    pub r2_out: Seq<RecordView>,
    pub singletons_out: Seq<RecordView>,
    pub reads_r1: int,
    pub reads_r2: int,
    pub pairs_total: int,
    pub pairs_kept: int,
    pub pairs_dropped: int,
    pub singletons: int,
}

/// What one row adds to the result: both sides present makes the row a pair,
/// one side present makes its survivor a singleton, neither side present
/// changes nothing (the terminal state).
pub open spec fn sync_step_spec(
    prev: SyncView,
    a: Option<RecordView>,
    b: Option<RecordView>,
    p: TrimParams,
) -> SyncView {
    match (a, b) {
        (Some(x0), Some(y0)) => {
            let prev2 = SyncView {
                reads_r1: prev.reads_r1 + 1,
                reads_r2: prev.reads_r2 + 1,
                pairs_total: prev.pairs_total + 1,
                ..prev
            };
            match pair_outcome_spec(x0, y0, p) {
                PairOutcomeView::BothKept(x, y) => SyncView {
                    r1_out: prev2.r1_out.push(x),
                    r2_out: prev2.r2_out.push(y),
                    pairs_kept: prev2.pairs_kept + 1,
                    ..prev2
                },
                PairOutcomeView::LeftOnlySingleton(x) => SyncView {
                    singletons_out: prev2.singletons_out.push(x),
                    singletons: prev2.singletons + 1,
                    ..prev2
                },
                PairOutcomeView::RightOnlySingleton(y) => SyncView {
                    singletons_out: prev2.singletons_out.push(y),
                    singletons: prev2.singletons + 1,
                    ..prev2
                },
                PairOutcomeView::BothDropped => SyncView {
                    pairs_dropped: prev2.pairs_dropped + 1,
                    ..prev2
                },
            }
        },
        (Some(x0), None) => {
            let prev2 = SyncView { reads_r1: prev.reads_r1 + 1, ..prev };
            match trim_outcome(x0, p) {
                Some(x) => SyncView {
                    singletons_out: prev2.singletons_out.push(x),
                    singletons: prev2.singletons + 1,
                    ..prev2
                },
                None => prev2,
            }
        },
        (None, Some(y0)) => {
            let prev2 = SyncView { reads_r2: prev.reads_r2 + 1, ..prev };
            match trim_outcome(y0, p) {
                Some(y) => SyncView {
                    singletons_out: prev2.singletons_out.push(y),
                    singletons: prev2.singletons + 1,
                    ..prev2
                },
                None => prev2,
            }
        },
        (None, None) => prev,
    }
}

/// The record a stream yields at row `i`, if it still holds one.
pub open spec fn row_of(s: Seq<RecordView>, i: int) -> Option<RecordView> {
    if 0 <= i < s.len() {
        Some(s[i])
    } else {
        None
    }
}

/// The result of synchronizing the first `i` rows of the two streams.
pub open spec fn sync_tally(a: Seq<RecordView>, b: Seq<RecordView>, p: TrimParams, i: int) -> SyncView
    decreases i,
{
    if i <= 0 {
        SyncView {
            r1_out: Seq::empty(),
            r2_out: Seq::empty(),
            singletons_out: Seq::empty(),
            reads_r1: 0,
            reads_r2: 0,
            pairs_total: 0,
            pairs_kept: 0,
            pairs_dropped: 0,
            singletons: 0,
        }
    } else {
        sync_step_spec(sync_tally(a, b, p, i - 1), row_of(a, i - 1), row_of(b, i - 1), p)
    }
}

/// What one row of a streaming paired run writes: a kept pair to the two
/// paired outputs, a lone survivor to the singleton output, nothing for a
/// dropped pair, or nothing because both streams are exhausted.
pub enum SyncStep {
    WritePair(FastqRecord, FastqRecord),
    WriteSingleton(FastqRecord),
    WriteNothing,
    Finished,
}

/// The view of what one stream yielded at a row.
pub open spec fn opt_view(r: Option<&FastqRecord>) -> Option<RecordView> {
    match r {
        Some(x) => Some(x@),
        None => None,
    }
}

/// One step of the lock-step machine, for a caller that streams the two
/// inputs one record at a time: trim whatever the streams yielded at this
/// row, update the counters, and say what to write.  `Finished` comes exactly
/// when both streams are exhausted.
pub fn sync_step(
    a: Option<&FastqRecord>,
    b: Option<&FastqRecord>,
    p: &TrimParams,
    c: &mut RunCounters,
) -> (r: SyncStep)
    requires
        old(c).reads_r1 < u64::MAX,
        old(c).reads_r2 < u64::MAX,
        old(c).pairs_total < u64::MAX,
        old(c).pairs_kept < u64::MAX,
        old(c).pairs_dropped < u64::MAX,
        old(c).singletons < u64::MAX,
    ensures
        ({
            let prev = SyncView {
                r1_out: Seq::empty(),
                r2_out: Seq::empty(),
                singletons_out: Seq::empty(),
                reads_r1: old(c).reads_r1 as int,
                reads_r2: old(c).reads_r2 as int,
                pairs_total: old(c).pairs_total as int,
                pairs_kept: old(c).pairs_kept as int,
                pairs_dropped: old(c).pairs_dropped as int,
                singletons: old(c).singletons as int,
            };
            let next = sync_step_spec(prev, opt_view(a), opt_view(b), *p);
            &&& final(c).reads_r1 == next.reads_r1
            &&& final(c).reads_r2 == next.reads_r2
            &&& final(c).pairs_total == next.pairs_total
            &&& final(c).pairs_kept == next.pairs_kept
            &&& final(c).pairs_dropped == next.pairs_dropped
            &&& final(c).singletons == next.singletons
            &&& (r is WritePair <==> next.r1_out.len() == 1)
            &&& (r matches SyncStep::WritePair(x, y) ==> next.r1_out == seq![x@] && next.r2_out
                == seq![y@])
            &&& (r is WriteSingleton <==> next.singletons_out.len() == 1)
            &&& (r matches SyncStep::WriteSingleton(x) ==> next.singletons_out == seq![x@])
            &&& (r is Finished <==> a is None && b is None)
        }),
{
    match (a, b) {
        (Some(ra), Some(rb)) => {
            c.reads_r1 = c.reads_r1 + 1;
            c.reads_r2 = c.reads_r2 + 1;
            c.pairs_total = c.pairs_total + 1;
            match classify_pair(ra, rb, p) {
                PairOutcome::BothKept(x, y) => {
                    c.pairs_kept = c.pairs_kept + 1;
                    SyncStep::WritePair(x, y)
                },
                PairOutcome::LeftOnlySingleton(x) => {
                    c.singletons = c.singletons + 1;
                    SyncStep::WriteSingleton(x)
                },
                PairOutcome::RightOnlySingleton(y) => {
                    c.singletons = c.singletons + 1;
                    SyncStep::WriteSingleton(y)
                },
                PairOutcome::BothDropped => {
                    c.pairs_dropped = c.pairs_dropped + 1;
                    SyncStep::WriteNothing
                },
            }
        },
        (Some(ra), None) => {
            c.reads_r1 = c.reads_r1 + 1;
            match trim_fastq_record(ra, p) {
                Some(x) => {
                    c.singletons = c.singletons + 1;
                    SyncStep::WriteSingleton(x)
                },
                None => SyncStep::WriteNothing,
            }
        },
        (None, Some(rb)) => {
            c.reads_r2 = c.reads_r2 + 1;
            match trim_fastq_record(rb, p) {
                Some(y) => {
                    c.singletons = c.singletons + 1;
                    SyncStep::WriteSingleton(y)
                },
                None => SyncStep::WriteNothing,
            }
        },
        (None, None) => SyncStep::Finished,
    }
}

/// Synchronize two pre-ordered streams row by row, trimming every record.
/// Returns the three outputs, the counters, and whether the two sides held
/// different numbers of records (the non-fatal mismatch warning).
pub fn synchronize_pairs(r1: &Vec<FastqRecord>, r2: &Vec<FastqRecord>, p: &TrimParams) -> (out: (
    PairedOutput,
    RunCounters,
    bool,
))
    ensures
        ({
            let m = r1@.len() as int;
            let n = r2@.len() as int;
            let t = sync_tally(views_of(r1@), views_of(r2@), *p, if m >= n {
                m
            } else {
                n
            });
            &&& views_of(out.0.r1_out@) == t.r1_out
            &&& views_of(out.0.r2_out@) == t.r2_out
            &&& views_of(out.0.singletons_out@) == t.singletons_out
            &&& out.1.reads_r1 == m
            &&& out.1.reads_r2 == n
            &&& out.1.pairs_total == t.pairs_total == if m <= n {
                m
            } else {
                n
            }
            &&& out.1.pairs_kept == t.pairs_kept
            &&& out.1.pairs_dropped == t.pairs_dropped
            &&& out.1.singletons == t.singletons
            &&& out.2 <==> m != n
        }),
{
    let m = r1.len();
    let n = r2.len();
    let rows = if m >= n {
        m
    } else {
        n
    };
    let ghost av = views_of(r1@);
    let ghost bv = views_of(r2@);
    let mut r1_out: Vec<FastqRecord> = Vec::new();
    let mut r2_out: Vec<FastqRecord> = Vec::new();
    let mut singletons_out: Vec<FastqRecord> = Vec::new();
    let mut counters = RunCounters {
        reads_r1: 0,
        reads_r2: 0,
        pairs_total: 0,
        pairs_kept: 0,
        pairs_dropped: 0,
        singletons: 0,
    };
    let mut i: usize = 0;
    while i < rows
        invariant
            0 <= i <= rows,
            m == r1@.len(),
            n == r2@.len(),
            rows == if m >= n {
                m
            } else {
                n
            },
            av == views_of(r1@),
            bv == views_of(r2@),
            ({
                let t = sync_tally(av, bv, *p, i as int);
                &&& views_of(r1_out@) == t.r1_out
                &&& views_of(r2_out@) == t.r2_out
                &&& views_of(singletons_out@) == t.singletons_out
                &&& counters.reads_r1 == t.reads_r1 <= i
                &&& counters.reads_r2 == t.reads_r2 <= i
                &&& counters.pairs_total == t.pairs_total <= i
                &&& counters.pairs_kept == t.pairs_kept <= i
                &&& counters.pairs_dropped == t.pairs_dropped <= i
                &&& counters.singletons == t.singletons <= i
            }),
        decreases rows - i,
    {
        let ghost t_prev = sync_tally(av, bv, *p, i as int);
        match stream_state(m, n, i) {
            StreamState::Both => {
                counters.reads_r1 = counters.reads_r1 + 1;
                counters.reads_r2 = counters.reads_r2 + 1;
                counters.pairs_total = counters.pairs_total + 1;
                match classify_pair(&r1[i], &r2[i], p) {
                    PairOutcome::BothKept(x, y) => {
                        r1_out.push(x);
                        r2_out.push(y);
                        counters.pairs_kept = counters.pairs_kept + 1;
                    },
                    PairOutcome::LeftOnlySingleton(x) => {
                        singletons_out.push(x);
                        counters.singletons = counters.singletons + 1;
                    },
                    PairOutcome::RightOnlySingleton(y) => {
                        singletons_out.push(y);
                        counters.singletons = counters.singletons + 1;
                    },
                    PairOutcome::BothDropped => {
                        counters.pairs_dropped = counters.pairs_dropped + 1;
                    },
                }
            },
            StreamState::AOnly => {
                counters.reads_r1 = counters.reads_r1 + 1;
                match trim_fastq_record(&r1[i], p) {
                    Some(x) => {
                        singletons_out.push(x);
                        counters.singletons = counters.singletons + 1;
                    },
                    None => {},
                }
            },
            StreamState::BOnly => {
                counters.reads_r2 = counters.reads_r2 + 1;
                match trim_fastq_record(&r2[i], p) {
                    Some(y) => {
                        singletons_out.push(y);
                        counters.singletons = counters.singletons + 1;
                    },
                    None => {},
                }
            },
            StreamState::Done => {
                proof {
                    assert(false);
                }
            },
        }
        proof {
            let t_next = sync_tally(av, bv, *p, i + 1);
            assert(views_of(r1_out@) =~= t_next.r1_out);
            assert(views_of(r2_out@) =~= t_next.r2_out);
            assert(views_of(singletons_out@) =~= t_next.singletons_out);
        }
        i = i + 1;
    }
    proof {
        let t = sync_tally(av, bv, *p, rows as int);
        lemma_sync_tally_reads(av, bv, *p, rows as int);
    }
    let warn = m != n;
    (PairedOutput { r1_out, r2_out, singletons_out }, counters, warn)
}

/// After `i` rows each side's read counter has seen every row on which that
/// side still held a record, and every row on which both sides did counts as
/// one pair.
proof fn lemma_sync_tally_reads(a: Seq<RecordView>, b: Seq<RecordView>, p: TrimParams, i: int)
    requires
        i >= 0,
    ensures
        sync_tally(a, b, p, i).reads_r1 == if i <= a.len() {
            i
        } else {
            a.len() as int
        },
        sync_tally(a, b, p, i).reads_r2 == if i <= b.len() {
            i
        } else {
            b.len() as int
        },
        sync_tally(a, b, p, i).pairs_total == if i <= a.len() && i <= b.len() {
            i
        } else if a.len() <= b.len() {
            a.len() as int
        } else {
            b.len() as int
        },
    decreases i,
{
    if i > 0 {
        lemma_sync_tally_reads(a, b, p, i - 1);
    }
}

} // verus!
