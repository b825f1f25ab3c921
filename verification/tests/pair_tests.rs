use rustrimmer::pair::{classify_pair, stream_state, sync_step, synchronize_pairs, PairOutcome,
    RunCounters, StreamState, SyncStep};
use rustrimmer::record::{FastqRecord, TrimParams};

fn record(id: &str, len: usize, phred: u8) -> FastqRecord {
    FastqRecord {
        id: id.as_bytes().to_vec(),
        desc: None,
        seq: vec![b'A'; len],
        qual: vec![phred + 33; len],
    }
}

fn params() -> TrimParams {
    TrimParams { qual_thr: 20, min_len: 10, window: 1 }
}

fn zero_counters() -> RunCounters {
    RunCounters {
        reads_r1: 0,
        reads_r2: 0,
        pairs_total: 0,
        pairs_kept: 0,
        pairs_dropped: 0,
        singletons: 0,
    }
}

#[test]
fn extra_left_rows_become_singletons_and_warn() {
    // five records on one side, three on the other: the two trailing rows run
    // one-sided, their survivors go to the singleton output, and the run
    // reports the count mismatch
    let r1: Vec<FastqRecord> = (0..5).map(|i| record(&format!("a{}", i), 20, 40)).collect();
    let r2: Vec<FastqRecord> = (0..3).map(|i| record(&format!("b{}", i), 20, 40)).collect();
    let (out, counters, warn) = synchronize_pairs(&r1, &r2, &params());
    assert_eq!(counters.reads_r1, 5);
    assert_eq!(counters.reads_r2, 3);
    assert_eq!(counters.pairs_total, 3);
    assert_eq!(counters.pairs_kept, 3);
    assert_eq!(counters.pairs_dropped, 0);
    assert_eq!(counters.singletons, 2);
    assert_eq!(out.r1_out.len(), 3);
    assert_eq!(out.r2_out.len(), 3);
    assert_eq!(out.singletons_out.len(), 2);
    assert_eq!(out.singletons_out[0].id, b"a3".to_vec());
    assert_eq!(out.singletons_out[1].id, b"a4".to_vec());
    assert!(warn);
}

#[test]
fn equal_lengths_produce_no_warning() {
    let r1: Vec<FastqRecord> = (0..4).map(|i| record(&format!("a{}", i), 20, 40)).collect();
    let r2: Vec<FastqRecord> = (0..4).map(|i| record(&format!("b{}", i), 20, 40)).collect();
    let (_, counters, warn) = synchronize_pairs(&r1, &r2, &params());
    assert_eq!(counters.reads_r1, 4);
    assert_eq!(counters.reads_r2, 4);
    assert!(!warn);
}

#[test]
fn hundred_passing_pairs_all_kept() {
    let r1: Vec<FastqRecord> = (0..100).map(|i| record(&format!("a{}", i), 50, 40)).collect();
    let r2: Vec<FastqRecord> = (0..100).map(|i| record(&format!("b{}", i), 50, 40)).collect();
    let (out, counters, warn) = synchronize_pairs(&r1, &r2, &params());
    assert_eq!(counters.pairs_kept, 100);
    assert_eq!(counters.singletons, 0);
    assert_eq!(counters.pairs_dropped, 0);
    assert_eq!(out.r1_out.len(), 100);
    assert_eq!(out.r2_out.len(), 100);
    assert!(!warn);
}

#[test]
fn one_failing_side_routes_to_singletons() {
    let good = record("good", 20, 40);
    let bad = record("bad", 20, 5);
    match classify_pair(&good, &bad, &params()) {
        PairOutcome::LeftOnlySingleton(x) => assert_eq!(x.id, b"good".to_vec()),
        _ => panic!("expected the surviving left side as a singleton"),
    }
    match classify_pair(&bad, &good, &params()) {
        PairOutcome::RightOnlySingleton(y) => assert_eq!(y.id, b"good".to_vec()),
        _ => panic!("expected the surviving right side as a singleton"),
    }
    assert!(matches!(classify_pair(&bad, &bad, &params()), PairOutcome::BothDropped));
    assert!(matches!(classify_pair(&good, &good, &params()), PairOutcome::BothKept(_, _)));
}

#[test]
fn dropped_pairs_are_counted_not_written() {
    let r1 = vec![record("a0", 20, 5), record("a1", 20, 40)];
    let r2 = vec![record("b0", 20, 5), record("b1", 20, 40)];
    let (out, counters, warn) = synchronize_pairs(&r1, &r2, &params());
    assert_eq!(counters.pairs_total, 2);
    assert_eq!(counters.pairs_kept, 1);
    assert_eq!(counters.pairs_dropped, 1);
    assert_eq!(counters.singletons, 0);
    assert_eq!(out.r1_out.len(), 1);
    assert_eq!(out.singletons_out.len(), 0);
    assert!(!warn);
}

#[test]
fn stream_state_follows_row_position() {
    assert_eq!(stream_state(3, 5, 2), StreamState::Both);
    assert_eq!(stream_state(3, 5, 3), StreamState::BOnly);
    assert_eq!(stream_state(5, 3, 3), StreamState::AOnly);
    assert_eq!(stream_state(3, 5, 5), StreamState::Done);
}

#[test]
fn sync_step_drives_one_row_at_a_time() {
    let good = record("good", 20, 40);
    let bad = record("bad", 20, 5);
    let mut counters = zero_counters();
    match sync_step(Some(&good), Some(&good), &params(), &mut counters) {
        SyncStep::WritePair(x, y) => {
            assert_eq!(x.id, b"good".to_vec());
            assert_eq!(y.id, b"good".to_vec());
        }
        _ => panic!("expected a kept pair"),
    }
    assert!(matches!(
        sync_step(Some(&good), Some(&bad), &params(), &mut counters),
        SyncStep::WriteSingleton(_)
    ));
    assert!(matches!(
        sync_step(Some(&bad), None, &params(), &mut counters),
        SyncStep::WriteNothing
    ));
    assert!(matches!(
        sync_step(None, Some(&good), &params(), &mut counters),
        SyncStep::WriteSingleton(_)
    ));
    assert!(matches!(sync_step(None, None, &params(), &mut counters), SyncStep::Finished));
    assert_eq!(counters.reads_r1, 3);
    assert_eq!(counters.reads_r2, 3);
    assert_eq!(counters.pairs_total, 2);
    assert_eq!(counters.pairs_kept, 1);
    assert_eq!(counters.pairs_dropped, 0);
    assert_eq!(counters.singletons, 2);
}
