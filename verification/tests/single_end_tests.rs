use rustrimmer::record::{FastqRecord, TrimParams};
use rustrimmer::single::trim_single_end;

fn record(id: &str, len: usize, phred: u8) -> FastqRecord {
    FastqRecord {
        id: id.as_bytes().to_vec(),
        desc: Some(b"d".to_vec()),
        seq: vec![b'C'; len],
        qual: vec![phred + 33; len],
    }
}

#[test]
fn three_high_quality_records_counted_and_kept() {
    // three 15-base records of uniformly high quality, threshold 20,
    // min_len 10, window 1: everything is kept and counted
    let records = vec![record("r0", 15, 40), record("r1", 15, 40), record("r2", 15, 40)];
    let p = TrimParams { qual_thr: 20, min_len: 10, window: 1 };
    let (out, counters) = trim_single_end(&records, &p);
    assert_eq!(counters.reads, 3);
    assert_eq!(counters.bases, 45);
    assert_eq!(counters.kept, 3);
    assert_eq!(counters.dropped, 0);
    assert_eq!(out.len(), 3);
    assert_eq!(out[0].id, b"r0".to_vec());
    assert_eq!(out[0].seq, vec![b'C'; 15]);
    assert_eq!(out[2].id, b"r2".to_vec());
}

#[test]
fn dropped_records_leave_the_output() {
    let records = vec![record("keep", 30, 40), record("drop", 30, 5), record("tail", 30, 40)];
    let p = TrimParams { qual_thr: 20, min_len: 10, window: 1 };
    let (out, counters) = trim_single_end(&records, &p);
    assert_eq!(counters.reads, 3);
    assert_eq!(counters.bases, 90);
    assert_eq!(counters.kept, 2);
    assert_eq!(counters.dropped, 1);
    assert_eq!(out.len(), 2);
    assert_eq!(out[0].id, b"keep".to_vec());
    assert_eq!(out[1].id, b"tail".to_vec());
    // identifier and description carry over to the trimmed record
    assert_eq!(out[0].desc, Some(b"d".to_vec()));
}

#[test]
fn bases_count_the_input_not_the_trimmed_output() {
    // a record trimmed down still contributes its full input length
    let mut qual = vec![5u8 + 33; 4];
    qual.extend(vec![40u8 + 33; 8]);
    let records = vec![FastqRecord {
        id: b"r".to_vec(),
        desc: None,
        seq: vec![b'G'; 12],
        qual,
    }];
    let p = TrimParams { qual_thr: 20, min_len: 1, window: 1 };
    let (out, counters) = trim_single_end(&records, &p);
    assert_eq!(counters.bases, 12);
    assert_eq!(out[0].seq.len(), 8);
    assert_eq!(out[0].qual, vec![40 + 33; 8]);
}
