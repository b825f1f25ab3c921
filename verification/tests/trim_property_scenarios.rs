use rustrimmer::trim::trim_record;

#[test]
fn all_high_quality_kept_unchanged() {
    // every score reaches the threshold and the read is long enough:
    // the read comes back unchanged, in single-base and in windowed mode
    let seq = b"ACGTACGTACGT";
    let qual = vec![35u8 + 33; 12];
    for window in [0usize, 1, 4, 12, 100] {
        let res = trim_record(&qual, seq, 20, 12, window);
        assert_eq!(res, Some((seq.to_vec(), qual.clone())));
    }
}

#[test]
fn all_low_quality_dropped_every_window() {
    let seq = b"ACGTACGT";
    let qual = vec![19u8 + 33; 8];
    for window in [0usize, 1, 3, 8, 100] {
        assert!(trim_record(&qual, seq, 20, 0, window).is_none());
    }
}

#[test]
fn kept_length_stays_between_min_len_and_input_length() {
    let seq = b"ACGTACGTAC";
    let quals: Vec<u8> = [10u8, 10, 40, 40, 40, 40, 40, 40, 10, 10]
        .iter()
        .map(|q| q + 33)
        .collect();
    for window in [1usize, 2, 3, 10, 50] {
        for min_len in [0usize, 1, 6, 7, 10] {
            match trim_record(&quals, seq, 20, min_len, window) {
                Some((s, q)) => {
                    assert!(min_len <= s.len());
                    assert!(s.len() <= seq.len());
                    assert_eq!(s.len(), q.len());
                }
                None => {}
            }
        }
    }
}

#[test]
fn window_one_matches_single_base_boundaries() {
    // with a window of one base, only the two lone low ends go: the decision
    // is per base, never over any wider region
    let seq = b"ACGTAC";
    let quals: Vec<u8> = [10u8, 40, 10, 40, 40, 10].iter().map(|q| q + 33).collect();
    let res = trim_record(&quals, seq, 20, 1, 1);
    // single-base boundaries: first good index 1, last good index 4
    assert_eq!(
        res,
        Some((b"CGTA".to_vec(), vec![40 + 33, 10 + 33, 40 + 33, 40 + 33]))
    );
}

#[test]
fn window_exceeding_read_falls_back_to_single_base() {
    let seq = b"ACGT";
    let quals: Vec<u8> = [10u8, 40, 40, 10].iter().map(|q| q + 33).collect();
    let wide = trim_record(&quals, seq, 20, 1, 10);
    let single = trim_record(&quals, seq, 20, 1, 1);
    assert_eq!(wide, single);
    assert_eq!(wide, Some((b"CG".to_vec(), vec![40 + 33, 40 + 33])));
}

#[test]
fn window_mean_tolerates_one_low_base() {
    // the windowed boundary test is the window mean, not every single base:
    // two scores of 10 and one of 40 average exactly to the threshold 20,
    // so the whole window is kept although two of its bases are low
    let seq = b"ACG";
    let quals: Vec<u8> = [10u8, 10, 40].iter().map(|q| q + 33).collect();
    let res = trim_record(&quals, seq, 20, 1, 3);
    assert_eq!(res, Some((seq.to_vec(), quals.clone())));
}

#[test]
fn window_equal_to_read_length_judges_the_whole_read() {
    // a window as long as the read makes one decision over the whole read:
    // the low ends stay because the mean passes, where single-base mode
    // would have cut them
    let seq = b"ACGT";
    let quals: Vec<u8> = [10u8, 40, 40, 10].iter().map(|q| q + 33).collect();
    let windowed = trim_record(&quals, seq, 20, 1, 4);
    assert_eq!(windowed, Some((seq.to_vec(), quals.clone())));
    let single = trim_record(&quals, seq, 20, 1, 1);
    assert_eq!(single, Some((b"CG".to_vec(), vec![40 + 33, 40 + 33])));
}

#[test]
fn retrimming_a_kept_read_changes_nothing() {
    let seq = b"ACGTACGTACGTACGTA";
    let mut quals: Vec<u8> = Vec::new();
    quals.extend(vec![10u8 + 33; 3]);
    quals.extend(vec![40u8 + 33; 4]);
    quals.extend(vec![10u8 + 33; 3]);
    quals.extend(vec![40u8 + 33; 4]);
    quals.extend(vec![10u8 + 33; 3]);
    for window in [1usize, 3, 5] {
        let first = trim_record(&quals, seq, 20, 1, window);
        assert!(first.is_some());
        let (s1, q1) = first.unwrap();
        let second = trim_record(&q1, &s1, 20, 1, window);
        assert_eq!(second, Some((s1, q1)));
    }
}
