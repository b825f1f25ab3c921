//! The quality-trimming algorithm.
//!
//! A read is trimmed by cutting low-quality bases from both ends.  In
//! single-base mode a base is kept from the first to the last position whose
//! own score reaches the threshold.  In windowed mode the boundaries are the
//! first and the last window of `window` consecutive bases whose mean score
//! (integer floor) reaches the threshold; a window larger than the read falls
//! back to single-base mode.  A read whose kept region is shorter than
//! `min_len` is dropped.

use vstd::prelude::*;

verus! {

/// Phred+33 score of a quality byte: the byte minus 33, saturating at zero.
pub open spec fn score(b: u8) -> int {
    if b < 33 {
        0int
    } else {
        b - 33
    }
}

/// Smallest index at or after `i` whose score reaches `thr`; `q.len()` if none.
pub open spec fn first_good_from(q: Seq<u8>, thr: int, i: int) -> int
    decreases q.len() - i
        when 0 <= i <= q.len()
{
    if i >= q.len() {
        q.len() as int
    } else if score(q[i]) >= thr {
        i
    } else {
        first_good_from(q, thr, i + 1)
    }
}

/// Largest index below `i` whose score reaches `thr`; `-1` if none.
pub open spec fn last_good_before(q: Seq<u8>, thr: int, i: int) -> int
    decreases i
        when 0 <= i <= q.len()
{
    if i <= 0 {
        -1int
    } else if score(q[i - 1]) >= thr {
        i - 1
    } else {
        last_good_before(q, thr, i - 1)
    }
}

/// The kept range in single-base mode: from the first to the last index whose
/// score reaches the threshold, both inclusive; `None` when no score does
/// (in particular on an empty read).
pub open spec fn single_base_range(q: Seq<u8>, thr: int) -> Option<(int, int)> {
    let l = first_good_from(q, thr, 0);
    if l == q.len() {
        None
    } else {
        Some((l, last_good_before(q, thr, q.len() as int)))
    }
}

proof fn lemma_first_good_from_is(q: Seq<u8>, thr: int, i: int, j: int)
    requires
        0 <= i <= j <= q.len(),
        forall|k: int| i <= k < j ==> score(q[k]) < thr,
        j < q.len() ==> score(q[j]) >= thr,
    ensures
        first_good_from(q, thr, i) == j,
    decreases j - i,
{
    if i < j {
        lemma_first_good_from_is(q, thr, i + 1, j);
    }
}

proof fn lemma_first_good_from_props(q: Seq<u8>, thr: int, i: int)
    requires
        0 <= i <= q.len(),
    ensures
        i <= first_good_from(q, thr, i) <= q.len(),
        first_good_from(q, thr, i) < q.len() ==> score(q[first_good_from(q, thr, i)]) >= thr,
    decreases q.len() - i,
{
    if i < q.len() && score(q[i]) < thr {
        lemma_first_good_from_props(q, thr, i + 1);
    }
}

proof fn lemma_last_good_before_is(q: Seq<u8>, thr: int, i: int, j: int)
    requires
        0 <= i <= q.len(),
        -1 <= j < i,
        forall|k: int| j < k < i ==> score(q[k]) < thr,
        j >= 0 ==> score(q[j]) >= thr,
    ensures
        last_good_before(q, thr, i) == j,
    decreases i - j,
{
    if j < i - 1 {
        lemma_last_good_before_is(q, thr, i - 1, j);
    }
}

proof fn lemma_last_good_before_props(q: Seq<u8>, thr: int, i: int)
    requires
        0 <= i <= q.len(),
    ensures
        -1 <= last_good_before(q, thr, i) < i,
        last_good_before(q, thr, i) >= 0 ==> score(q[last_good_before(q, thr, i)]) >= thr,
    decreases i,
{
    if i > 0 && score(q[i - 1]) < thr {
        lemma_last_good_before_props(q, thr, i - 1);
    }
}

proof fn lemma_last_good_before_ge(q: Seq<u8>, thr: int, i: int, k: int)
    requires
        0 <= k < i <= q.len(),
        score(q[k]) >= thr,
    ensures
        last_good_before(q, thr, i) >= k,
    decreases i,
{
    if k < i - 1 && score(q[i - 1]) < thr {
        lemma_last_good_before_ge(q, thr, i - 1, k);
    }
}

/// Sum of the scores of the `len` quality bytes starting at index `i`.
pub open spec fn win_sum(q: Seq<u8>, i: int, len: int) -> int
    decreases len,
{
    if len <= 0 {
        0int
    } else {
        score(q[i]) + win_sum(q, i + 1, len - 1)
    }
}

/// A window of `w` bases starting at `i` passes when its mean score, rounded
/// down, reaches `thr`.  For `w >= 1` and `thr >= 0` this is stated as the
/// window sum reaching `thr * w`; `lemma_window_ok_is_mean_check` relates the
/// two forms.
pub open spec fn window_ok(q: Seq<u8>, thr: int, w: int, i: int) -> bool {
    win_sum(q, i, w) >= thr * w
}

/// The sum form of the window test agrees with the floored-mean form.
pub proof fn lemma_window_ok_is_mean_check(q: Seq<u8>, thr: int, w: int, i: int)
    requires
        w >= 1,
        thr >= 0,
    ensures
        window_ok(q, thr, w, i) <==> win_sum(q, i, w) / w >= thr,
{
    let s = win_sum(q, i, w);
    lemma_win_sum_bounds(q, i, w);
    if s >= thr * w {
        vstd::arithmetic::div_mod::lemma_div_is_ordered(thr * w, s, w);
        vstd::arithmetic::div_mod::lemma_div_multiples_vanish(thr, w);
        assert(w * thr == thr * w) by (nonlinear_arith);
    }
    if s / w >= thr {
        vstd::arithmetic::div_mod::lemma_fundamental_div_mod(s, w);
        vstd::arithmetic::div_mod::lemma_mod_bound(s, w);
        vstd::arithmetic::mul::lemma_mul_inequality(thr, s / w, w);
        assert(w * (s / w) == (s / w) * w) by (nonlinear_arith);
    }
}

proof fn lemma_win_sum_bounds(q: Seq<u8>, i: int, len: int)
    ensures
        0 <= win_sum(q, i, len) <= 222 * (if len >= 0 {
            len
        } else {
            0int
        }),
    decreases len,
{
    if len > 0 {
        lemma_win_sum_bounds(q, i + 1, len - 1);
    }
}

proof fn lemma_win_sum_extend(q: Seq<u8>, i: int, len: int)
    requires
        len >= 0,
    ensures
        win_sum(q, i, len + 1) == win_sum(q, i, len) + score(q[i + len]),
    decreases len,
{
    if len == 0 {
        assert(win_sum(q, i + 1, 0) == 0);
        assert(win_sum(q, i, 1) == score(q[i]) + win_sum(q, i + 1, 0));
    } else {
        lemma_win_sum_extend(q, i + 1, len - 1);
        assert(win_sum(q, i, len + 1) == score(q[i]) + win_sum(q, i + 1, len));
        assert(win_sum(q, i, len) == score(q[i]) + win_sum(q, i + 1, len - 1));
    }
}

proof fn lemma_win_sum_slide(q: Seq<u8>, i: int, w: int)
    requires
        w >= 1,
    ensures
        win_sum(q, i + 1, w) == win_sum(q, i, w) - score(q[i]) + score(q[i + w]),
{
    lemma_win_sum_extend(q, i + 1, w - 1);
}

/// Smallest window start at or after `i` whose window passes; `q.len()` if no
/// window from `i` on passes (also when no window fits at all).
pub open spec fn first_ok_window_from(q: Seq<u8>, thr: int, w: int, i: int) -> int
    decreases q.len() - i
        when 0 <= i <= q.len() && 1 <= w
{
    if i + w > q.len() {
        q.len() as int
    } else if window_ok(q, thr, w, i) {
        i
    } else {
        first_ok_window_from(q, thr, w, i + 1)
    }
}

/// Largest window start below `i` whose window passes; `-1` if none.
pub open spec fn last_ok_window_before(q: Seq<u8>, thr: int, w: int, i: int) -> int
    decreases i
        when 0 <= i
{
    if i <= 0 {
        -1int
    } else if window_ok(q, thr, w, i - 1) {
        i - 1
    } else {
        last_ok_window_before(q, thr, w, i - 1)
    }
}

/// The kept range in windowed mode: from the start of the first passing
/// window to the end of the last passing window, both inclusive; `None` when
/// no window passes.
pub open spec fn windowed_range(q: Seq<u8>, thr: int, w: int) -> Option<(int, int)> {
    let l = first_ok_window_from(q, thr, w, 0);
    if l == q.len() {
        None
    } else {
        Some((l, last_ok_window_before(q, thr, w, q.len() - w + 1) + (w - 1)))
    }
}

proof fn lemma_first_ok_window_is(q: Seq<u8>, thr: int, w: int, i: int, j: int)
    requires
        1 <= w,
        0 <= i <= j <= q.len(),
        forall|k: int| (i <= k < j && k + w <= q.len()) ==> !window_ok(q, thr, w, k),
        j < q.len() ==> j + w <= q.len() && window_ok(q, thr, w, j),
    ensures
        first_ok_window_from(q, thr, w, i) == j,
    decreases j - i,
{
    if i + w > q.len() {
        // no window fits from i on, so none fits from j on either
    } else if i < j {
        lemma_first_ok_window_is(q, thr, w, i + 1, j);
    }
}

proof fn lemma_first_ok_window_props(q: Seq<u8>, thr: int, w: int, i: int)
    requires
        1 <= w,
        0 <= i <= q.len(),
    ensures
        i <= first_ok_window_from(q, thr, w, i) <= q.len(),
        first_ok_window_from(q, thr, w, i) < q.len() ==> first_ok_window_from(q, thr, w, i) + w
            <= q.len() && window_ok(q, thr, w, first_ok_window_from(q, thr, w, i)),
    decreases q.len() - i,
{
    if i + w <= q.len() && !window_ok(q, thr, w, i) {
        lemma_first_ok_window_props(q, thr, w, i + 1);
    }
}

proof fn lemma_last_ok_window_is(q: Seq<u8>, thr: int, w: int, i: int, j: int)
    requires
        0 <= i,
        -1 <= j < i,
        forall|k: int| j < k < i ==> !window_ok(q, thr, w, k),
        j >= 0 ==> window_ok(q, thr, w, j),
    ensures
        last_ok_window_before(q, thr, w, i) == j,
    decreases i - j,
{
    if j < i - 1 {
        lemma_last_ok_window_is(q, thr, w, i - 1, j);
    }
}

proof fn lemma_last_ok_window_props(q: Seq<u8>, thr: int, w: int, i: int)
    requires
        0 <= i,
    ensures
        -1 <= last_ok_window_before(q, thr, w, i) < i,
        last_ok_window_before(q, thr, w, i) >= 0 ==> window_ok(
            q,
            thr,
            w,
            last_ok_window_before(q, thr, w, i),
        ),
    decreases i,
{
    if i > 0 && !window_ok(q, thr, w, i - 1) {
        lemma_last_ok_window_props(q, thr, w, i - 1);
    }
}

proof fn lemma_last_ok_window_ge(q: Seq<u8>, thr: int, w: int, i: int, k: int)
    requires
        0 <= k < i,
        window_ok(q, thr, w, k),
    ensures
        last_ok_window_before(q, thr, w, i) >= k,
    decreases i,
{
    if k < i - 1 && !window_ok(q, thr, w, i - 1) {
        lemma_last_ok_window_ge(q, thr, w, i - 1, k);
    }
}

/// Phred+33 score of a quality byte, as executable code.
fn base_score(b: u8) -> (s: u8)
    ensures
        s as int == score(b),
{
    b.saturating_sub(33)
}

/// Single-base boundaries of the kept region, as inclusive indices.
fn single_base_bounds(qual: &[u8], thr: u8) -> (r: Option<(usize, usize)>)
    ensures
        ({
            let sb = single_base_range(qual@, thr as int);
            &&& r is Some <==> sb is Some
            &&& (r matches Some(p) ==> sb == Some((p.0 as int, p.1 as int)) && p.0 <= p.1
                < qual@.len())
        }),
{
    let n = qual.len();
    let mut left: usize = 0;
    while left < n && base_score(qual[left]) < thr
        invariant
            0 <= left <= n,
            n == qual@.len(),
            forall|k: int| 0 <= k < left ==> score(qual@[k]) < thr,
        decreases n - left,
    {
        left = left + 1;
    }
    if left == n {
        proof {
            lemma_first_good_from_is(qual@, thr as int, 0, n as int);
        }
        return None;
    }
    proof {
        lemma_first_good_from_is(qual@, thr as int, 0, left as int);
    }
    let mut right: usize = n - 1;
    while base_score(qual[right]) < thr
        invariant
            left <= right < n,
            n == qual@.len(),
            score(qual@[left as int]) >= thr as int,
            forall|k: int| right < k < n ==> score(qual@[k]) < thr,
        decreases right,
    {
        right = right - 1;
    }
    proof {
        lemma_last_good_before_is(qual@, thr as int, n as int, right as int);
    }
    Some((left, right))
}

/// Windowed boundaries of the kept region, as inclusive indices, found with a
/// moving window sum over the scores.
fn windowed_bounds(qual: &[u8], thr: u8, window: usize) -> (r: Option<(usize, usize)>)
    requires
        2 <= window <= qual@.len(),
    ensures
        ({
            let wr = windowed_range(qual@, thr as int, window as int);
            &&& r is Some <==> wr is Some
            &&& (r matches Some(p) ==> wr == Some((p.0 as int, p.1 as int)) && p.0 <= p.1
                < qual@.len())
        }),
{
    let n = qual.len();
    // a window passes when its score sum reaches thr * window; both fit in u128
    proof {
        vstd::arithmetic::mul::lemma_mul_inequality(thr as int, 255, window as int);
    }
    let goal: u128 = (thr as u128) * (window as u128);
    let mut sum: u128 = 0;
    let mut j: usize = 0;
    while j < window
        invariant
            0 <= j <= window <= n,
            n == qual@.len(),
            sum == win_sum(qual@, 0, j as int),
        decreases window - j,
    {
        proof {
            lemma_win_sum_bounds(qual@, 0, j as int);
            lemma_win_sum_extend(qual@, 0, j as int);
        }
        sum = sum + base_score(qual[j]) as u128;
        j = j + 1;
    }
    let mut i: usize = 0;
    while sum < goal && i + window < n
        invariant
            0 <= i,
            2 <= window,
            i + window <= n,
            n == qual@.len(),
            goal == (thr as int) * (window as int),
            sum == win_sum(qual@, i as int, window as int),
            forall|k: int| 0 <= k < i ==> !window_ok(qual@, thr as int, window as int, k),
        decreases n - i,
    {
        proof {
            lemma_win_sum_bounds(qual@, i + 1, window - 1);
            lemma_win_sum_slide(qual@, i as int, window as int);
            lemma_win_sum_bounds(qual@, i + 1, window as int);
        }
        sum = sum - base_score(qual[i]) as u128 + base_score(qual[i + window]) as u128;
        i = i + 1;
    }
    if sum < goal {
        // the rightmost window failed too, so no window passes at all
        proof {
            lemma_first_ok_window_is(qual@, thr as int, window as int, 0, n as int);
        }
        return None;
    }
    let left = i;
    proof {
        lemma_first_ok_window_is(qual@, thr as int, window as int, 0, left as int);
    }
    let mut s: usize = n - window;
    let mut rsum: u128 = 0;
    let mut j2: usize = 0;
    while j2 < window
        invariant
            0 <= j2 <= window <= n,
            s == n - window,
            n == qual@.len(),
            rsum == win_sum(qual@, s as int, j2 as int),
        decreases window - j2,
    {
        proof {
            lemma_win_sum_bounds(qual@, s as int, j2 as int);
            lemma_win_sum_extend(qual@, s as int, j2 as int);
        }
        rsum = rsum + base_score(qual[s + j2]) as u128;
        j2 = j2 + 1;
    }
    while rsum < goal
        invariant
            left <= s <= n - window,
            n == qual@.len(),
            2 <= window <= n,
            goal == (thr as int) * (window as int),
            rsum == win_sum(qual@, s as int, window as int),
            window_ok(qual@, thr as int, window as int, left as int),
            forall|k: int| s < k <= n - window ==> !window_ok(qual@, thr as int, window as int, k),
        decreases s,
    {
        proof {
            lemma_win_sum_bounds(qual@, s as int, window - 1);
            lemma_win_sum_extend(qual@, s as int, window - 1);
            lemma_win_sum_bounds(qual@, s - 1, window as int);
        }
        rsum = rsum - base_score(qual[s + window - 1]) as u128 + base_score(qual[s - 1]) as u128;
        s = s - 1;
    }
    proof {
        lemma_last_ok_window_is(
            qual@,
            thr as int,
            window as int,
            n - window + 1,
            s as int,
        );
    }
    Some((left, s + window - 1))
}

/// The kept range of a read: windowed mode for a window of at least two bases
/// that fits in the read, single-base mode otherwise.
pub open spec fn trim_range(q: Seq<u8>, thr: int, window: int) -> Option<(int, int)> {
    if window <= 1 || window > q.len() {
        single_base_range(q, thr)
    } else {
        windowed_range(q, thr, window)
    }
}

/// What `trim_record` returns: `None` for an empty read, for sequence and
/// quality of unequal length, when no base or window passes the threshold, or
/// when the kept range is shorter than `min_len`; otherwise the kept subrange
/// of both the sequence and the quality.
pub open spec fn trim_spec(
    qual: Seq<u8>,
    seq: Seq<u8>,
    thr: int,
    min_len: int,
    window: int,
) -> Option<(Seq<u8>, Seq<u8>)> {
    if qual.len() == 0 || qual.len() != seq.len() {
        None
    } else {
        match trim_range(qual, thr, window) {
            Some((l, r)) => if r + 1 - l >= min_len {
                Some((seq.subrange(l, r + 1), qual.subrange(l, r + 1)))
            } else {
                None
            },
            None => None,
        }
    }
}

/// Trim a read: cut low-quality bases from both ends of `seq` and `qual`
/// (Phred+33 scores against `qual_thr`, window of `window` bases) and keep the
/// middle if it is at least `min_len` bases long.
pub fn trim_record(
    qual: &[u8],
    seq: &[u8],
    qual_thr: u8,
    min_len: usize,
    window: usize,
) -> (r: Option<(Vec<u8>, Vec<u8>)>)
    ensures
        ({
            let t = trim_spec(qual@, seq@, qual_thr as int, min_len as int, window as int);
            &&& r is Some <==> t is Some
            &&& (r matches Some(p) ==> t matches Some(u) && p.0@ == u.0 && p.1@ == u.1)
            &&& (r matches Some(p) ==> min_len <= p.0@.len() <= seq@.len() && p.0@.len()
                == p.1@.len())
        }),
{
    if qual.len() == 0 || qual.len() != seq.len() {
        return None;
    }
    let bounds = if window <= 1 || window > qual.len() {
        single_base_bounds(qual, qual_thr)
    } else {
        windowed_bounds(qual, qual_thr, window)
    };
    match bounds {
        None => None,
        Some((left, right)) => {
            let keep_len = right - left + 1;
            if keep_len < min_len {
                None
            } else {
                let mut s2: Vec<u8> = Vec::new();
                s2.extend_from_slice(&seq[left..right + 1]);
                let mut q2: Vec<u8> = Vec::new();
                q2.extend_from_slice(&qual[left..right + 1]);
                Some((s2, q2))
            }
        },
    }
}

proof fn lemma_win_sum_lower(q: Seq<u8>, thr: int, i: int, len: int)
    requires
        len >= 0,
        forall|k: int| i <= k < i + len ==> score(q[k]) >= thr,
    ensures
        win_sum(q, i, len) >= thr * len,
    decreases len,
{
    if len == 0 {
        assert(thr * 0 == 0) by (nonlinear_arith);
    } else {
        lemma_win_sum_lower(q, thr, i + 1, len - 1);
        assert(thr * len == thr * (len - 1) + thr) by (nonlinear_arith);
        assert(score(q[i]) >= thr);
    }
}

proof fn lemma_win_sum_upper_strict(q: Seq<u8>, thr: int, i: int, len: int)
    requires
        len >= 1,
        forall|k: int| i <= k < i + len ==> score(q[k]) < thr,
    ensures
        win_sum(q, i, len) < thr * len,
    decreases len,
{
    if len == 1 {
        assert(thr * 1 == thr) by (nonlinear_arith);
        assert(score(q[i]) < thr);
        assert(win_sum(q, i + 1, 0) == 0);
    } else {
        lemma_win_sum_upper_strict(q, thr, i + 1, len - 1);
        assert(thr * len == thr * (len - 1) + thr) by (nonlinear_arith);
        assert(score(q[i]) < thr);
    }
}

proof fn lemma_win_sum_subrange(q: Seq<u8>, a: int, b: int, i: int, len: int)
    requires
        0 <= a <= b <= q.len(),
        0 <= i,
        len >= 0,
        i + len <= b - a,
    ensures
        win_sum(q.subrange(a, b), i, len) == win_sum(q, a + i, len),
    decreases len,
{
    if len > 0 {
        lemma_win_sum_subrange(q, a, b, i + 1, len - 1);
    }
}

/// Law: a read whose every score reaches the threshold, and which is at least
/// `min_len` bases long, is kept unchanged, whatever the window size.
pub proof fn lemma_all_high_quality_kept(
    qual: Seq<u8>,
    seq: Seq<u8>,
    thr: int,
    min_len: int,
    window: int,
)
    requires
        qual.len() == seq.len(),
        0 < qual.len(),
        min_len <= qual.len(),
        forall|i: int| 0 <= i < qual.len() ==> score(qual[i]) >= thr,
    ensures
        trim_spec(qual, seq, thr, min_len, window) == Some((seq, qual)),
{
    let n = qual.len() as int;
    if window <= 1 || window > n {
        lemma_first_good_from_is(qual, thr, 0, 0);
        lemma_last_good_before_is(qual, thr, n, n - 1);
    } else {
        lemma_win_sum_lower(qual, thr, 0, window);
        lemma_first_ok_window_is(qual, thr, window, 0, 0);
        lemma_win_sum_lower(qual, thr, n - window, window);
        lemma_last_ok_window_is(qual, thr, window, n - window + 1, n - window);
    }
    assert(seq.subrange(0, n) =~= seq);
    assert(qual.subrange(0, n) =~= qual);
}

/// Law: a read whose every score is below the threshold is dropped, whatever
/// the window size and the minimum length.
pub proof fn lemma_all_low_quality_dropped(
    qual: Seq<u8>,
    seq: Seq<u8>,
    thr: int,
    min_len: int,
    window: int,
)
    requires
        forall|i: int| 0 <= i < qual.len() ==> score(qual[i]) < thr,
    ensures
        trim_spec(qual, seq, thr, min_len, window) is None,
{
    let n = qual.len() as int;
    if qual.len() == 0 || qual.len() != seq.len() {
    } else if window <= 1 || window > n {
        lemma_first_good_from_is(qual, thr, 0, n);
    } else {
        assert forall|k: int| 0 <= k && k + window <= n implies !window_ok(
            qual,
            thr,
            window,
            k,
        ) by {
            lemma_win_sum_upper_strict(qual, thr, k, window);
        };
        lemma_first_ok_window_is(qual, thr, window, 0, n);
    }
}

proof fn lemma_first_ok_one(q: Seq<u8>, thr: int, i: int)
    requires
        0 <= i <= q.len(),
    ensures
        first_ok_window_from(q, thr, 1, i) == first_good_from(q, thr, i),
    decreases q.len() - i,
{
    if i < q.len() {
        assert(win_sum(q, i, 1) == score(q[i]) + win_sum(q, i + 1, 0));
        assert(thr * 1 == thr) by (nonlinear_arith);
        if score(q[i]) < thr {
            lemma_first_ok_one(q, thr, i + 1);
        }
    }
}

proof fn lemma_last_ok_one(q: Seq<u8>, thr: int, i: int)
    requires
        0 <= i <= q.len(),
    ensures
        last_ok_window_before(q, thr, 1, i) == last_good_before(q, thr, i),
    decreases i,
{
    if i > 0 {
        assert(win_sum(q, i - 1, 1) == score(q[i - 1]) + win_sum(q, i, 0));
        assert(thr * 1 == thr) by (nonlinear_arith);
        if score(q[i - 1]) < thr {
            lemma_last_ok_one(q, thr, i - 1);
        }
    }
}

/// Law: with a window of a single base the windowed boundary search gives
/// exactly the single-base boundaries.
pub proof fn lemma_window_one_single_base(q: Seq<u8>, thr: int)
    ensures
        windowed_range(q, thr, 1) == single_base_range(q, thr),
{
    lemma_first_ok_one(q, thr, 0);
    lemma_last_ok_one(q, thr, q.len() as int);
}

/// Law: a window larger than the read trims exactly as single-base mode does.
pub proof fn lemma_window_exceeding_read_single_base(
    qual: Seq<u8>,
    seq: Seq<u8>,
    thr: int,
    min_len: int,
    window: int,
)
    requires
        window > qual.len(),
    ensures
        trim_spec(qual, seq, thr, min_len, window) == trim_spec(qual, seq, thr, min_len, 1),
{
}

/// Law: trimming is idempotent: re-trimming a kept (sequence, quality) pair
/// with the same parameters returns the pair unchanged.
pub proof fn lemma_trim_idempotent(
    qual: Seq<u8>,
    seq: Seq<u8>,
    thr: int,
    min_len: int,
    window: int,
)
    requires
        trim_spec(qual, seq, thr, min_len, window) is Some,
    ensures
        ({
            let p = trim_spec(qual, seq, thr, min_len, window)->0;
            trim_spec(p.1, p.0, thr, min_len, window) == Some(p)
        }),
{
    let n = qual.len() as int;
    let (l, r) = trim_range(qual, thr, window)->0;
    let q2 = qual.subrange(l, r + 1);
    let s2 = seq.subrange(l, r + 1);
    let n2 = r + 1 - l;
    if window <= 1 || window > n {
        lemma_first_good_from_props(qual, thr, 0);
        lemma_last_good_before_ge(qual, thr, n, l);
        lemma_last_good_before_props(qual, thr, n);
        assert(score(q2[0]) >= thr);
        assert(score(q2[n2 - 1]) >= thr);
        assert(first_good_from(q2, thr, 0) == 0);
        assert(last_good_before(q2, thr, n2) == n2 - 1);
    } else {
        lemma_first_ok_window_props(qual, thr, window, 0);
        lemma_last_ok_window_ge(qual, thr, window, n - window + 1, l);
        lemma_last_ok_window_props(qual, thr, window, n - window + 1);
        let sl = last_ok_window_before(qual, thr, window, n - window + 1);
        lemma_win_sum_subrange(qual, l, r + 1, 0, window);
        assert(window_ok(q2, thr, window, 0));
        lemma_win_sum_subrange(qual, l, r + 1, n2 - window, window);
        assert(l + (n2 - window) == sl);
        assert(window_ok(q2, thr, window, n2 - window));
        assert(first_ok_window_from(q2, thr, window, 0) == 0);
        lemma_last_ok_window_is(q2, thr, window, n2 - window + 1, n2 - window);
    }
    assert(s2.subrange(0, n2) =~= s2);
    assert(q2.subrange(0, n2) =~= q2);
}

} // verus!

