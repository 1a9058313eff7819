//! Interval padding: widens each raw speech interval by an edge pad without
//! creating overlaps, reading only the pre-padding coordinates.
//!
//! The first interval's start moves back by the pad (clamped at `0`), the
//! last interval's end moves forward by the pad (clamped at `total`). For
//! each consecutive pair the original gap decides: a gap smaller than twice
//! the pad is split evenly between the two neighbours; a larger gap lets
//! both sides take the full pad.

use vstd::prelude::*;

verus! {

/// Raw speech interval list as the segmenter emits it: every interval is
/// nonempty with a nonnegative start, and consecutive intervals are strictly
/// separated.
pub open spec fn raw_ordered(iv: Seq<(i64, i64)>) -> bool {
    &&& forall|k: int| #![trigger iv[k]] 0 <= k < iv.len() ==> 0 <= iv[k].0 < iv[k].1
    &&& forall|k: int| #![trigger iv[k]] 0 < k < iv.len() ==> iv[k - 1].1 < iv[k].0
}

/// Pre-padding silence gap between interval `k` and interval `k + 1`.
pub open spec fn gap_at(iv: Seq<(i64, i64)>, k: int) -> int {
    iv[k + 1].0 - iv[k].1
}

/// Start of interval `k` after padding. Only the first interval takes the
/// plain edge pad; every other start is adjusted by the pair rule for the
/// gap that precedes it, always clamped at tick `0`.
pub open spec fn padded_start(iv: Seq<(i64, i64)>, k: int, pad: int) -> int {
    if k == 0 {
        vstd::math::max(0, iv[0].0 - pad)
    } else {
        let g = gap_at(iv, k - 1);
        if g < 2 * pad {
            vstd::math::max(0, iv[k].0 - g / 2)
        } else {
            vstd::math::max(0, iv[k].0 - pad)
        }
    }
}

/// End of interval `k` after padding. Only the last interval takes the plain
/// edge pad, clamped at `total`; every other end is adjusted by the pair
/// rule for the gap that follows it.
pub open spec fn padded_end(iv: Seq<(i64, i64)>, k: int, total: int, pad: int) -> int {
    if k + 1 < iv.len() {
        let g = gap_at(iv, k);
        if g < 2 * pad {
            iv[k].1 + g / 2
        } else {
            vstd::math::min(total, iv[k].1 + pad)
        }
    } else {
        vstd::math::min(total, iv[k].1 + pad)
    }
}

/// The whole padded interval list.
pub open spec fn pad_result(iv: Seq<(i64, i64)>, total: int, pad: int) -> Seq<(i64, i64)> {
    Seq::new(iv.len(), |k: int| (padded_start(iv, k, pad) as i64, padded_end(iv, k, total, pad) as i64))
}

/// Widens each interval of an ascending raw list by `pad_samples` without
/// letting neighbours cross: a gap smaller than twice the pad is split
/// evenly, a larger gap gives both sides the full pad; the first start is
/// clamped at `0` and every end at `total_length`. All gap comparisons use
/// the coordinates from before the call.
pub fn pad_intervals(intervals: &Vec<(i64, i64)>, total_length: i64, pad_samples: i64) -> (padded: Vec<(i64, i64)>)
    requires
        raw_ordered(intervals@),
        0 <= pad_samples,
        2 * pad_samples <= i64::MAX,
        0 <= total_length,
        forall|k: int| #![trigger intervals@[k]] 0 <= k < intervals@.len() ==> intervals@[k].0 <= total_length,
        forall|k: int| #![trigger intervals@[k]] 0 <= k < intervals@.len() ==> intervals@[k].1 + pad_samples <= i64::MAX,
    ensures
        padded@.len() == intervals@.len(),
        padded@ == pad_result(intervals@, total_length as int, pad_samples as int),
        forall|k: int| #![trigger padded@[k]] 0 <= k < padded@.len()
            ==> padded@[k].0 == padded_start(intervals@, k, pad_samples as int)
                && padded@[k].1 == padded_end(intervals@, k, total_length as int, pad_samples as int),
        forall|k: int| #![trigger padded@[k]] 0 <= k < padded@.len()
            ==> 0 <= padded@[k].0 <= padded@[k].1 <= total_length,
        forall|k: int| #![trigger padded@[k]] 0 < k < padded@.len()
            ==> padded@[k - 1].1 <= padded@[k].0,
{
    let ghost givens = intervals@;
    let ghost total = total_length as int;
    let ghost pad = pad_samples as int;
    let n = intervals.len();
    let mut padded: Vec<(i64, i64)> = Vec::new();
    let mut i: usize = 0;
    while i < n
        invariant
            raw_ordered(givens),
            0 <= pad_samples,
            2 * pad_samples <= i64::MAX,
            0 <= total_length,
            forall|k: int| #![trigger givens[k]] 0 <= k < givens.len() ==> givens[k].0 <= total_length,
            forall|k: int| #![trigger givens[k]] 0 <= k < givens.len() ==> givens[k].1 + pad_samples <= i64::MAX,
            givens == intervals@,
            total == total_length as int,
            pad == pad_samples as int,
            n == givens.len(),
            i <= n,
            padded@.len() == i,
            forall|k: int| #![trigger padded@[k]] 0 <= k < i
                ==> padded@[k].0 == padded_start(givens, k, pad)
                    && padded@[k].1 == padded_end(givens, k, total, pad),
        decreases n - i,
    {
        let s = intervals[i].0;
        let e = intervals[i].1;
        let new_start: i64 = if i == 0 {
            let moved = s - pad_samples;
            if moved < 0 { 0 } else { moved }
        } else {
            let g = s - intervals[i - 1].1;
            let back = if g < 2 * pad_samples { g / 2 } else { pad_samples };
            let moved = s - back;
            if moved < 0 { 0 } else { moved }
        };
        let new_end: i64 = if i + 1 < n {
            let g = intervals[i + 1].0 - e;
            if g < 2 * pad_samples {
                e + g / 2
            } else {
                let moved = e + pad_samples;
                if moved > total_length { total_length } else { moved }
            }
        } else {
            let moved = e + pad_samples;
            if moved > total_length { total_length } else { moved }
        };
        padded.push((new_start, new_end));
        i = i + 1;
    }
    proof {
        assert(padded@ =~= pad_result(givens, total, pad));
        assert forall|k: int| 0 <= k < padded@.len() implies
            0 <= (#[trigger] padded@[k]).0 <= padded@[k].1 <= total_length by {
            lemma_padded_interval_wf(givens, k, total, pad);
        }
        assert forall|k: int| 0 < k < padded@.len() implies
            (#[trigger] padded@[k]).0 >= padded@[k - 1].1 by {
            lemma_pad_separation_weak(givens, k - 1, total, pad);
        }
    }
    padded
}

/// Each padded interval stays inside `[0, total]` and keeps its start at or
/// before its end.
proof fn lemma_padded_interval_wf(iv: Seq<(i64, i64)>, k: int, total: int, pad: int)
    requires
        raw_ordered(iv),
        0 <= k < iv.len(),
        0 <= pad,
        0 <= total,
        forall|j: int| #![trigger iv[j]] 0 <= j < iv.len() ==> iv[j].0 <= total,
    ensures
        0 <= padded_start(iv, k, pad),
        padded_start(iv, k, pad) <= padded_end(iv, k, total, pad),
        padded_end(iv, k, total, pad) <= total,
{
    assert(padded_start(iv, k, pad) <= iv[k].0);
    if k + 1 < iv.len() {
        let g = gap_at(iv, k);
        if g < 2 * pad {
            assert(g / 2 < g) by {
                assert(g >= 1);
                assert(g == 2 * (g / 2) + g % 2);
            }
        }
    }
}

/// Consecutive padded intervals never cross: the end of one is at or before
/// the start of the next. (With an even gap smaller than twice the pad, or a
/// gap of exactly twice the pad, the two may meet on a boundary tick; see
/// `lemma_pad_separates` for when the separation stays strict.)
proof fn lemma_pad_separation_weak(iv: Seq<(i64, i64)>, k: int, total: int, pad: int)
    requires
        raw_ordered(iv),
        0 <= k < iv.len() - 1,
        0 <= pad,
        0 <= total,
    ensures
        padded_end(iv, k, total, pad) <= padded_start(iv, k + 1, pad),
{
    let g = gap_at(iv, k);
    assert(g >= 1);
    assert(g == 2 * (g / 2) + g % 2);
}

/// The padder preserves ordering strictly whenever no pre-padding gap is an
/// even number smaller than twice the pad, nor exactly twice the pad: then
/// `padded[k].end < padded[k + 1].start` for every consecutive pair, so no
/// two padded intervals share even a boundary tick.
pub proof fn lemma_pad_separates(iv: Seq<(i64, i64)>, total: int, pad: int)
    requires
        raw_ordered(iv),
        0 <= pad,
        0 <= total,
        forall|k: int| 0 <= k < iv.len() - 1
            ==> #[trigger] gap_at(iv, k) % 2 == 1 || gap_at(iv, k) > 2 * pad,
    ensures
        forall|k: int| 0 <= k < iv.len() - 1
            ==> #[trigger] padded_end(iv, k, total, pad) < padded_start(iv, k + 1, pad),
{
    assert forall|k: int| 0 <= k < iv.len() - 1 implies
        #[trigger] padded_end(iv, k, total, pad) < padded_start(iv, k + 1, pad) by {
        let g = gap_at(iv, k);
        assert(g >= 1);
        assert(g == 2 * (g / 2) + g % 2);
    }
}

} // verus!
