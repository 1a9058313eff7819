//! Timeline normalization: fills the gaps between padded speech intervals
//! with explicit non-speech spans, producing one gapless ordered sequence of
//! `(start, end, is_speech)` spans that covers `[0, total]`.
//!
//! Spans are inclusive on both ends, offset by one tick at each boundary
//! (the `-1 / +1` pattern), so no boundary tick is counted twice. A span
//! whose `start` exceeds its `end` by one has zero length; such degenerate
//! spans are kept in the normalized sequence as markers and are removed by
//! `drop_empty_spans` before planning.

use vstd::prelude::*;

verus! {

/// First tick of the silence stretch that precedes speech interval `k`:
/// one past the end of interval `k - 1`, or tick `0` before the first one.
pub open spec fn silence_start(ts: Seq<(i64, i64)>, k: int) -> int {
    if k == 0 {
        0
    } else {
        ts[k - 1].1 + 1
    }
}

/// A well-formed padded interval list over a timeline of `total` ticks:
/// every interval lies inside `[0, total]` and consecutive intervals are
/// strictly separated (no overlap, not even a shared boundary tick).
pub open spec fn intervals_within(ts: Seq<(i64, i64)>, total: int) -> bool {
    &&& forall|k: int| #![trigger ts[k]] 0 <= k < ts.len() ==> 0 <= ts[k].0 <= ts[k].1 <= total
    &&& forall|k: int| #![trigger ts[k]] 0 < k < ts.len() ==> ts[k - 1].1 < ts[k].0
}

/// Span `j` of the normalized timeline: even positions are non-speech
/// fillers, odd positions are the speech intervals themselves, and position
/// `2 * ts.len()` is the trailing non-speech span that runs to `total`.
pub open spec fn normalized_at(ts: Seq<(i64, i64)>, total: i64, j: int) -> (i64, i64, bool) {
    if j == 2 * ts.len() {
        (silence_start(ts, ts.len() as int) as i64, total, false)
    } else if j % 2 == 0 {
        (silence_start(ts, j / 2) as i64, (ts[j / 2].0 - 1) as i64, false)
    } else {
        (ts[j / 2].0, ts[j / 2].1, true)
    }
}

/// The whole normalized timeline as one sequence.
pub open spec fn normalized_seq(ts: Seq<(i64, i64)>, total: i64) -> Seq<(i64, i64, bool)> {
    Seq::new(2 * ts.len() + 1, |j: int| normalized_at(ts, total, j))
}

/// Builds the alternating speech/non-speech timeline over `[0, end]` from an
/// ascending, strictly separated speech interval list: before each interval
/// a non-speech filler, after the last interval a trailing non-speech span.
pub fn normalize_timestamps(timestamps: &Vec<(i64, i64)>, end: i64) -> (spans: Vec<(i64, i64, bool)>)
    requires
        intervals_within(timestamps@, end as int),
        end < i64::MAX,
    ensures
        spans@.len() == 2 * timestamps@.len() + 1,
        forall|j: int| 0 <= j < spans@.len() ==> spans@[j] == normalized_at(timestamps@, end, j),
        spans@ == normalized_seq(timestamps@, end),
{
    let mut spans: Vec<(i64, i64, bool)> = Vec::new();
    let mut last_end: i64 = 0;
    let mut i: usize = 0;
    while i < timestamps.len()
        invariant
            intervals_within(timestamps@, end as int),
            end < i64::MAX,
            i <= timestamps@.len(),
            last_end as int == silence_start(timestamps@, i as int),
            spans@.len() == 2 * i,
            forall|j: int| 0 <= j < 2 * i ==> spans@[j] == normalized_at(timestamps@, end, j),
        decreases timestamps@.len() - i,
    {
        let s = timestamps[i].0;
        let e = timestamps[i].1;
        spans.push((last_end, s - 1, false));
        spans.push((s, e, true));
        last_end = e + 1;
        i = i + 1;
    }
    spans.push((last_end, end, false));
    proof {
        assert(spans@ =~= normalized_seq(timestamps@, end));
    }
    spans
}

/// Sum of the inclusive lengths (`end - start + 1`) of the spans.
pub open spec fn span_len_sum(spans: Seq<(i64, i64, bool)>) -> int
    decreases spans.len(),
{
    if spans.len() == 0 {
        0
    } else {
        span_len_sum(spans.drop_last()) + (spans.last().1 - spans.last().0 + 1)
    }
}

/// A contiguous span sequence telescopes: its total inclusive length is the
/// distance from the first start to the last end.
proof fn lemma_sum_telescopes(spans: Seq<(i64, i64, bool)>)
    requires
        spans.len() >= 1,
        forall|j: int| #![trigger spans[j]] 0 <= j < spans.len() - 1 ==> spans[j + 1].0 == spans[j].1 + 1,
    ensures
        span_len_sum(spans) == spans.last().1 - spans[0].0 + 1,
    decreases spans.len(),
{
    if spans.len() == 1 {
        assert(spans.drop_last().len() == 0);
        assert(span_len_sum(spans.drop_last()) == 0);
    } else {
        let prefix = spans.drop_last();
        assert forall|j: int| #![trigger prefix[j]] 0 <= j < prefix.len() - 1 implies prefix[j + 1].0 == prefix[j].1 + 1 by {
            assert(prefix[j] == spans[j]);
            assert(prefix[j + 1] == spans[j + 1]);
        }
        lemma_sum_telescopes(prefix);
        assert(prefix.last() == spans[spans.len() - 2]);
        assert(prefix[0] == spans[0]);
        assert(spans.last().0 == spans[spans.len() - 2].1 + 1);
        assert(span_len_sum(spans) == span_len_sum(prefix) + (spans.last().1 - spans.last().0 + 1));
    }
}

/// The normalized timeline is a gapless alternating cover of `[0, total]`:
/// it starts at tick `0`, ends at `total`, consecutive spans meet exactly,
/// non-speech and speech alternate by position, every span has nonnegative
/// inclusive length, and the lengths sum to `total + 1`.
pub proof fn lemma_normalize_coverage(ts: Seq<(i64, i64)>, total: i64)
    requires
        intervals_within(ts, total as int),
        0 <= total < i64::MAX,
    ensures
        normalized_seq(ts, total).len() == 2 * ts.len() + 1,
        normalized_seq(ts, total)[0].0 == 0,
        normalized_seq(ts, total).last().1 == total,
        forall|j: int| #![trigger normalized_seq(ts, total)[j]]
            0 <= j < 2 * ts.len() ==> normalized_seq(ts, total)[j + 1].0 == normalized_seq(ts, total)[j].1 + 1,
        forall|j: int| #![trigger normalized_seq(ts, total)[j]]
            0 <= j < 2 * ts.len() + 1 ==> normalized_seq(ts, total)[j].2 == (j % 2 == 1),
        forall|j: int| #![trigger normalized_seq(ts, total)[j]]
            0 <= j < 2 * ts.len() + 1 ==> normalized_seq(ts, total)[j].0 <= normalized_seq(ts, total)[j].1 + 1,
        span_len_sum(normalized_seq(ts, total)) == total + 1,
{
    let ns = normalized_seq(ts, total);
    assert forall|j: int| 0 <= j < 2 * ts.len() implies #[trigger] ns[j].1 + 1 == ns[j + 1].0 by {
        if j % 2 == 0 {
            assert((j + 1) / 2 == j / 2);
        } else {
            assert((j + 1) % 2 == 0);
            assert((j + 1) / 2 == j / 2 + 1);
        }
    }
    assert forall|j: int| 0 <= j < 2 * ts.len() + 1 implies (#[trigger] ns[j]).0 <= ns[j].1 + 1 by {
        if j == 2 * ts.len() {
        } else if j % 2 == 0 {
            assert(0 <= j / 2 < ts.len());
        }
    }
    lemma_sum_telescopes(ns);
}

/// Spans among the first `i` of `spans` that have at least one tick
/// (inclusive length at least one), in their original order.
pub open spec fn kept_spans(spans: Seq<(i64, i64, bool)>, i: int) -> Seq<(i64, i64, bool)>
    decreases i,
{
    if i <= 0 {
        Seq::empty()
    } else if spans[i - 1].0 <= spans[i - 1].1 {
        kept_spans(spans, i - 1).push(spans[i - 1])
    } else {
        kept_spans(spans, i - 1)
    }
}

/// Every span kept from a list of nonnegative-start spans has a nonnegative
/// start and at least one tick.
proof fn lemma_kept_spans_wf(spans: Seq<(i64, i64, bool)>, i: int)
    requires
        i <= spans.len(),
    ensures
        forall|k: int| #![trigger kept_spans(spans, i)[k]]
            0 <= k < kept_spans(spans, i).len() ==> kept_spans(spans, i)[k].0 <= kept_spans(spans, i)[k].1,
        (forall|j: int| #![trigger spans[j]] 0 <= j < i ==> spans[j].0 >= 0)
            ==> (forall|k: int| #![trigger kept_spans(spans, i)[k]]
                0 <= k < kept_spans(spans, i).len() ==> kept_spans(spans, i)[k].0 >= 0),
    decreases i,
{
    if i > 0 {
        lemma_kept_spans_wf(spans, i - 1);
        let prev = kept_spans(spans, i - 1);
        let cur = kept_spans(spans, i);
        assert forall|k: int| 0 <= k < cur.len() implies (#[trigger] cur[k]).0 <= cur[k].1 by {
            if k < prev.len() {
                assert(cur[k] == prev[k]);
            } else {
                assert(cur[k] == spans[i - 1]);
            }
        }
        if forall|j: int| #![trigger spans[j]] 0 <= j < i ==> spans[j].0 >= 0 {
            assert(spans[i - 1].0 >= 0);
            assert forall|k: int| 0 <= k < cur.len() implies (#[trigger] cur[k]).0 >= 0 by {
                if k < prev.len() {
                    assert(cur[k] == prev[k]);
                } else {
                    assert(cur[k] == spans[i - 1]);
                }
            }
        }
    }
}

/// Removes the zero-length marker spans that normalization may leave behind
/// (a filler before a speech interval starting at tick `0`, or after one
/// ending at `total`); the order of the remaining spans is kept.
pub fn drop_empty_spans(spans: &Vec<(i64, i64, bool)>) -> (pruned: Vec<(i64, i64, bool)>)
    ensures
        pruned@ == kept_spans(spans@, spans@.len() as int),
        forall|k: int| #![trigger pruned@[k]] 0 <= k < pruned@.len() ==> pruned@[k].0 <= pruned@[k].1,
        (forall|j: int| #![trigger spans@[j]] 0 <= j < spans@.len() ==> spans@[j].0 >= 0)
            ==> (forall|k: int| #![trigger pruned@[k]] 0 <= k < pruned@.len() ==> pruned@[k].0 >= 0),
{
    let mut pruned: Vec<(i64, i64, bool)> = Vec::new();
    let mut i: usize = 0;
    while i < spans.len()
        invariant
            i <= spans@.len(),
            pruned@ == kept_spans(spans@, i as int),
        decreases spans@.len() - i,
    {
        let sp = spans[i];
        if sp.0 <= sp.1 {
            pruned.push(sp);
        }
        i = i + 1;
    }
    proof {
        lemma_kept_spans_wf(spans@, spans@.len() as int);
    }
    pruned
}

} // verus!
