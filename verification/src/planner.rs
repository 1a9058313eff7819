//! Pipeline planning: maps the normalized span sequence to an ordered list
//! of external media operations and decides, from the executor's per-span
//! reports, whether the final concatenation may run.
//!
//! For each span, in temporal order, the plan extracts that span's ticks
//! from the source; a non-speech span's cut is then speed-adjusted. The last
//! operation concatenates one terminal segment per span — the plain cut for
//! speech, the speed-adjusted cut for non-speech — in span order. A
//! speed-adjust depends only on its own span's extract, and the concat on
//! every span's terminal segment; the planner never executes anything.

use vstd::prelude::*;

use crate::errors::PipelineError;

verus! {

/// Playback speed applied to non-speech cuts, in percent (twice as fast).
pub const SPEED_FACTOR_PERCENT: i64 = 200;

/// The terminal product of one span: the plain extracted cut for a speech
/// span, the speed-adjusted cut for a non-speech span. The index is the
/// span's position in the normalized sequence.
#[derive(Clone, Copy, Debug, PartialEq, Eq, Structural)]
pub enum SegmentSource {
    Extracted(usize),
    SpeedAdjusted(usize),
}

/// One operation for the external media tool. `Extract` cuts `duration`
/// ticks from the source starting at `start`, producing span `span`'s
/// segment; `SpeedAdjust` rewrites that segment at `factor_percent` percent
/// speed; `Concat` joins the listed terminal segments in order.
#[derive(Clone, Debug, PartialEq, Eq)]
pub enum Operation {
    Extract { span: usize, start: i64, duration: i64 },
    SpeedAdjust { span: usize, factor_percent: i64 },
    Concat { inputs: Vec<SegmentSource> },
}

/// Number of non-speech spans among the first `i`.
pub open spec fn nonspeech_before(spans: Seq<(i64, i64, bool)>, i: int) -> int
    decreases i,
{
    if i <= 0 {
        0
    } else {
        nonspeech_before(spans, i - 1) + (if spans[i - 1].2 {
            0int
        } else {
            1int
        })
    }
}

/// Position of span `i`'s extract operation in the plan: one extract per
/// earlier span plus one speed-adjust per earlier non-speech span.
pub open spec fn op_index(spans: Seq<(i64, i64, bool)>, i: int) -> int {
    i + nonspeech_before(spans, i)
}

/// Terminal segment of span `i`.
pub open spec fn concat_entry(spans: Seq<(i64, i64, bool)>, i: int) -> SegmentSource {
    if spans[i].2 {
        SegmentSource::Extracted(i as usize)
    } else {
        SegmentSource::SpeedAdjusted(i as usize)
    }
}

/// The concat input order: one terminal segment per span, in span order.
pub open spec fn concat_order(spans: Seq<(i64, i64, bool)>) -> Seq<SegmentSource> {
    Seq::new(spans.len(), |i: int| concat_entry(spans, i))
}

/// The extract operation for span `i`.
pub open spec fn extract_op(spans: Seq<(i64, i64, bool)>, i: int) -> Operation {
    Operation::Extract {
        span: i as usize,
        start: spans[i].0,
        duration: (spans[i].1 - spans[i].0) as i64,
    }
}

/// The speed-adjust operation for span `i`.
pub open spec fn speed_op(i: int) -> Operation {
    Operation::SpeedAdjust { span: i as usize, factor_percent: SPEED_FACTOR_PERCENT }
}

/// The per-span part of the plan, over the first `i` spans: an extract for
/// every span, followed by a speed-adjust where the span is non-speech.
pub open spec fn plan_ops_prefix(spans: Seq<(i64, i64, bool)>, i: int) -> Seq<Operation>
    decreases i,
{
    if i <= 0 {
        Seq::empty()
    } else {
        let prev = plan_ops_prefix(spans, i - 1).push(extract_op(spans, i - 1));
        if spans[i - 1].2 {
            prev
        } else {
            prev.push(speed_op(i - 1))
        }
    }
}

/// What a correct plan for `spans` states: for a span list of length `n`
/// with `k` non-speech spans there are `n` extracts, `k` speed-adjusts and
/// one final concat; span `i`'s extract stands at `op_index(spans, i)`, its
/// speed-adjust (non-speech only) right after it, and the concat's inputs
/// are the spans' terminal segments in span order.
pub open spec fn plan_matches(ops: Seq<Operation>, spans: Seq<(i64, i64, bool)>) -> bool {
    &&& ops.len() == spans.len() + nonspeech_before(spans, spans.len() as int) + 1
    &&& forall|i: int| #![trigger op_index(spans, i)] 0 <= i < spans.len()
        ==> ops[op_index(spans, i)] == extract_op(spans, i)
    &&& forall|i: int| #![trigger op_index(spans, i)] 0 <= i < spans.len() && !spans[i].2
        ==> ops[op_index(spans, i) + 1] == speed_op(i)
    &&& ops.last() matches Operation::Concat { inputs } && inputs@ == concat_order(spans)
}

/// The per-span prefix of the plan has each operation at its stated index.
proof fn lemma_prefix_matches(spans: Seq<(i64, i64, bool)>, i: int)
    requires
        0 <= i <= spans.len(),
    ensures
        plan_ops_prefix(spans, i).len() == op_index(spans, i),
        forall|j: int| #![trigger op_index(spans, j)] 0 <= j <= i
            ==> j <= op_index(spans, j) <= 2 * j,
        forall|j: int| #![trigger op_index(spans, j)] 0 <= j < i
            ==> op_index(spans, j) + 1 + (if spans[j].2 { 0int } else { 1int }) <= op_index(spans, i),
        forall|j: int| #![trigger op_index(spans, j)] 0 <= j < i
            ==> plan_ops_prefix(spans, i)[op_index(spans, j)] == extract_op(spans, j),
        forall|j: int| #![trigger op_index(spans, j)] 0 <= j < i && !spans[j].2
            ==> plan_ops_prefix(spans, i)[op_index(spans, j) + 1] == speed_op(j),
    decreases i,
{
    broadcast use vstd::seq::lemma_seq_push_index_different_alt;

    if i > 0 {
        lemma_prefix_matches(spans, i - 1);
        let prev = plan_ops_prefix(spans, i - 1);
        let cur = plan_ops_prefix(spans, i);
        let mid = prev.push(extract_op(spans, i - 1));
        if spans[i - 1].2 {
            assert(cur == mid);
        } else {
            assert(cur == mid.push(speed_op(i - 1)));
        }
        assert forall|j: int| 0 <= j < i implies #[trigger] cur[op_index(spans, j)] == extract_op(spans, j) by {
            let p = op_index(spans, j);
            if j < i - 1 {
                assert(p < prev.len());
                assert(mid[p] == prev[p]);
                if !spans[i - 1].2 {
                    assert(mid.push(speed_op(i - 1))[p] == mid[p]);
                }
            } else {
                assert(mid[prev.len() as int] == extract_op(spans, i - 1));
                if !spans[i - 1].2 {
                    assert(mid.push(speed_op(i - 1))[prev.len() as int] == mid[prev.len() as int]);
                }
            }
        }
        assert forall|j: int| 0 <= j < i && !spans[j].2 implies #[trigger] cur[op_index(spans, j) + 1] == speed_op(j) by {
            let p = op_index(spans, j) + 1;
            if j < i - 1 {
                assert(p < prev.len());
                assert(mid[p] == prev[p]);
                if !spans[i - 1].2 {
                    assert(mid.push(speed_op(i - 1))[p] == mid[p]);
                }
            } else {
                assert(!spans[i - 1].2);
                assert(p == mid.len());
                assert(mid.push(speed_op(i - 1))[p] == speed_op(i - 1));
            }
        }
    }
}

/// Builds the operation plan for `spans`: an extract per span, a
/// speed-adjust per non-speech span right after its extract, and one final
/// concat whose inputs are the terminal segments in span order.
pub fn plan_operations(spans: &Vec<(i64, i64, bool)>) -> (ops: Vec<Operation>)
    requires
        forall|k: int| #![trigger spans@[k]] 0 <= k < spans@.len() ==> 0 <= spans@[k].0 <= spans@[k].1,
    ensures
        plan_matches(ops@, spans@),
        ops@.drop_last() == plan_ops_prefix(spans@, spans@.len() as int),
{
    let n = spans.len();
    let mut ops: Vec<Operation> = Vec::new();
    let mut order: Vec<SegmentSource> = Vec::new();
    let mut i: usize = 0;
    while i < n
        invariant
            forall|k: int| #![trigger spans@[k]] 0 <= k < spans@.len() ==> 0 <= spans@[k].0 <= spans@[k].1,
            n == spans@.len(),
            i <= n,
            ops@ == plan_ops_prefix(spans@, i as int),
            order@.len() == i,
            forall|j: int| #![trigger order@[j]] 0 <= j < i ==> order@[j] == concat_entry(spans@, j),
        decreases n - i,
    {
        let sp = spans[i];
        ops.push(Operation::Extract { span: i, start: sp.0, duration: sp.1 - sp.0 });
        if sp.2 {
            order.push(SegmentSource::Extracted(i));
        } else {
            ops.push(Operation::SpeedAdjust { span: i, factor_percent: SPEED_FACTOR_PERCENT });
            order.push(SegmentSource::SpeedAdjusted(i));
        }
        i = i + 1;
    }
    proof {
        lemma_prefix_matches(spans@, n as int);
        assert(order@ =~= concat_order(spans@));
    }
    let ghost prefix_ops = ops@;
    ops.push(Operation::Concat { inputs: order });
    proof {
        let cop = ops@.last();
        assert(ops@ == prefix_ops.push(cop));
        assert(cop matches Operation::Concat { inputs } && inputs@ == concat_order(spans@));
        assert forall|j: int| 0 <= j < spans@.len() implies #[trigger] ops@[op_index(spans@, j)]
            == extract_op(spans@, j) by {
            assert(0 <= op_index(spans@, j) < prefix_ops.len());
            assert(prefix_ops.push(cop)[op_index(spans@, j)] == prefix_ops[op_index(spans@, j)]);
        }
        assert forall|j: int| 0 <= j < spans@.len() && !spans@[j].2 implies
            #[trigger] ops@[op_index(spans@, j) + 1] == speed_op(j) by {
            assert(0 <= op_index(spans@, j) + 1 < prefix_ops.len());
            assert(prefix_ops.push(cop)[op_index(spans@, j) + 1] == prefix_ops[op_index(spans@, j) + 1]);
        }
        assert(ops@.drop_last() =~= plan_ops_prefix(spans@, n as int));
    }
    ops
}

/// Failure policy for the executor's per-span outcome reports.
#[derive(Clone, Copy, Debug, PartialEq, Eq, Structural)]
pub enum FailurePolicy {
    /// Any failed span aborts the run before concatenation.
    Hard,
    /// Failed spans are dropped and the remaining segments close the gap.
    Skip,
}

/// Concat order among the first `i` spans restricted to those whose
/// terminal operation succeeded.
pub open spec fn surviving_order(spans: Seq<(i64, i64, bool)>, outcomes: Seq<bool>, i: int) -> Seq<SegmentSource>
    decreases i,
{
    if i <= 0 {
        Seq::empty()
    } else if outcomes[i - 1] {
        surviving_order(spans, outcomes, i - 1).push(concat_entry(spans, i - 1))
    } else {
        surviving_order(spans, outcomes, i - 1)
    }
}

/// When every span succeeded, the surviving order is the full concat order.
pub proof fn lemma_all_success_full_order(spans: Seq<(i64, i64, bool)>, outcomes: Seq<bool>)
    requires
        outcomes.len() == spans.len(),
        forall|k: int| 0 <= k < outcomes.len() ==> outcomes[k],
    ensures
        surviving_order(spans, outcomes, spans.len() as int) == concat_order(spans),
{
    lemma_surviving_prefix(spans, outcomes, spans.len() as int);
    assert(surviving_order(spans, outcomes, spans.len() as int) =~= concat_order(spans));
}

/// Under all-success outcomes the surviving order keeps every entry.
proof fn lemma_surviving_prefix(spans: Seq<(i64, i64, bool)>, outcomes: Seq<bool>, i: int)
    requires
        0 <= i <= spans.len(),
        outcomes.len() == spans.len(),
        forall|k: int| 0 <= k < outcomes.len() ==> outcomes[k],
    ensures
        surviving_order(spans, outcomes, i).len() == i,
        forall|j: int| #![trigger surviving_order(spans, outcomes, i)[j]] 0 <= j < i
            ==> surviving_order(spans, outcomes, i)[j] == concat_entry(spans, j),
    decreases i,
{
    if i > 0 {
        lemma_surviving_prefix(spans, outcomes, i - 1);
        let prev = surviving_order(spans, outcomes, i - 1);
        let cur = surviving_order(spans, outcomes, i);
        assert forall|j: int| 0 <= j < i implies #[trigger] cur[j] == concat_entry(spans, j) by {
            if j < i - 1 {
                assert(cur[j] == prev[j]);
            }
        }
    }
}

/// Decides, from the executor's per-span success reports, whether and with
/// which inputs the concatenation may run. Under `Hard` policy the first
/// failed span aborts the plan (`Err` carries its index) — the concat never
/// runs with a segment missing. Under `Skip`, failed spans are dropped and
/// the surviving segments keep their temporal order.
pub fn concat_after_outcomes(spans: &Vec<(i64, i64, bool)>, outcomes: &Vec<bool>, policy: FailurePolicy) -> (r: Result<Vec<SegmentSource>, PipelineError>)
    requires
        outcomes@.len() == spans@.len(),
    ensures
        r is Ok <==> (policy is Skip || forall|k: int| 0 <= k < outcomes@.len() ==> outcomes@[k]),
        (match r {
            Ok(inputs) => inputs@ == surviving_order(spans@, outcomes@, spans@.len() as int),
            Err(e) => {
                &&& policy is Hard
                &&& e matches PipelineError::ExternalProcess { span }
                &&& 0 <= (span as int) < outcomes@.len()
                &&& !outcomes@[span as int]
                &&& forall|k: int| 0 <= k < span as int ==> outcomes@[k]
            },
        }),
{
    let n = spans.len();
    let mut inputs: Vec<SegmentSource> = Vec::new();
    let mut i: usize = 0;
    while i < n
        invariant
            outcomes@.len() == spans@.len(),
            n == spans@.len(),
            i <= n,
            inputs@ == surviving_order(spans@, outcomes@, i as int),
            policy is Hard ==> forall|k: int| 0 <= k < i ==> outcomes@[k],
        decreases n - i,
    {
        if outcomes[i] {
            let entry = if spans[i].2 {
                SegmentSource::Extracted(i)
            } else {
                SegmentSource::SpeedAdjusted(i)
            };
            inputs.push(entry);
        } else {
            match policy {
                FailurePolicy::Hard => {
                    return Err(PipelineError::ExternalProcess { span: i });
                },
                FailurePolicy::Skip => {},
            }
        }
        i = i + 1;
    }
    Ok(inputs)
}

} // verus!
