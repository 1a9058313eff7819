//! The whole planning pass, frames to operation plan: segmentation with the
//! rate-derived hysteresis constants, edge padding, timeline normalization,
//! removal of zero-length marker spans, and operation planning.
//!
//! Everything here is a pure function of its arguments: running the pass
//! twice on the same input gives bit-identical results.

use vstd::prelude::*;

use crate::errors::PipelineError;
use crate::padder::pad_intervals;
use crate::padder::pad_result;
use crate::padder::lemma_pad_separates;
use crate::padder::gap_at;
use crate::planner::plan_matches;
use crate::planner::plan_operations;
use crate::planner::Operation;
use crate::segmenter::seg_result;
use crate::segmenter::segment_frames;
use crate::segmenter::FrameLevel;
use crate::timeline::drop_empty_spans;
use crate::timeline::intervals_within;
use crate::timeline::kept_spans;
use crate::timeline::normalize_timestamps;
use crate::timeline::normalized_at;
use crate::timeline::normalized_seq;

verus! {

/// Width of one analysis window, in ticks.
pub const WINDOW_SIZE: i64 = 512;

/// Minimum length of an emitted speech run: 250 ms at the given rate.
pub open spec fn min_speech_of(rate: i64) -> i64 {
    ((rate as int) * 250 / 1000) as i64
}

/// Silence needed to close a speech run: 2000 ms at the given rate. A run
/// closes only after two full seconds of low frames; a shorter threshold
/// would split a speech run at every brief pause, so short gaps are instead
/// absorbed into one run.
pub open spec fn min_silence_of(rate: i64) -> i64 {
    ((rate as int) * 2000 / 1000) as i64
}

/// Edge pad around each speech run: 30 ms at the given rate.
pub open spec fn speech_pad_of(rate: i64) -> i64 {
    ((rate as int) * 30 / 1000) as i64
}

/// The padded speech intervals for a frame stream: segmentation followed by
/// edge padding, all constants derived from `rate`.
pub open spec fn speech_timestamps(frames: Seq<FrameLevel>, total: i64, rate: i64) -> Seq<(i64, i64)> {
    pad_result(
        seg_result(frames, WINDOW_SIZE, min_silence_of(rate), min_speech_of(rate)),
        total as int,
        speech_pad_of(rate) as int,
    )
}

/// The normalized span timeline for a frame stream, zero-length marker spans
/// removed.
pub open spec fn pipeline_spans(frames: Seq<FrameLevel>, total: i64, rate: i64) -> Seq<(i64, i64, bool)> {
    let ns = normalized_seq(speech_timestamps(frames, total, rate), total);
    kept_spans(ns, ns.len() as int)
}

/// Runs the hysteresis segmenter and pads the resulting intervals, with all
/// constants derived from `sample_def` ticks per second: speech runs longer
/// than 250 ms, closed by 2000 ms of silence, padded by 30 ms on each side.
/// The result is ascending, strictly separated, and inside
/// `[0, audio_length_samples]`.
pub fn get_speech_timestamps(frames: &Vec<FrameLevel>, audio_length_samples: i64, sample_def: i64) -> (ts: Vec<(i64, i64)>)
    requires
        1 <= sample_def <= 1_000_000_000_000,
        frames@.len() <= 1_000_000_000_000,
        0 <= audio_length_samples,
        512 * (frames@.len() as int) < audio_length_samples + 512,
    ensures
        ts@ == speech_timestamps(frames@, audio_length_samples, sample_def),
        intervals_within(ts@, audio_length_samples as int),
{
    let ghost rate = sample_def as int;
    let min_speech = sample_def * 250 / 1000;
    let min_silence = sample_def * 2000 / 1000;
    let speech_pad = sample_def * 30 / 1000;
    proof {
        assert(min_silence == 2 * sample_def);
        assert((rate * 30) / 1000 * 1000 + (rate * 30) % 1000 == rate * 30) by (nonlinear_arith);
        assert(0 <= (rate * 30) % 1000 < 1000) by (nonlinear_arith);
        assert(speech_pad as int <= rate);
        assert(0 <= speech_pad);
    }
    let raw = segment_frames(frames, WINDOW_SIZE, min_silence, min_speech);
    proof {
        assert forall|k: int| #![trigger raw@[k]] 0 < k < raw@.len() implies raw@[k - 1].1 < raw@[k].0 by {
            assert(raw@[k - 1].1 + min_silence + 512 <= raw@[k].0);
        }
        assert forall|k: int| #![trigger raw@[k]] 0 <= k < raw@.len() implies raw@[k].0 <= audio_length_samples by {
            assert(raw@[k].0 <= 512 * (frames@.len() - 1));
        }
        assert forall|k: int| #![trigger raw@[k]] 0 <= k < raw@.len() implies raw@[k].1 + speech_pad <= i64::MAX by {
            assert(raw@[k].1 <= 512 * (frames@.len() as int));
        }
    }
    let padded = pad_intervals(&raw, audio_length_samples, speech_pad);
    proof {
        assert forall|k: int| 0 <= k < raw@.len() - 1 implies #[trigger] gap_at(raw@, k) % 2 == 1
            || gap_at(raw@, k) > 2 * (speech_pad as int) by {
            assert(raw@[k].1 + min_silence + 512 <= raw@[k + 1].0);
        }
        lemma_pad_separates(raw@, audio_length_samples as int, speech_pad as int);
        assert forall|k: int| #![trigger padded@[k]] 0 < k < padded@.len() implies padded@[k - 1].1 < padded@[k].0 by {
            assert(padded@[k - 1].1 == crate::padder::padded_end(raw@, k - 1, audio_length_samples as int, speech_pad as int));
            assert(padded@[k].0 == crate::padder::padded_start(raw@, k, speech_pad as int));
        }
    }
    padded
}

/// Plans the whole pass for one media file: validates the input, segments
/// and pads, normalizes the timeline, drops zero-length marker spans, and
/// returns the operation plan. An empty frame stream or a non-positive
/// timeline length aborts with the matching error; zero speech intervals are
/// not an error (the plan then speed-adjusts one full-length span).
pub fn plan_pipeline(frames: &Vec<FrameLevel>, audio_length_samples: i64, sample_def: i64) -> (r: Result<Vec<Operation>, PipelineError>)
    requires
        1 <= sample_def <= 1_000_000_000_000,
        frames@.len() <= 1_000_000_000_000,
        audio_length_samples > 0 ==> 512 * (frames@.len() as int) < audio_length_samples + 512,
        audio_length_samples < i64::MAX,
    ensures
        r is Ok <==> (frames@.len() > 0 && audio_length_samples > 0),
        (r matches Ok(ops)
            ==> plan_matches(ops@, pipeline_spans(frames@, audio_length_samples, sample_def))),
        (r matches Err(e) ==> (e == PipelineError::EmptyProbabilities <==> frames@.len() == 0)),
        (r matches Err(e) ==> (e == PipelineError::NonPositiveLength
            <==> frames@.len() > 0 && audio_length_samples <= 0)),
{
    if frames.len() == 0 {
        return Err(PipelineError::EmptyProbabilities);
    }
    if audio_length_samples <= 0 {
        return Err(PipelineError::NonPositiveLength);
    }
    let ts = get_speech_timestamps(frames, audio_length_samples, sample_def);
    let spans = normalize_timestamps(&ts, audio_length_samples);
    proof {
        assert forall|j: int| #![trigger spans@[j]] 0 <= j < spans@.len() implies spans@[j].0 >= 0 by {
            assert(spans@[j] == normalized_at(ts@, audio_length_samples, j));
        }
    }
    let pruned = drop_empty_spans(&spans);
    let ops = plan_operations(&pruned);
    Ok(ops)
}

/// Re-running the pass on identical input yields a bit-identical span list:
/// the normalized timeline is a function of the frame stream, the timeline
/// length and the sample rate alone.
pub proof fn lemma_replay_is_identical(
    frames: Seq<FrameLevel>,
    total: i64,
    rate: i64,
    first: Seq<(i64, i64, bool)>,
    second: Seq<(i64, i64, bool)>,
)
    requires
        first == pipeline_spans(frames, total, rate),
        second == pipeline_spans(frames, total, rate),
    ensures
        first == second,
{
}

} // verus!
