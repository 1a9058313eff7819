//! Turns a per-window speech-probability stream into a plan for rebuilding a
//! media file in which non-speech stretches play faster than speech.
//!
//! The pipeline runs strictly downstream, in the sample-tick domain:
//! frame levels -> raw speech intervals -> padded intervals -> a gapless
//! alternating speech/non-speech timeline -> an ordered operation plan
//! (extract, speed-adjust, concatenate) for an external media tool.
//!
//! Decoding audio, running the voice-activity model, and spawning the media
//! tool are external collaborators; this crate holds the interval arithmetic
//! and planning rules, each with a proved contract.

mod errors;
mod padder;
mod pipeline;
mod planner;
mod segmenter;
mod timeline;

pub use errors::PipelineError;
pub use padder::gap_at;
pub use padder::lemma_pad_separates;
pub use padder::pad_intervals;
pub use padder::pad_result;
pub use padder::padded_end;
pub use padder::padded_start;
pub use padder::raw_ordered;
pub use pipeline::get_speech_timestamps;
pub use pipeline::lemma_replay_is_identical;
pub use pipeline::min_silence_of;
pub use pipeline::min_speech_of;
pub use pipeline::pipeline_spans;
pub use pipeline::plan_pipeline;
pub use pipeline::speech_pad_of;
pub use pipeline::speech_timestamps;
pub use pipeline::WINDOW_SIZE;
pub use planner::concat_after_outcomes;
pub use planner::concat_entry;
pub use planner::concat_order;
pub use planner::extract_op;
pub use planner::lemma_all_success_full_order;
pub use planner::nonspeech_before;
pub use planner::op_index;
pub use planner::plan_matches;
pub use planner::plan_operations;
pub use planner::plan_ops_prefix;
pub use planner::speed_op;
pub use planner::surviving_order;
pub use planner::FailurePolicy;
pub use planner::Operation;
pub use planner::SegmentSource;
pub use planner::SPEED_FACTOR_PERCENT;
pub use segmenter::seg_result;
pub use segmenter::segment_frames;
pub use segmenter::FrameLevel;
pub use segmenter::SegPhase;
pub use timeline::drop_empty_spans;
pub use timeline::intervals_within;
pub use timeline::kept_spans;
pub use timeline::silence_start;
pub use timeline::lemma_normalize_coverage;
pub use timeline::normalize_timestamps;
pub use timeline::normalized_at;
pub use timeline::normalized_seq;
pub use timeline::span_len_sum;
