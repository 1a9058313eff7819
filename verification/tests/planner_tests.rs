use vad_pipeline::concat_after_outcomes;
use vad_pipeline::plan_operations;
use vad_pipeline::plan_pipeline;
use vad_pipeline::FailurePolicy;
use vad_pipeline::FrameLevel;
use vad_pipeline::Operation;
use vad_pipeline::PipelineError;
use vad_pipeline::SegmentSource;

fn sample_spans() -> Vec<(i64, i64, bool)> {
    vec![(0, 99, false), (100, 199, true), (200, 299, false)]
}

#[test]
fn plan_counts_and_order() {
    // 3 spans with 2 non-speech: 3 extracts + 2 speed-adjusts + 1 concat.
    let ops = plan_operations(&sample_spans());
    assert_eq!(ops.len(), 6);
    assert_eq!(ops[0], Operation::Extract { span: 0, start: 0, duration: 99 });
    assert_eq!(ops[1], Operation::SpeedAdjust { span: 0, factor_percent: 200 });
    assert_eq!(ops[2], Operation::Extract { span: 1, start: 100, duration: 99 });
    assert_eq!(ops[3], Operation::Extract { span: 2, start: 200, duration: 99 });
    assert_eq!(ops[4], Operation::SpeedAdjust { span: 2, factor_percent: 200 });
    assert_eq!(
        ops[5],
        Operation::Concat {
            inputs: vec![
                SegmentSource::SpeedAdjusted(0),
                SegmentSource::Extracted(1),
                SegmentSource::SpeedAdjusted(2),
            ]
        }
    );
}

#[test]
fn concat_hard_policy_aborts_on_failure() {
    let r = concat_after_outcomes(&sample_spans(), &vec![true, false, true], FailurePolicy::Hard);
    assert_eq!(r, Err(PipelineError::ExternalProcess { span: 1 }));
}

#[test]
fn concat_skip_policy_closes_the_gap() {
    let r = concat_after_outcomes(&sample_spans(), &vec![true, false, true], FailurePolicy::Skip);
    assert_eq!(
        r,
        Ok(vec![SegmentSource::SpeedAdjusted(0), SegmentSource::SpeedAdjusted(2)])
    );
}

#[test]
fn concat_runs_when_all_spans_succeed() {
    let r = concat_after_outcomes(&sample_spans(), &vec![true, true, true], FailurePolicy::Hard);
    assert_eq!(
        r,
        Ok(vec![
            SegmentSource::SpeedAdjusted(0),
            SegmentSource::Extracted(1),
            SegmentSource::SpeedAdjusted(2),
        ])
    );
}

#[test]
fn pipeline_rejects_empty_probabilities() {
    let r = plan_pipeline(&vec![], 1000, 16000);
    assert_eq!(r, Err(PipelineError::EmptyProbabilities));
}

#[test]
fn pipeline_rejects_non_positive_length() {
    let r = plan_pipeline(&vec![FrameLevel::High], 0, 16000);
    assert_eq!(r, Err(PipelineError::NonPositiveLength));
}

#[test]
fn pipeline_without_speech_speeds_up_everything() {
    // Zero speech intervals are no error: the whole timeline becomes one
    // non-speech span, extracted and speed-adjusted.
    let frames = vec![FrameLevel::Low; 10];
    let ops = plan_pipeline(&frames, 5120, 16000).unwrap();
    assert_eq!(
        ops,
        vec![
            Operation::Extract { span: 0, start: 0, duration: 5120 },
            Operation::SpeedAdjust { span: 0, factor_percent: 200 },
            Operation::Concat { inputs: vec![SegmentSource::SpeedAdjusted(0)] },
        ]
    );
}

#[test]
fn pipeline_plans_speech_and_silence() {
    let mut frames = vec![FrameLevel::High; 20];
    frames.extend(vec![FrameLevel::Low; 70]);
    let ops = plan_pipeline(&frames, 46080, 16000).unwrap();
    assert_eq!(
        ops,
        vec![
            Operation::Extract { span: 0, start: 0, duration: 10720 },
            Operation::Extract { span: 1, start: 10721, duration: 35359 },
            Operation::SpeedAdjust { span: 1, factor_percent: 200 },
            Operation::Concat {
                inputs: vec![SegmentSource::Extracted(0), SegmentSource::SpeedAdjusted(1)]
            },
        ]
    );
}
