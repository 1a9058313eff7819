use vad_pipeline::get_speech_timestamps;
use vad_pipeline::normalize_timestamps;
use vad_pipeline::segment_frames;
use vad_pipeline::FrameLevel;

/// How the pipeline's caller turns one probability into a frame level:
/// at or above the enter threshold 0.5 -> High, under the exit threshold
/// 0.35 -> Low, in between -> Mid. Not-a-number never reaches a threshold,
/// so it lands in the unchanged band.
fn classify(p: f64) -> FrameLevel {
    if p >= 0.5 {
        FrameLevel::High
    } else if p < 0.35 {
        FrameLevel::Low
    } else {
        FrameLevel::Mid
    }
}

fn run(high: usize, low: usize) -> Vec<FrameLevel> {
    let mut frames = vec![FrameLevel::High; high];
    frames.extend(vec![FrameLevel::Low; low]);
    frames
}

#[test]
fn segment_basic_run() {
    // Speech opens at tick 0; silence starts at frame 20 (tick 10240) and
    // closes the run once 32000 ticks of it have passed.
    let frames = run(20, 70);
    assert_eq!(segment_frames(&frames, 512, 32000, 4000), vec![(0, 10240)]);
}

#[test]
fn segment_trailing_run() {
    // The stream ends mid-speech: the run closes at the stream's last tick.
    let frames = run(30, 0);
    assert_eq!(segment_frames(&frames, 512, 32000, 4000), vec![(0, 15360)]);
}

#[test]
fn segment_short_run_dropped() {
    // 7 windows of speech are 3584 ticks: not strictly longer than 4000,
    // so the closed run is not emitted.
    let frames = run(7, 83);
    assert_eq!(segment_frames(&frames, 512, 32000, 4000), vec![]);
}

#[test]
fn segment_high_frame_cancels_pending_close() {
    // A strong frame inside a tentative silence window reopens the run:
    // one merged interval comes out, not two.
    let mut frames = run(20, 10);
    frames.extend(run(20, 70));
    assert_eq!(segment_frames(&frames, 512, 32000, 4000), vec![(0, 25600)]);
}

#[test]
fn segment_mid_band_leaves_state_unchanged() {
    let mut frames = vec![FrameLevel::High; 10];
    frames.extend(vec![FrameLevel::Mid; 20]);
    frames.extend(vec![FrameLevel::Low; 70]);
    assert_eq!(segment_frames(&frames, 512, 32000, 4000), vec![(0, 15360)]);
}

#[test]
fn speech_timestamps_add_edge_pad() {
    // At 16000 ticks per second the pad is 480 ticks: the start is clamped
    // at 0, the end grows by the pad.
    let frames = run(20, 70);
    let ts = get_speech_timestamps(&frames, 46080, 16000);
    assert_eq!(ts, vec![(0, 10720)]);
}

#[test]
fn classified_probabilities_drive_the_machine() {
    let mut probs = vec![0.9f64; 19];
    probs.push(0.5); // enter threshold itself counts as speech
    probs.push(0.35); // between the thresholds: state unchanged
    probs.extend(vec![0.1f64; 70]);
    let frames: Vec<FrameLevel> = probs.iter().map(|p| classify(*p)).collect();
    // The Mid frame at index 20 delays the silence start by one window.
    assert_eq!(segment_frames(&frames, 512, 32000, 4000), vec![(0, 10752)]);
}

#[test]
fn replay_is_bit_identical() {
    let frames = run(20, 70);
    let first_ts = get_speech_timestamps(&frames, 46080, 16000);
    let second_ts = get_speech_timestamps(&frames, 46080, 16000);
    assert_eq!(first_ts, second_ts);
    let first = normalize_timestamps(&first_ts, 46080);
    let second = normalize_timestamps(&second_ts, 46080);
    assert_eq!(first, second);
}

#[test]
fn trailing_run_is_clamped_to_the_audio_length() {
    // The last window runs past the audio's end; the padded interval is
    // clamped back to it.
    let frames = run(30, 0);
    let ts = get_speech_timestamps(&frames, 15000, 16000);
    assert_eq!(ts, vec![(0, 15000)]);
}
