//! Hysteresis segmentation: a single pass over per-window frame levels that
//! emits raw, non-overlapping speech intervals in sample ticks.
//!
//! Each probability window is consumed as a `FrameLevel`: `High` where the
//! probability reached the enter threshold (`0.5`), `Low` where it fell
//! under the exit threshold (`0.35`), `Mid` in between. The two thresholds
//! keep the machine from flapping near a single boundary: a `High` frame
//! opens speech or cancels a pending close, a run of `Low` frames at least
//! `min_silence` ticks long closes it, and `Mid` frames leave the state
//! unchanged. A closed run is emitted only if it is strictly longer than
//! `min_speech` ticks.

use vstd::prelude::*;

verus! {

/// How one probability window compares to the two hysteresis thresholds.
#[derive(Clone, Copy, Debug, PartialEq, Eq, Structural)]
pub enum FrameLevel {
    /// Probability at or above the enter threshold: opens or holds speech.
    High,
    /// Probability between the thresholds: leaves the machine unchanged.
    Mid,
    /// Probability under the exit threshold: counts toward a silence run.
    Low,
}

/// State of the hysteresis machine between frames.
#[derive(Clone, Copy, Debug, PartialEq, Eq, Structural)]
pub enum SegPhase {
    /// Not inside a speech run.
    Idle,
    /// Inside a speech run that opened at tick `start`.
    Speaking { start: i64 },
    /// Inside a speech run whose close is pending: `Low` frames have been
    /// seen since tick `silence_start`, but not yet `min_silence` ticks of
    /// them.
    Closing { start: i64, silence_start: i64 },
}

/// The machine's fields stay inside `[0, tick]`, a silence start strictly
/// after the speech start.
pub open spec fn phase_wf(ph: SegPhase, tick: int) -> bool {
    match ph {
        SegPhase::Idle => true,
        SegPhase::Speaking { start } => 0 <= start <= tick,
        SegPhase::Closing { start, silence_start } => 0 <= start < silence_start <= tick,
    }
}

/// Machine state after consuming one frame of level `level` at tick `tick`.
pub open spec fn next_phase(ph: SegPhase, level: FrameLevel, tick: i64, min_silence: i64) -> SegPhase {
    match ph {
        SegPhase::Idle => {
            if level is High {
                SegPhase::Speaking { start: tick }
            } else {
                SegPhase::Idle
            }
        },
        SegPhase::Speaking { start } => {
            if level is Low {
                if 0 < min_silence {
                    SegPhase::Closing { start, silence_start: tick }
                } else {
                    SegPhase::Idle
                }
            } else {
                SegPhase::Speaking { start }
            }
        },
        SegPhase::Closing { start, silence_start } => {
            match level {
                FrameLevel::High => SegPhase::Speaking { start },
                FrameLevel::Mid => SegPhase::Closing { start, silence_start },
                FrameLevel::Low => {
                    if tick - silence_start < min_silence {
                        SegPhase::Closing { start, silence_start }
                    } else {
                        SegPhase::Idle
                    }
                },
            }
        },
    }
}

/// Interval emitted while consuming one frame, if any: a close that ends a
/// speech run strictly longer than `min_speech` emits it, every other step
/// emits nothing. The emitted end is the tick where the silence run began.
pub open spec fn emitted_at(ph: SegPhase, level: FrameLevel, tick: i64, min_silence: i64, min_speech: i64) -> Option<(i64, i64)> {
    match ph {
        SegPhase::Idle => None,
        SegPhase::Speaking { start } => {
            if level is Low && min_silence <= 0 && tick - start > min_speech {
                Some((start, tick))
            } else {
                None
            }
        },
        SegPhase::Closing { start, silence_start } => {
            if level is Low && tick - silence_start >= min_silence && silence_start - start > min_speech {
                Some((start, silence_start))
            } else {
                None
            }
        },
    }
}

/// Machine state and intervals emitted after the first `i` frames, frame `j`
/// standing at tick `w * j`.
pub open spec fn run_to(frames: Seq<FrameLevel>, w: i64, min_silence: i64, min_speech: i64, i: int) -> (SegPhase, Seq<(i64, i64)>)
    decreases i,
{
    if i <= 0 {
        (SegPhase::Idle, Seq::empty())
    } else {
        let prev = run_to(frames, w, min_silence, min_speech, i - 1);
        let tick = ((w as int) * (i - 1)) as i64;
        let acc = match emitted_at(prev.0, frames[i - 1], tick, min_silence, min_speech) {
            Some(iv) => prev.1.push(iv),
            None => prev.1,
        };
        (next_phase(prev.0, frames[i - 1], tick, min_silence), acc)
    }
}

/// All intervals the segmenter returns: the full run over `frames`, plus the
/// trailing interval when the stream ends mid-speech and the run from its
/// start to the stream's last tick is strictly longer than `min_speech`.
pub open spec fn seg_result(frames: Seq<FrameLevel>, w: i64, min_silence: i64, min_speech: i64) -> Seq<(i64, i64)> {
    let full = run_to(frames, w, min_silence, min_speech, frames.len() as int);
    let stream_end = ((w as int) * frames.len()) as i64;
    match full.0 {
        SegPhase::Idle => full.1,
        SegPhase::Speaking { start } => {
            if stream_end - start > min_speech {
                full.1.push((start, stream_end))
            } else {
                full.1
            }
        },
        SegPhase::Closing { start, silence_start } => {
            if stream_end - start > min_speech {
                full.1.push((start, stream_end))
            } else {
                full.1
            }
        },
    }
}

/// One step of the machine, with the interval it emits, if any.
fn advance(ph: SegPhase, level: FrameLevel, tick: i64, min_silence: i64, min_speech: i64) -> (r: (SegPhase, Option<(i64, i64)>))
    requires
        0 <= tick,
        0 <= min_silence,
        phase_wf(ph, tick as int),
    ensures
        r.0 == next_phase(ph, level, tick, min_silence),
        r.1 == emitted_at(ph, level, tick, min_silence, min_speech),
{
    match ph {
        SegPhase::Idle => {
            match level {
                FrameLevel::High => (SegPhase::Speaking { start: tick }, None),
                FrameLevel::Mid => (SegPhase::Idle, None),
                FrameLevel::Low => (SegPhase::Idle, None),
            }
        },
        SegPhase::Speaking { start } => {
            match level {
                FrameLevel::High => (SegPhase::Speaking { start }, None),
                FrameLevel::Mid => (SegPhase::Speaking { start }, None),
                FrameLevel::Low => {
                    if 0 < min_silence {
                        (SegPhase::Closing { start, silence_start: tick }, None)
                    } else {
                        let emit = if tick - start > min_speech {
                            Some((start, tick))
                        } else {
                            None
                        };
                        (SegPhase::Idle, emit)
                    }
                },
            }
        },
        SegPhase::Closing { start, silence_start } => {
            match level {
                FrameLevel::High => (SegPhase::Speaking { start }, None),
                FrameLevel::Mid => (SegPhase::Closing { start, silence_start }, None),
                FrameLevel::Low => {
                    if tick - silence_start < min_silence {
                        (SegPhase::Closing { start, silence_start }, None)
                    } else {
                        let emit = if silence_start - start > min_speech {
                            Some((start, silence_start))
                        } else {
                            None
                        };
                        (SegPhase::Idle, emit)
                    }
                },
            }
        },
    }
}

/// Invariant carried across the run: the accumulated intervals are ordered
/// and long enough, consecutive ones at least `min_silence + w` ticks apart,
/// and the machine's own ticks bound them so later emissions stay in order.
spec fn run_inv(st: (SegPhase, Seq<(i64, i64)>), w: int, min_silence: int, min_speech: int, i: int) -> bool {
    let acc = st.1;
    &&& forall|k: int| #![trigger acc[k]] 0 <= k < acc.len() ==> 0 <= acc[k].0 < acc[k].1
    &&& forall|k: int| #![trigger acc[k]] 0 <= k < acc.len() ==> acc[k].1 - acc[k].0 > min_speech
    &&& forall|k: int| #![trigger acc[k]] 0 < k < acc.len() ==> acc[k - 1].1 + min_silence + w <= acc[k].0
    &&& forall|k: int| #![trigger acc[k]] 0 <= k < acc.len() ==> acc[k].1 + min_silence + w <= w * i
    &&& forall|k: int| #![trigger acc[k]] 0 <= k < acc.len() ==> acc[k].0 <= w * (i - 1)
    &&& match st.0 {
        SegPhase::Idle => true,
        SegPhase::Speaking { start } => {
            &&& 0 <= start <= w * (i - 1)
            &&& forall|k: int| #![trigger acc[k]] 0 <= k < acc.len() ==> acc[k].1 + min_silence + w <= start
        },
        SegPhase::Closing { start, silence_start } => {
            &&& 0 <= start < silence_start <= w * (i - 1)
            &&& forall|k: int| #![trigger acc[k]] 0 <= k < acc.len() ==> acc[k].1 + min_silence + w <= start
        },
    }
}

/// The invariant holds after any number of steps.
proof fn lemma_run_inv(frames: Seq<FrameLevel>, w: i64, min_silence: i64, min_speech: i64, i: int)
    requires
        1 <= w,
        0 <= min_silence,
        0 <= i <= frames.len(),
        (w as int) * (frames.len() as int) <= i64::MAX,
    ensures
        run_inv(run_to(frames, w, min_silence, min_speech, i), w as int, min_silence as int, min_speech as int, i),
        phase_wf(run_to(frames, w, min_silence, min_speech, i).0, (w as int) * i),
    decreases i,
{
    if i > 0 {
        lemma_run_inv(frames, w, min_silence, min_speech, i - 1);
        let prev = run_to(frames, w, min_silence, min_speech, i - 1);
        let tick = (w as int) * (i - 1);
        assert((w as int) * (i - 1) + w == (w as int) * i) by (nonlinear_arith);
        assert((w as int) * (i - 2) + w == (w as int) * (i - 1)) by (nonlinear_arith);
        assert(0 <= (w as int) * (i - 1)) by (nonlinear_arith)
            requires 1 <= w, 0 <= i - 1;
        assert((w as int) * i <= (w as int) * (frames.len() as int)) by (nonlinear_arith)
            requires 1 <= w, i <= frames.len() as int;
        assert(tick as i64 as int == tick);
    }
}

/// Runs the hysteresis machine over `frames`, frame `j` standing for the
/// window of ticks `[w * j, w * (j + 1))`, and returns the raw speech
/// intervals: ascending, strictly separated by at least `min_silence + w`
/// ticks of silence, each strictly longer than `min_speech`, and all inside
/// `[0, w * frames.len()]`.
pub fn segment_frames(frames: &Vec<FrameLevel>, window_size: i64, min_silence: i64, min_speech: i64) -> (raw: Vec<(i64, i64)>)
    requires
        1 <= window_size,
        0 <= min_silence,
        0 <= min_speech,
        (window_size as int) * frames@.len() <= i64::MAX,
    ensures
        raw@ == seg_result(frames@, window_size, min_silence, min_speech),
        forall|k: int| #![trigger raw@[k]] 0 <= k < raw@.len() ==> 0 <= raw@[k].0 < raw@[k].1,
        forall|k: int| #![trigger raw@[k]] 0 <= k < raw@.len() ==> raw@[k].1 - raw@[k].0 > min_speech,
        forall|k: int| #![trigger raw@[k]] 0 < k < raw@.len() ==> raw@[k - 1].1 + min_silence + window_size <= raw@[k].0,
        forall|k: int| #![trigger raw@[k]] 0 <= k < raw@.len() ==> raw@[k].0 <= (window_size as int) * (frames@.len() - 1),
        forall|k: int| #![trigger raw@[k]] 0 <= k < raw@.len() ==> raw@[k].1 <= (window_size as int) * frames@.len(),
{
    let ghost w = window_size as int;
    let ghost n = frames@.len() as int;
    let n_frames = frames.len();
    let mut phase = SegPhase::Idle;
    let mut raw: Vec<(i64, i64)> = Vec::new();
    let mut tick: i64 = 0;
    let mut i: usize = 0;
    while i < n_frames
        invariant
            1 <= window_size,
            0 <= min_silence,
            0 <= min_speech,
            w == window_size as int,
            n == frames@.len() as int,
            n_frames == frames@.len(),
            w * n <= i64::MAX,
            i <= n_frames,
            tick as int == w * (i as int),
            (phase, raw@) == run_to(frames@, window_size, min_silence, min_speech, i as int),
            phase_wf(phase, tick as int),
        decreases n_frames - i,
    {
        proof {
            lemma_run_inv(frames@, window_size, min_silence, min_speech, i as int + 1);
            assert(w * (i as int) + w == w * (i as int + 1)) by (nonlinear_arith);
            assert(w * (i as int + 1) <= w * n) by (nonlinear_arith)
                requires 1 <= w, i as int + 1 <= n;
            assert(0 <= w * (i as int)) by (nonlinear_arith)
                requires 1 <= w, 0 <= i as int;
        }
        let level = frames[i];
        let step = advance(phase, level, tick, min_silence, min_speech);
        phase = step.0;
        if let Some(iv) = step.1 {
            raw.push(iv);
        }
        tick = tick + window_size;
        i = i + 1;
    }
    proof {
        lemma_run_inv(frames@, window_size, min_silence, min_speech, n);
        assert(0 <= w * n) by (nonlinear_arith)
            requires 1 <= w, 0 <= n;
        assert(w * (n - 1) + w == w * n) by (nonlinear_arith);
    }
    let stream_end = tick;
    match phase {
        SegPhase::Idle => {},
        SegPhase::Speaking { start } => {
            if stream_end - start > min_speech {
                raw.push((start, stream_end));
            }
        },
        SegPhase::Closing { start, silence_start: _ } => {
            if stream_end - start > min_speech {
                raw.push((start, stream_end));
            }
        },
    }
    raw
}

} // verus!
