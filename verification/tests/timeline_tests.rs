use vad_pipeline::drop_empty_spans;
use vad_pipeline::normalize_timestamps;
use vad_pipeline::pad_intervals;

#[test]
fn three_intervals_normalize() {
    let ts = vec![(22560, 53216), (88064, 650720), (738304, 743904)];
    let spans = normalize_timestamps(&ts, 1000000);
    assert_eq!(
        spans,
        vec![
            (0, 22559, false),
            (22560, 53216, true),
            (53217, 88063, false),
            (88064, 650720, true),
            (650721, 738303, false),
            (738304, 743904, true),
            (743905, 1000000, false),
        ]
    );
}

#[test]
fn single_interval_normalize() {
    let spans = normalize_timestamps(&vec![(188448, 1979360)], 2111165);
    assert_eq!(
        spans,
        vec![(0, 188447, false), (188448, 1979360, true), (1979361, 2111165, false)]
    );
}

#[test]
fn empty_intervals_full_silence() {
    let spans = normalize_timestamps(&vec![], 1000000);
    assert_eq!(spans, vec![(0, 1000000, false)]);
}

#[test]
fn spans_cover_length_exactly() {
    let total: i64 = 1000000;
    let ts = vec![(22560, 53216), (88064, 650720), (738304, 743904)];
    let spans = normalize_timestamps(&ts, total);
    assert_eq!(spans[0].0, 0);
    assert_eq!(spans[spans.len() - 1].1, total);
    let mut sum: i64 = 0;
    for j in 0..spans.len() {
        let (s, e, speech) = spans[j];
        assert_eq!(speech, j % 2 == 1);
        if j + 1 < spans.len() {
            assert_eq!(spans[j + 1].0, e + 1);
        }
        assert!(s <= e + 1);
        sum += e - s + 1;
    }
    assert_eq!(sum, total + 1);
}

#[test]
fn interval_at_zero_keeps_marker() {
    let spans = normalize_timestamps(&vec![(0, 5000)], 10000);
    assert_eq!(spans, vec![(0, -1, false), (0, 5000, true), (5001, 10000, false)]);
}

#[test]
fn drop_empty_spans_removes_markers() {
    let spans = vec![(0, -1, false), (0, 5000, true), (5001, 10000, false)];
    assert_eq!(drop_empty_spans(&spans), vec![(0, 5000, true), (5001, 10000, false)]);
}

#[test]
fn interval_to_end_leaves_trailing_marker() {
    let spans = normalize_timestamps(&vec![(100, 10000)], 10000);
    assert_eq!(spans, vec![(0, 99, false), (100, 10000, true), (10001, 10000, false)]);
    assert_eq!(
        drop_empty_spans(&spans),
        vec![(0, 99, false), (100, 10000, true)]
    );
}

#[test]
fn pad_wide_gap_full_pad() {
    let padded = pad_intervals(&vec![(100, 200), (1000, 1100)], 2000, 30);
    assert_eq!(padded, vec![(70, 230), (970, 1130)]);
}

#[test]
fn pad_small_gap_split() {
    let padded = pad_intervals(&vec![(0, 100), (105, 300)], 1000, 10);
    assert_eq!(padded, vec![(0, 102), (103, 310)]);
}

#[test]
fn pad_even_small_gap_meets_on_boundary() {
    let padded = pad_intervals(&vec![(0, 100), (104, 300)], 1000, 10);
    assert_eq!(padded, vec![(0, 102), (102, 310)]);
}

#[test]
fn pad_clamps_to_timeline() {
    let padded = pad_intervals(&vec![(5, 100)], 90, 30);
    assert_eq!(padded, vec![(0, 90)]);
}

#[test]
fn pad_gap_exactly_twice_pad_meets_on_boundary() {
    let padded = pad_intervals(&vec![(0, 100), (160, 300)], 1000, 30);
    assert_eq!(padded, vec![(0, 130), (130, 330)]);
}
