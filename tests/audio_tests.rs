use kokoro_tiny::audio::{
    amplify_audio, append_with_crossfade, chunk_crossfade_samples, crossfade_audio, SAMPLE_UNIT,
};
use kokoro_tiny::engine::{combine_segments, finish_audio, stitch_segments};
use kokoro_tiny::error::TtsError;

#[test]
fn crossfade_extends_buffer() {
    let mut buffer = vec![SAMPLE_UNIT, SAMPLE_UNIT, SAMPLE_UNIT];
    let next = vec![0, 0, 0];
    append_with_crossfade(&mut buffer, &next, 2);
    // 3 + 3 - overlap
    assert_eq!(buffer.len(), 4);
    // the last sample comes from the next chunk
    assert_eq!(*buffer.last().unwrap(), 0);
}

#[test]
fn crossfade_blends_linearly() {
    let mut buffer = vec![SAMPLE_UNIT, SAMPLE_UNIT, SAMPLE_UNIT];
    let next = vec![0, 0, 0];
    append_with_crossfade(&mut buffer, &next, 2);
    assert_eq!(buffer, vec![SAMPLE_UNIT, SAMPLE_UNIT, SAMPLE_UNIT / 2, 0]);
}

#[test]
fn crossfade_into_empty_buffer_appends() {
    let mut buffer: Vec<i32> = Vec::new();
    append_with_crossfade(&mut buffer, &vec![5, 6, 7], 2);
    assert_eq!(buffer, vec![5, 6, 7]);
    append_with_crossfade(&mut buffer, &vec![], 2);
    assert_eq!(buffer, vec![5, 6, 7]);
    append_with_crossfade(&mut buffer, &vec![1, 2], 0);
    assert_eq!(buffer, vec![5, 6, 7, 1, 2]);
}

#[test]
fn crossfade_negative_samples_round_toward_zero() {
    let mut buffer = vec![-3, -3];
    append_with_crossfade(&mut buffer, &vec![0, 0], 2);
    // i = 0: -3; i = 1: (-3 * 1 + 0) / 2 = -1 (toward zero)
    assert_eq!(buffer, vec![-3, -1]);
}

#[test]
fn test_crossfade() {
    let chunk1 = vec![SAMPLE_UNIT; 100];
    let chunk2 = vec![SAMPLE_UNIT / 2; 100];
    let result = crossfade_audio(&chunk1, &chunk2, 10);
    assert_eq!(result.len(), 190); // 100 + 100 - 10
}

#[test]
fn crossfade_audio_keeps_every_sample_of_short_chunks() {
    let result = crossfade_audio(&vec![8, 8], &vec![1, 2, 3, 4, 5, 6, 7, 8, 9, 10], 5);
    // two samples are blended (over two), the rest of the second chunk follows
    assert_eq!(result, vec![8, 5, 3, 4, 5, 6, 7, 8, 9, 10]);
}

#[test]
fn crossfade_audio_exact_values() {
    let result = crossfade_audio(&vec![10, 10, 10], &vec![0, 0, 0], 2);
    assert_eq!(result, vec![10, 10, 5, 0]);
}

#[test]
fn crossfade_length_is_45_ms() {
    assert_eq!(chunk_crossfade_samples(), 1080);
}

#[test]
fn amplify_clips_and_keeps_unity() {
    // 0.9 at gain 2.0 clips to 1.0
    assert_eq!(amplify_audio(&vec![29491], 200), vec![SAMPLE_UNIT]);
    // 0.1 at gain 1.0 is unchanged
    assert_eq!(amplify_audio(&vec![3277], 100), vec![3277]);
    assert_eq!(amplify_audio(&vec![-29491], 200), vec![-SAMPLE_UNIT]);
    assert_eq!(amplify_audio(&vec![1000, -1001], 50), vec![500, -500]);
}

#[test]
fn finish_applies_gain_only_off_unity() {
    assert_eq!(finish_audio(vec![40000], 100), vec![40000]);
    assert_eq!(finish_audio(vec![40000], 101), vec![SAMPLE_UNIT]);
}

#[test]
fn stitching_joins_in_order() {
    let segs = vec![vec![4, 4, 4], vec![0, 0, 0]];
    assert_eq!(stitch_segments(&segs, 2), vec![4, 4, 2, 0]);
    assert_eq!(stitch_segments(&segs, 0), vec![4, 4, 4, 0, 0, 0]);
}

#[test]
fn combining_nothing_is_an_inference_failure() {
    let r = combine_segments(&vec![vec![], vec![]], 100);
    assert!(matches!(r, Err(TtsError::InferenceFailed(_))));
}

#[test]
fn combining_is_repeatable() {
    let segs = vec![vec![100; 2000], vec![-50; 3000]];
    let a = combine_segments(&segs, 150).unwrap();
    let b = combine_segments(&segs, 150).unwrap();
    assert_eq!(a, b);
    assert_eq!(a.len(), 2000 + 3000 - 1080);
}
