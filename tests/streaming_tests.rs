use kokoro_tiny::error::TtsError;
use kokoro_tiny::streaming::{split_into_chunks, PlaybackStep, ProducerStep, StreamState, StreamingTts};

#[test]
fn test_chunk_splitting() {
    let text = "This is a test. It has multiple sentences! Should be split correctly?";
    let chunks = split_into_chunks(text);
    assert!(chunks.len() > 0);
    for chunk in &chunks {
        assert!(chunk.len() <= 50 * 10); // rough character estimate
    }
}

#[test]
fn stream_chunks_per_sentence() {
    let chunks = split_into_chunks("Hello there. Bye!\nok");
    assert_eq!(chunks, vec!["Hello there .", "Bye .", "ok ."]);
}

#[test]
fn stream_chunks_overlap_at_clauses() {
    let text = "w1 w2 w3 w4 w5 w6 w7 w8 w9 w10 w11 w12, w13 w14";
    let chunks = split_into_chunks(text);
    assert_eq!(
        chunks,
        vec![
            "w1 w2 w3 w4 w5 w6 w7 w8 w9 w10 w11 w12,",
            "w8 w9 w10 w11 w12, w13 w14 .",
        ]
    );
}

fn multi_chunk_text() -> String {
    let mut s = String::new();
    for i in 0..6 {
        s.push_str(&format!("Sentence number {} goes here. ", i));
    }
    s
}

#[test]
fn stream_plays_chunks_in_order() {
    let mut tts = StreamingTts::new();
    let n = tts.speak_stream("One. Two. Three.").unwrap();
    assert_eq!(n, 3);
    assert!(tts.is_speaking());
    let mut played = Vec::new();
    let mut k = 0;
    loop {
        match tts.next_chunk() {
            ProducerStep::Synthesize(c) => {
                assert!(tts.deliver(vec![k; 2]));
                k += 1;
                let _ = c;
            }
            ProducerStep::Wait => {}
            ProducerStep::Finished => {}
        }
        match tts.next_playback() {
            PlaybackStep::Play(a) => played.push(a[0]),
            PlaybackStep::Wait => {}
            PlaybackStep::Stop => break,
        }
    }
    assert_eq!(played, vec![0, 1, 2]);
    assert!(!tts.is_speaking());
    assert_eq!(tts.state(), StreamState::Idle);
}

#[test]
fn queue_is_bounded() {
    let mut tts = StreamingTts::new();
    tts.speak_stream(&multi_chunk_text()).unwrap();
    for _ in 0..3 {
        match tts.next_chunk() {
            ProducerStep::Synthesize(_) => assert!(tts.deliver(vec![1])),
            _ => panic!("expected a chunk"),
        }
    }
    assert!(matches!(tts.next_chunk(), ProducerStep::Wait));
    assert!(matches!(tts.next_playback(), PlaybackStep::Play(_)));
    assert!(matches!(tts.next_chunk(), ProducerStep::Synthesize(_)));
}

#[test]
fn interrupt_stops_stream() {
    let mut tts = StreamingTts::new();
    let n = tts.speak_stream(&multi_chunk_text()).unwrap();
    assert!(n > 3);
    match tts.next_chunk() {
        ProducerStep::Synthesize(_) => assert!(tts.deliver(vec![1, 2, 3])),
        _ => panic!("expected a chunk"),
    }
    assert!(matches!(tts.next_chunk(), ProducerStep::Synthesize(_)));
    tts.interrupt();
    assert!(!tts.is_speaking());
    assert_eq!(tts.state(), StreamState::Interrupted);
    // the chunk that was in synthesis is not queued
    assert!(!tts.deliver(vec![4, 5]));
    assert!(matches!(tts.next_chunk(), ProducerStep::Finished));
    assert!(matches!(tts.next_playback(), PlaybackStep::Stop));
    // a new stream may start afterwards
    assert!(tts.speak_stream("Again.").is_ok());
}

#[test]
fn second_stream_is_refused() {
    let mut tts = StreamingTts::new();
    tts.speak_stream("One. Two.").unwrap();
    assert!(matches!(tts.speak_stream("Three."), Err(TtsError::AlreadySpeaking)));
}

#[test]
fn failed_chunk_is_skipped() {
    let mut tts = StreamingTts::new();
    tts.speak_stream("One. Two.").unwrap();
    assert!(matches!(tts.next_chunk(), ProducerStep::Synthesize(_)));
    tts.chunk_failed();
    match tts.next_chunk() {
        ProducerStep::Synthesize(c) => assert_eq!(c, "Two ."),
        _ => panic!("expected the second chunk"),
    }
}

#[test]
fn parameters_and_voice() {
    let mut tts = StreamingTts::new();
    assert_eq!(tts.voice(), "af_sky");
    assert_eq!(tts.speed_milli(), 850);
    tts.set_voice("am_adam");
    tts.set_parameters(1000, 120, 50);
    assert_eq!(tts.voice(), "am_adam");
    assert_eq!(tts.speed_milli(), 1000);
    assert_eq!(tts.gain_percent(), 120);
    assert_eq!(tts.volume_percent(), 50);
}
