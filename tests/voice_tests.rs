use kokoro_tiny::error::TtsError;
use kokoro_tiny::segment::{model_speed, padded_phoneme_text, segment_tokens};
use kokoro_tiny::vocab::build_vocab;
use kokoro_tiny::voice::parse_voice_style;

fn names() -> Vec<String> {
    vec!["af_sky".to_string(), "af_bella".to_string()]
}

#[test]
fn blended_voice_weights() {
    let mix = parse_voice_style("af_sky.8+af_bella.2", &names()).unwrap();
    assert_eq!(mix.len(), 2);
    assert_eq!(mix[0].name, "af_sky");
    assert_eq!(mix[0].tenths, 8);
    assert_eq!(mix[1].name, "af_bella");
    assert_eq!(mix[1].tenths, 2);
}

#[test]
fn plain_voice_has_full_weight() {
    let mix = parse_voice_style("af_bella", &names()).unwrap();
    assert_eq!(mix.len(), 1);
    assert_eq!(mix[0].name, "af_bella");
    assert_eq!(mix[0].tenths, 10);
}

#[test]
fn unknown_voice_is_not_found() {
    match parse_voice_style("af_sky.5+am_nobody.5", &names()) {
        Err(TtsError::VoiceNotFound(n)) => assert_eq!(n, "am_nobody"),
        other => panic!("unexpected {:?}", other),
    }
}

#[test]
fn malformed_voice_specs() {
    match parse_voice_style("af_sky.x", &names()) {
        Err(TtsError::MalformedVoiceSpec(p)) => assert_eq!(p, "x"),
        other => panic!("unexpected {:?}", other),
    }
    match parse_voice_style("af_sky.1.2", &names()) {
        Err(TtsError::MalformedVoiceSpec(p)) => assert_eq!(p, "af_sky.1.2"),
        other => panic!("unexpected {:?}", other),
    }
    match parse_voice_style("af_sky.", &names()) {
        Err(TtsError::MalformedVoiceSpec(p)) => assert_eq!(p, ""),
        other => panic!("unexpected {:?}", other),
    }
}

#[test]
fn vocabulary_ids() {
    let v = build_vocab();
    assert_eq!(v.token_id('$'), 0);
    assert_eq!(v.token_id(';'), 1);
    assert_eq!(v.token_id('"'), 15);
    assert_eq!(v.token_id(' '), 16);
    assert_eq!(v.token_id('A'), 17);
    assert_eq!(v.token_id('a'), 43);
    assert_eq!(v.token_id('ə'), 83);
    assert_eq!(v.token_id('ˈ'), 156);
    assert_eq!(v.token_id('#'), 0);
    assert_eq!(v.tokenize("ab?"), vec![43, 44, 6]);
}

#[test]
fn segment_is_padded_and_tokenized() {
    let phonemes = vec!["hə".to_string(), "lˈoʊ".to_string()];
    assert_eq!(padded_phoneme_text(&phonemes), "$$$hə lˈoʊ$$$");
    let v = build_vocab();
    let toks = segment_tokens(&v, &phonemes);
    assert_eq!(toks.len(), 13);
    assert_eq!(&toks[..3], &[0, 0, 0]);
    assert_eq!(toks[3], v.token_id('h'));
    assert_eq!(toks[4], 83);
    assert_eq!(toks[5], 16);
    assert_eq!(&toks[10..], &[0, 0, 0]);
    assert_eq!(segment_tokens(&v, &vec![]), vec![0; 6]);
}

#[test]
fn model_speed_is_scaled_and_clamped() {
    assert_eq!(model_speed(1000), 650);
    assert_eq!(model_speed(2000), 1300);
    assert_eq!(model_speed(100), 350);
    assert_eq!(model_speed(5000), 2200);
}
