use kokoro_tiny::engine::SynthesizeOptions;
use kokoro_tiny::presets::{choose_device, emotion_to_voice, pick_preferred_device, AlertType};
use kokoro_tiny::random::random;

#[test]
fn emotion_voices_ignore_case() {
    assert_eq!(emotion_to_voice("HAPPY"), "af_bella");
    assert_eq!(emotion_to_voice("Serious"), "am_adam");
    assert_eq!(emotion_to_voice("polite"), "bf_emma");
    assert_eq!(emotion_to_voice("bored"), "af_sky");
}

#[test]
fn preferred_device_by_keyword() {
    let devs = vec!["Speakers".to_string(), "USB Headset".to_string(), "Voice Chat".to_string()];
    assert_eq!(pick_preferred_device(&devs), Some("Voice Chat".to_string()));
    let devs = vec!["Unknown device".to_string(), "Speakers".to_string()];
    assert_eq!(pick_preferred_device(&devs), Some("Speakers".to_string()));
    let devs = vec!["UNKNOWN".to_string()];
    assert_eq!(pick_preferred_device(&devs), None);
    assert_eq!(pick_preferred_device(&vec![]), None);
}

#[test]
fn device_choice_uses_given_lower_case() {
    let devs = vec!["A".to_string(), "B".to_string()];
    let lowered = vec!["unknown".to_string(), "b".to_string()];
    assert_eq!(choose_device(&devs, &lowered), Some("B".to_string()));
}

#[test]
fn alert_presets() {
    assert_eq!(AlertType::Error.voice(), "am_adam");
    assert_eq!(AlertType::Build.default_message(), "Build process complete.");
    assert_eq!(AlertType::Custom.voice(), "af_heart");
}

#[test]
fn options_builder() {
    let o = SynthesizeOptions::default().voice("af_sky").speed(1100).gain(150);
    assert_eq!(o.voice.as_deref(), Some("af_sky"));
    assert_eq!(o.speed_milli, 1100);
    assert_eq!(o.gain_percent, 150);
    assert!(o.lang.is_none());
}

#[test]
fn random_values_vary() {
    let a: u64 = random();
    let b: u64 = random();
    let c: u64 = random();
    assert!(a != b || b != c);
}
