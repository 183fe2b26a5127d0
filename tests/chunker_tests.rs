use kokoro_tiny::chunker::{needs_chunking, split_by_words, split_text_for_tts};
use kokoro_tiny::engine::plan_segments;
use kokoro_tiny::error::TtsError;

#[test]
fn detects_need_for_chunking() {
    let short = "hello world";
    assert!(!needs_chunking(short));

    let long = "This sentence is intentionally quite a bit longer than the \
                short sample so that it exceeds the chunking threshold we set.";
    assert!(needs_chunking(long));
}

#[test]
fn chunking_threshold_and_lines() {
    assert!(!needs_chunking("hi"));
    assert!(!needs_chunking(&"a".repeat(119)));
    assert!(needs_chunking(&"a".repeat(120)));
    assert!(needs_chunking(&"word ".repeat(40)));
    assert!(!needs_chunking("a\nb\nc"));
    assert!(!needs_chunking("a\nb\nc\n"));
    assert!(needs_chunking("a\nb\nc\nd"));
}

fn tokens(s: &str) -> Vec<String> {
    s.split_whitespace().map(|w| w.to_string()).collect()
}

#[test]
fn split_by_words_packs_greedily() {
    assert_eq!(
        split_by_words("one two three four", 9),
        vec!["one two", "three", "four"]
    );
    assert_eq!(split_by_words("  a   b  ", 10), vec!["a b"]);
    assert_eq!(split_by_words("extraordinarily x", 5), vec!["extraordinarily", "x"]);
    assert!(split_by_words("   ", 5).is_empty());
}

#[test]
fn split_keeps_terminators_and_packs_sentences() {
    let chunks = split_text_for_tts("Hello there. How are you? Fine!", 100);
    assert_eq!(chunks, vec!["Hello there. How are you? Fine!"]);
    let chunks = split_text_for_tts("Hello there. How are you? Fine!", 15);
    assert_eq!(chunks, vec!["Hello there.", "How are you?", "Fine!"]);
}

#[test]
fn split_long_sentence_at_commas_then_words() {
    let chunks = split_text_for_tts("alpha beta, gamma delta epsilon, zeta.", 12);
    assert_eq!(chunks, vec!["alpha beta,", "gamma delta", "epsilon,", "zeta."]);
}

#[test]
fn split_keeps_commas_on_their_clause() {
    assert_eq!(split_text_for_tts("One, two three.", 5), vec!["One,", "two", "three."]);
}

#[test]
fn split_never_cuts_inside_a_token_at_a_comma() {
    assert_eq!(split_text_for_tts("a,b cc dd.", 5), vec!["a,b", "cc", "dd."]);
}

#[test]
fn split_keeps_order_around_long_sentence() {
    let chunks = split_text_for_tts("Hi. one two three four five six. Bye.", 12);
    assert_eq!(chunks, vec!["Hi.", "one two", "three four", "five six.", "Bye."]);
}

#[test]
fn split_without_terminator_uses_word_groups() {
    assert_eq!(split_text_for_tts("a b c d", 3), vec!["a b", "c d"]);
}

#[test]
fn split_preserves_tokens_in_order() {
    let text = "The quick brown fox, jumping high, cleared the fence! Then it ran \
                away across the wide green meadow and into the dark forest beyond. \
                Nobody saw it again?";
    for n in [1usize, 5, 10, 20, 40, 80, 200] {
        let chunks = split_text_for_tts(text, n);
        let joined = chunks.join(" ");
        assert_eq!(tokens(&joined), tokens(text), "budget {}", n);
        for c in &chunks {
            assert!(!c.trim().is_empty());
        }
    }
}

#[test]
fn short_text_is_one_segment() {
    assert_eq!(plan_segments("Hello world!").unwrap(), vec!["Hello world!"]);
    assert_eq!(plan_segments("").unwrap(), vec![""]);
}

#[test]
fn long_text_is_chunked() {
    let text = "This is a sentence that goes on for a while. ".repeat(10);
    let segs = plan_segments(&text).unwrap();
    assert!(segs.len() > 1);
    for s in &segs {
        assert!(s.chars().count() <= 180);
    }
    assert_eq!(plan_segments(&text).unwrap(), segs);
}

#[test]
fn blank_long_text_is_empty_input() {
    let r = plan_segments("  \n  \n  \n  \n");
    assert!(matches!(r, Err(TtsError::EmptyInput)));
}
