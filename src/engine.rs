//! Bulk synthesis: which segments a text is synthesized in, how their audio
//! is stitched and finished, and the options of a synthesis call. The voice
//! model and the phonemizer are run by the caller between these steps.

use vstd::prelude::*;
use crate::audio::{
    amplify_audio, amplify_spec, append_with_crossfade, chunk_crossfade_samples,
    crossfade_samples_spec, stitched,
};
use crate::chunker::{needs_chunking, needs_chunking_spec, split_text_spec, MAX_CHARS_PER_CHUNK};
use crate::error::TtsError;
use crate::text::{chars_of, string_views, trim, trim_chars};

verus! {

/// The language tag used when the caller gives none.
pub const DEFAULT_LANG: &'static str = "en";

/// Normal user-facing speed, in thousandths.
pub const DEFAULT_SPEED_MILLI: u32 = 1000;

/// Gain that leaves the audio as it is, in percent.
pub const UNITY_GAIN_PERCENT: u32 = 100;

/// The chunks that are not blank once trimmed.
pub open spec fn non_blank(cs: Seq<Seq<char>>) -> Seq<Seq<char>>
    decreases cs.len(),
{
    if cs.len() == 0 {
        Seq::empty()
    } else if trim(cs.last()).len() > 0 {
        non_blank(cs.drop_last()).push(cs.last())
    } else {
        non_blank(cs.drop_last())
    }
}

/// The segments a text is synthesized in: the text itself when it is short,
/// otherwise its non-blank chunks; `None` when a long text leaves none.
pub open spec fn segment_plan_spec(text: Seq<char>) -> Option<Seq<Seq<char>>> {
    if !needs_chunking_spec(text) {
        Some(seq![text])
    } else {
        let cs = non_blank(split_text_spec(text, MAX_CHARS_PER_CHUNK as int));
        if cs.len() == 0 {
            None
        } else {
            Some(cs)
        }
    }
}

/// The segments `text` is synthesized in: a short text in one pass, a long
/// one as its non-blank chunks of at most `MAX_CHARS_PER_CHUNK` characters.
/// A long text with nothing to say gives `EmptyInput`.
pub fn plan_segments(text: &str) -> (r: Result<Vec<String>, TtsError>)
    ensures
        match segment_plan_spec(text@) {
            Some(v) => r matches Ok(segs) && string_views(segs@) == v,
            None => r matches Err(TtsError::EmptyInput),
        },
{
    if !needs_chunking(text) {
        let mut v: Vec<String> = Vec::new();
        v.push(String::from_str(text));
        assert(string_views(v@) =~= seq![text@]);
        return Ok(v);
    }
    let chunks = crate::chunker::split_text_for_tts(text, MAX_CHARS_PER_CHUNK);
    let ghost all = string_views(chunks@);
    let mut kept: Vec<String> = Vec::new();
    let mut i: usize = 0;
    while i < chunks.len()
        invariant
            i <= chunks.len(),
            all == string_views(chunks@),
            string_views(kept@) == non_blank(all.subrange(0, i as int)),
        decreases chunks.len() - i,
    {
        let ghost sub = all.subrange(0, i + 1);
        assert(sub.drop_last() =~= all.subrange(0, i as int));
        assert(sub.last() == chunks@[i as int]@);
        let cs = chars_of(chunks[i].as_str());
        if trim_chars(&cs).len() > 0 {
            let ghost before = string_views(kept@);
            kept.push(chunks[i].clone());
            assert(string_views(kept@) =~= before.push(chunks@[i as int]@));
        }
        i = i + 1;
    }
    assert(all.subrange(0, chunks.len() as int) =~= all);
    if kept.len() == 0 {
        Err(TtsError::EmptyInput)
    } else {
        Ok(kept)
    }
}

/// Segment audio stitched in order, each joined to what came before by a
/// crossfade of `overlap` samples.
pub open spec fn stitch_all(segs: Seq<Seq<i32>>, overlap: int) -> Seq<i32>
    decreases segs.len(),
{
    if segs.len() == 0 {
        Seq::empty()
    } else {
        stitched(stitch_all(segs.drop_last(), overlap), segs.last(), overlap)
    }
}

pub open spec fn sample_views(v: Seq<Vec<i32>>) -> Seq<Seq<i32>> {
    v.map_values(|a: Vec<i32>| a@)
}

/// Stitches segment audio in order with `overlap_samples` of crossfade
/// between neighbours.
pub fn stitch_segments(segments: &Vec<Vec<i32>>, overlap_samples: usize) -> (r: Vec<i32>)
    ensures
        r@ == stitch_all(sample_views(segments@), overlap_samples as int),
{
    let mut out: Vec<i32> = Vec::new();
    let mut i: usize = 0;
    while i < segments.len()
        invariant
            i <= segments.len(),
            out@ == stitch_all(sample_views(segments@).subrange(0, i as int), overlap_samples as int),
        decreases segments.len() - i,
    {
        let ghost sub = sample_views(segments@).subrange(0, i + 1);
        assert(sub.drop_last() =~= sample_views(segments@).subrange(0, i as int));
        assert(sub.last() == segments@[i as int]@);
        append_with_crossfade(&mut out, &segments[i], overlap_samples);
        i = i + 1;
    }
    assert(sample_views(segments@).subrange(0, segments.len() as int) =~= sample_views(segments@));
    out
}

/// The final gain pass: applied only when the gain is not unity.
pub open spec fn finish_spec(audio: Seq<i32>, gain_percent: u32) -> Seq<i32> {
    if gain_percent == UNITY_GAIN_PERCENT {
        audio
    } else {
        amplify_spec(audio, gain_percent)
    }
}

/// Applies the gain, in percent, with hard clipping; unity gain leaves the
/// audio untouched.
pub fn finish_audio(audio: Vec<i32>, gain_percent: u32) -> (r: Vec<i32>)
    ensures
        r@ == finish_spec(audio@, gain_percent),
{
    if gain_percent == UNITY_GAIN_PERCENT {
        audio
    } else {
        amplify_audio(&audio, gain_percent)
    }
}

/// The audio of a synthesis from the audio of its segments: stitched with
/// the standard crossfade, then finished with the gain. No audio at all is
/// an `InferenceFailed` error.
pub fn combine_segments(segments: &Vec<Vec<i32>>, gain_percent: u32) -> (r: Result<
    Vec<i32>,
    TtsError,
>)
    ensures
        stitch_all(sample_views(segments@), crossfade_samples_spec()).len() == 0 ==> r matches Err(
            TtsError::InferenceFailed(_),
        ),
        stitch_all(sample_views(segments@), crossfade_samples_spec()).len() > 0 ==> (r matches Ok(
            a,
        ) && a@ == finish_spec(
            stitch_all(sample_views(segments@), crossfade_samples_spec()),
            gain_percent,
        )),
{
    let overlap = chunk_crossfade_samples();
    let audio = stitch_segments(segments, overlap);
    if audio.len() == 0 {
        return Err(TtsError::InferenceFailed(String::from_str("no audio was produced")));
    }
    Ok(finish_audio(audio, gain_percent))
}

/// Options of a synthesis call: voice specification, speed in thousandths
/// (1000 is normal), gain in percent (100 is unity), language tag.
#[derive(Debug, Clone)]
pub struct SynthesizeOptions {
    pub voice: Option<String>,
    pub speed_milli: u32,
    pub gain_percent: u32,
    pub lang: Option<String>,
}

impl SynthesizeOptions {
    /// Default options: default voice and language, normal speed, unity gain.
    pub fn new() -> (r: Self)
        ensures
            r.voice is None,
            r.speed_milli == DEFAULT_SPEED_MILLI,
            r.gain_percent == UNITY_GAIN_PERCENT,
            r.lang is None,
    {
        SynthesizeOptions {
            voice: None,
            speed_milli: DEFAULT_SPEED_MILLI,
            gain_percent: UNITY_GAIN_PERCENT,
            lang: None,
        }
    }

    /// The same options with the voice specification set.
    pub fn voice(self, voice: &str) -> (r: Self)
        ensures
            r.voice matches Some(v) && v@ == voice@,
            r.speed_milli == self.speed_milli,
            r.gain_percent == self.gain_percent,
            r.lang == self.lang,
    {
        SynthesizeOptions { voice: Some(String::from_str(voice)), ..self }
    }

    /// The same options with the user-facing speed set, in thousandths.
    pub fn speed(self, speed_milli: u32) -> (r: Self)
        ensures
            r.speed_milli == speed_milli,
            r.voice == self.voice,
            r.gain_percent == self.gain_percent,
            r.lang == self.lang,
    {
        SynthesizeOptions { speed_milli, ..self }
    }

    /// The same options with the gain set, in percent.
    pub fn gain(self, gain_percent: u32) -> (r: Self)
        ensures
            r.gain_percent == gain_percent,
            r.voice == self.voice,
            r.speed_milli == self.speed_milli,
            r.lang == self.lang,
    {
        SynthesizeOptions { gain_percent, ..self }
    }
}

impl Default for SynthesizeOptions {
    fn default() -> (r: Self)
        ensures
            r.voice is None,
            r.speed_milli == DEFAULT_SPEED_MILLI,
            r.gain_percent == UNITY_GAIN_PERCENT,
            r.lang is None,
    {
        SynthesizeOptions::new()
    }
}

/// Bulk synthesis has no hidden state: the same text gives the same
/// segments, and the same segment audio and gain give the same output.
pub proof fn lemma_synthesis_repeatable(
    t1: Seq<char>,
    t2: Seq<char>,
    a1: Seq<Seq<i32>>,
    a2: Seq<Seq<i32>>,
    gain_percent: u32,
)
    requires
        t1 == t2,
        a1 == a2,
    ensures
        segment_plan_spec(t1) == segment_plan_spec(t2),
        finish_spec(stitch_all(a1, crossfade_samples_spec()), gain_percent) == finish_spec(
            stitch_all(a2, crossfade_samples_spec()),
            gain_percent,
        ),
{
}

} // verus!
