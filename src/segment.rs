//! Preparation of one segment for the voice model: padded phoneme text, its
//! token ids, and the speed the model is given.

use vstd::prelude::*;
use crate::text::{append_chars, chars_of, string_of, string_views};
use crate::vocab::{tokenize_spec, Vocabulary};

verus! {

/// The symbol put around the phoneme text so that the model does not drop
/// the first and last words.
pub const PAD_TOKEN: char = '$';

/// How many padding symbols go on each side.
pub const PAD_REPEAT: usize = 3;

/// The model speed for a user speed of 1.0 is this many hundredths of it.
pub const SPEED_SCALE_PERCENT: u32 = 65;

/// Lowest model speed, in thousandths; slower settings degrade the output.
pub const MIN_ENGINE_SPEED_MILLI: u32 = 350;

/// Highest model speed, in thousandths.
pub const MAX_ENGINE_SPEED_MILLI: u32 = 2200;

/// The phonemes joined with single spaces.
pub open spec fn join_phonemes(ps: Seq<Seq<char>>) -> Seq<char>
    decreases ps.len(),
{
    if ps.len() == 0 {
        Seq::empty()
    } else if ps.len() == 1 {
        ps[0]
    } else {
        join_phonemes(ps.drop_last()) + seq![' '] + ps.last()
    }
}

pub open spec fn padding() -> Seq<char> {
    Seq::new(PAD_REPEAT as nat, |i: int| PAD_TOKEN)
}

/// The text handed to the tokenizer: padding, the phonemes joined with
/// spaces, padding.
pub open spec fn padded_phonemes(ps: Seq<Seq<char>>) -> Seq<char> {
    padding() + join_phonemes(ps) + padding()
}

fn push_padding(out: &mut Vec<char>)
    ensures
        final(out)@ == old(out)@ + padding(),
{
    let ghost o = out@;
    let mut k: usize = 0;
    while k < PAD_REPEAT
        invariant
            k <= PAD_REPEAT,
            out@ == o + Seq::new(k as nat, |i: int| PAD_TOKEN),
        decreases PAD_REPEAT - k,
    {
        out.push(PAD_TOKEN);
        k = k + 1;
        assert(out@ =~= o + Seq::new(k as nat, |i: int| PAD_TOKEN));
    }
}

fn padded_chars(phonemes: &Vec<String>) -> (r: Vec<char>)
    ensures
        r@ == padded_phonemes(string_views(phonemes@)),
{
    let mut out: Vec<char> = Vec::new();
    push_padding(&mut out);
    let mut i: usize = 0;
    while i < phonemes.len()
        invariant
            i <= phonemes.len(),
            out@ == padding() + join_phonemes(string_views(phonemes@).subrange(0, i as int)),
        decreases phonemes.len() - i,
    {
        let ghost sub = string_views(phonemes@).subrange(0, i + 1);
        assert(sub.drop_last() =~= string_views(phonemes@).subrange(0, i as int));
        assert(sub.last() == phonemes@[i as int]@);
        if i > 0 {
            out.push(' ');
        }
        let p = chars_of(phonemes[i].as_str());
        append_chars(&mut out, &p);
        i = i + 1;
        proof {
            if i == 1 {
                assert(join_phonemes(sub) == sub[0]);
                assert(join_phonemes(string_views(phonemes@).subrange(0, 0)) =~= Seq::<
                    char,
                >::empty());
            }
        }
        assert(out@ =~= padding() + join_phonemes(string_views(phonemes@).subrange(0, i as int)));
    }
    assert(string_views(phonemes@).subrange(0, phonemes.len() as int) =~= string_views(
        phonemes@,
    ));
    push_padding(&mut out);
    out
}

/// The phoneme text of a segment: the phonemes joined with single spaces,
/// with `PAD_REPEAT` padding symbols on each side.
pub fn padded_phoneme_text(phonemes: &Vec<String>) -> (r: String)
    ensures
        r@ == padded_phonemes(string_views(phonemes@)),
{
    let cs = padded_chars(phonemes);
    string_of(&cs)
}

/// The token ids that the model is given for a segment with these phonemes.
pub fn segment_tokens(vocab: &Vocabulary, phonemes: &Vec<String>) -> (r: Vec<i64>)
    requires
        vocab.symbols().len() <= i64::MAX,
    ensures
        r@ == tokenize_spec(vocab.symbols(), padded_phonemes(string_views(phonemes@))),
{
    let cs = padded_chars(phonemes);
    vocab.tokenize_chars(&cs)
}

/// The model speed, in thousandths, for a user speed in thousandths: scaled
/// by `SPEED_SCALE_PERCENT` and clamped to the range in which the model
/// behaves.
pub open spec fn model_speed_spec(user_speed_milli: u32) -> int {
    let m = user_speed_milli as int * SPEED_SCALE_PERCENT as int / 100;
    if m < MIN_ENGINE_SPEED_MILLI as int {
        MIN_ENGINE_SPEED_MILLI as int
    } else if m > MAX_ENGINE_SPEED_MILLI as int {
        MAX_ENGINE_SPEED_MILLI as int
    } else {
        m
    }
}

/// The speed the model is given, in thousandths, for a user-facing speed in
/// thousandths (1000 is normal speed).
pub fn model_speed(user_speed_milli: u32) -> (r: u32)
    ensures
        r == model_speed_spec(user_speed_milli),
{
    let m = (user_speed_milli as u64) * (SPEED_SCALE_PERCENT as u64) / 100;
    if m < MIN_ENGINE_SPEED_MILLI as u64 {
        MIN_ENGINE_SPEED_MILLI
    } else if m > MAX_ENGINE_SPEED_MILLI as u64 {
        MAX_ENGINE_SPEED_MILLI
    } else {
        m as u32
    }
}

} // verus!
