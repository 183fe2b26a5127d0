//! The phoneme vocabulary: a fixed ordered alphabet whose positions are the
//! model's token ids.

use vstd::prelude::*;
use crate::text::chars_of;

verus! {

/// Padding symbol, punctuation, Latin letters and IPA symbols, in id order.
/// Where a symbol occurs more than once its last position is its id.
pub const VOCAB_SYMBOLS: &'static str = "$;:,.!?¡¿—…\"«»\"\" ABCDEFGHIJKLMNOPQRSTUVWXYZabcdefghijklmnopqrstuvwxyzɑɐɒæɓʙβɔɕçɗɖðʤəɘɚɛɜɝɞɟʄɡɠɢʛɦɧħɥʜɨɪʝɭɬɫɮʟɱɯɰŋɳɲɴøɵɸθœɶʘɹɺɾɻʀʁɽʂʃʈʧʉʊʋⱱʌɣɤʍχʎʏʑʐʒʔʡʕʢǀǁǂǃˈˌːˑʼʴʰʱʲʷˠˤ˞↓↑→↗↘'̩'ᵻ";

/// The id given to a character outside the alphabet.
pub const UNKNOWN_TOKEN: i64 = 0;

/// The maps from characters to token ids.
pub struct Vocabulary {
    symbols: Vec<char>,
}

/// The last position of `c` in `s`, or -1 if it does not occur.
pub open spec fn last_index_of(s: Seq<char>, c: char) -> int
    decreases s.len(),
{
    if s.len() == 0 {
        -1
    } else if s.last() == c {
        s.len() - 1
    } else {
        last_index_of(s.drop_last(), c)
    }
}

/// The id of `c` in the alphabet `s`: its last position, or the unknown id.
pub open spec fn token_id(s: Seq<char>, c: char) -> int {
    if last_index_of(s, c) >= 0 {
        last_index_of(s, c)
    } else {
        UNKNOWN_TOKEN as int
    }
}

/// One id per character of `text`.
pub open spec fn tokenize_spec(s: Seq<char>, text: Seq<char>) -> Seq<i64> {
    Seq::new(text.len(), |i: int| token_id(s, text[i]) as i64)
}

proof fn lemma_last_index_bounds(s: Seq<char>, c: char)
    ensures
        -1 <= last_index_of(s, c) < s.len(),
        last_index_of(s, c) >= 0 ==> s[last_index_of(s, c)] == c,
    decreases s.len(),
{
    if s.len() > 0 && s.last() != c {
        lemma_last_index_bounds(s.drop_last(), c);
    }
}

impl Vocabulary {
    /// The alphabet, in id order.
    pub closed spec fn symbols(&self) -> Seq<char> {
        self.symbols@
    }

    /// The id of `c`: its last position in the alphabet, or `UNKNOWN_TOKEN`.
    pub fn token_id(&self, c: char) -> (r: i64)
        requires
            self.symbols().len() <= i64::MAX,
        ensures
            r == token_id(self.symbols(), c),
    {
        let mut j: usize = self.symbols.len();
        assert(self.symbols@.subrange(0, j as int) =~= self.symbols@);
        while j > 0
            invariant
                j <= self.symbols@.len(),
                self.symbols@.len() <= i64::MAX,
                last_index_of(self.symbols@, c) == last_index_of(
                    self.symbols@.subrange(0, j as int),
                    c,
                ),
            decreases j,
        {
            let ghost sub = self.symbols@.subrange(0, j as int);
            assert(sub.drop_last() =~= self.symbols@.subrange(0, j - 1));
            if self.symbols[j - 1] == c {
                return (j - 1) as i64;
            }
            j = j - 1;
        }
        proof {
            lemma_last_index_bounds(self.symbols@, c);
        }
        UNKNOWN_TOKEN
    }

    /// One id per character of `text`; characters outside the alphabet get
    /// `UNKNOWN_TOKEN`.
    pub fn tokenize(&self, text: &str) -> (r: Vec<i64>)
        requires
            self.symbols().len() <= i64::MAX,
        ensures
            r@ == tokenize_spec(self.symbols(), text@),
    {
        let cs = chars_of(text);
        self.tokenize_chars(&cs)
    }

    /// One id per character of `cs`.
    pub fn tokenize_chars(&self, cs: &Vec<char>) -> (r: Vec<i64>)
        requires
            self.symbols().len() <= i64::MAX,
        ensures
            r@ == tokenize_spec(self.symbols(), cs@),
    {
        let mut out: Vec<i64> = Vec::new();
        let mut i: usize = 0;
        while i < cs.len()
            invariant
                i <= cs.len(),
                self.symbols@.len() <= i64::MAX,
                out@ == tokenize_spec(self.symbols@, cs@).subrange(0, i as int),
            decreases cs.len() - i,
        {
            let id = self.token_id(cs[i]);
            out.push(id);
            i = i + 1;
            assert(out@ =~= tokenize_spec(self.symbols@, cs@).subrange(0, i as int));
        }
        assert(out@ =~= tokenize_spec(self.symbols@, cs@));
        out
    }
}

/// The vocabulary of the voice model: `VOCAB_SYMBOLS`, in order.
pub fn build_vocab() -> (r: Vocabulary)
    ensures
        r.symbols() == VOCAB_SYMBOLS@,
        r.symbols().len() <= i64::MAX,
{
    let symbols = chars_of(VOCAB_SYMBOLS);
    proof {
        reveal_strlit("$;:,.!?¡¿—…\"«»\"\" ABCDEFGHIJKLMNOPQRSTUVWXYZabcdefghijklmnopqrstuvwxyzɑɐɒæɓʙβɔɕçɗɖðʤəɘɚɛɜɝɞɟʄɡɠɢʛɦɧħɥʜɨɪʝɭɬɫɮʟɱɯɰŋɳɲɴøɵɸθœɶʘɹɺɾɻʀʁɽʂʃʈʧʉʊʋⱱʌɣɤʍχʎʏʑʐʒʔʡʕʢǀǁǂǃˈˌːˑʼʴʰʱʲʷˠˤ˞↓↑→↗↘'̩'ᵻ");
    }
    assert(VOCAB_SYMBOLS@.len() == 178);
    Vocabulary { symbols }
}

} // verus!
