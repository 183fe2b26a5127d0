//! Splitting long text into bounded segments at sentence, clause and word
//! boundaries.

use vstd::prelude::*;
use crate::text::{
    append_chars, chars_of, flat_tokens, has_content, is_term, is_terminator, is_whitespace, is_ws,
    lemma_flat_tokens_concat, lemma_flat_tokens_push, lemma_flat_tokens_single,
    lemma_pieces_concat, lemma_pieces_content, lemma_tokens_join_space, lemma_tokens_lead,
    lemma_tokens_of_tokens, lemma_tokens_trim, lemma_trim_content, lemma_trim_start_split,
    string_views, strings_of, trim, trim_chars, trim_end, trim_start, views, ws_tokens,
    ws_tokens_of,
};

verus! {

/// Texts of this many characters or more are always chunked.
pub const LONG_TEXT_THRESHOLD: usize = 120;

/// Texts spanning more than this many lines are always chunked.
pub const MAX_SHORT_TEXT_LINES: usize = 3;

/// Character budget of one chunk in bulk synthesis.
pub const MAX_CHARS_PER_CHUNK: usize = 180;

pub open spec fn newline_count(s: Seq<char>) -> nat
    decreases s.len(),
{
    if s.len() == 0 {
        0
    } else {
        newline_count(s.drop_last()) + if s.last() == '\n' {
            1nat
        } else {
            0nat
        }
    }
}

/// Number of lines, as `str::lines` counts them: a final line break does not
/// open a new line.
pub open spec fn line_count(s: Seq<char>) -> nat {
    newline_count(s) + if s.len() > 0 && s.last() != '\n' {
        1nat
    } else {
        0nat
    }
}

/// Whether a text is long enough, in characters or in lines, to be split
/// before synthesis.
pub open spec fn needs_chunking_spec(s: Seq<char>) -> bool {
    s.len() >= LONG_TEXT_THRESHOLD || line_count(s) > MAX_SHORT_TEXT_LINES
}

/// Whether `text` must be split before synthesis: it has at least
/// `LONG_TEXT_THRESHOLD` characters or spans more than
/// `MAX_SHORT_TEXT_LINES` lines.
pub fn needs_chunking(text: &str) -> (r: bool)
    ensures
        r == needs_chunking_spec(text@),
{
    let cs = chars_of(text);
    let mut nl: usize = 0;
    let mut i: usize = 0;
    while i < cs.len()
        invariant
            i <= cs.len(),
            nl == newline_count(cs@.subrange(0, i as int)),
            nl <= i,
        decreases cs.len() - i,
    {
        assert(cs@.subrange(0, i + 1).drop_last() =~= cs@.subrange(0, i as int));
        if cs[i] == '\n' {
            nl = nl + 1;
        }
        i = i + 1;
    }
    assert(cs@.subrange(0, cs.len() as int) =~= cs@);
    let many_lines = if cs.len() > 0 && cs[cs.len() - 1] != '\n' {
        nl >= MAX_SHORT_TEXT_LINES
    } else {
        nl > MAX_SHORT_TEXT_LINES
    };
    cs.len() >= LONG_TEXT_THRESHOLD || many_lines
}

/// `a`, a space, then `b`; or `b` alone when `a` is empty.
pub open spec fn join_space(a: Seq<char>, b: Seq<char>) -> Seq<char> {
    if a.len() > 0 {
        a + seq![' '] + b
    } else {
        b
    }
}

/// Greedy packing of `items` into groups joined by single spaces: an item
/// opens a new group when adding it, with its space, to a non-empty group
/// would exceed `max` characters. The state is (closed groups, open group).
pub open spec fn pack_state(items: Seq<Seq<char>>, max: int) -> (Seq<Seq<char>>, Seq<char>)
    decreases items.len(),
{
    if items.len() == 0 {
        (Seq::empty(), Seq::empty())
    } else {
        let st = pack_state(items.drop_last(), max);
        let w = items.last();
        if st.1.len() > 0 && st.1.len() + w.len() + 1 > max {
            (st.0.push(st.1), w)
        } else {
            (st.0, join_space(st.1, w))
        }
    }
}

/// The closed groups, followed by the open one if it is not empty.
pub open spec fn close(st: (Seq<Seq<char>>, Seq<char>)) -> Seq<Seq<char>> {
    if st.1.len() > 0 {
        st.0.push(st.1)
    } else {
        st.0
    }
}

/// Word groups of `s`: its whitespace-separated tokens packed greedily into
/// groups of at most `max` characters (a token longer than that stands alone).
pub open spec fn split_by_words_spec(s: Seq<char>, max: int) -> Seq<Seq<char>> {
    close(pack_state(ws_tokens(s), max))
}

/// Is `exceeds(cur, w, max)` when `|cur| + |w| + 1 > max`, computed without
/// overflow.
fn exceeds(cur_len: usize, w_len: usize, max: usize) -> (r: bool)
    ensures
        r == (cur_len + w_len + 1 > max),
{
    cur_len >= max || w_len >= max - cur_len
}

/// Packs items greedily into groups of at most `max` characters.
fn pack(items: &Vec<Vec<char>>, max: usize) -> (r: Vec<Vec<char>>)
    ensures
        views(r@) == close(pack_state(views(items@), max as int)),
{
    let mut groups: Vec<Vec<char>> = Vec::new();
    let mut cur: Vec<char> = Vec::new();
    let mut i: usize = 0;
    while i < items.len()
        invariant
            i <= items.len(),
            (views(groups@), cur@) == pack_state(views(items@).subrange(0, i as int), max as int),
        decreases items.len() - i,
    {
        let ghost sub = views(items@).subrange(0, i + 1);
        assert(sub.drop_last() =~= views(items@).subrange(0, i as int));
        assert(sub.last() == items@[i as int]@);
        let w = &items[i];
        if cur.len() > 0 && exceeds(cur.len(), w.len(), max) {
            let ghost before = views(groups@);
            let full = cur;
            groups.push(full);
            assert(views(groups@) =~= before.push(full@));
            cur = w.clone();
            assert(cur@ =~= w@);
        } else {
            if cur.len() > 0 {
                cur.push(' ');
            }
            append_chars(&mut cur, w);
        }
        i = i + 1;
    }
    assert(views(items@).subrange(0, items.len() as int) =~= views(items@));
    if cur.len() > 0 {
        let ghost before = views(groups@);
        let last = cur;
        groups.push(last);
        assert(views(groups@) =~= before.push(last@));
    }
    groups
}

fn split_words_chars(s: &Vec<char>, max: usize) -> (r: Vec<Vec<char>>)
    ensures
        views(r@) == split_by_words_spec(s@, max as int),
{
    let toks = ws_tokens_of(s);
    pack(&toks, max)
}

/// Splits `text` into groups of whole words joined by single spaces, each
/// group closed when the next word would take it past `max_chars` characters.
pub fn split_by_words(text: &str, max_chars: usize) -> (r: Vec<String>)
    ensures
        string_views(r@) == split_by_words_spec(text@, max_chars as int),
{
    let cs = chars_of(text);
    let groups = split_words_chars(&cs, max_chars);
    strings_of(&groups)
}

/// Sentences of `s` with the terminator that followed each: the state is
/// (sentences so far, text since the last terminator). A fragment that is
/// blank once trimmed is dropped.
pub open spec fn sentence_state(s: Seq<char>) -> (Seq<Seq<char>>, Seq<char>)
    decreases s.len(),
{
    if s.len() == 0 {
        (Seq::empty(), Seq::empty())
    } else {
        let st = sentence_state(s.drop_last());
        let c = s.last();
        if is_term(c) {
            if trim(st.1).len() > 0 {
                (st.0.push(trim(st.1).push(c)), Seq::empty())
            } else {
                (st.0, Seq::empty())
            }
        } else {
            (st.0, st.1.push(c))
        }
    }
}

/// The sentences of `s`, each trimmed and followed by its terminator; a last
/// sentence without terminator is kept as it is, trimmed.
pub open spec fn sentences(s: Seq<char>) -> Seq<Seq<char>> {
    let st = sentence_state(s);
    if trim(st.1).len() > 0 {
        st.0.push(trim(st.1))
    } else {
        st.0
    }
}

/// The clauses of `s`: it is cut after each comma that ends a token (one
/// followed by whitespace), the comma staying with the clause before it.
/// The state is (clauses so far, open clause).
pub open spec fn comma_state(s: Seq<char>) -> (Seq<Seq<char>>, Seq<char>)
    decreases s.len(),
{
    if s.len() == 0 {
        (Seq::empty(), Seq::empty())
    } else {
        let st = comma_state(s.drop_last());
        let c = s.last();
        if is_ws(c) && st.1.len() > 0 && st.1.last() == ',' {
            (st.0.push(st.1), seq![c])
        } else {
            (st.0, st.1.push(c))
        }
    }
}

/// The clauses of `s`, each comma kept at the end of its clause.
pub open spec fn comma_parts(s: Seq<char>) -> Seq<Seq<char>> {
    let st = comma_state(s);
    st.0.push(st.1)
}

/// One comma part of an over-long sentence: split into word groups if it is
/// still too long, dropped if blank, otherwise trimmed.
pub open spec fn part_chunks(p: Seq<char>, max: int) -> Seq<Seq<char>> {
    if trim(p).len() > max {
        split_by_words_spec(p, max)
    } else if trim(p).len() > 0 {
        seq![trim(p)]
    } else {
        Seq::empty()
    }
}

pub open spec fn parts_chunks(ps: Seq<Seq<char>>, max: int) -> Seq<Seq<char>>
    decreases ps.len(),
{
    if ps.len() == 0 {
        Seq::empty()
    } else {
        parts_chunks(ps.drop_last(), max) + part_chunks(ps.last(), max)
    }
}

/// Chunks of a sentence longer than the budget: split into clauses if it
/// has a comma that ends a token, otherwise into word groups.
pub open spec fn long_sentence_chunks(s: Seq<char>, max: int) -> Seq<Seq<char>> {
    if comma_parts(s).len() > 1 {
        parts_chunks(comma_parts(s), max)
    } else {
        split_by_words_spec(s, max)
    }
}

/// Packing of sentences into chunks: the state is (closed chunks, open
/// chunk). A sentence over the budget closes the open chunk and is split on
/// its own.
pub open spec fn plan_state(sents: Seq<Seq<char>>, max: int) -> (Seq<Seq<char>>, Seq<char>)
    decreases sents.len(),
{
    if sents.len() == 0 {
        (Seq::empty(), Seq::empty())
    } else {
        let st = plan_state(sents.drop_last(), max);
        let s = sents.last();
        if s.len() > max {
            (close(st) + long_sentence_chunks(s, max), Seq::empty())
        } else if st.1.len() > 0 && st.1.len() + s.len() + 1 > max {
            (st.0.push(st.1), s)
        } else {
            (st.0, join_space(st.1, s))
        }
    }
}

pub open spec fn has_terminator(s: Seq<char>) -> bool {
    exists|i: int| 0 <= i < s.len() && is_term(#[trigger] s[i])
}

/// The chunk plan of `text` under a budget of `max` characters per chunk.
pub open spec fn split_text_spec(text: Seq<char>, max: int) -> Seq<Seq<char>> {
    if !has_terminator(text) {
        split_by_words_spec(text, max)
    } else {
        let r = close(plan_state(sentences(text), max));
        if r.len() == 0 && trim(text).len() > 0 {
            split_by_words_spec(text, max)
        } else {
            r
        }
    }
}

proof fn lemma_views_concat(a: Seq<Vec<char>>, b: Seq<Vec<char>>)
    ensures
        views(a + b) == views(a) + views(b),
{
    assert(views(a + b) =~= views(a) + views(b));
}

/// Moves every item of `src` to the end of `dst`.
fn append_all(dst: &mut Vec<Vec<char>>, src: Vec<Vec<char>>)
    ensures
        views(final(dst)@) == views(old(dst)@) + views(src@),
{
    let mut src = src;
    let ghost a = dst@;
    let ghost b = src@;
    dst.append(&mut src);
    proof {
        lemma_views_concat(a, b);
    }
}

/// Sentences of a character sequence (see `sentences`).
fn sentences_of(cs: &Vec<char>) -> (r: Vec<Vec<char>>)
    ensures
        views(r@) == sentences(cs@),
{
    let mut done: Vec<Vec<char>> = Vec::new();
    let mut cur: Vec<char> = Vec::new();
    let mut i: usize = 0;
    while i < cs.len()
        invariant
            i <= cs.len(),
            (views(done@), cur@) == sentence_state(cs@.subrange(0, i as int)),
        decreases cs.len() - i,
    {
        let ghost sub = cs@.subrange(0, i + 1);
        assert(sub.drop_last() =~= cs@.subrange(0, i as int));
        assert(sub.last() == cs@[i as int]);
        let c = cs[i];
        if is_terminator(c) {
            let mut t = trim_chars(&cur);
            if t.len() > 0 {
                t.push(c);
                let ghost before = views(done@);
                done.push(t);
                assert(views(done@) =~= before.push(t@));
            }
            cur = Vec::new();
        } else {
            cur.push(c);
        }
        i = i + 1;
    }
    assert(cs@.subrange(0, cs.len() as int) =~= cs@);
    let t = trim_chars(&cur);
    if t.len() > 0 {
        let ghost before = views(done@);
        done.push(t);
        assert(views(done@) =~= before.push(t@));
    }
    done
}

/// The clauses of a character sequence (see `comma_parts`).
fn comma_parts_of(cs: &Vec<char>) -> (r: Vec<Vec<char>>)
    ensures
        views(r@) == comma_parts(cs@),
{
    let mut done: Vec<Vec<char>> = Vec::new();
    let mut cur: Vec<char> = Vec::new();
    let mut i: usize = 0;
    while i < cs.len()
        invariant
            i <= cs.len(),
            (views(done@), cur@) == comma_state(cs@.subrange(0, i as int)),
        decreases cs.len() - i,
    {
        let ghost sub = cs@.subrange(0, i + 1);
        assert(sub.drop_last() =~= cs@.subrange(0, i as int));
        assert(sub.last() == cs@[i as int]);
        let c = cs[i];
        if is_whitespace(c) && cur.len() > 0 && cur[cur.len() - 1] == ',' {
            let ghost before = views(done@);
            let part = cur;
            done.push(part);
            assert(views(done@) =~= before.push(part@));
            cur = Vec::new();
            cur.push(c);
            assert(cur@ =~= seq![c]);
        } else {
            cur.push(c);
        }
        i = i + 1;
    }
    assert(cs@.subrange(0, cs.len() as int) =~= cs@);
    let ghost before = views(done@);
    let last = cur;
    done.push(last);
    assert(views(done@) =~= before.push(last@));
    done
}

/// Chunks of a sentence over the budget (see `long_sentence_chunks`).
fn long_sentence_chunks_of(s: &Vec<char>, max: usize) -> (r: Vec<Vec<char>>)
    ensures
        views(r@) == long_sentence_chunks(s@, max as int),
{
    let parts = comma_parts_of(s);
    if parts.len() <= 1 {
        return split_words_chars(s, max);
    }
    let mut out: Vec<Vec<char>> = Vec::new();
    let mut i: usize = 0;
    while i < parts.len()
        invariant
            i <= parts.len(),
            views(out@) == parts_chunks(views(parts@).subrange(0, i as int), max as int),
        decreases parts.len() - i,
    {
        let ghost sub = views(parts@).subrange(0, i + 1);
        assert(sub.drop_last() =~= views(parts@).subrange(0, i as int));
        assert(sub.last() == parts@[i as int]@);
        let p = &parts[i];
        let t = trim_chars(p);
        if t.len() > max {
            let pieces = split_words_chars(p, max);
            append_all(&mut out, pieces);
        } else if t.len() > 0 {
            let ghost before = views(out@);
            out.push(t);
            assert(views(out@) =~= before + seq![t@]);
        } else {
            assert(views(out@) =~= views(out@) + Seq::<Seq<char>>::empty());
        }
        i = i + 1;
    }
    assert(views(parts@).subrange(0, parts.len() as int) =~= views(parts@));
    out
}

fn has_terminator_of(cs: &Vec<char>) -> (r: bool)
    ensures
        r == has_terminator(cs@),
{
    let mut i: usize = 0;
    while i < cs.len()
        invariant
            i <= cs.len(),
            forall|k: int| 0 <= k < i ==> !is_term(cs@[k]),
        decreases cs.len() - i,
    {
        if is_terminator(cs[i]) {
            return true;
        }
        i = i + 1;
    }
    false
}

/// Packs sentences into chunks (see `plan_state`).
fn plan(sents: &Vec<Vec<char>>, max: usize) -> (r: Vec<Vec<char>>)
    ensures
        views(r@) == close(plan_state(views(sents@), max as int)),
{
    let mut chunks: Vec<Vec<char>> = Vec::new();
    let mut cur: Vec<char> = Vec::new();
    let mut i: usize = 0;
    while i < sents.len()
        invariant
            i <= sents.len(),
            (views(chunks@), cur@) == plan_state(views(sents@).subrange(0, i as int), max as int),
        decreases sents.len() - i,
    {
        let ghost sub = views(sents@).subrange(0, i + 1);
        assert(sub.drop_last() =~= views(sents@).subrange(0, i as int));
        assert(sub.last() == sents@[i as int]@);
        let s = &sents[i];
        if s.len() > max {
            if cur.len() > 0 {
                let ghost before = views(chunks@);
                let full = cur;
                chunks.push(full);
                assert(views(chunks@) =~= before.push(full@));
            }
            let long = long_sentence_chunks_of(s, max);
            append_all(&mut chunks, long);
            cur = Vec::new();
        } else if cur.len() > 0 && exceeds(cur.len(), s.len(), max) {
            let ghost before = views(chunks@);
            let full = cur;
            chunks.push(full);
            assert(views(chunks@) =~= before.push(full@));
            cur = s.clone();
            assert(cur@ =~= s@);
        } else {
            if cur.len() > 0 {
                cur.push(' ');
            }
            append_chars(&mut cur, s);
        }
        i = i + 1;
    }
    assert(views(sents@).subrange(0, sents.len() as int) =~= views(sents@));
    if cur.len() > 0 {
        let ghost before = views(chunks@);
        let last = cur;
        chunks.push(last);
        assert(views(chunks@) =~= before.push(last@));
    }
    chunks
}

fn split_text_chars(cs: &Vec<char>, max_chars: usize) -> (r: Vec<Vec<char>>)
    ensures
        views(r@) == split_text_spec(cs@, max_chars as int),
{
    if !has_terminator_of(cs) {
        return split_words_chars(cs, max_chars);
    }
    let sents = sentences_of(cs);
    let chunks = plan(&sents, max_chars);
    if chunks.len() == 0 && trim_chars(cs).len() > 0 {
        split_words_chars(cs, max_chars)
    } else {
        chunks
    }
}

/// Splits `text` into chunks of about `max_chars` characters: sentences
/// (each trimmed, with the terminator that followed it) are packed greedily,
/// joined by single spaces; a sentence over the budget is split after each
/// comma that ends a token (the comma stays with its clause), then into word
/// groups; text without any sentence terminator is split into word groups
/// directly.
pub fn split_text_for_tts(text: &str, max_chars: usize) -> (r: Vec<String>)
    ensures
        string_views(r@) == split_text_spec(text@, max_chars as int),
{
    let cs = chars_of(text);
    let chunks = split_text_chars(&cs, max_chars);
    strings_of(&chunks)
}

proof fn lemma_close_tokens(st: (Seq<Seq<char>>, Seq<char>))
    ensures
        flat_tokens(close(st)) == flat_tokens(st.0) + ws_tokens(st.1),
{
    if st.1.len() > 0 {
        lemma_flat_tokens_push(st.0, st.1);
    } else {
        assert(ws_tokens(st.1) =~= Seq::<Seq<char>>::empty());
        assert(flat_tokens(st.0) + ws_tokens(st.1) =~= flat_tokens(st.0));
    }
}

proof fn lemma_pack_tokens(items: Seq<Seq<char>>, max: int)
    ensures
        flat_tokens(pack_state(items, max).0) + ws_tokens(pack_state(items, max).1) == flat_tokens(
            items,
        ),
    decreases items.len(),
{
    if items.len() == 0 {
        assert(ws_tokens(Seq::<char>::empty()) =~= Seq::<Seq<char>>::empty());
        assert(flat_tokens(Seq::<Seq<char>>::empty()) + ws_tokens(Seq::<char>::empty()) =~= Seq::<
            Seq<char>,
        >::empty());
    } else {
        let st = pack_state(items.drop_last(), max);
        let w = items.last();
        lemma_pack_tokens(items.drop_last(), max);
        lemma_flat_tokens_push(items.drop_last(), w);
        assert(items.drop_last().push(w) =~= items);
        if st.1.len() > 0 && st.1.len() + w.len() + 1 > max {
            lemma_flat_tokens_push(st.0, st.1);
        } else {
            lemma_tokens_join_space(st.1, w);
        }
        assert(flat_tokens(pack_state(items, max).0) + ws_tokens(pack_state(items, max).1)
            =~= flat_tokens(items));
    }
}

/// Word groups hold the tokens of the text, in order.
proof fn lemma_split_by_words_tokens(s: Seq<char>, max: int)
    ensures
        flat_tokens(split_by_words_spec(s, max)) == ws_tokens(s),
{
    lemma_pack_tokens(ws_tokens(s), max);
    lemma_close_tokens(pack_state(ws_tokens(s), max));
    lemma_tokens_of_tokens(s);
}

proof fn lemma_comma_state_tokens(s: Seq<char>)
    ensures
        comma_state(s).1.len() <= s.len(),
        s.subrange(s.len() - comma_state(s).1.len(), s.len() as int) == comma_state(s).1,
        s.len() - comma_state(s).1.len() == 0 || (comma_state(s).1.len() > 0 && is_ws(
            comma_state(s).1[0],
        )),
        flat_tokens(comma_state(s).0) == ws_tokens(s.subrange(0, s.len() - comma_state(s).1.len())),
    decreases s.len(),
{
    if s.len() == 0 {
        assert(s.subrange(0, 0) =~= Seq::<char>::empty());
    } else {
        let p = s.drop_last();
        let c = s.last();
        let st = comma_state(p);
        lemma_comma_state_tokens(p);
        let k = p.len() - st.1.len();
        assert(p.subrange(0, k) =~= s.subrange(0, k));
        if is_ws(c) && st.1.len() > 0 && st.1.last() == ',' {
            assert(p.subrange(0, k) + st.1 =~= p);
            lemma_pieces_concat(p.subrange(0, k), st.1, |c: char| is_ws(c));
            lemma_flat_tokens_push(st.0, st.1);
            assert(s.subrange(p.len() as int, s.len() as int) =~= seq![c]);
            assert(s.subrange(0, p.len() as int) =~= p);
        } else {
            assert(s.subrange(k, s.len() as int) =~= st.1.push(c));
        }
    }
}

proof fn lemma_comma_parts_tokens(s: Seq<char>)
    ensures
        flat_tokens(comma_parts(s)) == ws_tokens(s),
{
    let st = comma_state(s);
    lemma_comma_state_tokens(s);
    let k = s.len() - st.1.len();
    assert(s.subrange(0, k) + st.1 =~= s);
    lemma_pieces_concat(s.subrange(0, k), st.1, |c: char| is_ws(c));
    lemma_flat_tokens_push(st.0, st.1);
}

proof fn lemma_parts_chunks_tokens(ps: Seq<Seq<char>>, max: int)
    ensures
        flat_tokens(parts_chunks(ps, max)) == flat_tokens(ps),
    decreases ps.len(),
{
    if ps.len() > 0 {
        let p = ps.last();
        lemma_parts_chunks_tokens(ps.drop_last(), max);
        lemma_flat_tokens_concat(parts_chunks(ps.drop_last(), max), part_chunks(p, max));
        lemma_flat_tokens_push(ps.drop_last(), p);
        assert(ps.drop_last().push(p) =~= ps);
        lemma_tokens_trim(p);
        if trim(p).len() > max {
            lemma_split_by_words_tokens(p, max);
        } else if trim(p).len() > 0 {
            lemma_flat_tokens_single(trim(p));
        } else {
            assert(ws_tokens(trim(p)) =~= Seq::<Seq<char>>::empty());
            assert(flat_tokens(Seq::<Seq<char>>::empty()) =~= ws_tokens(p));
        }
    }
}

proof fn lemma_long_sentence_tokens(s: Seq<char>, max: int)
    ensures
        flat_tokens(long_sentence_chunks(s, max)) == ws_tokens(s),
{
    if comma_parts(s).len() > 1 {
        lemma_parts_chunks_tokens(comma_parts(s), max);
        lemma_comma_parts_tokens(s);
    } else {
        lemma_split_by_words_tokens(s, max);
    }
}

proof fn lemma_plan_tokens(sents: Seq<Seq<char>>, max: int)
    ensures
        flat_tokens(plan_state(sents, max).0) + ws_tokens(plan_state(sents, max).1) == flat_tokens(
            sents,
        ),
    decreases sents.len(),
{
    if sents.len() == 0 {
        assert(ws_tokens(Seq::<char>::empty()) =~= Seq::<Seq<char>>::empty());
        assert(flat_tokens(Seq::<Seq<char>>::empty()) + ws_tokens(Seq::<char>::empty()) =~= Seq::<
            Seq<char>,
        >::empty());
    } else {
        let st = plan_state(sents.drop_last(), max);
        let s = sents.last();
        lemma_plan_tokens(sents.drop_last(), max);
        lemma_flat_tokens_push(sents.drop_last(), s);
        assert(sents.drop_last().push(s) =~= sents);
        if s.len() > max {
            lemma_close_tokens(st);
            lemma_flat_tokens_concat(close(st), long_sentence_chunks(s, max));
            lemma_long_sentence_tokens(s, max);
            assert(ws_tokens(Seq::<char>::empty()) =~= Seq::<Seq<char>>::empty());
        } else if st.1.len() > 0 && st.1.len() + s.len() + 1 > max {
            lemma_flat_tokens_push(st.0, st.1);
        } else {
            lemma_tokens_join_space(st.1, s);
        }
        assert(flat_tokens(plan_state(sents, max).0) + ws_tokens(plan_state(sents, max).1)
            =~= flat_tokens(sents));
    }
}

/// Every sentence terminator of `s` ends a token: it follows a character
/// that is neither whitespace nor a terminator, and is followed by
/// whitespace or the end of the text.
pub open spec fn terminators_end_tokens(s: Seq<char>) -> bool {
    forall|i: int|
        0 <= i < s.len() && is_term(#[trigger] s[i]) ==> i > 0 && !is_ws(s[i - 1]) && !is_term(
            s[i - 1],
        ) && (i + 1 == s.len() || is_ws(s[i + 1]))
}

proof fn lemma_sentence_state_tokens(s: Seq<char>)
    requires
        terminators_end_tokens(s),
    ensures
        sentence_state(s).1.len() <= s.len(),
        s.subrange(s.len() - sentence_state(s).1.len(), s.len() as int) == sentence_state(s).1,
        s.len() - sentence_state(s).1.len() == 0 || is_term(
            s[s.len() - sentence_state(s).1.len() - 1],
        ),
        flat_tokens(sentence_state(s).0) == ws_tokens(
            s.subrange(0, s.len() - sentence_state(s).1.len()),
        ),
    decreases s.len(),
{
    if s.len() == 0 {
        assert(s.subrange(0, 0) =~= Seq::<char>::empty());
    } else {
        let p = s.drop_last();
        let c = s.last();
        let n = s.len() - 1;
        assert(terminators_end_tokens(p)) by {
            assert forall|i: int| 0 <= i < p.len() && is_term(#[trigger] p[i]) implies i > 0
                && !is_ws(p[i - 1]) && !is_term(p[i - 1]) && (i + 1 == p.len() || is_ws(
                p[i + 1],
            )) by {
                assert(p[i] == s[i]);
                assert(is_term(s[i]));
                if i > 0 {
                    assert(p[i - 1] == s[i - 1]);
                }
                if i + 1 < p.len() {
                    assert(p[i + 1] == s[i + 1]);
                }
            }
        }
        let st = sentence_state(p);
        lemma_sentence_state_tokens(p);
        let cur = st.1;
        let k = p.len() - cur.len();
        assert(p.subrange(0, k) =~= s.subrange(0, k));
        if is_term(c) {
            assert(is_term(s[n]));
            assert(n > 0 && !is_ws(s[n - 1]) && !is_term(s[n - 1]));
            assert(cur.len() > 0) by {
                if cur.len() == 0 {
                    assert(k == n);
                    assert(s[k - 1] == p[k - 1]);
                }
            }
            assert(cur.last() == s[n - 1]) by {
                assert(cur.last() == p.subrange(k, p.len() as int)[cur.len() - 1]);
            }
            lemma_trim_start_split(cur);
            let t = trim_start(cur);
            let a = cur.len() - t.len();
            assert(t.len() > 0) by {
                if t.len() == 0 {
                    assert(is_ws(cur[cur.len() - 1]));
                }
            }
            assert(t.last() == cur.last()) by {
                assert(t.last() == cur.subrange(a, cur.len() as int)[t.len() - 1]);
            }
            assert(trim_end(t) == t);
            assert(trim(cur) == t);
            let lead = cur.subrange(0, a);
            assert(lead + t.push(c) =~= cur.push(c));
            assert forall|i: int| 0 <= i < lead.len() implies is_ws(#[trigger] lead[i]) by {
                assert(lead[i] == cur[i]);
            }
            lemma_tokens_lead(lead, t.push(c));
            lemma_flat_tokens_push(st.0, t.push(c));
            assert(p.subrange(0, k) + cur.push(c) =~= s);
            if k > 0 {
                assert(is_term(s[k - 1]));
                assert(is_ws(s[k]));
                assert(cur.push(c)[0] == s[k]);
            }
            lemma_pieces_concat(p.subrange(0, k), cur.push(c), |c: char| is_ws(c));
            assert(s.subrange(s.len() as int, s.len() as int) =~= Seq::<char>::empty());
            assert(s.subrange(0, s.len() as int) =~= s);
        } else {
            assert(s.subrange(k, s.len() as int) =~= cur.push(c));
            if k > 0 {
                assert(s[k - 1] == p[k - 1]);
            }
        }
    }
}

proof fn lemma_sentences_tokens(s: Seq<char>)
    requires
        terminators_end_tokens(s),
    ensures
        flat_tokens(sentences(s)) == ws_tokens(s),
{
    let st = sentence_state(s);
    lemma_sentence_state_tokens(s);
    let k = s.len() - st.1.len();
    assert(s.subrange(0, k) + st.1 =~= s);
    if k > 0 && st.1.len() > 0 {
        assert(is_term(s[k - 1]));
        assert(is_ws(s[k]));
        assert(st.1[0] == s.subrange(k, s.len() as int)[0]);
    }
    lemma_pieces_concat(s.subrange(0, k), st.1, |c: char| is_ws(c));
    lemma_tokens_trim(st.1);
    if trim(st.1).len() > 0 {
        lemma_flat_tokens_push(st.0, trim(st.1));
    } else {
        assert(ws_tokens(trim(st.1)) =~= Seq::<Seq<char>>::empty());
        assert(ws_tokens(s.subrange(0, k)) + ws_tokens(st.1) =~= ws_tokens(s.subrange(0, k)));
    }
}

/// Chunking keeps the tokens: for a text whose sentence terminators each
/// end a token, the chunks of `split(text, max)`, trimmed and joined with
/// single spaces, hold exactly the whitespace-separated tokens of `text`,
/// each once and in order, for any budget.
pub proof fn lemma_split_preserves_tokens(text: Seq<char>, max: int)
    requires
        terminators_end_tokens(text),
    ensures
        flat_tokens(split_text_spec(text, max)) == ws_tokens(text),
{
    lemma_split_by_words_tokens(text, max);
    if has_terminator(text) {
        let sents = sentences(text);
        lemma_plan_tokens(sents, max);
        lemma_close_tokens(plan_state(sents, max));
        lemma_sentences_tokens(text);
    }
}

/// Every text of `cs` holds a character that is not whitespace.
pub open spec fn all_content(cs: Seq<Seq<char>>) -> bool {
    forall|k: int| 0 <= k < cs.len() ==> has_content(#[trigger] cs[k])
}

proof fn lemma_join_space_content(a: Seq<char>, b: Seq<char>)
    requires
        has_content(b),
    ensures
        has_content(join_space(a, b)),
{
    let i = choose|i: int| 0 <= i < b.len() && !is_ws(#[trigger] b[i]);
    if a.len() > 0 {
        let j = a.len() + 1 + i;
        assert(join_space(a, b)[j] == b[i]);
    }
}

proof fn lemma_push_content(a: Seq<Seq<char>>, x: Seq<char>)
    requires
        all_content(a),
        has_content(x),
    ensures
        all_content(a.push(x)),
{
    assert forall|k: int| 0 <= k < a.push(x).len() implies has_content(#[trigger] a.push(x)[k]) by {
        if k < a.len() {
            assert(a.push(x)[k] == a[k]);
        }
    }
}

proof fn lemma_concat_content(a: Seq<Seq<char>>, b: Seq<Seq<char>>)
    requires
        all_content(a),
        all_content(b),
    ensures
        all_content(a + b),
{
    assert forall|k: int| 0 <= k < (a + b).len() implies has_content(#[trigger] (a + b)[k]) by {
        if k < a.len() {
            assert((a + b)[k] == a[k]);
        } else {
            assert((a + b)[k] == b[k - a.len()]);
        }
    }
}

proof fn lemma_pack_content(items: Seq<Seq<char>>, max: int)
    requires
        all_content(items),
    ensures
        all_content(pack_state(items, max).0),
        pack_state(items, max).1.len() > 0 ==> has_content(pack_state(items, max).1),
        all_content(close(pack_state(items, max))),
    decreases items.len(),
{
    if items.len() > 0 {
        let rest = items.drop_last();
        assert(all_content(rest)) by {
            assert forall|k: int| 0 <= k < rest.len() implies has_content(#[trigger] rest[k]) by {
                assert(rest[k] == items[k]);
            }
        }
        lemma_pack_content(rest, max);
        let st = pack_state(rest, max);
        let w = items.last();
        assert(has_content(w));
        if st.1.len() > 0 && st.1.len() + w.len() + 1 > max {
            lemma_push_content(st.0, st.1);
        } else {
            lemma_join_space_content(st.1, w);
        }
    }
    let st = pack_state(items, max);
    if st.1.len() > 0 {
        lemma_push_content(st.0, st.1);
    }
}

proof fn lemma_tokens_content(s: Seq<char>)
    ensures
        all_content(ws_tokens(s)),
{
    lemma_pieces_content(s, |c: char| is_ws(c));
    assert forall|k: int| 0 <= k < ws_tokens(s).len() implies has_content(
        #[trigger] ws_tokens(s)[k],
    ) by {
        assert(ws_tokens(s)[k].len() > 0);
        assert(!is_ws(ws_tokens(s)[k][0]));
    }
}

proof fn lemma_split_by_words_content(s: Seq<char>, max: int)
    ensures
        all_content(split_by_words_spec(s, max)),
{
    lemma_tokens_content(s);
    lemma_pack_content(ws_tokens(s), max);
}

proof fn lemma_sentence_state_content(s: Seq<char>)
    ensures
        all_content(sentence_state(s).0),
    decreases s.len(),
{
    if s.len() > 0 {
        let p = s.drop_last();
        let st = sentence_state(p);
        lemma_sentence_state_content(p);
        if is_term(s.last()) && trim(st.1).len() > 0 {
            lemma_trim_content(st.1);
            let t = trim(st.1);
            let i = choose|i: int| 0 <= i < t.len() && !is_ws(#[trigger] t[i]);
            assert(t.push(s.last())[i] == t[i]);
            lemma_push_content(st.0, t.push(s.last()));
        }
    }
}

proof fn lemma_sentences_content(s: Seq<char>)
    ensures
        all_content(sentences(s)),
{
    lemma_sentence_state_content(s);
    let st = sentence_state(s);
    if trim(st.1).len() > 0 {
        lemma_trim_content(st.1);
        lemma_push_content(st.0, trim(st.1));
    }
}

proof fn lemma_parts_chunks_content(ps: Seq<Seq<char>>, max: int)
    ensures
        all_content(parts_chunks(ps, max)),
    decreases ps.len(),
{
    if ps.len() > 0 {
        let p = ps.last();
        lemma_parts_chunks_content(ps.drop_last(), max);
        if trim(p).len() > max {
            lemma_split_by_words_content(p, max);
        } else if trim(p).len() > 0 {
            lemma_trim_content(p);
            lemma_push_content(Seq::empty(), trim(p));
            assert(Seq::<Seq<char>>::empty().push(trim(p)) =~= seq![trim(p)]);
        }
        lemma_concat_content(parts_chunks(ps.drop_last(), max), part_chunks(p, max));
    }
}

proof fn lemma_plan_content(sents: Seq<Seq<char>>, max: int)
    requires
        all_content(sents),
    ensures
        all_content(plan_state(sents, max).0),
        plan_state(sents, max).1.len() > 0 ==> has_content(plan_state(sents, max).1),
    decreases sents.len(),
{
    if sents.len() > 0 {
        let rest = sents.drop_last();
        assert(all_content(rest)) by {
            assert forall|k: int| 0 <= k < rest.len() implies has_content(#[trigger] rest[k]) by {
                assert(rest[k] == sents[k]);
            }
        }
        lemma_plan_content(rest, max);
        let st = plan_state(rest, max);
        let s = sents.last();
        assert(has_content(s));
        if s.len() > max {
            if st.1.len() > 0 {
                lemma_push_content(st.0, st.1);
            }
            if comma_parts(s).len() > 1 {
                lemma_parts_chunks_content(comma_parts(s), max);
            } else {
                lemma_split_by_words_content(s, max);
            }
            lemma_concat_content(close(st), long_sentence_chunks(s, max));
        } else if st.1.len() > 0 && st.1.len() + s.len() + 1 > max {
            lemma_push_content(st.0, st.1);
        } else {
            lemma_join_space_content(st.1, s);
        }
    }
}

/// No chunk is blank: every chunk of `split(text, max)`, trimmed, is
/// non-empty.
pub proof fn lemma_chunks_not_blank(text: Seq<char>, max: int)
    ensures
        forall|k: int|
            0 <= k < split_text_spec(text, max).len() ==> #[trigger] trim(
                split_text_spec(text, max)[k],
            ).len() > 0,
{
    lemma_split_by_words_content(text, max);
    if has_terminator(text) {
        lemma_sentences_content(text);
        lemma_plan_content(sentences(text), max);
        let st = plan_state(sentences(text), max);
        if st.1.len() > 0 {
            lemma_push_content(st.0, st.1);
        }
    }
    let r = split_text_spec(text, max);
    assert forall|k: int| 0 <= k < r.len() implies #[trigger] trim(r[k]).len() > 0 by {
        lemma_trim_content(r[k]);
    }
}

} // verus!
