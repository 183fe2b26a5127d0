//! Characters and words: whitespace, sentence terminators, trimming, and the
//! split of a character sequence into maximal runs of non-separators.

use vstd::prelude::*;
use vstd::std_specs::iter::IteratorSpec;

verus! {

/// Unicode `White_Space`, the set that `char::is_whitespace` and `str::trim`
/// go by.
pub open spec fn is_ws(c: char) -> bool {
    let u = c as u32;
    (9 <= u && u <= 13) || u == 32 || u == 0x85 || u == 0xA0 || u == 0x1680 || (0x2000 <= u && u
        <= 0x200A) || u == 0x2028 || u == 0x2029 || u == 0x202F || u == 0x205F || u == 0x3000
}

/// A character that ends a sentence.
pub open spec fn is_term(c: char) -> bool {
    c == '.' || c == '!' || c == '?'
}

pub fn is_whitespace(c: char) -> (r: bool)
    ensures
        r == is_ws(c),
{
    let u = c as u32;
    (9 <= u && u <= 13) || u == 32 || u == 0x85 || u == 0xA0 || u == 0x1680 || (0x2000 <= u && u
        <= 0x200A) || u == 0x2028 || u == 0x2029 || u == 0x202F || u == 0x205F || u == 0x3000
}

pub fn is_terminator(c: char) -> (r: bool)
    ensures
        r == is_term(c),
{
    c == '.' || c == '!' || c == '?'
}

/// The maximal runs of characters outside `sep`, in order.
pub open spec fn pieces(s: Seq<char>, sep: spec_fn(char) -> bool) -> Seq<Seq<char>>
    decreases s.len(),
{
    if s.len() == 0 {
        Seq::empty()
    } else {
        let p = s.drop_last();
        let c = s.last();
        let ps = pieces(p, sep);
        if sep(c) {
            ps
        } else if p.len() > 0 && !sep(p.last()) {
            ps.update(ps.len() - 1, ps.last().push(c))
        } else {
            ps.push(seq![c])
        }
    }
}

/// Whitespace-separated tokens.
pub open spec fn ws_tokens(s: Seq<char>) -> Seq<Seq<char>> {
    pieces(s, |c: char| is_ws(c))
}

pub open spec fn trim_start(s: Seq<char>) -> Seq<char>
    decreases s.len(),
{
    if s.len() > 0 && is_ws(s[0]) {
        trim_start(s.subrange(1, s.len() as int))
    } else {
        s
    }
}

pub open spec fn trim_end(s: Seq<char>) -> Seq<char>
    decreases s.len(),
{
    if s.len() > 0 && is_ws(s.last()) {
        trim_end(s.drop_last())
    } else {
        s
    }
}

/// `s` without leading and trailing whitespace.
pub open spec fn trim(s: Seq<char>) -> Seq<char> {
    trim_end(trim_start(s))
}

/// The views of a sequence of character vectors.
pub open spec fn views(v: Seq<Vec<char>>) -> Seq<Seq<char>> {
    v.map_values(|x: Vec<char>| x@)
}

/// The views of a sequence of strings.
pub open spec fn string_views(v: Seq<String>) -> Seq<Seq<char>> {
    v.map_values(|x: String| x@)
}

/// A text that ends inside a piece has at least one piece.
pub proof fn lemma_pieces_nonempty(s: Seq<char>, sep: spec_fn(char) -> bool)
    requires
        s.len() > 0,
        !sep(s.last()),
    ensures
        pieces(s, sep).len() > 0,
    decreases s.len(),
{
    let p = s.drop_last();
    if p.len() > 0 && !sep(p.last()) {
        lemma_pieces_nonempty(p, sep);
    }
}

/// The characters of a string slice, in order.
pub fn chars_of(s: &str) -> (r: Vec<char>)
    ensures
        r@ == s@,
{
    let mut it = s.chars();
    let mut out: Vec<char> = Vec::new();
    loop
        invariant
            out@ + it.remaining() == s@,
            it.decrease() is Some,
        ensures
            out@ == s@,
        decreases it.decrease()->0,
    {
        let ghost before = it.remaining();
        match it.next() {
            Some(c) => {
                out.push(c);
                assert(out@ + it.remaining() =~= s@) by {
                    assert(before =~= seq![c] + it.remaining());
                }
            },
            None => {
                assert(out@ =~= s@);
                break;
            },
        }
    }
    out
}

/// A string made of the given characters, in order.
#[verifier::external_body]
pub(crate) fn string_of(v: &Vec<char>) -> (r: String)
    ensures
        r@ == v@,
{
    v.iter().collect()
}

/// Every character vector turned into a string.
pub fn strings_of(v: &Vec<Vec<char>>) -> (r: Vec<String>)
    ensures
        string_views(r@) == views(v@),
{
    let mut out: Vec<String> = Vec::new();
    let mut i: usize = 0;
    while i < v.len()
        invariant
            i <= v.len(),
            string_views(out@) =~= views(v@).subrange(0, i as int),
        decreases v.len() - i,
    {
        let t = string_of(&v[i]);
        assert(t@ == views(v@)[i as int]);
        let ghost before = out@;
        out.push(t);
        assert(string_views(out@) =~= string_views(before).push(t@));
        assert(views(v@).subrange(0, i + 1) =~= views(v@).subrange(0, i as int).push(t@));
        i = i + 1;
    }
    assert(views(v@).subrange(0, v.len() as int) =~= views(v@));
    out
}

proof fn lemma_trim_start_skip(s: Seq<char>, i: int)
    requires
        0 <= i < s.len(),
        is_ws(s[i]),
        forall|k: int| 0 <= k < i ==> is_ws(s[k]),
    ensures
        trim_start(s.subrange(i, s.len() as int)) == trim_start(s.subrange(i + 1, s.len() as int)),
{
    let t = s.subrange(i, s.len() as int);
    assert(t.subrange(1, t.len() as int) =~= s.subrange(i + 1, s.len() as int));
}

proof fn lemma_trim_start_prefix(s: Seq<char>, i: int)
    requires
        0 <= i <= s.len(),
        forall|k: int| 0 <= k < i ==> is_ws(s[k]),
    ensures
        trim_start(s) == trim_start(s.subrange(i, s.len() as int)),
    decreases i,
{
    if i > 0 {
        lemma_trim_start_prefix(s, i - 1);
        lemma_trim_start_skip(s, i - 1);
    } else {
        assert(s.subrange(0, s.len() as int) =~= s);
    }
}

proof fn lemma_trim_end_suffix(s: Seq<char>, j: int)
    requires
        0 <= j <= s.len(),
        forall|k: int| j <= k < s.len() ==> is_ws(s[k]),
    ensures
        trim_end(s) == trim_end(s.subrange(0, j)),
    decreases s.len() - j,
{
    if j < s.len() {
        lemma_trim_end_suffix(s, j + 1);
        let t = s.subrange(0, j + 1);
        assert(t.drop_last() =~= s.subrange(0, j));
    } else {
        assert(s.subrange(0, s.len() as int) =~= s);
    }
}

/// The characters of `s` without leading and trailing whitespace.
pub fn trim_chars(s: &Vec<char>) -> (r: Vec<char>)
    ensures
        r@ == trim(s@),
{
    let n = s.len();
    let mut i: usize = 0;
    while i < n && is_whitespace(s[i])
        invariant
            i <= n,
            n == s@.len(),
            forall|k: int| 0 <= k < i ==> is_ws(s@[k]),
        decreases n - i,
    {
        i = i + 1;
    }
    proof {
        lemma_trim_start_prefix(s@, i as int);
    }
    let ghost t = s@.subrange(i as int, n as int);
    assert(trim_start(s@) == t) by {
        if i < n {
            assert(!is_ws(t[0]));
        }
    }
    let mut j: usize = n;
    while j > i && is_whitespace(s[j - 1])
        invariant
            i <= j <= n,
            n == s@.len(),
            t == s@.subrange(i as int, n as int),
            forall|k: int| j <= k < n ==> is_ws(s@[k]),
        decreases j,
    {
        j = j - 1;
    }
    proof {
        lemma_trim_end_suffix(t, j - i);
        assert(t.subrange(0, j - i) =~= s@.subrange(i as int, j as int));
    }
    let mut out: Vec<char> = Vec::new();
    let mut k: usize = i;
    while k < j
        invariant
            i <= k <= j,
            j <= n,
            n == s@.len(),
            out@ == s@.subrange(i as int, k as int),
        decreases j - k,
    {
        out.push(s[k]);
        k = k + 1;
        assert(out@ =~= s@.subrange(i as int, k as int));
    }
    out
}

/// `a` followed by `b`.
pub fn append_chars(a: &mut Vec<char>, b: &Vec<char>)
    ensures
        final(a)@ == old(a)@ + b@,
{
    let ghost a0 = a@;
    let mut k: usize = 0;
    while k < b.len()
        invariant
            k <= b.len(),
            a@ == a0 + b@.subrange(0, k as int),
        decreases b.len() - k,
    {
        a.push(b[k]);
        k = k + 1;
        assert(a@ =~= a0 + b@.subrange(0, k as int));
    }
    assert(b@.subrange(0, b.len() as int) =~= b@);
}

/// The whitespace-separated tokens of `s`.
pub fn ws_tokens_of(s: &Vec<char>) -> (r: Vec<Vec<char>>)
    ensures
        views(r@) == ws_tokens(s@),
{
    let mut toks: Vec<Vec<char>> = Vec::new();
    let mut i: usize = 0;
    while i < s.len()
        invariant
            i <= s.len(),
            views(toks@) == ws_tokens(s@.subrange(0, i as int)),
        decreases s.len() - i,
    {
        let c = s[i];
        let ghost p = s@.subrange(0, i as int);
        let ghost q = s@.subrange(0, i + 1);
        assert(q.drop_last() =~= p);
        assert(q.last() == c);
        if is_whitespace(c) {
        } else if i > 0 && !is_whitespace(s[i - 1]) {
            assert(p.last() == s@[i - 1]);
            proof {
                lemma_pieces_nonempty(p, |c: char| is_ws(c));
            }
            let ghost before = views(toks@);
            let mut last = toks.pop().unwrap();
            last.push(c);
            toks.push(last);
            assert(views(toks@) =~= before.update(before.len() - 1, before.last().push(c)));
        } else {
            let mut w: Vec<char> = Vec::new();
            w.push(c);
            let ghost before = views(toks@);
            toks.push(w);
            assert(views(toks@) =~= before.push(seq![c]));
        }
        i = i + 1;
    }
    assert(s@.subrange(0, s.len() as int) =~= s@);
    toks
}

/// Two texts glued where one side is empty or a separator stands at the
/// seam: the pieces of the whole are the pieces of each.
pub proof fn lemma_pieces_concat(a: Seq<char>, b: Seq<char>, sep: spec_fn(char) -> bool)
    requires
        a.len() == 0 || b.len() == 0 || sep(a.last()) || sep(b[0]),
    ensures
        pieces(a + b, sep) == pieces(a, sep) + pieces(b, sep),
    decreases b.len(),
{
    if b.len() == 0 {
        assert(a + b =~= a);
        assert(pieces(a, sep) + pieces(b, sep) =~= pieces(a, sep));
    } else {
        let b1 = b.drop_last();
        let c = b.last();
        lemma_pieces_concat(a, b1, sep);
        assert((a + b).drop_last() =~= a + b1);
        assert((a + b).last() == c);
        let pa = pieces(a, sep);
        let pb1 = pieces(b1, sep);
        if sep(c) {
        } else if b1.len() > 0 {
            assert((a + b1).last() == b1.last());
            if !sep(b1.last()) {
                lemma_pieces_nonempty(b1, sep);
                assert((pa + pb1).update((pa + pb1).len() - 1, (pa + pb1).last().push(c)) =~= pa
                    + pb1.update(pb1.len() - 1, pb1.last().push(c)));
            } else {
                assert((pa + pb1).push(seq![c]) =~= pa + pb1.push(seq![c]));
            }
        } else {
            assert(a + b1 =~= a);
            assert(b1.len() == 0);
            assert(pieces(b1, sep) =~= Seq::<Seq<char>>::empty());
            assert(b.drop_last() =~= b1);
            if a.len() > 0 {
                assert(sep(a.last()) || sep(b[0]));
                assert(b[0] == c);
            }
            assert(pa.push(seq![c]) =~= pa + Seq::<Seq<char>>::empty().push(seq![c]));
        }
    }
}

/// A text made only of separators has no pieces.
pub proof fn lemma_pieces_all_sep(s: Seq<char>, sep: spec_fn(char) -> bool)
    requires
        forall|i: int| 0 <= i < s.len() ==> sep(#[trigger] s[i]),
    ensures
        pieces(s, sep) == Seq::<Seq<char>>::empty(),
    decreases s.len(),
{
    if s.len() > 0 {
        lemma_pieces_all_sep(s.drop_last(), sep);
        assert(sep(s[s.len() - 1]));
    }
}

/// A text without separators is a single piece, if it is not empty.
pub proof fn lemma_pieces_no_sep(s: Seq<char>, sep: spec_fn(char) -> bool)
    requires
        forall|i: int| 0 <= i < s.len() ==> !sep(#[trigger] s[i]),
    ensures
        s.len() > 0 ==> pieces(s, sep) == seq![s],
        s.len() == 0 ==> pieces(s, sep) == Seq::<Seq<char>>::empty(),
    decreases s.len(),
{
    if s.len() > 0 {
        let p = s.drop_last();
        lemma_pieces_no_sep(p, sep);
        assert(!sep(s[s.len() - 1]));
        if p.len() > 0 {
            assert(!sep(p[p.len() - 1]));
            assert(p.push(s.last()) =~= s);
            assert(seq![p].update(0, p.push(s.last())) =~= seq![s]);
        } else {
            assert(seq![s.last()] =~= s);
            assert(Seq::<Seq<char>>::empty().push(seq![s.last()]) =~= seq![s]);
        }
    }
}

/// `s` holds a character that is not whitespace.
pub open spec fn has_content(s: Seq<char>) -> bool {
    exists|i: int| 0 <= i < s.len() && !is_ws(#[trigger] s[i])
}

/// A text is blank exactly when trimming leaves nothing.
pub proof fn lemma_trim_content(s: Seq<char>)
    ensures
        (trim(s).len() > 0) == has_content(s),
        trim(s).len() > 0 ==> !is_ws(trim(s)[0]),
        trim(s).len() > 0 ==> has_content(trim(s)),
{
    lemma_trim_end_first(trim_start(s));
    lemma_trim_start_content(s);
    lemma_trim_end_content(trim_start(s));
    if trim(s).len() > 0 {
        assert(!is_ws(trim(s)[0]));
    }
}

proof fn lemma_trim_start_content(s: Seq<char>)
    ensures
        has_content(trim_start(s)) == has_content(s),
        trim_start(s).len() > 0 ==> !is_ws(trim_start(s)[0]),
    decreases s.len(),
{
    if s.len() > 0 && is_ws(s[0]) {
        let t = s.subrange(1, s.len() as int);
        lemma_trim_start_content(t);
        if has_content(s) {
            let i = choose|i: int| 0 <= i < s.len() && !is_ws(#[trigger] s[i]);
            assert(t[i - 1] == s[i]);
        }
        if has_content(t) {
            let i = choose|i: int| 0 <= i < t.len() && !is_ws(#[trigger] t[i]);
            assert(s[i + 1] == t[i]);
        }
    } else if s.len() > 0 {
        assert(!is_ws(s[0]));
    }
}

proof fn lemma_trim_end_first(s: Seq<char>)
    ensures
        trim_end(s).len() <= s.len(),
        trim_end(s).len() > 0 ==> trim_end(s)[0] == s[0],
    decreases s.len(),
{
    if s.len() > 0 && is_ws(s.last()) {
        lemma_trim_end_first(s.drop_last());
    }
}

proof fn lemma_trim_end_content(s: Seq<char>)
    requires
        s.len() > 0 ==> !is_ws(s[0]),
    ensures
        (trim_end(s).len() > 0) == has_content(s),
    decreases s.len(),
{
    if s.len() > 0 {
        assert(has_content(s)) by {
            assert(!is_ws(s[0]));
        }
        if is_ws(s.last()) {
            let p = s.drop_last();
            if p.len() > 0 {
                assert(p[0] == s[0]);
            }
            lemma_trim_end_content(p);
            assert(p.len() > 0) by {
                if p.len() == 0 {
                    assert(s.len() == 1);
                    assert(s.last() == s[0]);
                }
            }
            assert(has_content(p)) by {
                assert(!is_ws(p[0]));
            }
        }
    }
}

/// A piece is never empty and holds no separator.
pub proof fn lemma_pieces_content(s: Seq<char>, sep: spec_fn(char) -> bool)
    ensures
        forall|k: int|
            0 <= k < pieces(s, sep).len() ==> #[trigger] pieces(s, sep)[k].len() > 0 && forall|
                j: int,
            |
                0 <= j < pieces(s, sep)[k].len() ==> !sep(#[trigger] pieces(s, sep)[k][j]),
    decreases s.len(),
{
    if s.len() > 0 {
        let p = s.drop_last();
        let c = s.last();
        lemma_pieces_content(p, sep);
        let ps = pieces(p, sep);
        if !sep(c) && p.len() > 0 && !sep(p.last()) {
            lemma_pieces_nonempty(p, sep);
            let last = ps.last().push(c);
            assert forall|j: int| 0 <= j < last.len() implies !sep(#[trigger] last[j]) by {
                if j < last.len() - 1 {
                    assert(last[j] == ps[ps.len() - 1][j]);
                }
            }
        } else if !sep(c) {
            assert forall|j: int| 0 <= j < seq![c].len() implies !sep(#[trigger] seq![c][j]) by {
                assert(seq![c][j] == c);
            }
        }
    }
}

/// The whitespace-separated tokens of a sequence of texts, in order.
pub open spec fn flat_tokens(cs: Seq<Seq<char>>) -> Seq<Seq<char>>
    decreases cs.len(),
{
    if cs.len() == 0 {
        Seq::empty()
    } else {
        flat_tokens(cs.drop_last()) + ws_tokens(cs.last())
    }
}

pub proof fn lemma_flat_tokens_concat(a: Seq<Seq<char>>, b: Seq<Seq<char>>)
    ensures
        flat_tokens(a + b) == flat_tokens(a) + flat_tokens(b),
    decreases b.len(),
{
    if b.len() == 0 {
        assert(a + b =~= a);
        assert(flat_tokens(a) + flat_tokens(b) =~= flat_tokens(a));
    } else {
        lemma_flat_tokens_concat(a, b.drop_last());
        assert((a + b).drop_last() =~= a + b.drop_last());
        assert(flat_tokens(a) + flat_tokens(b) =~= flat_tokens(a) + flat_tokens(b.drop_last())
            + ws_tokens(b.last()));
    }
}

pub proof fn lemma_flat_tokens_single(x: Seq<char>)
    ensures
        flat_tokens(seq![x]) == ws_tokens(x),
{
    let e = Seq::<Seq<char>>::empty();
    assert(seq![x].len() == 1);
    assert(seq![x].last() == x);
    assert(seq![x].drop_last() =~= e);
    assert(flat_tokens(e) == e);
    assert(flat_tokens(seq![x]) == flat_tokens(e) + ws_tokens(x));
    assert(e + ws_tokens(x) =~= ws_tokens(x));
}

pub proof fn lemma_flat_tokens_push(a: Seq<Seq<char>>, x: Seq<char>)
    ensures
        flat_tokens(a.push(x)) == flat_tokens(a) + ws_tokens(x),
{
    assert(a.push(x).drop_last() =~= a);
}

/// A whitespace run in front of a text adds no token.
pub proof fn lemma_tokens_lead(lead: Seq<char>, t: Seq<char>)
    requires
        forall|i: int| 0 <= i < lead.len() ==> is_ws(#[trigger] lead[i]),
    ensures
        ws_tokens(lead + t) == ws_tokens(t),
{
    lemma_pieces_concat(lead, t, |c: char| is_ws(c));
    lemma_pieces_all_sep(lead, |c: char| is_ws(c));
    assert(ws_tokens(lead) + ws_tokens(t) =~= ws_tokens(t));
}

/// Trimming keeps the tokens.
pub proof fn lemma_tokens_trim(s: Seq<char>)
    ensures
        ws_tokens(trim(s)) == ws_tokens(s),
{
    lemma_tokens_trim_start(s);
    lemma_tokens_trim_end(trim_start(s));
}

proof fn lemma_tokens_trim_start(s: Seq<char>)
    ensures
        ws_tokens(trim_start(s)) == ws_tokens(s),
    decreases s.len(),
{
    if s.len() > 0 && is_ws(s[0]) {
        let t = s.subrange(1, s.len() as int);
        lemma_tokens_trim_start(t);
        assert(seq![s[0]] + t =~= s);
        lemma_tokens_lead(seq![s[0]], t);
    }
}

proof fn lemma_tokens_trim_end(s: Seq<char>)
    ensures
        ws_tokens(trim_end(s)) == ws_tokens(s),
    decreases s.len(),
{
    if s.len() > 0 && is_ws(s.last()) {
        lemma_tokens_trim_end(s.drop_last());
    }
}

/// `trim_start(s)` is what follows a run of leading whitespace of `s`.
pub proof fn lemma_trim_start_split(s: Seq<char>)
    ensures
        trim_start(s).len() <= s.len(),
        s.subrange(s.len() - trim_start(s).len(), s.len() as int) == trim_start(s),
        forall|i: int| 0 <= i < s.len() - trim_start(s).len() ==> is_ws(#[trigger] s[i]),
        trim_start(s).len() > 0 ==> !is_ws(trim_start(s)[0]),
    decreases s.len(),
{
    if s.len() > 0 && is_ws(s[0]) {
        let t = s.subrange(1, s.len() as int);
        lemma_trim_start_split(t);
        assert(s.subrange(s.len() - trim_start(s).len(), s.len() as int) =~= t.subrange(
            t.len() - trim_start(t).len(),
            t.len() as int,
        ));
        assert forall|i: int| 0 <= i < s.len() - trim_start(s).len() implies is_ws(
            #[trigger] s[i],
        ) by {
            if i > 0 {
                assert(s[i] == t[i - 1]);
            }
        }
    } else {
        assert(s.subrange(0, s.len() as int) =~= s);
    }
}

/// A space between two texts separates their tokens.
pub proof fn lemma_tokens_join_space(a: Seq<char>, b: Seq<char>)
    ensures
        ws_tokens(if a.len() > 0 {
            a + seq![' '] + b
        } else {
            b
        }) == ws_tokens(a) + ws_tokens(b),
{
    if a.len() > 0 {
        lemma_pieces_concat(a + seq![' '], b, |c: char| is_ws(c));
        assert((a + seq![' ']).last() == ' ');
        assert((a + seq![' ']).drop_last() =~= a);
    } else {
        assert(ws_tokens(a) =~= Seq::<Seq<char>>::empty());
        assert(ws_tokens(a) + ws_tokens(b) =~= ws_tokens(b));
    }
}

/// Texts that are single tokens are their own tokens.
proof fn lemma_flat_tokens_atoms(ts: Seq<Seq<char>>)
    requires
        forall|k: int|
            0 <= k < ts.len() ==> #[trigger] ts[k].len() > 0 && forall|j: int|
                0 <= j < ts[k].len() ==> !is_ws(#[trigger] ts[k][j]),
    ensures
        flat_tokens(ts) == ts,
    decreases ts.len(),
{
    if ts.len() > 0 {
        let t = ts.last();
        assert(t == ts[ts.len() - 1]);
        lemma_flat_tokens_atoms(ts.drop_last());
        lemma_pieces_no_sep(t, |c: char| is_ws(c));
        assert(ts.drop_last() + seq![t] =~= ts);
    }
}

/// The tokens of the tokens of a text are its tokens.
pub proof fn lemma_tokens_of_tokens(s: Seq<char>)
    ensures
        flat_tokens(ws_tokens(s)) == ws_tokens(s),
{
    lemma_pieces_content(s, |c: char| is_ws(c));
    lemma_flat_tokens_atoms(ws_tokens(s));
}

} // verus!
