//! Voice specifications: a voice name, or a weighted mix such as
//! `af_sky.8+af_bella.2`, resolved against the names of the voice table.

use vstd::prelude::*;
use crate::error::TtsError;
use crate::text::{chars_of, string_of, string_views};

verus! {

/// The voice used when the caller names none.
pub const DEFAULT_VOICE: &'static str = "af_sky";

/// Weight, in tenths, of a voice named without a weight.
pub const FULL_WEIGHT_TENTHS: u32 = 10;

/// One voice of a mix and its weight in tenths (`af_sky.8` is `af_sky` at 8).
#[derive(Debug, Clone)]
pub struct VoiceWeight {
    pub name: String,
    pub tenths: u32,
}

/// Why a voice specification was refused.
pub enum VoiceFault {
    NotFound(Seq<char>),
    Malformed(Seq<char>),
}

/// The parts of `s` between occurrences of `d`; the state is (parts so far,
/// open part).
pub open spec fn split_state(s: Seq<char>, d: char) -> (Seq<Seq<char>>, Seq<char>)
    decreases s.len(),
{
    if s.len() == 0 {
        (Seq::empty(), Seq::empty())
    } else {
        let st = split_state(s.drop_last(), d);
        if s.last() == d {
            (st.0.push(st.1), Seq::empty())
        } else {
            (st.0, st.1.push(s.last()))
        }
    }
}

/// The parts of `s` between occurrences of `d`, empty ones included.
pub open spec fn split_parts(s: Seq<char>, d: char) -> Seq<Seq<char>> {
    let st = split_state(s, d);
    st.0.push(st.1)
}

pub open spec fn is_digit(c: char) -> bool {
    '0' <= c && c <= '9'
}

/// A non-empty run of decimal digits.
pub open spec fn is_digits(s: Seq<char>) -> bool {
    s.len() > 0 && forall|i: int| 0 <= i < s.len() ==> is_digit(#[trigger] s[i])
}

/// The number that a run of decimal digits writes.
pub open spec fn digits_value(s: Seq<char>) -> nat
    decreases s.len(),
{
    if s.len() == 0 {
        0
    } else {
        digits_value(s.drop_last()) * 10 + ((s.last() as u32) - ('0' as u32)) as nat
    }
}

/// One `name` or `name.weight` part, resolved against the voice names.
pub open spec fn part_spec(p: Seq<char>, names: Seq<Seq<char>>) -> Result<
    (Seq<char>, nat),
    VoiceFault,
> {
    if p.contains('.') {
        let ps = split_parts(p, '.');
        if ps.len() != 2 {
            Err(VoiceFault::Malformed(p))
        } else if !is_digits(ps[1]) || digits_value(ps[1]) > u32::MAX {
            Err(VoiceFault::Malformed(ps[1]))
        } else if !names.contains(ps[0]) {
            Err(VoiceFault::NotFound(ps[0]))
        } else {
            Ok((ps[0], digits_value(ps[1])))
        }
    } else if !names.contains(p) {
        Err(VoiceFault::NotFound(p))
    } else {
        Ok((p, FULL_WEIGHT_TENTHS as nat))
    }
}

/// The parts resolved in order; the first part that fails decides the error.
pub open spec fn parts_spec(ps: Seq<Seq<char>>, names: Seq<Seq<char>>) -> Result<
    Seq<(Seq<char>, nat)>,
    VoiceFault,
>
    decreases ps.len(),
{
    if ps.len() == 0 {
        Ok(Seq::empty())
    } else {
        match parts_spec(ps.drop_last(), names) {
            Err(f) => Err(f),
            Ok(v) => match part_spec(ps.last(), names) {
                Err(f) => Err(f),
                Ok(x) => Ok(v.push(x)),
            },
        }
    }
}

/// The weighted voices of a specification `s`: its `+`-separated parts,
/// each a voice name with an optional `.` and a weight in tenths.
pub open spec fn voice_mix_spec(s: Seq<char>, names: Seq<Seq<char>>) -> Result<
    Seq<(Seq<char>, nat)>,
    VoiceFault,
> {
    parts_spec(split_parts(s, '+'), names)
}

pub open spec fn weights_view(v: Seq<VoiceWeight>) -> Seq<(Seq<char>, nat)> {
    v.map_values(|w: VoiceWeight| (w.name@, w.tenths as nat))
}

/// `e` is the error that reports `f`.
pub open spec fn reports(e: TtsError, f: VoiceFault) -> bool {
    match f {
        VoiceFault::NotFound(n) => e matches TtsError::VoiceNotFound(m) && m@ == n,
        VoiceFault::Malformed(p) => e matches TtsError::MalformedVoiceSpec(m) && m@ == p,
    }
}

fn split_parts_of(cs: &Vec<char>, d: char) -> (r: Vec<Vec<char>>)
    ensures
        r@.map_values(|x: Vec<char>| x@) == split_parts(cs@, d),
{
    let mut done: Vec<Vec<char>> = Vec::new();
    let mut cur: Vec<char> = Vec::new();
    let mut i: usize = 0;
    while i < cs.len()
        invariant
            i <= cs.len(),
            (done@.map_values(|x: Vec<char>| x@), cur@) == split_state(
                cs@.subrange(0, i as int),
                d,
            ),
        decreases cs.len() - i,
    {
        let ghost sub = cs@.subrange(0, i + 1);
        assert(sub.drop_last() =~= cs@.subrange(0, i as int));
        assert(sub.last() == cs@[i as int]);
        let c = cs[i];
        if c == d {
            let ghost before = done@.map_values(|x: Vec<char>| x@);
            let part = cur;
            done.push(part);
            assert(done@.map_values(|x: Vec<char>| x@) =~= before.push(part@));
            cur = Vec::new();
        } else {
            cur.push(c);
        }
        i = i + 1;
    }
    assert(cs@.subrange(0, cs.len() as int) =~= cs@);
    let ghost before = done@.map_values(|x: Vec<char>| x@);
    let last = cur;
    done.push(last);
    assert(done@.map_values(|x: Vec<char>| x@) =~= before.push(last@));
    done
}

fn contains_char(cs: &Vec<char>, c: char) -> (r: bool)
    ensures
        r == cs@.contains(c),
{
    let mut i: usize = 0;
    while i < cs.len()
        invariant
            i <= cs.len(),
            forall|k: int| 0 <= k < i ==> cs@[k] != c,
        decreases cs.len() - i,
    {
        if cs[i] == c {
            return true;
        }
        i = i + 1;
    }
    false
}

/// The value of a digit run, or `None` if `cs` is not one or its value does
/// not fit in `u32`.
fn parse_digits(cs: &Vec<char>) -> (r: Option<u32>)
    ensures
        r == (if is_digits(cs@) && digits_value(cs@) <= u32::MAX {
            Some(digits_value(cs@) as u32)
        } else {
            None::<u32>
        }),
{
    if cs.len() == 0 {
        return None;
    }
    let mut v: u64 = 0;
    let mut i: usize = 0;
    while i < cs.len()
        invariant
            i <= cs.len(),
            cs@.len() > 0,
            v == digits_value(cs@.subrange(0, i as int)),
            v <= u32::MAX,
            forall|k: int| 0 <= k < i ==> is_digit(#[trigger] cs@[k]),
        decreases cs.len() - i,
    {
        let ghost sub = cs@.subrange(0, i + 1);
        assert(sub.drop_last() =~= cs@.subrange(0, i as int));
        let c = cs[i];
        if !('0' <= c && c <= '9') {
            assert(!is_digits(cs@));
            return None;
        }
        let nv = v * 10 + ((c as u32) - ('0' as u32)) as u64;
        if nv > u32::MAX as u64 {
            proof {
                lemma_digits_grow(cs@, i as int + 1);
            }
            return None;
        }
        v = nv;
        i = i + 1;
    }
    assert(cs@.subrange(0, cs.len() as int) =~= cs@);
    Some(v as u32)
}

/// A digit run is worth at least any of its prefixes.
proof fn lemma_digits_grow(s: Seq<char>, j: int)
    requires
        0 <= j <= s.len(),
        forall|k: int| 0 <= k < j ==> is_digit(#[trigger] s[k]),
    ensures
        is_digits(s) ==> digits_value(s) >= digits_value(s.subrange(0, j)),
    decreases s.len() - j,
{
    if j < s.len() && is_digits(s) {
        lemma_digits_grow(s, j + 1);
        let t = s.subrange(0, j + 1);
        assert(t.drop_last() =~= s.subrange(0, j));
        assert(is_digit(s[j]));
    } else {
        assert(s.subrange(0, s.len() as int) =~= s);
    }
}

/// Whether `name` is one of `names`.
fn find_name(names: &Vec<String>, name: &String) -> (r: bool)
    ensures
        r == string_views(names@).contains(name@),
{
    let mut i: usize = 0;
    while i < names.len()
        invariant
            i <= names.len(),
            forall|k: int| 0 <= k < i ==> names@[k]@ != name@,
        decreases names.len() - i,
    {
        if names[i] == *name {
            assert(string_views(names@)[i as int] == name@);
            return true;
        }
        i = i + 1;
    }
    assert forall|k: int| 0 <= k < string_views(names@).len() implies string_views(
        names@,
    )[k] != name@ by {
        assert(names@[k]@ != name@);
    }
    false
}

fn resolve_part(p: &Vec<char>, names: &Vec<String>) -> (r: Result<VoiceWeight, TtsError>)
    ensures
        match part_spec(p@, string_views(names@)) {
            Ok(x) => r matches Ok(w) && (w.name@, w.tenths as nat) == x,
            Err(f) => r matches Err(e) && reports(e, f),
        },
{
    if contains_char(p, '.') {
        let ps = split_parts_of(p, '.');
        if ps.len() != 2 {
            return Err(TtsError::MalformedVoiceSpec(string_of(p)));
        }
        let weight = parse_digits(&ps[1]);
        match weight {
            None => Err(TtsError::MalformedVoiceSpec(string_of(&ps[1]))),
            Some(t) => {
                let name = string_of(&ps[0]);
                if find_name(names, &name) {
                    Ok(VoiceWeight { name, tenths: t })
                } else {
                    Err(TtsError::VoiceNotFound(name))
                }
            },
        }
    } else {
        let name = string_of(p);
        if find_name(names, &name) {
            Ok(VoiceWeight { name, tenths: FULL_WEIGHT_TENTHS })
        } else {
            Err(TtsError::VoiceNotFound(name))
        }
    }
}

/// Resolves a voice specification against the names of the voice table:
/// `name` alone is that voice at full weight, `name.w` is that voice at
/// `w` tenths, and `+` joins several. An unknown name gives
/// `VoiceNotFound`, a part with more than one `.` or a weight that is not a
/// run of digits gives `MalformedVoiceSpec`; the first failing part decides.
pub fn parse_voice_style(voice: &str, names: &Vec<String>) -> (r: Result<
    Vec<VoiceWeight>,
    TtsError,
>)
    ensures
        match voice_mix_spec(voice@, string_views(names@)) {
            Ok(w) => r matches Ok(v) && weights_view(v@) == w,
            Err(f) => r matches Err(e) && reports(e, f),
        },
{
    let cs = chars_of(voice);
    let parts = split_parts_of(&cs, '+');
    let ghost pv = parts@.map_values(|x: Vec<char>| x@);
    let mut out: Vec<VoiceWeight> = Vec::new();
    let mut i: usize = 0;
    while i < parts.len()
        invariant
            i <= parts.len(),
            pv == parts@.map_values(|x: Vec<char>| x@),
            pv == split_parts(voice@, '+'),
            parts_spec(pv.subrange(0, i as int), string_views(names@)) matches Ok(w) && weights_view(out@) == w,
        decreases parts.len() - i,
    {
        let ghost sub = pv.subrange(0, i + 1);
        assert(sub.drop_last() =~= pv.subrange(0, i as int));
        assert(sub.last() == parts@[i as int]@);
        match resolve_part(&parts[i], names) {
            Err(e) => {
                proof {
                    lemma_parts_err_sticks(pv, i as int + 1, string_views(names@));
                }
                return Err(e);
            },
            Ok(w) => {
                let ghost before = weights_view(out@);
                out.push(w);
                assert(weights_view(out@) =~= before.push((w.name@, w.tenths as nat)));
            },
        }
        i = i + 1;
    }
    assert(pv.subrange(0, parts.len() as int) =~= pv);
    Ok(out)
}

/// Once a prefix of the parts fails, the whole fails with the same fault.
proof fn lemma_parts_err_sticks(ps: Seq<Seq<char>>, j: int, names: Seq<Seq<char>>)
    requires
        0 <= j <= ps.len(),
        parts_spec(ps.subrange(0, j), names) is Err,
    ensures
        parts_spec(ps, names) == parts_spec(ps.subrange(0, j), names),
    decreases ps.len() - j,
{
    if j < ps.len() {
        let t = ps.subrange(0, j + 1);
        assert(t.drop_last() =~= ps.subrange(0, j));
        lemma_parts_err_sticks(ps, j + 1, names);
    } else {
        assert(ps.subrange(0, ps.len() as int) =~= ps);
    }
}

} // verus!
