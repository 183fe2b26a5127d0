//! Fixed-point sample buffers: gain with hard clipping and crossfade stitching.

use vstd::prelude::*;

verus! {

/// Full scale: a sample of this value stands for 1.0.
pub const SAMPLE_UNIT: i32 = 32768;

/// Output sample rate of the voice model, in samples per second.
pub const SAMPLE_RATE: u32 = 24000;

/// Length of the fade between two stitched segments, in milliseconds.
pub const CHUNK_CROSSFADE_MS: usize = 45;

/// Division of an integer by a positive divisor, rounding toward zero.
pub open spec fn div_trunc(n: int, d: int) -> int
    recommends
        d > 0,
{
    if n >= 0 {
        n / d
    } else {
        -((-n) / d)
    }
}

/// `v` limited to `[-SAMPLE_UNIT, SAMPLE_UNIT]`.
pub open spec fn clip_unit(v: int) -> int {
    if v > SAMPLE_UNIT as int {
        SAMPLE_UNIT as int
    } else if v < -(SAMPLE_UNIT as int) {
        -(SAMPLE_UNIT as int)
    } else {
        v
    }
}

/// One sample scaled by a gain given in percent, then hard-clipped.
pub open spec fn amplified(s: i32, gain_percent: u32) -> int {
    clip_unit(div_trunc(s as int * gain_percent as int, 100))
}

/// The linear blend at position `i` of a fade of length `n`: `a` weighted by
/// `(n - i) / n`, `b` by `i / n`.
pub open spec fn blend(a: i32, b: i32, i: int, n: int) -> int {
    div_trunc(a as int * (n - i) + b as int * i, n)
}

proof fn lemma_blend_bounds(a: i32, b: i32, i: int, n: int)
    requires
        0 <= i < n,
    ensures
        i32::MIN <= blend(a, b, i, n) <= i32::MAX,
{
    let num = a as int * (n - i) + b as int * i;
    assert(i32::MIN as int * n <= num <= i32::MAX as int * n) by (nonlinear_arith)
        requires
            num == a as int * (n - i) + b as int * i,
            0 <= i < n,
            i32::MIN <= a <= i32::MAX,
            i32::MIN <= b <= i32::MAX,
    ;
    if num >= 0 {
        assert(num / n <= i32::MAX) by (nonlinear_arith)
            requires
                num <= i32::MAX as int * n,
                n > 0,
        ;
        assert(num / n >= 0) by (nonlinear_arith)
            requires
                num >= 0,
                n > 0,
        ;
    } else {
        assert((-num) / n <= -(i32::MIN as int)) by (nonlinear_arith)
            requires
                -num <= -(i32::MIN as int) * n,
                n > 0,
        ;
        assert((-num) / n >= 0) by (nonlinear_arith)
            requires
                -num >= 0,
                n > 0,
        ;
    }
}

/// Signed division rounding toward zero, on values that fit.
fn div_trunc_i128(n: i128, d: i128) -> (r: i128)
    requires
        d > 0,
        n > i128::MIN,
    ensures
        r == div_trunc(n as int, d as int),
{
    if n >= 0 {
        n / d
    } else {
        -((-n) / d)
    }
}

fn blend_exec(a: i32, b: i32, i: usize, n: usize) -> (r: i32)
    requires
        i < n,
    ensures
        r == blend(a, b, i as int, n as int),
{
    proof {
        lemma_blend_bounds(a, b, i as int, n as int);
    }
    let wa = a as i128;
    let wb = b as i128;
    let wn = n as i128;
    let wi = i as i128;
    assert(-0x1_0000_0000_0000_0000_0000_0000 <= wa * (wn - wi) <= 0x1_0000_0000_0000_0000_0000_0000)
        by (nonlinear_arith)
        requires
            i32::MIN <= wa <= i32::MAX,
            0 <= wn - wi <= usize::MAX,
    ;
    assert(-0x1_0000_0000_0000_0000_0000_0000 <= wb * wi <= 0x1_0000_0000_0000_0000_0000_0000)
        by (nonlinear_arith)
        requires
            i32::MIN <= wb <= i32::MAX,
            0 <= wi <= usize::MAX,
    ;
    let num = wa * (wn - wi) + wb * wi;
    let q = div_trunc_i128(num, wn);
    q as i32
}

/// `audio` with every sample scaled by `gain_percent / 100` and hard-clipped
/// to full scale.
pub open spec fn amplify_spec(audio: Seq<i32>, gain_percent: u32) -> Seq<i32> {
    Seq::new(audio.len(), |k: int| amplified(audio[k], gain_percent) as i32)
}

/// Multiplies every sample by `gain_percent / 100` (so `100` leaves it
/// unchanged) and hard-clips the result to `[-SAMPLE_UNIT, SAMPLE_UNIT]`.
pub fn amplify_audio(audio: &Vec<i32>, gain_percent: u32) -> (r: Vec<i32>)
    ensures
        r@ == amplify_spec(audio@, gain_percent),
{
    let mut out: Vec<i32> = Vec::with_capacity(audio.len());
    let mut k: usize = 0;
    while k < audio.len()
        invariant
            k <= audio.len(),
            out@ == amplify_spec(audio@, gain_percent).subrange(0, k as int),
        decreases audio.len() - k,
    {
        let s = audio[k] as i64;
        let g = gain_percent as i64;
        assert(-(i32::MAX as int + 1) * (u32::MAX as int) <= s * g <= (i32::MAX as int)
            * (u32::MAX as int)) by (nonlinear_arith)
            requires
                i32::MIN <= s <= i32::MAX,
                0 <= g <= u32::MAX,
        ;
        let p = s * g;
        let q: i64 = if p >= 0 {
            p / 100
        } else {
            -((-p) / 100)
        };
        let v: i32 = if q > SAMPLE_UNIT as i64 {
            SAMPLE_UNIT
        } else if q < -(SAMPLE_UNIT as i64) {
            -SAMPLE_UNIT
        } else {
            q as i32
        };
        out.push(v);
        k = k + 1;
        assert(out@ =~= amplify_spec(audio@, gain_percent).subrange(0, k as int));
    }
    assert(out@ =~= amplify_spec(audio@, gain_percent));
    out
}

/// The number of samples over which two stitched segments are faded.
pub open spec fn crossfade_samples_spec() -> int {
    SAMPLE_RATE as int * CHUNK_CROSSFADE_MS as int / 1000
}

/// Number of samples in the fade between stitched segments.
pub fn chunk_crossfade_samples() -> (r: usize)
    ensures
        r == crossfade_samples_spec(),
{
    ((SAMPLE_RATE as usize) * CHUNK_CROSSFADE_MS) / 1000
}

pub open spec fn min3(a: int, b: int, c: int) -> int {
    if a <= b && a <= c {
        a
    } else if b <= c {
        b
    } else {
        c
    }
}

/// What `append_with_crossfade` leaves in the accumulator: `next` appended to
/// `buf`, the last `n = min(overlap, |buf|, |next|)` samples of `buf` blended
/// with the first `n` of `next`.
pub open spec fn stitched(buf: Seq<i32>, next: Seq<i32>, overlap: int) -> Seq<i32> {
    let n = min3(overlap, buf.len() as int, next.len() as int);
    if n <= 0 {
        buf + next
    } else {
        let start = buf.len() - n;
        Seq::new(
            buf.len(),
            |k: int|
                if k < start {
                    buf[k]
                } else {
                    blend(buf[k], next[k - start], k - start, n) as i32
                },
        ) + next.subrange(n, next.len() as int)
    }
}

/// Appends `next` to `buffer`. When both are non-empty and `overlap_samples`
/// is positive, the tail of `buffer` is replaced by a linear crossfade into
/// the head of `next` over `min(overlap_samples, |buffer|, |next|)` samples,
/// and the rest of `next` follows unchanged.
pub fn append_with_crossfade(buffer: &mut Vec<i32>, next: &Vec<i32>, overlap_samples: usize)
    ensures
        final(buffer)@ == stitched(old(buffer)@, next@, overlap_samples as int),
        final(buffer)@.len() == old(buffer)@.len() + next@.len() - min3(
            overlap_samples as int,
            old(buffer)@.len() as int,
            next@.len() as int,
        ),
{
    let ghost b0 = buffer@;
    let mut n = overlap_samples;
    if buffer.len() < n {
        n = buffer.len();
    }
    if next.len() < n {
        n = next.len();
    }
    assert(n == min3(overlap_samples as int, b0.len() as int, next@.len() as int));
    if n == 0 {
        let mut j: usize = 0;
        while j < next.len()
            invariant
                j <= next.len(),
                buffer@ == b0 + next@.subrange(0, j as int),
            decreases next.len() - j,
        {
            buffer.push(next[j]);
            j = j + 1;
            assert(buffer@ =~= b0 + next@.subrange(0, j as int));
        }
        assert(next@.subrange(0, next@.len() as int) =~= next@);
        return;
    }
    let len = buffer.len();
    let start = len - n;
    let ghost target = stitched(b0, next@, overlap_samples as int);
    let mut i: usize = 0;
    while i < n
        invariant
            0 < n <= b0.len(),
            n <= next@.len(),
            len == b0.len(),
            start == b0.len() - n,
            i <= n,
            buffer@.len() == b0.len(),
            target == stitched(b0, next@, overlap_samples as int),
            n == min3(overlap_samples as int, b0.len() as int, next@.len() as int),
            forall|k: int| 0 <= k < start + i ==> buffer@[k] == target[k],
            forall|k: int| start + i <= k < b0.len() ==> buffer@[k] == b0[k],
        decreases n - i,
    {
        let v = blend_exec(buffer[start + i], next[i], i, n);
        buffer.set(start + i, v);
        i = i + 1;
    }
    let mut j: usize = n;
    while j < next.len()
        invariant
            n <= j <= next.len(),
            start == b0.len() - n,
            target == stitched(b0, next@, overlap_samples as int),
            n == min3(overlap_samples as int, b0.len() as int, next@.len() as int),
            0 < n,
            buffer@.len() == b0.len() + (j - n),
            forall|k: int| 0 <= k < buffer@.len() ==> buffer@[k] == target[k],
        decreases next.len() - j,
    {
        buffer.push(next[j]);
        j = j + 1;
    }
    assert(buffer@ =~= target);
}

/// Joins two chunks into a new buffer: `chunk1`, its last
/// `min(overlap_samples, |chunk1|, |chunk2|)` samples crossfaded linearly
/// into the head of `chunk2`, then the rest of `chunk2` (see `stitched`).
pub fn crossfade_audio(chunk1: &Vec<i32>, chunk2: &Vec<i32>, overlap_samples: usize) -> (r: Vec<
    i32,
>)
    ensures
        r@ == stitched(chunk1@, chunk2@, overlap_samples as int),
        r@.len() == chunk1@.len() + chunk2@.len() - min3(
            overlap_samples as int,
            chunk1@.len() as int,
            chunk2@.len() as int,
        ),
{
    let mut result: Vec<i32> = Vec::new();
    let mut j: usize = 0;
    while j < chunk1.len()
        invariant
            j <= chunk1.len(),
            result@ == chunk1@.subrange(0, j as int),
        decreases chunk1.len() - j,
    {
        result.push(chunk1[j]);
        j = j + 1;
        assert(result@ =~= chunk1@.subrange(0, j as int));
    }
    assert(chunk1@.subrange(0, chunk1.len() as int) =~= chunk1@);
    append_with_crossfade(&mut result, chunk2, overlap_samples);
    result
}

} // verus!
