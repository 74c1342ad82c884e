//! Deriving a smoothed magnitude spectrum from a transformed window.
//!
//! A completed analysis window of `2 * n` bins is split into two halves of
//! `n` magnitudes each; for a real-valued input signal the second half is the
//! conjugate mirror of the first, so the two are blended element-wise as a
//! denoising step.  Magnitudes are non-negative fixed-point values and the
//! blend weight is fixed-point with `SMOOTH_ONE` standing for one.

use vstd::prelude::*;

verus! {

/// Fixed-point unit for the smoothing weight: a weight `s` in
/// `0 ..= SMOOTH_ONE` stands for the real blend factor `s / SMOOTH_ONE`.
pub const SMOOTH_ONE: u32 = 1024;

/// Element-wise blend of a low-half magnitude `lo` and a high-half magnitude
/// `hi` under weight `s`: the fixed-point reading of `lo*s + hi*(1 - s)`.
pub open spec fn blend_spec(lo: int, hi: int, s: int) -> int {
    (lo * s + hi * (SMOOTH_ONE - s)) / (SMOOTH_ONE as int)
}

/// One blended magnitude.
pub fn blend_value(lo: u32, hi: u32, s: u32) -> (r: u32)
    requires
        s <= SMOOTH_ONE,
    ensures
        r == blend_spec(lo as int, hi as int, s as int),
{
    proof {
        assert((lo as int) * (s as int) + (hi as int) * ((SMOOTH_ONE as int) - (s as int))
            <= 0xffff_ffff * 1024 + 0xffff_ffff * 1024) by (nonlinear_arith)
            requires
                lo <= 0xffff_ffff,
                hi <= 0xffff_ffff,
                0 <= s <= 1024,
        ;
        lemma_blend_bounds(lo as int, hi as int, s as int);
    }
    let num: u64 = (lo as u64) * (s as u64) + (hi as u64) * ((SMOOTH_ONE - s) as u64);
    (num / (SMOOTH_ONE as u64)) as u32
}

/// The blend interpolates: for any weight in range, the result lies between
/// the smaller and the larger of the two magnitudes.
pub proof fn lemma_blend_bounds(lo: int, hi: int, s: int)
    requires
        0 <= lo,
        0 <= hi,
        0 <= s <= SMOOTH_ONE,
    ensures
        blend_spec(lo, hi, s) >= (if lo <= hi { lo } else { hi }),
        blend_spec(lo, hi, s) <= (if lo <= hi { hi } else { lo }),
{
    let one = SMOOTH_ONE as int;
    let m = if lo <= hi { lo } else { hi };
    let big = if lo <= hi { hi } else { lo };
    assert(m * one <= lo * s + hi * (one - s) <= big * one) by (nonlinear_arith)
        requires
            0 <= s <= one,
            m <= lo <= big,
            m <= hi <= big,
    ;
    assert((m * one) / one == m) by (nonlinear_arith)
        requires
            one > 0,
    ;
    assert((big * one) / one == big) by (nonlinear_arith)
        requires
            one > 0,
    ;
    vstd::arithmetic::div_mod::lemma_div_is_ordered(m * one, lo * s + hi * (one - s), one);
    vstd::arithmetic::div_mod::lemma_div_is_ordered(lo * s + hi * (one - s), big * one, one);
}

/// Blend two equal-length magnitude sequences element-wise under weight `s`.
/// Callers own the preconditions: handing halves of different lengths to
/// the blend is a programming error, not a runtime condition, and the
/// weight must be validated to `0 ..= SMOOTH_ONE` before the pipeline is
/// built rather than clamped here.
pub fn smooth(low: &Vec<u32>, high: &Vec<u32>, s: u32) -> (out: Vec<u32>)
    requires
        low@.len() == high@.len(),
        s <= SMOOTH_ONE,
    ensures
        out@.len() == low@.len(),
        forall|i: int|
            0 <= i < out@.len() ==> #[trigger] out@[i] == blend_spec(
                low@[i] as int,
                high@[i] as int,
                s as int,
            ),
{
    let mut out: Vec<u32> = Vec::new();
    let mut i: usize = 0;
    while i < low.len()
        invariant
            low@.len() == high@.len(),
            s <= SMOOTH_ONE,
            i <= low@.len(),
            out@.len() == i,
            forall|j: int|
                0 <= j < i ==> #[trigger] out@[j] == blend_spec(
                    low@[j] as int,
                    high@[j] as int,
                    s as int,
                ),
        decreases low@.len() - i,
    {
        let v = blend_value(low[i], high[i], s);
        out.push(v);
        i = i + 1;
    }
    out
}

/// Split a transformed window of even length into its low-index half and its
/// high-index half, in that order.
pub fn split_halves(bins: &Vec<u32>) -> (r: (Vec<u32>, Vec<u32>))
    requires
        bins@.len() % 2 == 0,
    ensures
        r.0@ == bins@.take(bins@.len() as int / 2),
        r.1@ == bins@.skip(bins@.len() as int / 2),
{
    let half: usize = bins.len() / 2;
    let mut low: Vec<u32> = Vec::new();
    let mut high: Vec<u32> = Vec::new();
    let mut i: usize = 0;
    while i < half
        invariant
            half == bins@.len() / 2,
            half <= bins@.len(),
            i <= half,
            low@ =~= bins@.subrange(0, i as int),
        decreases half - i,
    {
        low.push(bins[i]);
        proof {
            assert(low@ =~= bins@.subrange(0, i as int + 1));
        }
        i = i + 1;
    }
    let mut j: usize = half;
    while j < bins.len()
        invariant
            half == bins@.len() / 2,
            half <= j <= bins@.len(),
            high@ =~= bins@.subrange(half as int, j as int),
        decreases bins@.len() - j,
    {
        high.push(bins[j]);
        proof {
            assert(high@ =~= bins@.subrange(half as int, j as int + 1));
        }
        j = j + 1;
    }
    proof {
        assert(low@ =~= bins@.take(bins@.len() as int / 2));
        assert(high@ =~= bins@.skip(bins@.len() as int / 2));
    }
    (low, high)
}

/// The spectrum a completed transformed window yields: its two mirror
/// halves blended bin by bin under weight `s`.
pub open spec fn spectrum_spec(bins: Seq<u32>, s: int) -> Seq<int> {
    Seq::new(bins.len() / 2, |i: int| blend_spec(bins[i] as int, bins[bins.len() as int / 2 + i] as int, s))
}

/// Derive the smoothed magnitude spectrum of one transformed window: split
/// into mirror halves, then blend.  Half as many bins come out as went in.
pub fn derive_spectrum(bins: &Vec<u32>, s: u32) -> (out: Vec<u32>)
    requires
        bins@.len() % 2 == 0,
        s <= SMOOTH_ONE,
    ensures
        out@.len() == bins@.len() / 2,
        forall|i: int| 0 <= i < out@.len() ==> #[trigger] (out@[i] as int) == spectrum_spec(bins@, s as int)[i],
{
    let (low, high) = split_halves(bins);
    let out = smooth(&low, &high, s);
    proof {
        assert forall|i: int| 0 <= i < out@.len() implies #[trigger] (out@[i] as int)
            == spectrum_spec(bins@, s as int)[i] by {
            assert(low@[i] == bins@[i]);
            assert(high@[i] == bins@[bins@.len() as int / 2 + i]);
        }
    }
    out
}

/// The blend is bounded for whole sequences: under any in-range weight,
/// every blended value lies between the corresponding pair's minimum and
/// maximum.
pub proof fn lemma_smooth_bounded(low: Seq<u32>, high: Seq<u32>, s: int)
    requires
        low.len() == high.len(),
        0 <= s <= SMOOTH_ONE,
    ensures
        forall|i: int|
            0 <= i < low.len() ==> #[trigger] blend_spec(low[i] as int, high[i] as int, s) >= (
            if low[i] <= high[i] {
                low[i] as int
            } else {
                high[i] as int
            }),
        forall|i: int|
            0 <= i < low.len() ==> #[trigger] blend_spec(low[i] as int, high[i] as int, s) <= (
            if low[i] <= high[i] {
                high[i] as int
            } else {
                low[i] as int
            }),
{
    assert forall|i: int| 0 <= i < low.len() implies #[trigger] blend_spec(
        low[i] as int,
        high[i] as int,
        s,
    ) >= (if low[i] <= high[i] {
        low[i] as int
    } else {
        high[i] as int
    }) && blend_spec(low[i] as int, high[i] as int, s) <= (if low[i] <= high[i] {
        high[i] as int
    } else {
        low[i] as int
    }) by {
        lemma_blend_bounds(low[i] as int, high[i] as int, s);
    }
}

/// Silence blends to silence: a window whose transformed bins are all zero
/// yields the all-zero spectrum, whatever the weight.
pub proof fn lemma_zero_spectrum(bins: Seq<u32>, s: int)
    requires
        0 <= s <= SMOOTH_ONE,
        forall|i: int| 0 <= i < bins.len() ==> #[trigger] bins[i] == 0,
    ensures
        forall|i: int| 0 <= i < bins.len() / 2 ==> #[trigger] spectrum_spec(bins, s)[i] == 0,
{
    assert forall|i: int| 0 <= i < bins.len() / 2 implies #[trigger] spectrum_spec(bins, s)[i]
        == 0 by {
        assert(bins[i] == 0);
        assert(bins[bins.len() as int / 2 + i] == 0);
        lemma_blend_bounds(0, 0, s);
    }
}

} // verus!
