//! Mapping a magnitude vector onto the bars of a display.

use vstd::prelude::*;
use crate::config::Config;
use crate::fixed::{ints, lemma_quotient_monotonic, scale_by, scale_value};
use crate::smooth::{lemma_smoothed_bars_len, smoothed_bars, spatial_smooth_bins};

verus! {

/// Position of the first strictly positive entry; the length when there is
/// none.
pub open spec fn first_positive(s: Seq<int>) -> int
    decreases s.len(),
{
    if s.len() == 0 || s[0] > 0 {
        0
    } else {
        1 + first_positive(s.drop_first())
    }
}

/// Position of the last strictly positive entry; `-1` when there is none.
pub open spec fn last_positive(s: Seq<int>) -> int
    decreases s.len(),
{
    if s.len() == 0 {
        -1
    } else if s.last() > 0 {
        s.len() - 1
    } else {
        last_positive(s.drop_last())
    }
}

/// The inclusive span between the first and the last positive entry: silence
/// at both edges is dropped.  Empty when nothing is positive.
pub open spec fn trimmed(s: Seq<int>) -> Seq<int> {
    let lo = first_positive(s);
    let hi = last_positive(s);
    if 0 <= lo <= hi < s.len() {
        s.subrange(lo, hi + 1)
    } else {
        Seq::empty()
    }
}

/// The source index of point `k` when `len` entries are spread over
/// `2 * bars` points: `k * len / (2 * bars)` rounded to the nearest integer,
/// halves upwards, and held below `len`.
pub open spec fn nearest_index(k: int, len: int, bars: int) -> int {
    let nearest = (k * len + bars) / (2 * bars);
    if nearest > len - 1 {
        len - 1
    } else {
        nearest
    }
}

/// The first `bars` of the `2 * bars` points that sample `span` by nearest
/// index.  Empty when the span is empty or no bar is asked for.
pub open spec fn decimated(span: Seq<int>, bars: int) -> Seq<int> {
    if span.len() == 0 || bars <= 0 {
        Seq::empty()
    } else {
        Seq::new(bars as nat, |k: int| span[nearest_index(k, span.len() as int, bars)])
    }
}

/// Every entry multiplied by `num / den`, see [`scale_value`].
pub open spec fn scaled(s: Seq<int>, num: int, den: int) -> Seq<int> {
    Seq::new(s.len(), |i: int| scale_value(s[i], num, den))
}

/// The bars of one frame.  The active span is sampled at `2 * width` points
/// and the first `width` of them are kept, so the bars cover the lower half
/// of the span; they are stretched by `height / max_magnitude` and smoothed
/// across neighbours where a factor is given.  Bar `k` stands for point `k`.
pub open spec fn horizontal_spectrum(
    magnitudes: Seq<int>,
    width: int,
    height: int,
    max_magnitude: int,
    sigma: Option<int>,
) -> Seq<int> {
    let bars = scaled(decimated(trimmed(magnitudes), width), height, max_magnitude);
    match sigma {
        Some(factor) => smoothed_bars(bars, factor),
        None => bars,
    }
}

/// The factor of spatial smoothing as a mathematical integer.
pub open spec fn sigma_of(config: &Config) -> Option<int> {
    match config.sigma {
        Some(factor) => Some(factor as int),
        None => None,
    }
}

/// Nothing before `first_positive` is positive, and the entry there is.
pub proof fn lemma_first_positive(s: Seq<int>)
    ensures
        0 <= first_positive(s) <= s.len(),
        forall|j: int| 0 <= j < first_positive(s) ==> s[j] <= 0,
        first_positive(s) < s.len() ==> s[first_positive(s)] > 0,
    decreases s.len(),
{
    if s.len() == 0 || s[0] > 0 {
    } else {
        let rest = s.drop_first();
        lemma_first_positive(rest);
        assert forall|j: int| 0 <= j < first_positive(s) implies s[j] <= 0 by {
            if j > 0 {
                assert(s[j] == rest[j - 1]);
            }
        }
        if first_positive(s) < s.len() {
            assert(s[first_positive(s)] == rest[first_positive(rest)]);
        }
    }
}

/// Nothing after `last_positive` is positive, and the entry there is.
pub proof fn lemma_last_positive(s: Seq<int>)
    ensures
        -1 <= last_positive(s) < s.len(),
        forall|j: int| last_positive(s) < j < s.len() ==> s[j] <= 0,
        0 <= last_positive(s) ==> s[last_positive(s)] > 0,
    decreases s.len(),
{
    if s.len() == 0 || s.last() > 0 {
    } else {
        let rest = s.drop_last();
        lemma_last_positive(rest);
        assert forall|j: int| last_positive(s) < j < s.len() implies s[j] <= 0 by {
            if j < s.len() - 1 {
                assert(s[j] == rest[j]);
            }
        }
        if 0 <= last_positive(s) {
            assert(s[last_positive(s)] == rest[last_positive(rest)]);
        }
    }
}

/// The decimation index stays inside the span and never steps back as `k`
/// grows, for every span of at least one entry and every positive number of
/// bars.
pub proof fn lemma_nearest_index(k1: int, k2: int, len: int, bars: int)
    requires
        0 <= k1 <= k2,
        len >= 1,
        bars >= 1,
    ensures
        0 <= nearest_index(k1, len, bars) <= len - 1,
        0 <= nearest_index(k2, len, bars) <= len - 1,
        nearest_index(k1, len, bars) <= nearest_index(k2, len, bars),
{
    assert(0 <= k1 * len <= k2 * len) by (nonlinear_arith)
        requires
            0 <= k1 <= k2,
            len >= 1,
    ;
    lemma_quotient_monotonic(0, k1 * len + bars, 2 * bars);
    lemma_quotient_monotonic(k1 * len + bars, k2 * len + bars, 2 * bars);
    assert(0int / (2 * bars) == 0) by (nonlinear_arith)
        requires
            bars >= 1,
    ;
}

/// A vector without a positive entry maps to no bars at all.
pub proof fn lemma_silence_maps_to_nothing(s: Seq<int>, bars: int)
    requires
        forall|i: int| 0 <= i < s.len() ==> s[i] <= 0,
    ensures
        trimmed(s).len() == 0,
        decimated(trimmed(s), bars).len() == 0,
{
    lemma_first_positive(s);
}

/// Finds the first strictly positive magnitude.
pub fn first_positive_index(magnitudes: &Vec<u64>) -> (found: Option<usize>)
    ensures
        match found {
            Some(i) => i as int == first_positive(ints(magnitudes@)) && i < magnitudes.len(),
            None => first_positive(ints(magnitudes@)) == magnitudes.len(),
        },
{
    let mut i: usize = 0;
    while i < magnitudes.len()
        invariant
            i <= magnitudes.len(),
            forall|j: int| 0 <= j < i ==> magnitudes[j] == 0,
        decreases magnitudes.len() - i,
    {
        if magnitudes[i] > 0 {
            proof {
                let s = ints(magnitudes@);
                lemma_first_positive(s);
                assert(s[i as int] > 0);
                if first_positive(s) < i {
                    assert(s[first_positive(s)] == 0);
                }
            }
            return Some(i);
        }
        i += 1;
    }
    proof {
        let s = ints(magnitudes@);
        lemma_first_positive(s);
        if first_positive(s) < s.len() {
            assert(s[first_positive(s)] == 0);
        }
    }
    None
}

/// Finds the last strictly positive magnitude.
pub fn last_positive_index(magnitudes: &Vec<u64>) -> (found: Option<usize>)
    ensures
        match found {
            Some(i) => i as int == last_positive(ints(magnitudes@)) && i < magnitudes.len(),
            None => last_positive(ints(magnitudes@)) == -1,
        },
{
    let mut i: usize = magnitudes.len();
    while i > 0
        invariant
            i <= magnitudes.len(),
            forall|j: int| i <= j < magnitudes.len() ==> magnitudes[j] == 0,
        decreases i,
    {
        i -= 1;
        if magnitudes[i] > 0 {
            proof {
                let s = ints(magnitudes@);
                lemma_last_positive(s);
                assert(s[i as int] > 0);
                if last_positive(s) > i {
                    assert(s[last_positive(s)] == 0);
                }
            }
            return Some(i);
        }
    }
    proof {
        let s = ints(magnitudes@);
        lemma_last_positive(s);
        if last_positive(s) >= 0 {
            assert(s[last_positive(s)] == 0);
        }
    }
    None
}

/// The source index of point `k`; see [`nearest_index`].
pub fn decimation_index(k: usize, trimmed_len: usize, bar_count: usize) -> (index: usize)
    requires
        trimmed_len >= 1,
        bar_count >= 1,
    ensures
        index as int == nearest_index(k as int, trimmed_len as int, bar_count as int),
        index < trimmed_len,
{
    let point: u128 = k as u64 as u128;
    let len: u128 = trimmed_len as u64 as u128;
    let bars: u128 = bar_count as u64 as u128;
    assert(point as int * len as int <= 0xffff_ffff_ffff_ffff * 0xffff_ffff_ffff_ffff) by (nonlinear_arith)
        requires
            0 <= point as int <= 0xffff_ffff_ffff_ffff,
            0 <= len as int <= 0xffff_ffff_ffff_ffff,
    ;
    let nearest: u128 = (point * len + bars) / (2 * bars);
    proof {
        lemma_nearest_index(k as int, k as int, trimmed_len as int, bar_count as int);
    }
    if nearest > len - 1 {
        trimmed_len - 1
    } else {
        nearest as usize
    }
}

/// Trims silence from both edges of `magnitudes` and samples what is left at
/// `bar_count` points.  Of the `2 * bar_count` points of the decimation only
/// the first half is kept: the display shows the lower half of the active
/// span, one bar per point.
pub fn decimate_bars(magnitudes: &Vec<u64>, bar_count: usize) -> (bars: Vec<u64>)
    ensures
        ints(bars@) == decimated(trimmed(ints(magnitudes@)), bar_count as int),
{
    let first = first_positive_index(magnitudes);
    let last = last_positive_index(magnitudes);
    let ghost source = ints(magnitudes@);
    proof {
        lemma_first_positive(source);
        lemma_last_positive(source);
    }
    let mut bars: Vec<u64> = Vec::new();
    match (first, last) {
        (Some(lo), Some(hi)) => {
            proof {
                if hi < lo {
                    assert(source[hi as int] > 0);
                }
            }
            if bar_count == 0 {
                assert(ints(bars@) =~= decimated(trimmed(source), 0));
                return bars;
            }
            let len: usize = hi - lo + 1;
            let ghost span = trimmed(source);
            assert(span.len() == len);
            let mut k: usize = 0;
            while k < bar_count
                invariant
                    k <= bar_count,
                    bar_count >= 1,
                    len >= 1,
                    lo + len <= magnitudes.len(),
                    source == ints(magnitudes@),
                    span == source.subrange(lo as int, lo + len),
                    bars.len() == k,
                    forall|j: int| 0 <= j < k ==> bars[j] as int == span[nearest_index(j, len as int, bar_count as int)],
                decreases bar_count - k,
            {
                let index: usize = decimation_index(k, len, bar_count);
                bars.push(magnitudes[lo + index]);
                k += 1;
            }
            assert(ints(bars@) =~= decimated(span, bar_count as int));
            bars
        },
        _ => {
            proof {
                if first is Some {
                    assert(source[first_positive(source)] > 0);
                }
                assert(trimmed(source).len() == 0);
                assert(ints(bars@) =~= decimated(trimmed(source), bar_count as int));
            }
            bars
        },
    }
}

/// Multiplies every bar by `num / den`; see [`scale_value`].
pub fn scale_bars(bars: &mut Vec<u64>, num: u64, den: u64)
    ensures
        ints(final(bars)@) == scaled(ints(old(bars)@), num as int, den as int),
{
    let ghost before = ints(bars@);
    let mut i: usize = 0;
    while i < bars.len()
        invariant
            i <= bars.len(),
            bars.len() == before.len(),
            forall|j: int| 0 <= j < i ==> bars[j] as int == scale_value(before[j], num as int, den as int),
            forall|j: int| i <= j < bars.len() ==> bars[j] as int == before[j],
        decreases bars.len() - i,
    {
        let value: u64 = scale_by(bars[i], num, den);
        bars.set(i, value);
        i += 1;
    }
    assert(ints(bars@) =~= scaled(before, num as int, den as int));
}

/// Turns the bars end for end, for a surface that is filled from its far
/// end.
pub fn reverse_bars(bars: &Vec<u64>) -> (turned: Vec<u64>)
    ensures
        turned@ == bars@.reverse(),
        ints(turned@) == ints(bars@).reverse(),
{
    let n: usize = bars.len();
    let mut turned: Vec<u64> = Vec::new();
    let mut i: usize = 0;
    while i < n
        invariant
            i <= n,
            n == bars.len(),
            turned.len() == i,
            forall|j: int| 0 <= j < i ==> turned[j] == bars[n - 1 - j],
        decreases n - i,
    {
        turned.push(bars[n - 1 - i]);
        i += 1;
    }
    assert(turned@ =~= bars@.reverse());
    assert(ints(turned@) =~= ints(bars@).reverse());
    turned
}

/// The bars of one frame for a display of `width` bars and the given
/// `height`: silence is trimmed from both edges of `magnitudes`, the rest is
/// sampled at `2 * width` points of which the first `width` are kept,
/// stretched so that `config.max_magnitude` fills the height, and smoothed
/// across neighbours where `config.sigma` is given.  Bar `k` stands for
/// point `k`, lowest frequency first.  Keeping half of the points is a
/// choice: the display shows the lower half of the active span at twice the
/// resolution, and the upper half is not drawn.
/// `height` and `config.max_magnitude` are counted in the same unit.
/// Without a positive magnitude, or with a width of zero, there are no bars.
pub fn print_horizontal_spectrum(width: usize, height: u64, magnitudes: &Vec<u64>, config: &Config) -> (bars: Vec<u64>)
    requires
        config.sigma_ok(),
    ensures
        ints(bars@) == horizontal_spectrum(
            ints(magnitudes@),
            width as int,
            height as int,
            config.max_magnitude as int,
            sigma_of(config),
        ),
        bars.len() == 0 || bars.len() == width,
{
    let mut bars = decimate_bars(magnitudes, width);
    assert(ints(bars@).len() == bars.len());
    scale_bars(&mut bars, height, config.max_magnitude);
    assert(ints(bars@).len() == bars.len());
    match config.sigma {
        Some(factor) => {
            proof {
                lemma_smoothed_bars_len(ints(bars@), factor as int);
            }
            spatial_smooth_bins(&mut bars, factor);
        },
        None => {},
    }
    bars
}

} // verus!
