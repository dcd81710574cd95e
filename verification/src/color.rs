//! Gradient interpolation between RGB triples.

use vstd::prelude::*;
use crate::config::Config;
use crate::fixed::{lemma_quotient, lemma_shift_quotient};

verus! {

/// An RGB triple with 8-bit channels.
pub type ColorRgbtuple = (u8, u8, u8);

/// Cuts an integer down to the range of an 8-bit channel.
pub open spec fn clamp_channel(v: int) -> int {
    if v < 0 {
        0
    } else if v > 255 {
        255
    } else {
        v
    }
}

/// One channel of the gradient: `start + (index / max) * (end - start)`,
/// rounded down and cut to `0..=255`.  With `max == 0` there is no gradient
/// to walk and the channel stays at `start`.
pub open spec fn channel_at(start: int, end: int, index: int, max: int) -> int {
    if max <= 0 {
        start
    } else {
        clamp_channel((start * max + index * (end - start)) / max)
    }
}

/// The gradient colour at `index` of `max`, channel by channel.
pub open spec fn rgb_at(index: int, start: ColorRgbtuple, end: ColorRgbtuple, max: int) -> (int, int, int) {
    (
        channel_at(start.0 as int, end.0 as int, index, max),
        channel_at(start.1 as int, end.1 as int, index, max),
        channel_at(start.2 as int, end.2 as int, index, max),
    )
}

/// The triple as mathematical integers.
pub open spec fn triple(c: ColorRgbtuple) -> (int, int, int) {
    (c.0 as int, c.1 as int, c.2 as int)
}

/// A run of triples as mathematical integers.
pub open spec fn triples(colors: Seq<ColorRgbtuple>) -> Seq<(int, int, int)> {
    Seq::new(colors.len(), |i: int| triple(colors[i]))
}

/// The colours of `len` bars on the gradient from `start` to `end`: bar `i`
/// has the colour at `i` of `len`.
pub open spec fn gradient(len: int, start: ColorRgbtuple, end: ColorRgbtuple) -> Seq<(int, int, int)> {
    Seq::new(len as nat, |i: int| rgb_at(i, start, end, len))
}

/// Interpolates one channel; see [`channel_at`].
pub fn lerp_channel(start: u8, end: u8, index: u64, max: u64) -> (c: u8)
    ensures
        c as int == channel_at(start as int, end as int, index as int, max as int),
{
    if max == 0 {
        return start;
    }
    let m: u128 = max as u128;
    if end >= start {
        let span: u128 = (end - start) as u128;
        assert(index as int * span as int <= 0xffff_ffff_ffff_ffff * 255) by (nonlinear_arith)
            requires
                0 <= index as int <= 0xffff_ffff_ffff_ffff,
                0 <= span as int <= 255,
        ;
        let rise: u128 = (index as u128 * span) / m;
        proof {
            lemma_shift_quotient(start as int, index as int * span as int, max as int);
            assert(0 <= (index as int * span as int) / (max as int)) by (nonlinear_arith)
                requires
                    0 <= index as int * span as int,
                    max as int > 0,
            ;
        }
        if rise > (255 - start) as u128 {
            255
        } else {
            start + rise as u8
        }
    } else {
        let span: u128 = (start - end) as u128;
        assert(index as int * span as int <= 0xffff_ffff_ffff_ffff * 255) by (nonlinear_arith)
            requires
                0 <= index as int <= 0xffff_ffff_ffff_ffff,
                0 <= span as int <= 255,
        ;
        let fall: u128 = index as u128 * span;
        let whole: u128 = fall / m;
        let rest: u128 = fall % m;
        let drop: u128 = if rest == 0 {
            whole
        } else {
            whole + 1
        };
        proof {
            let d = max as int;
            let s = start as int;
            let f = fall as int;
            let w = whole as int;
            let r = rest as int;
            assert(f == w * d + r && 0 <= r < d && 0 <= w) by (nonlinear_arith)
                requires
                    d > 0,
                    f >= 0,
                    w == f / d,
                    r == f % d,
            ;
            assert(index as int * (end as int - start as int) == -f) by (nonlinear_arith)
                requires
                    f == index as int * span as int,
                    span as int == start as int - end as int,
            ;
            if r == 0 {
                assert(s * d - f == (s - w) * d + 0) by (nonlinear_arith)
                    requires
                        f == w * d + r,
                        r == 0,
                ;
                lemma_quotient(s * d - f, d, s - w, 0);
            } else {
                assert(s * d - f == (s - w - 1) * d + (d - r)) by (nonlinear_arith)
                    requires
                        f == w * d + r,
                ;
                lemma_quotient(s * d - f, d, s - w - 1, d - r);
            }
        }
        if drop >= start as u128 {
            0
        } else {
            start - drop as u8
        }
    }
}

/// The colour of position `i` on a gradient of `max` steps from
/// `color_start` to `color_end`.
pub fn get_rgb_tuple(i: usize, color_start: ColorRgbtuple, color_end: ColorRgbtuple, max: usize) -> (c: ColorRgbtuple)
    ensures
        triple(c) == rgb_at(i as int, color_start, color_end, max as int),
{
    let index: u64 = i as u64;
    let steps: u64 = max as u64;
    (
        lerp_channel(color_start.0, color_end.0, index, steps),
        lerp_channel(color_start.1, color_end.1, index, steps),
        lerp_channel(color_start.2, color_end.2, index, steps),
    )
}

/// One colour per bar, from `color_top` at the first bar towards
/// `color_bottom` behind the last.
pub fn get_shared_colors(len: usize, config: &Config) -> (colors: Vec<ColorRgbtuple>)
    ensures
        colors.len() == len,
        triples(colors@) == gradient(len as int, config.color_top, config.color_bottom),
{
    let mut colors: Vec<ColorRgbtuple> = Vec::new();
    let mut index: usize = 0;
    while index < len
        invariant
            index <= len,
            colors.len() == index,
            forall|j: int| 0 <= j < index ==> triple(#[trigger] colors[j]) == rgb_at(j, config.color_top, config.color_bottom, len as int),
        decreases len - index,
    {
        colors.push(get_rgb_tuple(index, config.color_top, config.color_bottom, len));
        index += 1;
    }
    assert(triples(colors@) =~= gradient(len as int, config.color_top, config.color_bottom));
    colors
}

/// A channel of a gradient starts at `start` and, after `max > 0` steps,
/// arrives at `end` exactly.
pub proof fn lemma_channel_endpoints(start: int, end: int, max: int)
    requires
        0 <= start <= 255,
        0 <= end <= 255,
        max > 0,
    ensures
        channel_at(start, end, 0, max) == start,
        channel_at(start, end, max, max) == end,
{
    assert(start * max + 0 * (end - start) == start * max + 0) by (nonlinear_arith);
    lemma_quotient(start * max + 0 * (end - start), max, start, 0);
    assert(start * max + max * (end - start) == end * max + 0) by (nonlinear_arith);
    lemma_quotient(start * max + max * (end - start), max, end, 0);
}

/// The gradient is exact at both ends: position `0` has the start colour and
/// position `max` the end colour, for every pair of colours and `max > 0`.
pub proof fn lemma_gradient_endpoints(start: ColorRgbtuple, end: ColorRgbtuple, max: int)
    requires
        max > 0,
    ensures
        rgb_at(0, start, end, max) == triple(start),
        rgb_at(max, start, end, max) == triple(end),
{
    lemma_channel_endpoints(start.0 as int, end.0 as int, max);
    lemma_channel_endpoints(start.1 as int, end.1 as int, max);
    lemma_channel_endpoints(start.2 as int, end.2 as int, max);
}

} // verus!
