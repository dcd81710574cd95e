//! Fitting a whole spectrum to a canvas that is one bar per pixel wide.

use vstd::prelude::*;
use crate::bars::scaled;
use crate::color::{channel_at, lerp_channel, ColorRgbtuple};
use crate::fixed::{
    blend, blend_value, ints, lemma_quotient, lemma_quotient_monotonic, min_int, scale_by, scale_value, UNIT,
};
use crate::noise::above_floor;
use crate::vectors::{copy_of, copy_range, zeros};

verus! {

/// Samples per analysis frame.
pub const FFT_SIZE: usize = 2048;

/// Bar length per unit of magnitude and pixel of canvas width.
pub const GLOBAL_SCALE: u64 = 5;

/// The weight of the new frame against the one drawn before.
pub const ALPHA: u64 = 500_000;

/// Gradient stop of the leftmost column.
pub const COLOR_START: ColorRgbtuple = (255, 128, 0);

/// Gradient stop of the rightmost column.
pub const COLOR_END: ColorRgbtuple = (128, 255, 0);

/// Gradient stop that full-height bars tend to.
pub const COLOR_FINAL: ColorRgbtuple = (128, 128, 255);

/// One bar on the canvas: a rectangle one column wide that stands on the
/// lower edge.
#[derive(Debug, Clone, Copy, PartialEq, Eq)]
pub struct Rectangle {
    /// The column.
    pub x: usize,
    /// Distance of the upper edge from the top of the canvas.
    pub y: u64,
    /// The length of the bar.
    pub height: u64,
    /// The fill colour.
    pub color: ColorRgbtuple,
}

/// The sum of `s[from..to]`.
pub open spec fn sum_of(s: Seq<int>, from: int, to: int) -> int
    decreases to - from,
{
    if to <= from {
        0
    } else {
        sum_of(s, from, to - 1) + s[to - 1]
    }
}

/// The bars averaged in `target` chunks of `len / target` neighbours, each
/// mean rounded down; bars behind the last whole chunk are left out.  Where
/// a chunk would hold fewer than two bars, nothing is averaged.
pub open spec fn averaged(bars: Seq<int>, target: int) -> Seq<int> {
    if target <= 0 || target > bars.len() || bars.len() as int / target <= 1 {
        bars
    } else {
        let chunk = bars.len() as int / target;
        Seq::new(target as nat, |j: int| sum_of(bars, j * chunk, (j + 1) * chunk) / chunk)
    }
}

/// Every bar against its predecessor: `this * alpha + other * (1 - alpha)`.
pub open spec fn interpolated(this_bars: Seq<int>, other: Seq<int>, alpha: int) -> Seq<int> {
    Seq::new(this_bars.len(), |i: int| blend(other[i], this_bars[i], alpha))
}

/// The colour of a column at a height: the gradient across the canvas from
/// `COLOR_START` to `COLOR_END`, leaning towards `COLOR_FINAL` as the bar
/// grows.
pub open spec fn color_of(index: int, height: int, width_total: int, height_total: int) -> (int, int, int) {
    (
        channel_at(
            channel_at(COLOR_START.0 as int, COLOR_END.0 as int, index, width_total),
            COLOR_FINAL.0 as int,
            height,
            height_total,
        ),
        channel_at(
            channel_at(COLOR_START.1 as int, COLOR_END.1 as int, index, width_total),
            COLOR_FINAL.1 as int,
            height,
            height_total,
        ),
        channel_at(
            channel_at(COLOR_START.2 as int, COLOR_END.2 as int, index, width_total),
            COLOR_FINAL.2 as int,
            height,
            height_total,
        ),
    )
}

/// The rectangle of column `x` for a bar of the given length on a canvas of
/// the given size: the bar is cut at the canvas height.
pub open spec fn rectangle_of(x: int, bar: int, screen_width: int, screen_height: int, r: Rectangle) -> bool {
    let height = min_int(bar, screen_height);
    &&& r.x as int == x
    &&& r.height as int == height
    &&& r.y as int == screen_height - height
    &&& (r.color.0 as int, r.color.1 as int, r.color.2 as int) == color_of(x, height, screen_width, screen_height)
}

/// The bars drawn before, or a row of zeros where the canvas has changed
/// its width since.
pub open spec fn previous_row(drawn_prev: Seq<int>, width: int) -> Seq<int> {
    if drawn_prev.len() == width {
        drawn_prev
    } else {
        Seq::new(width as nat, |i: int| 0int)
    }
}

/// The bars of one redraw: the spectrum averaged down to the width of the
/// canvas, stretched, cut to the columns that the canvas has, and blended
/// half and half with the bars drawn before.  A canvas without columns
/// shows no bars.
pub open spec fn frame_drawn(spectrum: Seq<int>, drawn_prev: Seq<int>, width: int) -> Seq<int> {
    let stretched = scaled(averaged(spectrum, width), GLOBAL_SCALE * width, 1);
    let previous = previous_row(drawn_prev, width);
    interpolated(stretched.take(min_int(stretched.len() as int, previous.len() as int)), previous, ALPHA as int)
}

/// The slot that a frequency (hertz, counted in millionths) is stored in:
/// its whole hertz, held inside the slots.
pub open spec fn slot_of(frequency: int, slots: int) -> int {
    min_int(frequency / (UNIT as int), slots - 1)
}

/// The slots after the first `count` pairs of signal and noise were stored,
/// in order.  A signal value whose noise partner falls into the same slot
/// has the noise taken away, never below zero; another is stored as it is.
pub open spec fn stored(slots: Seq<int>, spectrum: Seq<(u64, u64)>, noise: Seq<(u64, u64)>, count: int) -> Seq<int>
    decreases count,
{
    if count <= 0 {
        slots
    } else {
        let before = stored(slots, spectrum, noise, count - 1);
        let signal = spectrum[count - 1];
        let ambient = noise[count - 1];
        let slot = slot_of(signal.0 as int, slots.len() as int);
        let value = if slot_of(ambient.0 as int, slots.len() as int) == slot {
            above_floor(signal.1 as int, ambient.1 as int)
        } else {
            signal.1 as int
        };
        before.update(slot, value)
    }
}

/// `profile` filled up to `limit` samples with `chunk`, repeated as often as
/// it takes.  A full profile stays as it is, and so does any profile when
/// the chunk is empty.
pub open spec fn filled<T>(profile: Seq<T>, chunk: Seq<T>, limit: int) -> Seq<T> {
    if profile.len() >= limit || chunk.len() == 0 {
        profile
    } else {
        Seq::new(
            limit as nat,
            |i: int|
                if i < profile.len() {
                    profile[i]
                } else {
                    chunk[(i - profile.len()) % (chunk.len() as int)]
                },
        )
    }
}

/// A sum of `count` 64-bit values stays below `count` times their range.
proof fn lemma_sum_bound(s: Seq<u64>, from: int, to: int)
    requires
        0 <= from <= to <= s.len(),
    ensures
        0 <= sum_of(ints(s), from, to) <= (to - from) * 0xffff_ffff_ffff_ffff,
    decreases to - from,
{
    if to > from {
        lemma_sum_bound(s, from, to - 1);
        assert((to - 1 - from) * 0xffff_ffff_ffff_ffff + 0xffff_ffff_ffff_ffff == (to - from) * 0xffff_ffff_ffff_ffff)
            by (nonlinear_arith);
    }
}

/// Averages neighbouring bars so that `target_size` bars are left; see
/// [`averaged`].
pub fn average_the_bars(bars: Vec<u64>, target_size: usize) -> (output: Vec<u64>)
    ensures
        ints(output@) == averaged(ints(bars@), target_size as int),
{
    if target_size == 0 {
        return bars;
    }
    let chunk_size: usize = bars.len() / target_size;
    if target_size > bars.len() || chunk_size <= 1 {
        return bars;
    }
    let ghost source = ints(bars@);
    assert(target_size * chunk_size <= bars.len()) by (nonlinear_arith)
        requires
            target_size > 0,
            chunk_size == bars.len() / target_size,
    ;
    let mut output: Vec<u64> = Vec::new();
    let mut j: usize = 0;
    while j < target_size
        invariant
            j <= target_size,
            chunk_size > 1,
            target_size * chunk_size <= bars.len(),
            source == ints(bars@),
            output.len() == j,
            forall|k: int| 0 <= k < j ==> output[k] as int == sum_of(source, k * chunk_size, (k + 1) * chunk_size) / (chunk_size as int),
        decreases target_size - j,
    {
        assert(0 <= j * chunk_size && (j + 1) * chunk_size <= target_size * chunk_size && (j + 1) * chunk_size == j
            * chunk_size + chunk_size) by (nonlinear_arith)
            requires
                0 <= j < target_size,
                chunk_size > 1,
        ;
        let base: usize = j * chunk_size;
        let mut total: u128 = 0;
        let mut i: usize = 0;
        while i < chunk_size
            invariant
                i <= chunk_size,
                base + chunk_size <= bars.len(),
                source == ints(bars@),
                total as int == sum_of(source, base as int, base + i),
                total as int <= i * 0xffff_ffff_ffff_ffff,
            decreases chunk_size - i,
        {
            proof {
                lemma_sum_bound(bars@, base as int, base + i + 1);
                assert(source[base + i] == bars[base + i] as int);
            }
            total = total + bars[base + i] as u128;
            i += 1;
        }
        let mean: u128 = total / (chunk_size as u128);
        proof {
            lemma_quotient(chunk_size * 0xffff_ffff_ffff_ffff, chunk_size as int, 0xffff_ffff_ffff_ffff, 0);
            lemma_quotient_monotonic(total as int, chunk_size * 0xffff_ffff_ffff_ffff, chunk_size as int);
        }
        output.push(mean as u64);
        j += 1;
    }
    assert(ints(output@) =~= averaged(source, target_size as int));
    output
}

/// Stretches every bar by `GLOBAL_SCALE` times the width of the canvas, cut
/// to 64 bits.
pub fn scale_the_bars(bars: Vec<u64>, screen_width: u32) -> (output: Vec<u64>)
    ensures
        ints(output@) == scaled(ints(bars@), GLOBAL_SCALE * screen_width, 1),
{
    let scale: u64 = GLOBAL_SCALE * (screen_width as u64);
    let mut output: Vec<u64> = Vec::new();
    let mut i: usize = 0;
    while i < bars.len()
        invariant
            i <= bars.len(),
            scale == GLOBAL_SCALE * screen_width,
            output.len() == i,
            forall|k: int| 0 <= k < i ==> output[k] as int == scale_value(bars[k] as int, scale as int, 1),
        decreases bars.len() - i,
    {
        output.push(scale_by(bars[i], scale, 1));
        i += 1;
    }
    assert(ints(output@) =~= scaled(ints(bars@), GLOBAL_SCALE * screen_width, 1));
    output
}

/// Blends every bar with the one drawn before it in the same column:
/// `this * alpha + other * (1 - alpha)`.
pub fn interpolate_the_bars(this_bars: Vec<u64>, other: &Vec<u64>, alpha: u64) -> (output: Vec<u64>)
    requires
        alpha <= UNIT,
        this_bars.len() <= other.len(),
    ensures
        ints(output@) == interpolated(ints(this_bars@), ints(other@), alpha as int),
{
    let mut output: Vec<u64> = Vec::new();
    let mut i: usize = 0;
    while i < this_bars.len()
        invariant
            i <= this_bars.len(),
            this_bars.len() <= other.len(),
            alpha <= UNIT,
            output.len() == i,
            forall|k: int| 0 <= k < i ==> output[k] as int == blend(other[k] as int, this_bars[k] as int, alpha as int),
        decreases this_bars.len() - i,
    {
        output.push(blend_value(other[i], this_bars[i], alpha));
        i += 1;
    }
    assert(ints(output@) =~= interpolated(ints(this_bars@), ints(other@), alpha as int));
    output
}

/// The colour of column `index` at `height`; see [`color_of`].
pub fn give_me_the_color(index: u64, height: u64, width_total: u64, height_total: u64) -> (color: ColorRgbtuple)
    ensures
        (color.0 as int, color.1 as int, color.2 as int) == color_of(
            index as int,
            height as int,
            width_total as int,
            height_total as int,
        ),
{
    let red: u8 = lerp_channel(COLOR_START.0, COLOR_END.0, index, width_total);
    let green: u8 = lerp_channel(COLOR_START.1, COLOR_END.1, index, width_total);
    let blue: u8 = lerp_channel(COLOR_START.2, COLOR_END.2, index, width_total);
    (
        lerp_channel(red, COLOR_FINAL.0, height, height_total),
        lerp_channel(green, COLOR_FINAL.1, height, height_total),
        lerp_channel(blue, COLOR_FINAL.2, height, height_total),
    )
}

/// Lays the bars out as rectangles, one per column, each cut at the height
/// of the canvas and coloured by column and height.
pub fn draw_rectangles(bars: Vec<u64>, screen_width: u64, screen_height: u64) -> (rectangles: Vec<Rectangle>)
    ensures
        rectangles.len() == bars.len(),
        forall|i: int|
            0 <= i < bars.len() ==> rectangle_of(
                i,
                bars[i] as int,
                screen_width as int,
                screen_height as int,
                #[trigger] rectangles[i],
            ),
{
    let mut rectangles: Vec<Rectangle> = Vec::new();
    let mut i: usize = 0;
    while i < bars.len()
        invariant
            i <= bars.len(),
            rectangles.len() == i,
            forall|k: int|
                0 <= k < i ==> rectangle_of(
                    k,
                    bars[k] as int,
                    screen_width as int,
                    screen_height as int,
                    #[trigger] rectangles[k],
                ),
        decreases bars.len() - i,
    {
        let height: u64 = if bars[i] < screen_height {
            bars[i]
        } else {
            screen_height
        };
        let color = give_me_the_color(i as u64, height, screen_width, screen_height);
        rectangles.push(Rectangle { x: i, y: screen_height - height, height, color });
        i += 1;
    }
    rectangles
}

/// The bars of one redraw of a canvas `screen_width` pixels wide; see
/// [`frame_drawn`].  `drawn_prev` holds the bars of the redraw before and
/// is left holding those of this one.
pub fn render_frame(spectrum: Vec<u64>, drawn_prev: &mut Vec<u64>, screen_width: u32) -> (drawn: Vec<u64>)
    ensures
        ints(drawn@) == frame_drawn(ints(spectrum@), ints(old(drawn_prev)@), screen_width as int),
        final(drawn_prev)@ == drawn@,
{
    let width: usize = screen_width as usize;
    if drawn_prev.len() != width {
        *drawn_prev = zeros(width);
    }
    let ghost source = ints(spectrum@);
    let fitted = average_the_bars(spectrum, width);
    let stretched = scale_the_bars(fitted, screen_width);
    let ghost row = scaled(averaged(source, width as int), GLOBAL_SCALE * screen_width, 1);
    assert(stretched.len() == row.len());
    let columns: usize = if stretched.len() < drawn_prev.len() {
        stretched.len()
    } else {
        drawn_prev.len()
    };
    let shown = copy_range(&stretched, 0, columns);
    assert(ints(shown@) =~= row.take(columns as int));
    let drawn = interpolate_the_bars(shown, drawn_prev, ALPHA);
    *drawn_prev = copy_of(&drawn);
    drawn
}

/// Computes [`slot_of`] on machine integers.
fn slot_index(frequency: u64, slots: usize) -> (slot: usize)
    requires
        slots > 0,
    ensures
        slot as int == slot_of(frequency as int, slots as int),
        slot < slots,
{
    let whole: u64 = frequency / UNIT;
    if whole >= (slots - 1) as u64 {
        slots - 1
    } else {
        whole as usize
    }
}

/// Stores a spectrum, one slot per hertz, with the noise of the same
/// frequency taken away; see [`stored`].  `spectrum` and `noise` hold pairs
/// of a frequency and a value and are walked side by side as far as the
/// shorter one reaches.
pub fn store_spectrum(slots: &mut Vec<u64>, spectrum: &Vec<(u64, u64)>, noise: &Vec<(u64, u64)>)
    requires
        old(slots).len() > 0,
    ensures
        final(slots).len() == old(slots).len(),
        ints(final(slots)@) == stored(
            ints(old(slots)@),
            spectrum@,
            noise@,
            min_int(spectrum.len() as int, noise.len() as int),
        ),
{
    let ghost before = ints(slots@);
    let count: usize = if spectrum.len() < noise.len() {
        spectrum.len()
    } else {
        noise.len()
    };
    let size: usize = slots.len();
    let mut i: usize = 0;
    while i < count
        invariant
            i <= count,
            count <= spectrum.len(),
            count <= noise.len(),
            size > 0,
            slots.len() == size,
            before.len() == size,
            ints(slots@) == stored(before, spectrum@, noise@, i as int),
        decreases count - i,
    {
        let signal = spectrum[i];
        let ambient = noise[i];
        let slot: usize = slot_index(signal.0, size);
        let value: u64 = if slot_index(ambient.0, size) == slot {
            if signal.1 > ambient.1 {
                signal.1 - ambient.1
            } else {
                0
            }
        } else {
            signal.1
        };
        let ghost row = ints(slots@);
        slots.set(slot, value);
        assert(ints(slots@) =~= row.update(slot as int, value as int));
        i += 1;
    }
}

/// Fills `profile` up to `limit` samples with `chunk`, repeated as often as
/// it takes; a profile that is full already is left alone, and an empty
/// chunk adds nothing.
pub fn fill_noise_profile<T: Copy>(profile: &mut Vec<T>, chunk: &[T], limit: usize)
    ensures
        final(profile)@ == filled(old(profile)@, chunk@, limit as int),
{
    let ghost before = profile@;
    if profile.len() >= limit || chunk.len() == 0 {
        return ;
    }
    let start: usize = profile.len();
    let mut next: usize = 0;
    proof {
        lemma_quotient(0, chunk.len() as int, 0, 0);
    }
    while profile.len() < limit
        invariant
            chunk.len() > 0,
            start == before.len(),
            start <= profile.len() <= limit,
            next < chunk.len(),
            next as int == (profile.len() - start) % (chunk.len() as int),
            forall|k: int| 0 <= k < start ==> profile[k] == before[k],
            forall|k: int| start <= k < profile.len() ==> profile[k] == chunk[(k - start) % (chunk.len() as int)],
        decreases limit - profile.len(),
    {
        profile.push(chunk[next]);
        proof {
            let done = profile.len() - 1 - start;
            let len = chunk.len() as int;
            let turns = done / len;
            assert(done == turns * len + next) by (nonlinear_arith)
                requires
                    len > 0,
                    turns == done / len,
                    next as int == done % len,
            ;
            if next + 1 == len {
                assert(done + 1 == (turns + 1) * len + 0) by (nonlinear_arith)
                    requires
                        done == turns * len + next,
                        next + 1 == len,
                ;
                lemma_quotient(done + 1, len, turns + 1, 0);
            } else {
                lemma_quotient(done + 1, len, turns, next + 1);
            }
        }
        next = if next + 1 == chunk.len() {
            0
        } else {
            next + 1
        };
    }
    assert(profile@ =~= filled(before, chunk@, limit as int));
}

} // verus!
