//! Smoothing across frames and across neighbouring bars.

use vstd::prelude::*;
use crate::fixed::{blend, blend_value, ints, lemma_blend_between, lemma_blend_constant, max_int, min_int, UNIT};
use crate::vectors::zeros;

verus! {

/// One step of the moving average: every bin that `next` reaches moves from
/// its old value towards the new one by `weight`; the others stay.
pub open spec fn blended(prev: Seq<int>, next: Seq<int>, weight: int) -> Seq<int> {
    Seq::new(
        prev.len(),
        |i: int|
            if i < next.len() {
                blend(prev[i], next[i], weight)
            } else {
                prev[i]
            },
    )
}

/// The forward pass: from the second bar on, each bar is blended with its
/// already smoothed left neighbour.
pub open spec fn forward_pass(bars: Seq<int>, sigma: int) -> Seq<int>
    decreases bars.len(),
{
    if bars.len() <= 1 {
        bars
    } else {
        let head = forward_pass(bars.drop_last(), sigma);
        head.push(blend(head.last(), bars.last(), sigma))
    }
}

/// The backward pass: from the last but one bar down, each bar is blended
/// with its already smoothed right neighbour.
pub open spec fn backward_pass(bars: Seq<int>, sigma: int) -> Seq<int>
    decreases bars.len(),
{
    if bars.len() <= 1 {
        bars
    } else {
        let tail = backward_pass(bars.drop_first(), sigma);
        seq![blend(bars[0], tail[0], sigma)] + tail
    }
}

/// Both passes, forward first.
pub open spec fn smoothed_bars(bars: Seq<int>, sigma: int) -> Seq<int> {
    backward_pass(forward_pass(bars, sigma), sigma)
}

/// Every bin of the moving average lies between its previous value and the
/// new sample, for every weight between zero and one.
pub proof fn lemma_blended_between(prev: Seq<int>, next: Seq<int>, weight: int)
    requires
        0 <= weight <= UNIT,
    ensures
        blended(prev, next, weight).len() == prev.len(),
        forall|i: int|
            0 <= i < prev.len() && i < next.len() ==> min_int(prev[i], next[i]) <= #[trigger] blended(
                prev,
                next,
                weight,
            )[i] <= max_int(prev[i], next[i]),
{
    assert forall|i: int| 0 <= i < prev.len() && i < next.len() implies min_int(prev[i], next[i])
        <= #[trigger] blended(prev, next, weight)[i] <= max_int(prev[i], next[i]) by {
        lemma_blend_between(prev[i], next[i], weight);
    }
}

/// The forward pass bar by bar.
pub proof fn lemma_forward_pass(bars: Seq<int>, sigma: int)
    ensures
        forward_pass(bars, sigma).len() == bars.len(),
        bars.len() > 0 ==> forward_pass(bars, sigma)[0] == bars[0],
        forall|i: int|
            1 <= i < bars.len() ==> #[trigger] forward_pass(bars, sigma)[i] == blend(
                forward_pass(bars, sigma)[i - 1],
                bars[i],
                sigma,
            ),
    decreases bars.len(),
{
    if bars.len() > 1 {
        let front = bars.drop_last();
        lemma_forward_pass(front, sigma);
        let head = forward_pass(front, sigma);
        let all = forward_pass(bars, sigma);
        assert(all == head.push(blend(head.last(), bars.last(), sigma)));
        assert forall|i: int| 1 <= i < bars.len() implies #[trigger] all[i] == blend(all[i - 1], bars[i], sigma) by {
            if i < bars.len() - 1 {
                assert(all[i] == head[i]);
                assert(all[i - 1] == head[i - 1]);
                assert(front[i] == bars[i]);
            }
        }
    }
}

/// The backward pass bar by bar.
pub proof fn lemma_backward_pass(bars: Seq<int>, sigma: int)
    ensures
        backward_pass(bars, sigma).len() == bars.len(),
        bars.len() > 0 ==> backward_pass(bars, sigma).last() == bars.last(),
        forall|i: int|
            0 <= i < bars.len() - 1 ==> #[trigger] backward_pass(bars, sigma)[i] == blend(
                bars[i],
                backward_pass(bars, sigma)[i + 1],
                sigma,
            ),
    decreases bars.len(),
{
    if bars.len() > 1 {
        let back = bars.drop_first();
        lemma_backward_pass(back, sigma);
        let tail = backward_pass(back, sigma);
        let all = backward_pass(bars, sigma);
        assert(all == seq![blend(bars[0], tail[0], sigma)] + tail);
        assert forall|i: int| 0 <= i < bars.len() - 1 implies #[trigger] all[i] == blend(bars[i], all[i + 1], sigma) by {
            assert(all[i + 1] == tail[i]);
            if i > 0 {
                assert(all[i] == tail[i - 1]);
                assert(back[i - 1] == bars[i]);
            }
        }
    }
}

/// Spatial smoothing keeps the number of bars.
pub proof fn lemma_smoothed_bars_len(bars: Seq<int>, sigma: int)
    ensures
        smoothed_bars(bars, sigma).len() == bars.len(),
{
    lemma_forward_pass(bars, sigma);
    lemma_backward_pass(forward_pass(bars, sigma), sigma);
}

/// Bars that are all equal are a fixed point of spatial smoothing, whatever
/// the factor.
pub proof fn lemma_constant_bars_are_fixed(bars: Seq<int>, level: int, sigma: int)
    requires
        forall|i: int| 0 <= i < bars.len() ==> bars[i] == level,
    ensures
        forward_pass(bars, sigma) == bars,
        backward_pass(bars, sigma) == bars,
        smoothed_bars(bars, sigma) == bars,
    decreases bars.len(),
{
    if bars.len() > 1 {
        lemma_constant_bars_are_fixed(bars.drop_last(), level, sigma);
        lemma_constant_bars_are_fixed(bars.drop_first(), level, sigma);
        lemma_blend_constant(level, sigma);
        assert(forward_pass(bars, sigma) =~= bars);
        assert(backward_pass(bars, sigma) =~= bars);
    }
}

/// Smooths the bars in place with a forward and a backward exponential
/// blend of factor `sigma`.
pub fn spatial_smooth_bins(bar_lengths: &mut Vec<u64>, sigma: u64)
    requires
        sigma <= UNIT,
    ensures
        final(bar_lengths).len() == old(bar_lengths).len(),
        ints(final(bar_lengths)@) == smoothed_bars(ints(old(bar_lengths)@), sigma as int),
{
    let n: usize = bar_lengths.len();
    if n <= 1 {
        return ;
    }
    let ghost before = ints(bar_lengths@);
    let ghost middle = forward_pass(before, sigma as int);
    proof {
        lemma_forward_pass(before, sigma as int);
    }
    let mut i: usize = 1;
    while i < n
        invariant
            1 <= i <= n,
            sigma <= UNIT,
            bar_lengths.len() == n,
            before.len() == n,
            middle.len() == n,
            middle[0] == before[0],
            forall|j: int| 1 <= j < n ==> #[trigger] middle[j] == blend(middle[j - 1], before[j], sigma as int),
            forall|j: int| 0 <= j < i ==> bar_lengths[j] as int == middle[j],
            forall|j: int| i <= j < n ==> bar_lengths[j] as int == before[j],
        decreases n - i,
    {
        let value: u64 = blend_value(bar_lengths[i - 1], bar_lengths[i], sigma);
        bar_lengths.set(i, value);
        i += 1;
    }
    let ghost after = backward_pass(middle, sigma as int);
    proof {
        lemma_backward_pass(middle, sigma as int);
    }
    let mut k: usize = n - 1;
    while k > 0
        invariant
            k < n,
            sigma <= UNIT,
            bar_lengths.len() == n,
            middle.len() == n,
            after.len() == n,
            after[n - 1] == middle[n - 1],
            forall|j: int| 0 <= j < n - 1 ==> #[trigger] after[j] == blend(middle[j], after[j + 1], sigma as int),
            forall|j: int| k <= j < n ==> bar_lengths[j] as int == after[j],
            forall|j: int| 0 <= j < k ==> bar_lengths[j] as int == middle[j],
        decreases k,
    {
        k -= 1;
        let value: u64 = blend_value(bar_lengths[k], bar_lengths[k + 1], sigma);
        bar_lengths.set(k, value);
    }
    assert(ints(bar_lengths@) =~= after);
}

/// The state of the temporal smoother: one smoothed value per bin.
pub struct TemporalSmoother {
    smoothed: Vec<u64>,
}

impl TemporalSmoother {
    /// The smoothed values as mathematical integers.
    pub closed spec fn view(&self) -> Seq<int> {
        ints(self.smoothed@)
    }

    /// A smoother over `bins` bins, all at zero.
    pub fn new(bins: usize) -> (smoother: Self)
        ensures
            smoother@ == Seq::new(bins as nat, |i: int| 0int),
    {
        TemporalSmoother { smoothed: zeros(bins) }
    }

    /// The smoothed values.
    pub fn values(&self) -> (values: &Vec<u64>)
        ensures
            ints(values@) == self@,
    {
        &self.smoothed
    }

    /// Moves every bin that `clean` reaches towards its new sample:
    /// `smoothed * (1 - alpha) + clean * alpha`.
    pub fn update(&mut self, clean: &Vec<u64>, alpha: u64)
        requires
            alpha <= UNIT,
            clean.len() <= old(self)@.len(),
        ensures
            final(self)@ == blended(old(self)@, ints(clean@), alpha as int),
            forall|i: int|
                0 <= i < clean.len() ==> min_int(old(self)@[i], clean[i] as int) <= #[trigger] final(self)@[i]
                    <= max_int(old(self)@[i], clean[i] as int),
    {
        let ghost before = ints(self.smoothed@);
        let mut i: usize = 0;
        while i < clean.len()
            invariant
                i <= clean.len(),
                alpha <= UNIT,
                clean.len() <= self.smoothed.len(),
                self.smoothed.len() == before.len(),
                forall|j: int| 0 <= j < i ==> self.smoothed[j] as int == blend(before[j], clean[j] as int, alpha as int),
                forall|j: int| i <= j < self.smoothed.len() ==> self.smoothed[j] as int == before[j],
            decreases clean.len() - i,
        {
            let value: u64 = blend_value(self.smoothed[i], clean[i], alpha);
            self.smoothed.set(i, value);
            i += 1;
        }
        proof {
            assert(ints(self.smoothed@) =~= blended(before, ints(clean@), alpha as int));
            lemma_blended_between(before, ints(clean@), alpha as int);
        }
    }
}

} // verus!
