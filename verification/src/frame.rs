//! Cutting a stream of sample chunks into frames of a fixed length.

use vstd::prelude::*;
use crate::fixed::lemma_quotient;
use crate::vectors::copy_range;

verus! {

/// The complete frames at the head of `samples`, each `size` long, in order.
pub open spec fn frames_of<T>(samples: Seq<T>, size: int) -> Seq<Seq<T>> {
    Seq::new((samples.len() as int / size) as nat, |k: int| samples.subrange(k * size, (k + 1) * size))
}

/// What is left of `samples` behind its complete frames.
pub open spec fn remainder_of<T>(samples: Seq<T>, size: int) -> Seq<T> {
    samples.skip((samples.len() as int / size) * size)
}

/// The first `count` frames of `samples` laid end to end.
pub open spec fn joined_frames<T>(samples: Seq<T>, size: int, count: int) -> Seq<T>
    decreases count,
{
    if count <= 0 {
        Seq::empty()
    } else {
        joined_frames(samples, size, count - 1) + samples.subrange((count - 1) * size, count * size)
    }
}

/// Frames are cut first in, first out: laid end to end they are the head of
/// the stream, so with the remainder behind them no sample is lost, none is
/// doubled and none changes place.
pub proof fn lemma_frames_keep_every_sample<T>(samples: Seq<T>, size: int, count: int)
    requires
        size > 0,
        0 <= count <= samples.len() as int / size,
    ensures
        count * size <= samples.len(),
        joined_frames(samples, size, count) == samples.take(count * size),
        count == samples.len() as int / size ==> joined_frames(samples, size, count) + remainder_of(samples, size)
            == samples,
        remainder_of(samples, size).len() < size,
    decreases count,
{
    let whole = samples.len() as int / size;
    assert(whole * size <= samples.len() < whole * size + size) by (nonlinear_arith)
        requires
            size > 0,
            whole == samples.len() as int / size,
    ;
    assert(count * size <= whole * size) by (nonlinear_arith)
        requires
            count <= whole,
            size > 0,
    ;
    if count > 0 {
        lemma_frames_keep_every_sample(samples, size, count - 1);
        assert((count - 1) * size + size == count * size) by (nonlinear_arith);
        assert(joined_frames(samples, size, count) =~= samples.take(count * size));
    } else {
        assert(0 * size == 0) by (nonlinear_arith);
        assert(joined_frames(samples, size, count) =~= samples.take(count * size));
    }
    if count == whole {
        assert(samples.take(count * size) + samples.skip(count * size) =~= samples);
    }
}

/// Collects incoming samples and hands them out in frames of `fft_size`.
///
/// No sample is ever dropped or doubled, so how much is pending depends on
/// how the frames are taken:
/// - After every [`FrameAssembler::accept`] fewer than `fft_size` samples
///   are pending: the buffer never holds more than one chunk beyond that.
/// - [`FrameAssembler::push_chunk`] sets no bound of its own.  With
///   [`FrameAssembler::next_frame`] or
///   [`FrameAssembler::next_frame_leaving`] the buffer holds every sample
///   pushed and not yet taken, and grows for as long as chunks arrive faster
///   than frames are taken.  [`FrameAssembler::pending`] tells how far
///   behind the consumer is; a caller that must bound the delay takes
///   frames until it has caught up.
pub struct FrameAssembler<T> {
    buffer: Vec<T>,
    fft_size: usize,
}

impl<T: Copy> FrameAssembler<T> {
    /// The samples that wait for their frame, oldest first.
    pub closed spec fn view(&self) -> Seq<T> {
        self.buffer@
    }

    /// The length of a frame.
    pub closed spec fn frame_len(&self) -> int {
        self.fft_size as int
    }

    /// Frames are never empty.
    pub closed spec fn wf(&self) -> bool {
        self.fft_size > 0
    }

    /// An assembler of frames of `fft_size` samples with nothing pending.
    pub fn new(fft_size: usize) -> (assembler: Self)
        requires
            fft_size > 0,
        ensures
            assembler.wf(),
            assembler@ == Seq::<T>::empty(),
            assembler.frame_len() == fft_size,
    {
        FrameAssembler { buffer: Vec::new(), fft_size }
    }

    /// The number of samples that wait for their frame.
    pub fn pending(&self) -> (count: usize)
        ensures
            count == self@.len(),
    {
        self.buffer.len()
    }

    /// The length of a frame.
    pub fn fft_size(&self) -> (size: usize)
        ensures
            size == self.frame_len(),
    {
        self.fft_size
    }

    /// Appends a chunk of any length behind the pending samples.  Nothing is
    /// handed out and nothing is dropped: the buffer grows by the chunk.
    pub fn push_chunk(&mut self, chunk: &[T])
        ensures
            final(self).wf() == old(self).wf(),
            final(self).frame_len() == old(self).frame_len(),
            final(self)@ == old(self)@ + chunk@,
    {
        let ghost before = self.buffer@;
        let mut i: usize = 0;
        while i < chunk.len()
            invariant
                i <= chunk.len(),
                self.fft_size == old(self).fft_size,
                self.buffer@ == before + chunk@.take(i as int),
            decreases chunk.len() - i,
        {
            self.buffer.push(chunk[i]);
            assert(self.buffer@ =~= before + chunk@.take(i + 1));
            i += 1;
        }
        assert(self.buffer@ =~= before + chunk@);
    }

    /// Hands out the oldest frame when a whole one is pending, and removes
    /// its samples; otherwise nothing changes.
    pub fn next_frame(&mut self) -> (frame: Option<Vec<T>>)
        requires
            old(self).wf(),
        ensures
            final(self).wf(),
            final(self).frame_len() == old(self).frame_len(),
            match frame {
                Some(f) => old(self)@.len() >= old(self).frame_len() && f@ == old(self)@.take(old(self).frame_len())
                    && final(self)@ == old(self)@.skip(old(self).frame_len()),
                None => old(self)@.len() < old(self).frame_len() && final(self)@ == old(self)@,
            },
    {
        let size: usize = self.fft_size;
        let len: usize = self.buffer.len();
        if len < size {
            return None;
        }
        let frame = copy_range(&self.buffer, 0, size);
        let rest = copy_range(&self.buffer, size, len - size);
        assert(frame@ =~= self.buffer@.take(size as int));
        assert(rest@ =~= self.buffer@.skip(size as int));
        self.buffer = rest;
        Some(frame)
    }

    /// Hands out the oldest frame only when more than `margin` samples stay
    /// pending behind it; otherwise nothing changes.
    pub fn next_frame_leaving(&mut self, margin: usize) -> (frame: Option<Vec<T>>)
        requires
            old(self).wf(),
        ensures
            final(self).wf(),
            final(self).frame_len() == old(self).frame_len(),
            match frame {
                Some(f) => old(self)@.len() > old(self).frame_len() + margin && f@ == old(self)@.take(
                    old(self).frame_len(),
                ) && final(self)@ == old(self)@.skip(old(self).frame_len()),
                None => old(self)@.len() <= old(self).frame_len() + margin && final(self)@ == old(self)@,
            },
    {
        if self.buffer.len() < self.fft_size || self.buffer.len() - self.fft_size <= margin {
            return None;
        }
        self.next_frame()
    }

    /// Appends `chunk` and hands out every frame that is now complete, oldest
    /// first.  What is left pending is shorter than a frame.
    pub fn accept(&mut self, chunk: &[T]) -> (frames: Vec<Vec<T>>)
        requires
            old(self).wf(),
        ensures
            final(self).wf(),
            final(self).frame_len() == old(self).frame_len(),
            frames@.map_values(|f: Vec<T>| f@) == frames_of(old(self)@ + chunk@, old(self).frame_len()),
            final(self)@ == remainder_of(old(self)@ + chunk@, old(self).frame_len()),
            final(self)@.len() < old(self).frame_len(),
    {
        self.push_chunk(chunk);
        let size: usize = self.fft_size;
        let len: usize = self.buffer.len();
        let ghost all = self.buffer@;
        let mut frames: Vec<Vec<T>> = Vec::new();
        let mut start: usize = 0;
        assert(start == frames.len() * size) by (nonlinear_arith)
            requires
                start == 0,
                frames.len() == 0,
        ;
        while len - start >= size
            invariant
                size > 0,
                size == self.fft_size,
                len == self.buffer.len(),
                all == self.buffer@,
                start <= len,
                start == frames.len() * size,
                forall|k: int| 0 <= k < frames.len() ==> (#[trigger] frames[k])@ == all.subrange(k * size, (k + 1) * size),
            decreases len - start,
        {
            let frame = copy_range(&self.buffer, start, size);
            assert((frames.len() + 1) * size == start + size) by (nonlinear_arith)
                requires
                    start == frames.len() * size,
            ;
            frames.push(frame);
            start += size;
        }
        let rest = copy_range(&self.buffer, start, len - start);
        proof {
            lemma_quotient(len as int, size as int, frames.len() as int, len - start);
            assert(rest@ =~= remainder_of(all, size as int));
            assert(frames@.map_values(|f: Vec<T>| f@) =~= frames_of(all, size as int));
        }
        self.buffer = rest;
        frames
    }
}

} // verus!
