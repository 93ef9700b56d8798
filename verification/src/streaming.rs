//! Frames of a signal that arrives in pieces.
//!
//! The source buffers what it is given in a ring. Whenever the ring holds a
//! whole window, the oldest `window_size` samples are the next frame; a step
//! drops the oldest `step_size` of them.

use crate::error::SpectrogramError;
use crate::frames::{
    batch_frames, frame_at, frame_count, lemma_consumed_bounds, lemma_frame_in_bounds,
    lemma_stream_frames_from_pending, remainder, stream_frames, stream_pending, valid_config,
    views_of,
};
use crate::ring::{ring_drop_front, ring_push_back, ring_read_front};
use std::collections::VecDeque;
use vstd::prelude::*;

verus! {

/// A streaming frame source: a window size, a step size, and the samples
/// that were appended and not yet stepped over.
pub struct STFT {
    window_size: usize,
    step_size: usize,
    /// The samples not yet stepped over, oldest first.
    sample_ring: VecDeque<u64>,
}

impl STFT {
    /// What every source made by `new` satisfies, and every method keeps:
    /// the step is at least one sample and at most one window.
    pub closed spec fn well_formed(&self) -> bool {
        0 < self.step_size <= self.window_size
    }

    /// The number of samples in a frame.
    pub closed spec fn spec_window_size(&self) -> nat {
        self.window_size as nat
    }

    /// The number of samples between the starts of successive frames.
    pub closed spec fn spec_step_size(&self) -> nat {
        self.step_size as nat
    }

    /// The buffered samples, oldest first.
    pub closed spec fn pending(&self) -> Seq<u64> {
        self.sample_ring@
    }

    /// Whether the source holds a whole frame.
    pub open spec fn ready(&self) -> bool {
        self.pending().len() >= self.spec_window_size()
    }

    /// A well-formed source has a valid configuration.
    pub proof fn lemma_well_formed(&self)
        requires
            self.well_formed(),
        ensures
            valid_config(self.spec_window_size(), self.spec_step_size()),
    {
    }

    /// An empty source for frames of `window_size` samples that start
    /// `step_size` samples apart, or `InvalidConfig` unless
    /// `0 < step_size <= window_size`.
    pub fn new(window_size: usize, step_size: usize) -> (made: Result<STFT, SpectrogramError>)
        ensures
            valid_config(window_size as nat, step_size as nat) ==> made is Ok
                && made->Ok_0.well_formed() && made->Ok_0.spec_window_size() == window_size
                && made->Ok_0.spec_step_size() == step_size && made->Ok_0.pending() == Seq::<
                u64,
            >::empty(),
            !valid_config(window_size as nat, step_size as nat) ==> made is Err && made->Err_0
                == SpectrogramError::InvalidConfig,
    {
        if step_size == 0 || step_size > window_size {
            return Err(SpectrogramError::InvalidConfig);
        }
        Ok(STFT { window_size, step_size, sample_ring: VecDeque::new() })
    }

    /// The number of samples in a frame.
    pub fn window_size(&self) -> (size: usize)
        ensures
            size == self.spec_window_size(),
    {
        self.window_size
    }

    /// The number of samples between the starts of successive frames.
    pub fn step_size(&self) -> (size: usize)
        ensures
            size == self.spec_step_size(),
    {
        self.step_size
    }

    /// The number of values in a column computed from one frame: the half of
    /// the spectrum that a real signal does not repeat.
    pub fn output_size(&self) -> (size: usize)
        ensures
            size == self.spec_window_size() / 2,
    {
        self.window_size / 2
    }

    /// The number of buffered samples.
    pub fn len(&self) -> (len: usize)
        ensures
            len == self.pending().len(),
    {
        self.sample_ring.len()
    }

    /// Buffers `input` behind the samples already held. Nothing is computed.
    pub fn append_samples(&mut self, input: &[u64])
        requires
            old(self).well_formed(),
        ensures
            final(self).well_formed(),
            final(self).pending() == old(self).pending() + input@,
            final(self).spec_window_size() == old(self).spec_window_size(),
            final(self).spec_step_size() == old(self).spec_step_size(),
    {
        ring_push_back(&mut self.sample_ring, input);
    }

    /// Whether the source holds a whole frame.
    pub fn contains_enough_to_compute(&self) -> (enough: bool)
        ensures
            enough == self.ready(),
    {
        self.window_size <= self.sample_ring.len()
    }

    /// The next frame: the oldest `window_size` buffered samples. The source
    /// keeps them.
    pub fn peek_frame(&self) -> (frame: Vec<u64>)
        requires
            self.well_formed(),
            self.ready(),
        ensures
            frame@ == self.pending().take(self.spec_window_size() as int),
            frame@ == frame_at(self.pending(), self.spec_window_size(), self.spec_step_size(), 0),
    {
        let mut frame: Vec<u64> = vec![0u64; self.window_size];
        ring_read_front(&self.sample_ring, &mut frame);
        assert(frame@ =~= self.pending().take(self.spec_window_size() as int));
        assert(0 * self.spec_step_size() == 0) by (nonlinear_arith);
        assert(frame@ =~= frame_at(
            self.pending(),
            self.spec_window_size(),
            self.spec_step_size(),
            0,
        ));
        frame
    }

    /// Steps to the next frame: drops the oldest `step_size` samples.
    pub fn move_to_next_column(&mut self)
        requires
            old(self).well_formed(),
            old(self).ready(),
        ensures
            final(self).well_formed(),
            final(self).pending() == old(self).pending().skip(old(self).spec_step_size() as int),
            final(self).spec_window_size() == old(self).spec_window_size(),
            final(self).spec_step_size() == old(self).spec_step_size(),
    {
        ring_drop_front(&mut self.sample_ring, self.step_size);
    }

    /// Emits every frame that is whole, oldest first, stepping after each,
    /// and keeps what is left for the samples to come.
    pub fn take_ready_frames(&mut self) -> (frames: Vec<Vec<u64>>)
        requires
            old(self).well_formed(),
        ensures
            final(self).well_formed(),
            views_of(frames@) == batch_frames(
                old(self).pending(),
                old(self).spec_window_size(),
                old(self).spec_step_size(),
            ),
            final(self).pending() == remainder(
                old(self).pending(),
                old(self).spec_window_size(),
                old(self).spec_step_size(),
            ),
            !final(self).ready(),
            final(self).spec_window_size() == old(self).spec_window_size(),
            final(self).spec_step_size() == old(self).spec_step_size(),
    {
        let ghost buffered = self.pending();
        let ghost window = self.spec_window_size();
        let ghost step = self.spec_step_size();
        let ghost total = frame_count(buffered.len(), window, step);
        let mut frames: Vec<Vec<u64>> = Vec::new();
        assert(0 * step == 0) by (nonlinear_arith);
        assert(buffered.skip(0) =~= buffered);
        while self.contains_enough_to_compute()
            invariant
                self.well_formed(),
                valid_config(window, step),
                self.spec_window_size() == window,
                self.spec_step_size() == step,
                total == frame_count(buffered.len(), window, step),
                frames@.len() <= total,
                frames@.len() * step <= buffered.len(),
                self.pending() == buffered.skip((frames@.len() * step) as int),
                forall|index: int|
                    0 <= index < frames@.len() ==> (#[trigger] frames@[index])@ == frame_at(
                        buffered,
                        window,
                        step,
                        index as nat,
                    ),
            decreases total - frames@.len(),
        {
            let ghost emitted = frames@.len();
            proof {
                lemma_frame_in_bounds(buffered.len(), window, step, emitted);
                assert((emitted + 1) * step == emitted * step + step) by (nonlinear_arith);
            }
            let frame = self.peek_frame();
            assert(frame@ =~= frame_at(buffered, window, step, emitted));
            self.move_to_next_column();
            assert(self.pending() =~= buffered.skip(((emitted + 1) * step) as int));
            frames.push(frame);
        }
        proof {
            lemma_frame_in_bounds(buffered.len(), window, step, frames@.len());
            lemma_consumed_bounds(buffered.len(), window, step);
            assert(views_of(frames@) =~= batch_frames(buffered, window, step));
        }
        frames
    }

    /// Feeds the source `chunks` one after the other and emits, after each
    /// chunk, every frame that has become whole. A source that held less
    /// than one window before emits the frames of everything it holds and
    /// is given, taken as one signal.
    pub fn feed(&mut self, chunks: &Vec<Vec<u64>>) -> (frames: Vec<Vec<u64>>)
        requires
            old(self).well_formed(),
        ensures
            final(self).well_formed(),
            views_of(frames@) == stream_frames(
                old(self).pending(),
                views_of(chunks@),
                old(self).spec_window_size(),
                old(self).spec_step_size(),
            ),
            final(self).pending() == stream_pending(
                old(self).pending(),
                views_of(chunks@),
                old(self).spec_window_size(),
                old(self).spec_step_size(),
            ),
            !old(self).ready() ==> views_of(frames@) == batch_frames(
                old(self).pending() + views_of(chunks@).flatten(),
                old(self).spec_window_size(),
                old(self).spec_step_size(),
            ) && final(self).pending() == remainder(
                old(self).pending() + views_of(chunks@).flatten(),
                old(self).spec_window_size(),
                old(self).spec_step_size(),
            ),
            final(self).spec_window_size() == old(self).spec_window_size(),
            final(self).spec_step_size() == old(self).spec_step_size(),
    {
        let ghost held = self.pending();
        let ghost window = self.spec_window_size();
        let ghost step = self.spec_step_size();
        let ghost all = views_of(chunks@);
        let mut frames: Vec<Vec<u64>> = Vec::new();
        let mut index: usize = 0;
        proof {
            assert(all.skip(0) =~= all);
            assert(views_of(frames@) =~= Seq::<Seq<u64>>::empty());
            assert(views_of(frames@) + stream_frames(held, all, window, step) =~= stream_frames(
                held,
                all,
                window,
                step,
            ));
        }
        while index < chunks.len()
            invariant
                self.well_formed(),
                self.spec_window_size() == window,
                self.spec_step_size() == step,
                valid_config(window, step),
                all == views_of(chunks@),
                index <= chunks@.len(),
                stream_frames(held, all, window, step) == views_of(frames@) + stream_frames(
                    self.pending(),
                    all.skip(index as int),
                    window,
                    step,
                ),
                stream_pending(held, all, window, step) == stream_pending(
                    self.pending(),
                    all.skip(index as int),
                    window,
                    step,
                ),
            decreases chunks@.len() - index,
        {
            let ghost before = self.pending();
            let ghost emitted_before = views_of(frames@);
            let ghost ahead = all.skip(index as int);
            proof {
                assert(ahead.first() == chunks@[index as int]@);
                assert(ahead.drop_first() =~= all.skip(index + 1));
            }
            self.append_samples(chunks[index].as_slice());
            let mut emitted = self.take_ready_frames();
            let ghost emitted_now = views_of(emitted@);
            frames.append(&mut emitted);
            proof {
                assert(views_of(frames@) =~= emitted_before + emitted_now);
                assert(emitted_before + (emitted_now + stream_frames(
                    self.pending(),
                    all.skip(index + 1),
                    window,
                    step,
                )) =~= (emitted_before + emitted_now) + stream_frames(
                    self.pending(),
                    all.skip(index + 1),
                    window,
                    step,
                ));
            }
            index += 1;
        }
        proof {
            assert(all.skip(index as int) =~= Seq::<Seq<u64>>::empty());
            assert(views_of(frames@) + Seq::<Seq<u64>>::empty() =~= views_of(frames@));
            if held.len() < window {
                lemma_stream_frames_from_pending(held, all, window, step);
            }
        }
        frames
    }
}

} // verus!
