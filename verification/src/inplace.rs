//! Frames of a signal that is held whole.
//!
//! Frame `i` of a signal is the slice of `window_size` samples that starts at
//! `i * step_size`. Each frame is a function of its index and the signal
//! alone, so the frames can be taken in any order, or side by side.

use crate::error::SpectrogramError;
use crate::frames::{
    batch_frames, frame_at, frame_count, lemma_frame_in_bounds, valid_config, views_of,
};
use vstd::prelude::*;
use vstd::slice::{slice_subrange, slice_to_vec};

verus! {

/// A batch frame source: a window size and a step size.
#[derive(Clone, Copy, Debug)]
pub struct STFT {
    window_size: usize,
    step_size: usize,
}

impl STFT {
    /// What every source made by `new` satisfies: the step is at least one
    /// sample and at most one window.
    pub closed spec fn well_formed(&self) -> bool {
        0 < self.step_size <= self.window_size
    }

    /// The number of samples in a frame.
    pub closed spec fn spec_window_size(&self) -> nat {
        self.window_size as nat
    }

    /// The number of samples between the starts of successive frames.
    pub closed spec fn spec_step_size(&self) -> nat {
        self.step_size as nat
    }

    /// A well-formed source has a valid configuration.
    pub proof fn lemma_well_formed(&self)
        requires
            self.well_formed(),
        ensures
            valid_config(self.spec_window_size(), self.spec_step_size()),
    {
    }

    /// A source for frames of `window_size` samples that start `step_size`
    /// samples apart, or `InvalidConfig` unless `0 < step_size <= window_size`.
    pub fn new(window_size: usize, step_size: usize) -> (made: Result<STFT, SpectrogramError>)
        ensures
            valid_config(window_size as nat, step_size as nat) ==> made is Ok
                && made->Ok_0.well_formed() && made->Ok_0.spec_window_size() == window_size
                && made->Ok_0.spec_step_size() == step_size,
            !valid_config(window_size as nat, step_size as nat) ==> made is Err && made->Err_0
                == SpectrogramError::InvalidConfig,
    {
        if step_size == 0 || step_size > window_size {
            return Err(SpectrogramError::InvalidConfig);
        }
        Ok(STFT { window_size, step_size })
    }

    /// The number of samples in a frame.
    pub fn window_size(&self) -> (size: usize)
        ensures
            size == self.spec_window_size(),
    {
        self.window_size
    }

    /// The number of samples between the starts of successive frames.
    pub fn step_size(&self) -> (size: usize)
        ensures
            size == self.spec_step_size(),
    {
        self.step_size
    }

    /// The number of values in a column computed from one frame: the half of
    /// the spectrum that a real signal does not repeat.
    pub fn output_size(&self) -> (size: usize)
        ensures
            size == self.spec_window_size() / 2,
    {
        self.window_size / 2
    }

    /// The number of samples in as many windows as there are whole steps
    /// between the first frame and the last sample.
    pub fn stft_size(&self, input_length: usize) -> (size: usize)
        requires
            self.well_formed(),
            input_length >= self.spec_window_size(),
            ((input_length - self.spec_window_size()) / (self.spec_step_size() as int))
                * self.spec_window_size() <= usize::MAX,
        ensures
            size == ((input_length - self.spec_window_size()) / (self.spec_step_size() as int))
                * self.spec_window_size(),
    {
        let strides: usize = (input_length - self.window_size) / self.step_size;
        strides * self.window_size
    }

    /// The number of whole frames in a signal of `input_length` samples.
    pub fn frame_count(&self, input_length: usize) -> (count: usize)
        requires
            self.well_formed(),
        ensures
            count == frame_count(
                input_length as nat,
                self.spec_window_size(),
                self.spec_step_size(),
            ),
    {
        if input_length >= self.window_size {
            (input_length - self.window_size) / self.step_size + 1
        } else {
            0
        }
    }

    /// Where the frame with the given index starts and ends in a signal of
    /// `input_length` samples: it is the samples from `start` up to, and not
    /// including, `end`.
    pub fn frame_bounds(&self, input_length: usize, index: usize) -> (bounds: (usize, usize))
        requires
            self.well_formed(),
            index < frame_count(
                input_length as nat,
                self.spec_window_size(),
                self.spec_step_size(),
            ),
        ensures
            bounds.0 == index * self.spec_step_size(),
            bounds.1 == index * self.spec_step_size() + self.spec_window_size(),
            bounds.1 <= input_length,
    {
        proof {
            lemma_frame_in_bounds(
                input_length as nat,
                self.spec_window_size(),
                self.spec_step_size(),
                index as nat,
            );
            assert(index * self.step_size + self.window_size <= input_length);
        }
        let start: usize = index * self.step_size;
        (start, start + self.window_size)
    }

    /// The bounds of every whole frame of a signal of `input_length` samples,
    /// in order.
    pub fn all_frame_bounds(&self, input_length: usize) -> (all: Vec<(usize, usize)>)
        requires
            self.well_formed(),
        ensures
            all@.len() == frame_count(
                input_length as nat,
                self.spec_window_size(),
                self.spec_step_size(),
            ),
            forall|index: int|
                0 <= index < all@.len() ==> (#[trigger] all@[index]).0 == index
                    * self.spec_step_size() && all@[index].1 == index * self.spec_step_size()
                    + self.spec_window_size() && all@[index].1 <= input_length,
    {
        let count: usize = self.frame_count(input_length);
        let mut all: Vec<(usize, usize)> = Vec::new();
        let mut index: usize = 0;
        while index < count
            invariant
                self.well_formed(),
                count == frame_count(
                    input_length as nat,
                    self.spec_window_size(),
                    self.spec_step_size(),
                ),
                index <= count,
                all@.len() == index,
                forall|earlier: int|
                    0 <= earlier < index ==> (#[trigger] all@[earlier]).0 == earlier
                        * self.spec_step_size() && all@[earlier].1 == earlier
                        * self.spec_step_size() + self.spec_window_size() && all@[earlier].1
                        <= input_length,
            decreases count - index,
        {
            let bounds = self.frame_bounds(input_length, index);
            all.push(bounds);
            index += 1;
        }
        all
    }

    /// The frame with the given index, as a slice of the signal.
    pub fn frame<'a>(&self, data: &'a [u64], index: usize) -> (frame: &'a [u64])
        requires
            self.well_formed(),
            index < frame_count(data@.len(), self.spec_window_size(), self.spec_step_size()),
        ensures
            frame@ == frame_at(data@, self.spec_window_size(), self.spec_step_size(), index as nat),
            frame@.len() == self.spec_window_size(),
    {
        let bounds = self.frame_bounds(data.len(), index);
        slice_subrange(data, bounds.0, bounds.1)
    }

    /// Every whole frame of the signal, in order.
    pub fn frames(&self, data: &[u64]) -> (frames: Vec<Vec<u64>>)
        requires
            self.well_formed(),
        ensures
            views_of(frames@) == batch_frames(
                data@,
                self.spec_window_size(),
                self.spec_step_size(),
            ),
    {
        let count: usize = self.frame_count(data.len());
        let mut frames: Vec<Vec<u64>> = Vec::new();
        let mut index: usize = 0;
        while index < count
            invariant
                self.well_formed(),
                count == frame_count(data@.len(), self.spec_window_size(), self.spec_step_size()),
                index <= count,
                frames@.len() == index,
                forall|earlier: int|
                    0 <= earlier < index ==> (#[trigger] frames@[earlier])@ == frame_at(
                        data@,
                        self.spec_window_size(),
                        self.spec_step_size(),
                        earlier as nat,
                    ),
            decreases count - index,
        {
            let frame = slice_to_vec(self.frame(data, index));
            frames.push(frame);
            index += 1;
        }
        assert(views_of(frames@) =~= batch_frames(
            data@,
            self.spec_window_size(),
            self.spec_step_size(),
        ));
        frames
    }
}

} // verus!
