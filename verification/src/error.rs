//! The ways in which a request to this crate can be refused.

use vstd::prelude::*;

verus! {

/// Why a constructor or a levelling step refused its input.
#[derive(Clone, Copy, Debug, PartialEq, Eq, Structural)]
pub enum SpectrogramError {
    /// The step size is zero or exceeds the window size.
    InvalidConfig,
    /// The decibel conversion was given a floor that is not above zero, or a
    /// negative dynamic range.
    InvalidArgument,
    /// Every magnitude of the buffer is the same, so it spans no range to
    /// rescale.
    DegenerateRange,
}

} // verus!
