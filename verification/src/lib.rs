//! Framing and levelling for spectrograms.
//!
//! A spectrogram is built from overlapping frames of an audio signal. This
//! crate holds the parts of that computation that are exact: which samples
//! make up which frame, for a signal that arrives in pieces ([`streaming`])
//! and for one that is held whole ([`inplace`]), the proof that both cut the
//! same frames ([`frames`]), the layout of the finished matrix
//! ([`spectrogram`]), and the comparisons that the conversion to a bounded
//! decibel scale rests on ([`levels`], over the order of [`word`]). The kinds
//! of taper and their names are in [`window`]; what is taken on trust of the
//! ring buffer that the streaming source keeps its samples in is in [`ring`].
//!
//! A sample is carried as a `u64`: the IEEE 754 binary64 bit pattern of its
//! value. The crate moves and compares such words, and never does arithmetic
//! on the numbers they encode.

pub mod error;
pub mod frames;
pub mod inplace;
pub mod levels;
pub mod ring;
pub mod spectrogram;
pub mod streaming;
pub mod window;
pub mod word;
