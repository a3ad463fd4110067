//! Time-domain audio analysis: the integer core of framing, sample-sign
//! detection, peak tracking and loudness ordering, proved with Verus.
//!
//! Samples are carried as the IEEE-754 bit patterns of `f32` values
//! (`f32::to_bits`), so that every decision the analysis takes about a sample
//! (its sign, its magnitude, how it orders against another) is an integer
//! statement that Verus can check.

pub mod audio;
pub mod framing;
pub mod sample;
pub mod temporal;
