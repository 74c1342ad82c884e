//! Core of a live audio-to-spectrum pipeline.
//!
//! A capture source extracts one channel from interleaved device frames, an
//! analyzer accumulates samples into fixed-size windows and, per completed
//! window, derives a smoothed magnitude spectrum from the transform's two
//! mirror halves.  Device I/O and the floating-point transform itself live
//! outside this crate; here samples and magnitudes travel as plain integers
//! (raw sample payloads, fixed-point magnitudes), and everything that decides
//! or computes is verified.

use vstd::prelude::*;

pub mod analyzer;
pub mod capture;
pub mod playback;
pub mod spectrum;

verus! {

/// Number of frequency bins per emitted spectrum; an analysis window holds
/// `2 * WINDOW` samples.
pub const WINDOW: usize = 512;

} // verus!
