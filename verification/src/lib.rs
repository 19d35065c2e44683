//! Digital-signal-processing core of a monophonic synthesizer voice: a
//! band-limited periodic oscillator and an ADSR amplitude envelope, driven
//! sample by sample.
//!
//! All levels, phases and durations are fixed-point fractions in millionths
//! (`SCALE` units stand for 1.0), so every computation is exact integer
//! arithmetic with a precise contract.

use vstd::prelude::*;

pub mod envelope;
pub mod oscillator;

verus! {

/// Number of fixed-point steps that stand for 1.0. Amplitudes and phases are
/// fractions of this; durations are in microseconds (millionths of a second).
pub const SCALE: u64 = 1_000_000;

/// Half of `SCALE`: the midpoint of one waveform cycle.
pub const HALF_SCALE: u64 = 500_000;

} // verus!
