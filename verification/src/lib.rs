//! Real-time audio analysis for a music visualizer.
//!
//! The analysis pipeline works on fixed-point integer samples: an amplitude
//! of 1.0 is represented as `AMP_SCALE` microunits, a frequency of 1 Hz as
//! `FREQ_SCALE` millihertz. All feature extraction is exact integer
//! arithmetic over that representation.

pub mod analysis;
pub mod config;
pub mod fixed;
pub mod graphics;
pub mod iced_integration;
pub mod preset;
pub mod ui;

use vstd::prelude::*;

verus! {

/// Amplitudes, window weights, ratios and feature values carry six decimal
/// places: a value of `1.0` is stored as `1_000_000`.
pub const AMP_SCALE: i64 = 1_000_000;

/// Frequencies carry three decimal places: `1 Hz` is stored as `1_000`.
pub const FREQ_SCALE: i64 = 1_000;

/// True when `n` is a power of two.
pub open spec fn is_pow2(n: nat) -> bool
    decreases n,
{
    if n == 0 {
        false
    } else if n == 1 {
        true
    } else {
        n % 2 == 0 && is_pow2(n / 2)
    }
}

} // verus!
