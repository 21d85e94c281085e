//! Mixed-radix fast Fourier transforms over fixed-point complex samples.
//!
//! The crate offers two planner types: a complex FFT planner
//! ([`complex::FftPlanner`]) and a real-input planner ([`real_fft::FftPlanner`])
//! that computes the positive half-spectrum of an even-length real signal at
//! half the cost by packing it into a half-length complex transform.
//!
//! Samples are carried in a binary fixed-point format (Q16.16 in `i64`, see
//! [`ComplexSample`]), so every arithmetic step of the transform is exact
//! integer arithmetic with a stated rounding rule, and the whole engine is
//! verified: planner construction pins down the radix factorization and the
//! twiddle table, and each transform's output is pinned, element by element,
//! to a mathematical model of the butterfly schedule.

use vstd::prelude::*;

pub mod sample;
pub mod plan;
mod trig;
pub mod complex;
pub mod real_fft;

pub use sample::ComplexSample;

verus! {

/// Direction of a transform: it selects the sign of the twiddle exponent,
/// `e^{-i 2 pi k / N}` for `Forward` and `e^{+i 2 pi k / N}` for `Inverse`.
///
/// The inverse transform is unnormalized: applying `Forward` and then
/// `Inverse` scales a signal by exactly `N`, and the caller divides by `N`
/// to recover a round trip.
#[derive(Debug, Clone, Copy, PartialEq, Eq, Structural)]
pub enum Direction {
    Forward,
    Inverse,
}

impl Default for Direction {
    /// The default direction is `Forward`.
    fn default() -> (d: Direction)
        ensures
            d == Direction::Forward,
    {
        Direction::Forward
    }
}

} // verus!
