//! Positions between the frames of a signal that is resampled.

pub mod interpolant;
pub mod sinc;

pub use interpolant::{Interpolant, ResampleRational};
pub use sinc::SincCursor;
