//! Building blocks for processing multi-channel streams of samples.
//!
//! The heart of the crate is a family of statistics over a moving window of
//! frames: the minimum and maximum of each channel, kept by a frontier and
//! a horizon so that most updates take constant time, and the mean, mean
//! square and root mean square, kept as running sums. They stand on a ring
//! buffer of fixed capacity, and each comes in a buffered form that reports
//! nothing until its window has filled.
//!
//! Around them stand the sample formats and their conversions, frames,
//! components that process values step by step, signals and their
//! adaptors, and the whole-number parts of phases, interpolants and
//! windows.
//!
//! The functions are verified against their contracts: each computes what
//! its `ensures` clauses say, does not overflow and does not panic where its
//! `requires` clauses hold. Two small wrappers are taken on trust: the
//! greatest common divisor of the `gcd` crate, and the conversion of a
//! vector into a boxed slice of the standard library.

pub mod buffer;
pub mod components;
pub mod frame;
pub mod interpolate;
pub mod phase;
pub mod sample;
pub mod signal;
pub mod stats;
pub mod window;

pub use components::{
    Calculator, Combinator, Generator, Processor, StatefulCombinator, StatefulGenerator,
    StatefulProcessor,
};
pub use frame::Frame;
pub use sample::{FromSample, IntoSample, Sample, SignedSample};
pub use signal::Signal;
