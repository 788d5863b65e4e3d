//! Components that take in, combine, produce and transform values one step
//! at a time.

pub mod calculators;
pub mod combinators;
pub mod generators;
pub mod processors;

pub use calculators::Calculator;
pub use combinators::{Combinator, StatefulCombinator};
pub use generators::{Generator, StatefulGenerator};
pub use processors::{Processor, StatefulProcessor};
