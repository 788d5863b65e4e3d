//! Statistics over the frames of a stream, either over every frame seen so
//! far or over a moving window of the most recent frames.

pub mod buffered;
pub mod cumulative;
pub mod extrema;
pub mod moving;
pub mod summage;

pub use buffered::{
    Buffered, BufferedMovingMax, BufferedMovingMean, BufferedMovingMin, BufferedMovingMs,
    BufferedMovingRms,
};
pub use cumulative::{
    CumulativeExtrema, CumulativeMax, CumulativeMean, CumulativeMin, CumulativeMs, CumulativeRms,
    CumulativeSummage,
};
pub use moving::{MovingCalculator, MovingExtrema, MovingMax, MovingMin};
pub use summage::{MovingMean, MovingMs, MovingRms, MovingSummage};

use vstd::prelude::*;

use crate::sample::Sample;

verus! {

/// Selects the maximum as the extremum that a calculator tracks.
pub const DO_MAX: bool = true;

/// Selects the minimum as the extremum that a calculator tracks.
pub const DO_MIN: bool = false;

/// The error of building a windowed calculator on a buffer without slots.
#[derive(Debug, Clone, Copy, PartialEq, Eq, Structural)]
pub struct EmptyWindow;

/// Whether `candidate` replaces `target` as the extremum: in a maximum
/// when it lies strictly above, in a minimum when it lies strictly below.
pub open spec fn surpasses_spec<S: Sample>(max: bool, candidate: S, target: S) -> bool {
    if max {
        candidate.level() > target.level()
    } else {
        candidate.level() < target.level()
    }
}

/// Whether `value` occurs in `column` and no item of `column` surpasses it.
pub open spec fn is_extremum<S: Sample>(max: bool, column: Seq<S>, value: S) -> bool {
    &&& exists|i: int| 0 <= i < column.len() && column[i] == value
    &&& forall|j: int| 0 <= j < column.len() ==> !surpasses_spec(max, #[trigger] column[j], value)
}

/// A column has at most one extremum.
pub proof fn lemma_extremum_is_unique<S: Sample>(max: bool, column: Seq<S>, a: S, b: S)
    requires
        is_extremum(max, column, a),
        is_extremum(max, column, b),
    ensures
        a == b,
{
    let i = choose|i: int| 0 <= i < column.len() && column[i] == a;
    let j = choose|j: int| 0 <= j < column.len() && column[j] == b;
    assert(!surpasses_spec(max, column[i], b));
    assert(!surpasses_spec(max, column[j], a));
    S::lemma_level_is_injective(a, b);
}

/// Whether `candidate` replaces `target` as the extremum that `MAX` selects.
pub fn surpasses<S: Sample, const MAX: bool>(candidate: &S, target: &S) -> (b: bool)
    ensures
        b == surpasses_spec(MAX, *candidate, *target),
{
    if MAX {
        target.precedes(*candidate)
    } else {
        candidate.precedes(*target)
    }
}

} // verus!
