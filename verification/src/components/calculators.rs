use vstd::prelude::*;

verus! {

/// A component that takes in inputs one by one and is then consumed for a
/// single result.
pub trait Calculator: Sized {
    type Input;

    type Output;

    /// Whether the calculator can take in `input`.
    spec fn can_push(&self, input: Self::Input) -> bool;

    /// Whether taking in `input` may leave the calculator as `after`.
    spec fn pushed(&self, input: Self::Input, after: Self) -> bool;

    /// Whether the calculator can give its result.
    spec fn can_calculate(&self) -> bool;

    /// Whether `output` may be the result of the calculator.
    spec fn calculated(&self, output: Self::Output) -> bool;

    /// Takes in `input`.
    fn push(&mut self, input: Self::Input)
        requires
            old(self).can_push(input),
        ensures
            old(self).pushed(input, *final(self)),
    ;

    /// Consumes the calculator for its result.
    fn calculate(self) -> (output: Self::Output)
        requires
            self.can_calculate(),
        ensures
            self.calculated(output),
    ;
}

} // verus!
