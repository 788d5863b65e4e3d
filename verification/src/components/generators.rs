use std::marker::PhantomData;
use vstd::prelude::*;

verus! {

/// A component that produces an output at each step and may change its own
/// state as it does.
pub trait Generator: Sized {
    type Output;

    /// Whether the generator can produce an output.
    spec fn can_generate(&self) -> bool;

    /// Whether a step may leave the generator as `after` and give `output`.
    spec fn generated(&self, after: Self, output: Self::Output) -> bool;

    /// Produces the next output.
    fn generate(&mut self) -> (output: Self::Output)
        requires
            old(self).can_generate(),
        ensures
            old(self).generated(*final(self), output),
    ;
}

/// A generator in two steps: one that moves the state on, and one that
/// reads the output off the state.
pub trait StatefulGenerator: Sized {
    type Output;

    /// Whether the generator can move on.
    spec fn can_advance(&self) -> bool;

    /// Whether moving on may leave the generator as `after`.
    spec fn advanced(&self, after: Self) -> bool;

    /// Whether the output can be read.
    spec fn can_read(&self) -> bool;

    /// Whether `output` may be read off the generator.
    spec fn read(&self, output: Self::Output) -> bool;

    /// Moves the state on.
    fn advance(&mut self)
        requires
            old(self).can_advance(),
        ensures
            old(self).advanced(*final(self)),
    ;

    /// Reads the output off the state, which stays as it is.
    fn current(&self) -> (output: Self::Output)
        requires
            self.can_read(),
        ensures
            self.read(output),
    ;
}

impl<S> Generator for S where S: StatefulGenerator {
    type Output = S::Output;

    /// The generator can move on, and whatever state that leaves can be
    /// read.
    open spec fn can_generate(&self) -> bool {
        &&& self.can_advance()
        &&& forall|after: Self| #[trigger] self.advanced(after) ==> after.can_read()
    }

    open spec fn generated(&self, after: Self, output: Self::Output) -> bool {
        self.advanced(after) && after.read(output)
    }

    fn generate(&mut self) -> (output: Self::Output) {
        self.advance();
        self.current()
    }
}

/// A generator that calls a closure at each step and gives what it returns.
#[verifier::reject_recursive_types(T)]
#[verifier::reject_recursive_types(M)]
pub struct GenFn<T, M> where M: FnMut() -> T {
    func: M,
    _marker: PhantomData<T>,
}

impl<T, M> GenFn<T, M> where M: FnMut() -> T {
    /// The closure that the generator calls.
    pub closed spec fn func(&self) -> M {
        self.func
    }

    /// A generator that produces what `func` returns.
    pub fn new(func: M) -> (generator: Self)
        ensures
            generator.func() == func,
    {
        Self { func, _marker: PhantomData }
    }
}

impl<T, M> Generator for GenFn<T, M> where M: FnMut() -> T {
    type Output = T;

    open spec fn can_generate(&self) -> bool {
        call_requires(self.func(), ())
    }

    open spec fn generated(&self, after: Self, output: T) -> bool {
        call_ensures(self.func(), (), output) && after.func() == self.func()
    }

    fn generate(&mut self) -> (output: T) {
        (self.func)()
    }
}

} // verus!
