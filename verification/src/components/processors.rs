use std::marker::PhantomData;
use vstd::prelude::*;

verus! {

/// A component that turns each input into an output and may change its own
/// state as it does.
pub trait Processor: Sized {
    type Input;

    type Output;

    /// Whether the processor can take in `input`.
    spec fn can_process(&self, input: Self::Input) -> bool;

    /// Whether taking in `input` may leave the processor as `after` and
    /// give `output`.
    spec fn processed(&self, input: Self::Input, after: Self, output: Self::Output) -> bool;

    /// Takes in `input` and gives the output for it.
    fn process(&mut self, input: Self::Input) -> (output: Self::Output)
        requires
            old(self).can_process(input),
        ensures
            old(self).processed(input, *final(self), output),
    ;
}

/// A processor in two steps: one that takes in an input, and one that reads
/// the output off the state.
pub trait StatefulProcessor: Sized {
    type Input;

    type Output;

    /// Whether the processor can take in `input`.
    spec fn can_advance(&self, input: Self::Input) -> bool;

    /// Whether taking in `input` may leave the processor as `after`.
    spec fn advanced(&self, input: Self::Input, after: Self) -> bool;

    /// Whether the output can be read.
    spec fn can_read(&self) -> bool;

    /// Whether `output` may be read off the processor.
    spec fn read(&self, output: Self::Output) -> bool;

    /// Takes in `input`.
    fn advance(&mut self, input: Self::Input)
        requires
            old(self).can_advance(input),
        ensures
            old(self).advanced(input, *final(self)),
    ;

    /// Reads the output off the state, which stays as it is.
    fn current(&self) -> (output: Self::Output)
        requires
            self.can_read(),
        ensures
            self.read(output),
    ;
}

impl<S> Processor for S where S: StatefulProcessor {
    type Input = S::Input;

    type Output = S::Output;

    /// The input can be taken in, and whatever state that leaves can be
    /// read.
    open spec fn can_process(&self, input: Self::Input) -> bool {
        &&& self.can_advance(input)
        &&& forall|after: Self| #[trigger] self.advanced(input, after) ==> after.can_read()
    }

    open spec fn processed(&self, input: Self::Input, after: Self, output: Self::Output) -> bool {
        self.advanced(input, after) && after.read(output)
    }

    fn process(&mut self, input: Self::Input) -> (output: Self::Output) {
        self.advance(input);
        self.current()
    }
}

/// A processor that calls a closure on each input and gives what it returns.
#[verifier::reject_recursive_types(I)]
#[verifier::reject_recursive_types(O)]
#[verifier::reject_recursive_types(M)]
pub struct MapFn<I, O, M> where M: FnMut(I) -> O {
    func: M,
    _marker: PhantomData<(I, O)>,
}

impl<I, O, M> MapFn<I, O, M> where M: FnMut(I) -> O {
    /// The closure that the processor calls.
    pub closed spec fn func(&self) -> M {
        self.func
    }

    /// A processor that maps its inputs by `func`.
    pub fn new(func: M) -> (map: Self)
        ensures
            map.func() == func,
    {
        Self { func, _marker: PhantomData }
    }
}

impl<I, O, M> From<M> for MapFn<I, O, M> where M: FnMut(I) -> O {
    /// A processor that maps its inputs by `func`.
    fn from(func: M) -> (map: Self)
        ensures
            map.func() == func,
    {
        Self::new(func)
    }
}

impl<I, O, M> vstd::std_specs::convert::FromSpecImpl<M> for MapFn<I, O, M> where M: FnMut(I) -> O {
    open spec fn obeys_from_spec() -> bool {
        true
    }

    closed spec fn from_spec(func: M) -> Self {
        MapFn { func, _marker: PhantomData }
    }
}

impl<I, O, M> Processor for MapFn<I, O, M> where M: FnMut(I) -> O {
    type Input = I;

    type Output = O;

    open spec fn can_process(&self, input: I) -> bool {
        call_requires(self.func(), (input,))
    }

    open spec fn processed(&self, input: I, after: Self, output: O) -> bool {
        call_ensures(self.func(), (input,), output) && after.func() == self.func()
    }

    fn process(&mut self, input: I) -> (output: O) {
        (self.func)(input)
    }
}

/// A processor that feeds each input to a first processor and the output of
/// that to a second one.
pub struct Chain<PA, PB> where PA: Processor, PB: Processor<Input = PA::Output> {
    processor_a: PA,
    processor_b: PB,
}

impl<PA, PB> Chain<PA, PB> where PA: Processor, PB: Processor<Input = PA::Output> {
    /// The processor that takes in the inputs.
    pub closed spec fn first(&self) -> PA {
        self.processor_a
    }

    /// The processor that gives the outputs.
    pub closed spec fn second(&self) -> PB {
        self.processor_b
    }

    /// A chain of `processor_a` followed by `processor_b`.
    pub fn new(processor_a: PA, processor_b: PB) -> (chain: Self)
        ensures
            chain.first() == processor_a,
            chain.second() == processor_b,
    {
        Self { processor_a, processor_b }
    }
}

impl<PA, PB> Processor for Chain<PA, PB> where PA: Processor, PB: Processor<Input = PA::Output> {
    type Input = PA::Input;

    type Output = PB::Output;

    /// The first processor can take in the input, and the second one can
    /// take in whatever the first may give for it.
    open spec fn can_process(&self, input: PA::Input) -> bool {
        &&& self.first().can_process(input)
        &&& forall|after: PA, inter: PA::Output| #[trigger]
            self.first().processed(input, after, inter) ==> self.second().can_process(inter)
    }

    open spec fn processed(&self, input: PA::Input, after: Self, output: PB::Output) -> bool {
        exists|inter: PA::Output|
            {
                &&& #[trigger] self.first().processed(input, after.first(), inter)
                &&& self.second().processed(inter, after.second(), output)
            }
    }

    fn process(&mut self, input: PA::Input) -> (output: PB::Output) {
        let inter = self.processor_a.process(input);
        let ghost witness = inter;
        let output = self.processor_b.process(inter);
        assert(old(self).first().processed(input, self.first(), witness));
        output
    }
}

} // verus!
