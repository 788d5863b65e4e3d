use std::marker::PhantomData;
use vstd::prelude::*;

verus! {

/// A component that turns each pair of a left and a right input into an
/// output and may change its own state as it does.
pub trait Combinator: Sized {
    type InputL;

    type InputR;

    type Output;

    /// Whether the combinator can take in `input_l` and `input_r`.
    spec fn can_combine(&self, input_l: Self::InputL, input_r: Self::InputR) -> bool;

    /// Whether taking in `input_l` and `input_r` may leave the combinator as
    /// `after` and give `output`.
    spec fn combined(
        &self,
        input_l: Self::InputL,
        input_r: Self::InputR,
        after: Self,
        output: Self::Output,
    ) -> bool;

    /// Takes in `input_l` and `input_r` and gives the output for them.
    fn combine(&mut self, input_l: Self::InputL, input_r: Self::InputR) -> (output: Self::Output)
        requires
            old(self).can_combine(input_l, input_r),
        ensures
            old(self).combined(input_l, input_r, *final(self), output),
    ;
}

/// A combinator in two steps: one that takes in a pair of inputs, and one
/// that reads the output off the state.
pub trait StatefulCombinator: Sized {
    type InputL;

    type InputR;

    type Output;

    /// Whether the combinator can take in `input_l` and `input_r`.
    spec fn can_advance(&self, input_l: Self::InputL, input_r: Self::InputR) -> bool;

    /// Whether taking in `input_l` and `input_r` may leave the combinator as
    /// `after`.
    spec fn advanced(&self, input_l: Self::InputL, input_r: Self::InputR, after: Self) -> bool;

    /// Whether the output can be read.
    spec fn can_read(&self) -> bool;

    /// Whether `output` may be read off the combinator.
    spec fn read(&self, output: Self::Output) -> bool;

    /// Takes in `input_l` and `input_r`.
    fn advance(&mut self, input_l: Self::InputL, input_r: Self::InputR)
        requires
            old(self).can_advance(input_l, input_r),
        ensures
            old(self).advanced(input_l, input_r, *final(self)),
    ;

    /// Reads the output off the state, which stays as it is.
    fn current(&self) -> (output: Self::Output)
        requires
            self.can_read(),
        ensures
            self.read(output),
    ;
}

impl<S> Combinator for S where S: StatefulCombinator {
    type InputL = S::InputL;

    type InputR = S::InputR;

    type Output = S::Output;

    /// The inputs can be taken in, and whatever state that leaves can be
    /// read.
    open spec fn can_combine(&self, input_l: Self::InputL, input_r: Self::InputR) -> bool {
        &&& self.can_advance(input_l, input_r)
        &&& forall|after: Self| #[trigger]
            self.advanced(input_l, input_r, after) ==> after.can_read()
    }

    open spec fn combined(
        &self,
        input_l: Self::InputL,
        input_r: Self::InputR,
        after: Self,
        output: Self::Output,
    ) -> bool {
        self.advanced(input_l, input_r, after) && after.read(output)
    }

    fn combine(&mut self, input_l: Self::InputL, input_r: Self::InputR) -> (output: Self::Output) {
        self.advance(input_l, input_r);
        self.current()
    }
}

/// A combinator that calls a closure on each pair of inputs and gives what
/// it returns.
#[verifier::reject_recursive_types(L)]
#[verifier::reject_recursive_types(R)]
#[verifier::reject_recursive_types(O)]
#[verifier::reject_recursive_types(M)]
pub struct Mix<L, R, O, M> where M: FnMut(L, R) -> O {
    func: M,
    _marker: PhantomData<(L, R, O)>,
}

impl<L, R, O, M> Mix<L, R, O, M> where M: FnMut(L, R) -> O {
    /// The closure that the combinator calls.
    pub closed spec fn func(&self) -> M {
        self.func
    }

    /// A combinator that mixes its inputs by `func`.
    pub fn new(func: M) -> (mix: Self)
        ensures
            mix.func() == func,
    {
        Self { func, _marker: PhantomData }
    }
}

impl<L, R, O, M> From<M> for Mix<L, R, O, M> where M: FnMut(L, R) -> O {
    /// A combinator that mixes its inputs by `func`.
    fn from(func: M) -> (mix: Self)
        ensures
            mix.func() == func,
    {
        Self::new(func)
    }
}

impl<L, R, O, M> vstd::std_specs::convert::FromSpecImpl<M> for Mix<L, R, O, M> where M: FnMut(L, R) -> O {
    open spec fn obeys_from_spec() -> bool {
        true
    }

    closed spec fn from_spec(func: M) -> Self {
        Mix { func, _marker: PhantomData }
    }
}

impl<L, R, O, M> Combinator for Mix<L, R, O, M> where M: FnMut(L, R) -> O {
    type InputL = L;

    type InputR = R;

    type Output = O;

    open spec fn can_combine(&self, input_l: L, input_r: R) -> bool {
        call_requires(self.func(), (input_l, input_r))
    }

    open spec fn combined(&self, input_l: L, input_r: R, after: Self, output: O) -> bool {
        call_ensures(self.func(), (input_l, input_r), output) && after.func() == self.func()
    }

    fn combine(&mut self, input_l: L, input_r: R) -> (output: O) {
        (self.func)(input_l, input_r)
    }
}

/// A combinator that gives one of its two inputs back: the left one or the
/// right one, as it was last set.
pub struct Selector<T> {
    select_right: bool,
    _marker: PhantomData<T>,
}

impl<T> Selector<T> {
    /// Whether the selector gives the right input.
    pub closed spec fn selects_right(&self) -> bool {
        self.select_right
    }

    fn new(r: bool) -> (selector: Self)
        ensures
            selector.selects_right() == r,
    {
        Self { select_right: r, _marker: PhantomData }
    }

    /// A selector that gives the left input.
    pub fn left() -> (selector: Self)
        ensures
            !selector.selects_right(),
    {
        Self::new(false)
    }

    /// A selector that gives the right input.
    pub fn right() -> (selector: Self)
        ensures
            selector.selects_right(),
    {
        Self::new(true)
    }

    /// Makes the selector give the left input.
    pub fn set_left(&mut self)
        ensures
            !final(self).selects_right(),
    {
        self.select_right = false
    }

    /// Makes the selector give the right input.
    pub fn set_right(&mut self)
        ensures
            final(self).selects_right(),
    {
        self.select_right = true
    }

    /// Makes the selector give the other input.
    pub fn toggle(&mut self)
        ensures
            final(self).selects_right() == !old(self).selects_right(),
    {
        self.select_right = !self.select_right
    }
}

impl<T> Combinator for Selector<T> {
    type InputL = T;

    type InputR = T;

    type Output = T;

    open spec fn can_combine(&self, input_l: T, input_r: T) -> bool {
        true
    }

    open spec fn combined(&self, input_l: T, input_r: T, after: Self, output: T) -> bool {
        &&& after.selects_right() == self.selects_right()
        &&& output == if self.selects_right() {
            input_r
        } else {
            input_l
        }
    }

    fn combine(&mut self, input_l: T, input_r: T) -> (output: T) {
        if self.select_right {
            input_r
        } else {
            input_l
        }
    }
}

} // verus!
