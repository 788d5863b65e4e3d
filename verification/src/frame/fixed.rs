use vstd::prelude::*;

use crate::frame::Frame;
use crate::sample::Sample;

verus! {

/// A frame with `N` channels, a number that is part of its type.
#[derive(Copy, Clone, PartialEq, Debug)]
pub struct Fixed<S: Sample, const N: usize>(pub [S; N]);

impl<S: Sample, const N: usize> View for Fixed<S, N> {
    type V = Seq<S>;

    open spec fn view(&self) -> Seq<S> {
        self.0@
    }
}

impl<S: Sample, const N: usize> Fixed<S, N> {
    /// The frame whose samples are those of `samples`.
    pub fn new(samples: [S; N]) -> (frame: Self)
        ensures
            frame@ == samples@,
    {
        Fixed(samples)
    }

    /// The samples of the frame as an array.
    pub fn into_array(self) -> (samples: [S; N])
        ensures
            samples@ == self@,
    {
        self.0
    }

    /// The samples of the frame, channel by channel.
    pub fn iter(&self) -> (iter: core::slice::Iter<'_, S>)
        ensures
            vstd::std_specs::slice::into_iter_elts(iter) == self@,
    {
        let iter = self.0.as_slice().iter();
        iter
    }
}

impl<S: Sample, const N: usize> Frame for Fixed<S, N> {
    type Sample = S;

    open spec fn channels(&self) -> Seq<S> {
        self@
    }

    fn equil() -> (frame: Self) {
        Fixed([S::equilibrium();N])
    }

    fn get(&self, channel: usize) -> (sample: Option<&S>) {
        if channel < N {
            Some(&self.0[channel])
        } else {
            None
        }
    }

    fn get_mut(&mut self, channel: usize) -> (sample: Option<&mut S>) {
        if channel < N {
            Some(&mut self.0[channel])
        } else {
            None
        }
    }

    fn len(&self) -> (len: usize) {
        N
    }
}

impl<S: Sample, const N: usize> Default for Fixed<S, N> {
    /// The frame of silence.
    fn default() -> (frame: Self)
        ensures
            crate::frame::all_equilibrium(frame@),
    {
        Fixed([S::equilibrium();N])
    }
}

impl<S: Sample, const N: usize> From<[S; N]> for Fixed<S, N> {
    /// The frame whose samples are those of `samples`.
    fn from(samples: [S; N]) -> (frame: Self) {
        Fixed(samples)
    }
}

impl<S: Sample, const N: usize> vstd::std_specs::convert::FromSpecImpl<[S; N]> for Fixed<S, N> {
    open spec fn obeys_from_spec() -> bool {
        true
    }

    open spec fn from_spec(samples: [S; N]) -> Self {
        Fixed(samples)
    }
}

} // verus!
