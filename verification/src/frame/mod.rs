//! Frames: the samples of all channels at one instant.

pub mod dynamic;
pub mod fixed;

pub use self::dynamic::Dynamic;
pub use self::fixed::Fixed;

use vstd::prelude::*;

use crate::sample::Sample;

verus! {

/// Whether every sample of `channels` is the equilibrium.
pub open spec fn all_equilibrium<S: Sample>(channels: Seq<S>) -> bool {
    forall|ch: int|
        0 <= ch < channels.len() ==> (#[trigger] channels[ch]).level() == S::equilibrium_level()
}

/// A frame: one sample for each channel of a signal.
pub trait Frame: Sized {
    type Sample: Sample;

    /// The samples of the frame, channel by channel.
    spec fn channels(&self) -> Seq<Self::Sample>;

    /// The frame of silence.
    fn equil() -> (frame: Self)
        ensures
            all_equilibrium(frame.channels()),
    ;

    /// The sample of channel `channel`, if the frame has that channel.
    fn get(&self, channel: usize) -> (sample: Option<&Self::Sample>)
        ensures
            channel < self.channels().len() ==> sample == Some(&self.channels()[channel as int]),
            channel >= self.channels().len() ==> sample.is_none(),
    ;

    /// A mutable reference to the sample of channel `channel`, if the frame
    /// has that channel.
    fn get_mut(&mut self, channel: usize) -> (sample: Option<&mut Self::Sample>)
        ensures
            channel < old(self).channels().len() ==> {
                &&& sample is Some
                &&& *sample->Some_0 == old(self).channels()[channel as int]
                &&& final(self).channels() == old(self).channels().update(
                    channel as int,
                    *final(sample->Some_0),
                )
            },
            channel >= old(self).channels().len() ==> sample is None && final(self).channels()
                == old(self).channels(),
    ;

    /// The number of channels.
    fn len(&self) -> (len: usize)
        ensures
            len == self.channels().len(),
    ;
}

impl<S: Sample, const N: usize> Frame for [S; N] {
    type Sample = S;

    open spec fn channels(&self) -> Seq<S> {
        self@
    }

    fn equil() -> (frame: Self) {
        [S::equilibrium();N]
    }

    fn get(&self, channel: usize) -> (sample: Option<&S>) {
        if channel < N {
            Some(&self[channel])
        } else {
            None
        }
    }

    fn get_mut(&mut self, channel: usize) -> (sample: Option<&mut S>) {
        if channel < N {
            Some(&mut self[channel])
        } else {
            None
        }
    }

    fn len(&self) -> (len: usize) {
        N
    }
}

} // verus!
