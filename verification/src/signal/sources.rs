use vstd::prelude::*;

use crate::frame::{Dynamic, Fixed, Frame};
use crate::sample::Sample;
use crate::signal::Signal;

verus! {

/// A signal that yields what a closure returns.
#[verifier::reject_recursive_types(F)]
#[verifier::reject_recursive_types(G)]
pub struct FromFn<F, G> where F: Frame, G: FnMut() -> Option<F> {
    gen_fn: G,
    _marker: core::marker::PhantomData<F>,
}

impl<F, G> FromFn<F, G> where F: Frame, G: FnMut() -> Option<F> {
    /// The closure that the signal calls.
    pub closed spec fn gen_fn(&self) -> G {
        self.gen_fn
    }
}

impl<F, G> Signal for FromFn<F, G> where F: Frame, G: FnMut() -> Option<F> {
    type Frame = F;

    open spec fn wf(&self) -> bool {
        call_requires(self.gen_fn(), ())
    }

    open spec fn yields(&self, after: Self, frame: Option<F>) -> bool {
        call_ensures(self.gen_fn(), (), frame) && after.gen_fn() == self.gen_fn()
    }

    fn next(&mut self) -> (frame: Option<F>) {
        (self.gen_fn)()
    }
}

/// A signal that yields what each call of `gen_fn` returns.
pub fn from_fn<F, G>(gen_fn: G) -> (signal: FromFn<F, G>) where F: Frame, G: FnMut() -> Option<F>
    ensures
        signal.gen_fn() == gen_fn,
{
    FromFn { gen_fn, _marker: core::marker::PhantomData }
}

/// A signal that yields the frames of a list in their order. Its view lists
/// the frames that it has yet to yield.
pub struct FromFrames<F: Frame + Copy> {
    frames: Vec<F>,
    cursor: usize,
}

impl<F: Frame + Copy> View for FromFrames<F> {
    type V = Seq<F>;

    closed spec fn view(&self) -> Seq<F> {
        self.frames@.skip(self.cursor as int)
    }
}

impl<F: Frame + Copy> FromFrames<F> {
    #[verifier::type_invariant]
    spec fn cursor_in_bounds(self) -> bool {
        self.cursor <= self.frames@.len()
    }
}

impl<F: Frame + Copy> Signal for FromFrames<F> {
    type Frame = F;

    open spec fn wf(&self) -> bool {
        true
    }

    open spec fn yields(&self, after: Self, frame: Option<F>) -> bool {
        if self@.len() > 0 {
            frame == Some(self@[0]) && after@ == self@.drop_first()
        } else {
            frame is None && after@ == self@
        }
    }

    fn next(&mut self) -> (frame: Option<F>) {
        proof {
            use_type_invariant(&*self);
        }
        if self.cursor < self.frames.len() {
            let frame = self.frames[self.cursor];
            self.cursor += 1;
            assert(self@ =~= old(self)@.drop_first());
            Some(frame)
        } else {
            None
        }
    }
}

/// A signal that yields the frames of `frames` in their order.
pub fn from_frames<F: Frame + Copy>(frames: Vec<F>) -> (signal: FromFrames<F>)
    ensures
        signal@ == frames@,
{
    let signal = FromFrames { frames, cursor: 0 };
    assert(signal@ =~= frames@);
    signal
}

/// A signal that reads interleaved samples into frames of `N` channels. Its
/// view lists the samples that it has yet to read.
pub struct FromSamplesFixed<S: Sample, const N: usize> {
    samples: Vec<S>,
    cursor: usize,
}

impl<S: Sample, const N: usize> View for FromSamplesFixed<S, N> {
    type V = Seq<S>;

    closed spec fn view(&self) -> Seq<S> {
        self.samples@.skip(self.cursor as int)
    }
}

impl<S: Sample, const N: usize> FromSamplesFixed<S, N> {
    #[verifier::type_invariant]
    spec fn cursor_in_bounds(self) -> bool {
        self.cursor <= self.samples@.len()
    }
}

impl<S: Sample, const N: usize> Signal for FromSamplesFixed<S, N> {
    type Frame = Fixed<S, N>;

    open spec fn wf(&self) -> bool {
        true
    }

    /// A frame takes the next `N` samples. Where fewer are left they are
    /// discarded, and the signal has run out.
    open spec fn yields(&self, after: Self, frame: Option<Fixed<S, N>>) -> bool {
        if self@.len() >= N {
            &&& frame matches Some(f) && f@ == self@.take(N as int)
            &&& after@ == self@.skip(N as int)
        } else {
            frame is None && after@.len() == 0
        }
    }

    fn next(&mut self) -> (frame: Option<Fixed<S, N>>) {
        proof {
            use_type_invariant(&*self);
        }
        let len = self.samples.len();
        if len - self.cursor >= N {
            let mut channels = [S::equilibrium();N];
            let mut ch: usize = 0;
            while ch < N
                invariant
                    0 <= ch <= N,
                    len == self.samples@.len(),
                    self.cursor + N <= len,
                    forall|c: int|
                        0 <= c < ch ==> #[trigger] channels[c] == self.samples@[self.cursor + c],
                decreases N - ch,
            {
                channels[ch] = self.samples[self.cursor + ch];
                ch += 1;
            }
            assert(channels@ =~= self@.take(N as int));
            self.cursor += N;
            assert(self@ =~= old(self)@.skip(N as int));
            Some(Fixed::new(channels))
        } else {
            self.cursor = len;
            None
        }
    }
}

/// A signal that reads the interleaved samples of `samples` into frames of
/// `N` channels; samples at the end that do not fill a frame are discarded.
pub fn from_samples_fixed<S: Sample, const N: usize>(samples: Vec<S>) -> (signal: FromSamplesFixed<
    S,
    N,
>)
    ensures
        signal@ == samples@,
{
    let signal = FromSamplesFixed { samples, cursor: 0 };
    assert(signal@ =~= samples@);
    signal
}

/// A signal that reads interleaved samples into frames of a number of
/// channels chosen at run time. Its view lists the samples that it has yet
/// to read.
pub struct FromSamplesDynamic<S: Sample> {
    samples: Vec<S>,
    n: usize,
    cursor: usize,
}

impl<S: Sample> View for FromSamplesDynamic<S> {
    type V = Seq<S>;

    closed spec fn view(&self) -> Seq<S> {
        self.samples@.skip(self.cursor as int)
    }
}

impl<S: Sample> FromSamplesDynamic<S> {
    #[verifier::type_invariant]
    spec fn cursor_in_bounds(self) -> bool {
        self.cursor <= self.samples@.len()
    }

    /// The number of channels of the frames that the signal yields.
    pub closed spec fn channels(&self) -> nat {
        self.n as nat
    }
}

impl<S: Sample> Signal for FromSamplesDynamic<S> {
    type Frame = Dynamic<S>;

    open spec fn wf(&self) -> bool {
        true
    }

    /// A frame takes the next samples, one for each channel. Where fewer
    /// are left they are discarded, and the signal has run out.
    open spec fn yields(&self, after: Self, frame: Option<Dynamic<S>>) -> bool {
        &&& after.channels() == self.channels()
        &&& if self@.len() >= self.channels() {
            &&& frame matches Some(f) && f@ == self@.take(self.channels() as int)
            &&& after@ == self@.skip(self.channels() as int)
        } else {
            frame is None && after@.len() == 0
        }
    }

    fn next(&mut self) -> (frame: Option<Dynamic<S>>) {
        proof {
            use_type_invariant(&*self);
        }
        let len = self.samples.len();
        let n = self.n;
        if len - self.cursor >= n {
            let mut channels: Vec<S> = Vec::new();
            let mut ch: usize = 0;
            while ch < n
                invariant
                    0 <= ch <= n,
                    n == self.n,
                    len == self.samples@.len(),
                    self.cursor + n <= len,
                    channels@.len() == ch,
                    forall|c: int|
                        0 <= c < ch ==> #[trigger] channels@[c] == self.samples@[self.cursor + c],
                decreases n - ch,
            {
                channels.push(self.samples[self.cursor + ch]);
                ch += 1;
            }
            assert(channels@ =~= self@.take(n as int));
            self.cursor += n;
            assert(self@ =~= old(self)@.skip(n as int));
            Some(Dynamic::from_vec(channels))
        } else {
            self.cursor = len;
            None
        }
    }
}

/// A signal that reads the interleaved samples of `samples` into frames of
/// `n` channels; samples at the end that do not fill a frame are discarded.
pub fn from_samples_dynamic<S: Sample>(samples: Vec<S>, n: usize) -> (signal: FromSamplesDynamic<S>)
    ensures
        signal@ == samples@,
        signal.channels() == n,
{
    let signal = FromSamplesDynamic { samples, n, cursor: 0 };
    assert(signal@ =~= samples@);
    signal
}

} // verus!
