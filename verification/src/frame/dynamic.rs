use vstd::prelude::*;

use crate::frame::Frame;
use crate::sample::Sample;

verus! {

/// A frame whose number of channels is chosen, and can change, at run time.
#[derive(Clone, Debug, PartialEq)]
pub struct Dynamic<S: Sample>(Vec<S>);

impl<S: Sample> View for Dynamic<S> {
    type V = Seq<S>;

    closed spec fn view(&self) -> Seq<S> {
        self.0@
    }
}

/// Calls `Vec::into_boxed_slice` of the standard library, which its
/// documentation describes as converting the vector into a boxed slice: the
/// box holds the items of the vector in their order.
#[verifier::external_body]
fn vec_into_boxed_slice<S>(samples: Vec<S>) -> (boxed: Box<[S]>)
    ensures
        boxed@ == samples@,
{
    samples.into_boxed_slice()
}

impl<S: Sample> Dynamic<S> {
    /// The samples of the frame as a boxed slice.
    pub fn into_boxed_slice(self) -> (boxed: Box<[S]>)
        ensures
            boxed@ == self@,
    {
        vec_into_boxed_slice(self.0)
    }

    /// Makes the frame `new_len` channels long: channels beyond that are
    /// dropped, and channels that are missing hold `s`.
    pub fn resize(&mut self, new_len: usize, s: S)
        ensures
            final(self)@.len() == new_len,
            forall|ch: int|
                0 <= ch < new_len ==> #[trigger] final(self)@[ch] == if ch < old(self)@.len() {
                    old(self)@[ch]
                } else {
                    s
                },
    {
        self.resize_with(new_len, || -> (sample: S)
            ensures
                sample == s,
            { s });
    }

    /// Makes the frame `new_len` channels long: channels beyond that are
    /// dropped, and channels that are missing hold what successive calls of
    /// `f` return.
    pub fn resize_with<F>(&mut self, new_len: usize, f: F)
        where F: FnMut() -> S
        requires
            call_requires(f, ()),
        ensures
            final(self)@.len() == new_len,
            forall|ch: int|
                0 <= ch < new_len && ch < old(self)@.len() ==> #[trigger] final(self)@[ch] == old(
                    self,
                )@[ch],
            forall|ch: int|
                old(self)@.len() <= ch < new_len ==> call_ensures(f, (), #[trigger] final(self)@[ch]),
    {
        let mut f = f;
        let ghost generator = f;
        if self.0.len() > new_len {
            self.0.truncate(new_len);
        } else {
            while self.0.len() < new_len
                invariant
                    f == generator,
                    call_requires(f, ()),
                    old(self)@.len() <= self.0@.len() <= new_len,
                    forall|ch: int|
                        0 <= ch < old(self)@.len() ==> #[trigger] self.0@[ch] == old(self)@[ch],
                    forall|ch: int|
                        old(self)@.len() <= ch < self.0@.len() ==> call_ensures(
                            generator,
                            (),
                            #[trigger] self.0@[ch],
                        ),
                decreases new_len - self.0@.len(),
            {
                let sample = f();
                self.0.push(sample);
            }
        }
    }

    /// Drops the channels beyond the first `new_len`.
    pub fn truncate<F>(&mut self, new_len: usize)
        where F: FnMut() -> S
        ensures
            final(self)@ == if new_len < old(self)@.len() {
                old(self)@.take(new_len as int)
            } else {
                old(self)@
            },
    {
        if self.0.len() > new_len {
            self.0.truncate(new_len);
        }
    }

    /// The frame whose samples are those of `samples`.
    pub fn from_vec(samples: Vec<S>) -> (frame: Self)
        ensures
            frame@ == samples@,
    {
        Dynamic(samples)
    }

    /// The samples of the frame, channel by channel.
    pub fn iter(&self) -> (iter: core::slice::Iter<'_, S>)
        ensures
            vstd::std_specs::slice::into_iter_elts(iter) == self@,
    {
        let iter = self.0.as_slice().iter();
        iter
    }
}

impl<S: Sample> Frame for Dynamic<S> {
    type Sample = S;

    open spec fn channels(&self) -> Seq<S> {
        self@
    }

    fn equil() -> (frame: Self)
        ensures
            frame@.len() == 0,
    {
        Dynamic(Vec::new())
    }

    fn get(&self, channel: usize) -> (sample: Option<&S>) {
        if channel < self.0.len() {
            Some(&self.0[channel])
        } else {
            None
        }
    }

    fn get_mut(&mut self, channel: usize) -> (sample: Option<&mut S>) {
        if channel < self.0.len() {
            Some(&mut self.0[channel])
        } else {
            None
        }
    }

    fn len(&self) -> (len: usize) {
        self.0.len()
    }
}

impl<S: Sample> Default for Dynamic<S> {
    /// The frame without channels.
    fn default() -> (frame: Self)
        ensures
            frame@.len() == 0,
    {
        Dynamic(Vec::new())
    }
}

impl<S: Sample> From<Vec<S>> for Dynamic<S> {
    /// The frame whose samples are those of `value`.
    fn from(value: Vec<S>) -> (frame: Self)
        ensures
            frame@ == value@,
    {
        Dynamic(value)
    }
}

impl<S: Sample> vstd::std_specs::convert::FromSpecImpl<Vec<S>> for Dynamic<S> {
    open spec fn obeys_from_spec() -> bool {
        true
    }

    closed spec fn from_spec(value: Vec<S>) -> Self {
        Dynamic(value)
    }
}

impl<S: Sample> From<Box<[S]>> for Dynamic<S> {
    /// The frame whose samples are those of `value`.
    fn from(value: Box<[S]>) -> (frame: Self)
        ensures
            frame@ == value@,
    {
        Dynamic(value.into_vec())
    }
}

impl<S: Sample> vstd::std_specs::convert::FromSpecImpl<Box<[S]>> for Dynamic<S> {
    open spec fn obeys_from_spec() -> bool {
        false
    }

    closed spec fn from_spec(value: Box<[S]>) -> Self {
        vstd::pervasive::arbitrary()
    }
}

impl<S: Sample, const N: usize> From<[S; N]> for Dynamic<S> {
    /// The frame whose samples are those of `value`.
    fn from(value: [S; N]) -> (frame: Self)
        ensures
            frame@ == value@,
    {
        let mut samples: Vec<S> = Vec::new();
        let mut ch: usize = 0;
        while ch < N
            invariant
                0 <= ch <= N,
                samples@ == value@.take(ch as int),
            decreases N - ch,
        {
            samples.push(value[ch]);
            assert(value@.take(ch as int).push(value[ch as int]) =~= value@.take(ch + 1));
            ch += 1;
        }
        assert(value@.take(N as int) =~= value@);
        Dynamic(samples)
    }
}

impl<S: Sample, const N: usize> vstd::std_specs::convert::FromSpecImpl<[S; N]> for Dynamic<S> {
    open spec fn obeys_from_spec() -> bool {
        false
    }

    closed spec fn from_spec(value: [S; N]) -> Self {
        vstd::pervasive::arbitrary()
    }
}

} // verus!
