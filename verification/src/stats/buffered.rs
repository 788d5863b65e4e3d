//! Calculators that stay silent until their window has filled.

use vstd::prelude::*;

use crate::buffer::Fixed;
use crate::components::{Processor, StatefulProcessor};
use crate::signal::adaptors::{always_yields, keeps_yielding};
use crate::stats::moving::{slide, MovingCalculator, MovingMax, MovingMin};
use crate::stats::summage::{MovingMean, MovingMs, MovingRms};
use crate::stats::EmptyWindow;

verus! {

/// The model of a calculator that stays silent until its window is full:
/// the length of the window, whether the calculator is active, and the
/// frames that count, oldest first. While it is inactive these are the
/// frames collected so far, fewer than the window holds; once it is active
/// they are the window.
pub struct Buffering<F> {
    pub capacity: nat,
    pub active: bool,
    pub frames: Seq<F>,
}

impl<F> Buffering<F> {
    /// The model of a calculator that has collected nothing yet.
    pub open spec fn fresh(capacity: nat) -> Self {
        Buffering { capacity, active: false, frames: Seq::empty() }
    }

    /// The model of an active calculator on the window `frames`.
    pub open spec fn full(frames: Seq<F>) -> Self {
        Buffering { capacity: frames.len(), active: true, frames }
    }

    /// Whether the number of frames suits the state.
    pub open spec fn wf(self) -> bool {
        &&& self.capacity > 0
        &&& if self.active {
            self.frames.len() == self.capacity
        } else {
            self.frames.len() < self.capacity
        }
    }

    /// The model after `input` arrives. An inactive calculator collects it
    /// and turns active if that fills the window; an active one slides its
    /// window.
    pub open spec fn advance(self, input: F) -> Self {
        if self.active {
            Buffering { capacity: self.capacity, active: true, frames: slide(self.frames, input) }
        } else {
            Buffering {
                capacity: self.capacity,
                active: self.frames.len() + 1 >= self.capacity,
                frames: self.frames.push(input),
            }
        }
    }

    /// The model after the frames of `feed` arrive one by one.
    pub open spec fn advance_all(self, feed: Seq<F>) -> Self
        decreases feed.len(),
    {
        if feed.len() == 0 {
            self
        } else {
            self.advance_all(feed.drop_last()).advance(feed.last())
        }
    }

    /// A frame that arrives leaves the model well formed and the length of
    /// the window as it was.
    pub proof fn lemma_advance_wf(self, input: F)
        requires
            self.wf(),
        ensures
            self.advance(input).wf(),
            self.advance(input).capacity == self.capacity,
    {
    }

    /// A fresh calculator stays inactive while fewer frames have arrived
    /// than its window holds, and turns active on the frame that fills the
    /// window, which then holds exactly the frames that arrived.
    pub proof fn lemma_activates_when_full(capacity: nat, feed: Seq<F>)
        requires
            capacity > 0,
            feed.len() <= capacity,
        ensures
            Self::fresh(capacity).advance_all(feed) == (Buffering {
                capacity,
                active: feed.len() == capacity,
                frames: feed,
            }),
        decreases feed.len(),
    {
        if feed.len() > 0 {
            Self::lemma_activates_when_full(capacity, feed.drop_last());
            let before = Self::fresh(capacity).advance_all(feed.drop_last());
            assert(before.frames == feed.drop_last());
            assert(feed.drop_last().push(feed.last()) =~= feed);
            assert(before.advance(feed.last()).frames == feed);
        } else {
            assert(feed =~= Seq::<F>::empty());
        }
    }
}

/// Whatever the number of frames that have arrived at a fresh calculator,
/// the frames that count are the latest of them, as many as the window
/// holds at most, and the calculator is active once as many have arrived as
/// the window holds.
pub proof fn lemma_latest_frames_count<F>(capacity: nat, feed: Seq<F>)
    requires
        capacity > 0,
    ensures
        Buffering::<F>::fresh(capacity).advance_all(feed) == (Buffering {
            capacity,
            active: feed.len() >= capacity,
            frames: if feed.len() <= capacity {
                feed
            } else {
                feed.skip(feed.len() - capacity)
            },
        }),
    decreases feed.len(),
{
    if feed.len() <= capacity {
        Buffering::<F>::lemma_activates_when_full(capacity, feed);
    } else {
        let earlier = feed.drop_last();
        lemma_latest_frames_count(capacity, earlier);
        let before = Buffering::<F>::fresh(capacity).advance_all(earlier);
        let latest = if earlier.len() <= capacity {
            earlier
        } else {
            earlier.skip(earlier.len() - capacity)
        };
        assert(before.frames == latest);
        assert(slide(latest, feed.last()) =~= feed.skip(feed.len() - capacity));
        assert(before.advance(feed.last()).frames == feed.skip(feed.len() - capacity));
    }
}

enum BufferedState<C: MovingCalculator> {
    Dummy,
    Uninit(Fixed<C::Frame>),
    Active(C),
}

/// A calculator over a moving window that reports nothing until as many
/// frames have arrived as the window holds, and from then on the aggregate
/// that the calculator `C` keeps.
pub struct Buffered<C: MovingCalculator> {
    state: BufferedState<C>,
}

/// Keeps the minimum of a moving window once the window has filled.
pub type BufferedMovingMin<S, const N: usize> = Buffered<MovingMin<S, N>>;

/// Keeps the maximum of a moving window once the window has filled.
pub type BufferedMovingMax<S, const N: usize> = Buffered<MovingMax<S, N>>;

/// Keeps the root mean square of a moving window once the window has filled.
pub type BufferedMovingRms<const N: usize> = Buffered<MovingRms<N>>;

/// Keeps the mean square of a moving window once the window has filled.
pub type BufferedMovingMs<const N: usize> = Buffered<MovingMs<N>>;

/// Keeps the mean of a moving window once the window has filled.
pub type BufferedMovingMean<const N: usize> = Buffered<MovingMean<N>>;

impl<C: MovingCalculator> View for Buffered<C> {
    type V = Buffering<C::Frame>;

    closed spec fn view(&self) -> Buffering<C::Frame> {
        match self.state {
            BufferedState::Dummy => Buffering::fresh(0),
            BufferedState::Uninit(ring) => Buffering {
                capacity: ring@.len(),
                active: false,
                frames: ring.storage().subrange(0, ring.head() as int),
            },
            BufferedState::Active(calc) => Buffering::full(calc.window()),
        }
    }
}

impl<C: MovingCalculator> Buffered<C> {
    /// Whether the calculator is in a state that its operations leave it in.
    pub closed spec fn wf(&self) -> bool {
        match self.state {
            BufferedState::Dummy => false,
            BufferedState::Uninit(ring) => ring@.len() > 0 && ring.head() < ring@.len()
                && ring.storage().len() == ring@.len(),
            BufferedState::Active(calc) => calc.wf(),
        }
    }

    /// Whether `output` is none while the calculator is inactive, and the
    /// aggregate of the window once it is active.
    pub open spec fn is_current(&self, output: Option<C::Output>) -> bool {
        &&& output is Some <==> self@.active
        &&& output matches Some(aggregate) ==> C::aggregates(self@.frames, aggregate)
    }

    /// At most one output is current: reading the calculator again without
    /// a frame in between gives the same output.
    pub proof fn lemma_current_is_unique(&self, a: Option<C::Output>, b: Option<C::Output>)
        requires
            self.is_current(a),
            self.is_current(b),
        ensures
            a == b,
    {
        if a is Some {
            C::lemma_aggregate_is_unique(self@.frames, a->Some_0, b->Some_0);
        }
    }

    /// The model of a well-formed calculator is well formed.
    pub proof fn lemma_wf_view(&self)
        requires
            self.wf(),
        ensures
            self@.wf(),
    {
        match self.state {
            BufferedState::Active(calc) => {
                calc.lemma_window_is_not_empty();
            },
            _ => {},
        }
    }

    fn promote(&mut self)
        requires
            old(self).state is Uninit,
            old(self).state->Uninit_0@.len() > 0,
        ensures
            final(self).wf(),
            final(self)@ == Buffering::full(old(self).state->Uninit_0.storage()),
    {
        let mut snatched = BufferedState::Dummy;
        core::mem::swap(&mut snatched, &mut self.state);
        match snatched {
            BufferedState::Uninit(ring_buffer) => {
                proof {
                    ring_buffer.lemma_view();
                }
                let buffer = ring_buffer.into_buffer();
                self.state = BufferedState::Active(C::from_full(buffer));
            },
            other => {
                self.state = other;
            },
        }
    }

    /// An inactive calculator that will collect as many frames as `buffer`
    /// has slots; what `buffer` holds does not count.
    pub fn from(buffer: Vec<C::Frame>) -> (made: Result<Self, EmptyWindow>)
        ensures
            buffer@.len() == 0 <==> made is Err,
            made matches Ok(calc) ==> calc.wf() && calc@ == Buffering::<C::Frame>::fresh(
                buffer@.len(),
            ),
    {
        if buffer.len() == 0 {
            return Err(EmptyWindow);
        }
        let ring = Fixed::from_offset(buffer, 0);
        proof {
            ring.lemma_view();
        }
        let made = Self { state: BufferedState::Uninit(ring) };
        assert(made@.frames =~= Seq::<C::Frame>::empty());
        Ok(made)
    }

    /// An active calculator whose window holds the frames of `buffer`,
    /// oldest first.
    pub fn from_full(buffer: Vec<C::Frame>) -> (made: Result<Self, EmptyWindow>)
        ensures
            buffer@.len() == 0 <==> made is Err,
            made matches Ok(calc) ==> calc.wf() && calc@ == Buffering::full(buffer@),
    {
        if buffer.len() == 0 {
            return Err(EmptyWindow);
        }
        let ring = Fixed::from_offset(buffer, 0);
        proof {
            ring.lemma_view();
        }
        let mut made = Self { state: BufferedState::Uninit(ring) };
        made.promote();
        Ok(made)
    }

    /// Makes the calculator inactive and discards the frames that count.
    pub fn reset(&mut self)
        requires
            old(self).wf(),
        ensures
            final(self).wf(),
            final(self)@ == Buffering::<C::Frame>::fresh(old(self)@.capacity),
    {
        let mut snatched = BufferedState::Dummy;
        core::mem::swap(&mut snatched, &mut self.state);
        let raw_buffer = match snatched {
            BufferedState::Active(calc) => {
                proof {
                    calc.lemma_window_is_not_empty();
                }
                calc.into_buffer()
            },
            BufferedState::Uninit(ring_buffer) => ring_buffer.into_buffer(),
            BufferedState::Dummy => {
                return ;
            },
        };
        let ring = Fixed::from_offset(raw_buffer, 0);
        proof {
            ring.lemma_view();
        }
        self.state = BufferedState::Uninit(ring);
        assert(self@.frames =~= Seq::<C::Frame>::empty());
    }

    /// Makes the calculator active on a window filled with `fill_val`.
    pub fn fill(&mut self, fill_val: C::Frame)
        requires
            old(self).wf(),
        ensures
            final(self).wf(),
            final(self)@ == Buffering::full(Seq::new(old(self)@.capacity, |i: int| fill_val)),
    {
        match &mut self.state {
            BufferedState::Dummy => {},
            BufferedState::Uninit(ring_buffer) => {
                ring_buffer.fill(fill_val);
                self.promote();
            },
            BufferedState::Active(calc) => {
                calc.fill(fill_val);
            },
        }
    }

    /// Makes the calculator active on a window filled, oldest frame first,
    /// with the frames that successive calls of `fill_func` return.
    pub fn fill_with<M>(&mut self, fill_func: M)
        where M: FnMut() -> C::Frame
        requires
            old(self).wf(),
            call_requires(fill_func, ()),
        ensures
            final(self).wf(),
            final(self)@.active,
            final(self)@.capacity == old(self)@.capacity,
            final(self)@.frames.len() == old(self)@.capacity,
            forall|i: int|
                0 <= i < final(self)@.frames.len() ==> call_ensures(
                    fill_func,
                    (),
                    #[trigger] final(self)@.frames[i],
                ),
    {
        match &mut self.state {
            BufferedState::Dummy => {},
            BufferedState::Uninit(ring_buffer) => {
                ring_buffer.fill_with(fill_func);
                self.promote();
            },
            BufferedState::Active(calc) => {
                calc.fill_with(fill_func);
            },
        }
    }

    /// Whether the calculator is active.
    pub fn is_active(&self) -> (active: bool)
        ensures
            active == self@.active,
    {
        match &self.state {
            BufferedState::Active(_) => true,
            _ => false,
        }
    }

    /// Takes in the frame `input`. An inactive calculator collects it, and
    /// turns active if it fills the window; an active one pushes it into the
    /// window, and the oldest frame leaves.
    pub fn advance(&mut self, input: C::Frame)
        requires
            old(self).wf(),
        ensures
            final(self).wf(),
            final(self)@ == old(self)@.advance(input),
    {
        match &mut self.state {
            BufferedState::Active(calc) => {
                proof {
                    calc.lemma_window_is_not_empty();
                }
                calc.advance(input);
            },
            BufferedState::Uninit(ring_buffer) => {
                let ghost before = *ring_buffer;
                assert(old(self).state == BufferedState::<C>::Uninit(before));
                let (_, was_reset) = ring_buffer.push_with_flag(input);
                proof {
                    let len = before@.len() as int;
                    let head = before.head() as int;
                    if head + 1 < len {
                        vstd::arithmetic::div_mod::lemma_small_mod((head + 1) as nat, len as nat);
                    } else {
                        vstd::arithmetic::div_mod::lemma_mod_self_0(len);
                    }
                    assert(before.storage().update(head, input).subrange(0, head + 1)
                        =~= before.storage().subrange(0, head).push(input));
                    assert(before.storage().update(head, input).subrange(0, len)
                        =~= before.storage().update(head, input));
                }
                if was_reset {
                    self.promote();
                }
            },
            BufferedState::Dummy => {},
        }
    }

    /// The aggregate of the frames in the window, or none while the
    /// calculator is inactive.
    pub fn current(&self) -> (output: Option<C::Output>)
        requires
            self.wf(),
        ensures
            self.is_current(output),
    {
        match &self.state {
            BufferedState::Active(calc) => Some(calc.current()),
            BufferedState::Uninit(_) => None,
            BufferedState::Dummy => None,
        }
    }

    /// Takes in the frame `input` and reads the aggregate of the window that
    /// results, or none while the calculator is inactive.
    pub fn process(&mut self, input: C::Frame) -> (output: Option<C::Output>)
        requires
            old(self).wf(),
        ensures
            final(self).wf(),
            final(self)@ == old(self)@.advance(input),
            final(self).is_current(output),
    {
        self.advance(input);
        self.current()
    }
}

impl<C: MovingCalculator> StatefulProcessor for Buffered<C> {
    type Input = C::Frame;

    type Output = Option<C::Output>;

    open spec fn can_advance(&self, input: C::Frame) -> bool {
        Buffered::wf(self)
    }

    open spec fn advanced(&self, input: C::Frame, after: Self) -> bool {
        Buffered::wf(&after) && after@ == self@.advance(input)
    }

    open spec fn can_read(&self) -> bool {
        Buffered::wf(self)
    }

    open spec fn read(&self, output: Option<C::Output>) -> bool {
        self.is_current(output)
    }

    fn advance(&mut self, input: C::Frame) {
        Buffered::advance(self, input)
    }

    fn current(&self) -> (output: Option<C::Output>) {
        Buffered::current(self)
    }
}

/// The number of frames after which a calculator cannot but give an
/// output: those that its window still lacks.
pub open spec fn frames_lacking<C: MovingCalculator>(calc: Buffered<C>) -> Option<nat> {
    if calc.wf() {
        if calc@.active {
            Some(0nat)
        } else {
            Some((calc@.capacity - calc@.frames.len()) as nat)
        }
    } else {
        None
    }
}

/// A well-formed calculator can take in any frame at any time and gives an
/// output once its window has filled, so it can process the frames of a
/// signal and will not withhold its output forever.
pub proof fn lemma_buffered_always_yields<C: MovingCalculator>(calc: Buffered<C>)
    requires
        calc.wf(),
    ensures
        always_yields::<C::Output, Buffered<C>>(calc),
{
    let budget = |p: Buffered<C>| frames_lacking(p);
    assert(budget(calc) is Some);
    assert forall|p: Buffered<C>, input: C::Frame, after: Buffered<C>, output: Option<C::Output>|
        budget(p) is Some && #[trigger] p.processed(input, after, output) implies {
        &&& budget(after) is Some
        &&& output is None ==> budget(after)->Some_0 < budget(p)->Some_0
    } by {
        p.lemma_wf_view();
        after.lemma_wf_view();
    }
    assert(keeps_yielding::<C::Output, Buffered<C>>(budget));
}

} // verus!
