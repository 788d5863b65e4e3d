//! Statistics over a moving window of the most recent frames.

use vstd::prelude::*;

use crate::buffer::fixed::ring_order;
use crate::buffer::Fixed;
use crate::components::{Processor, StatefulProcessor};
use crate::signal::adaptors::{always_processes, keeps_processing};
use crate::sample::Sample;
use crate::stats::extrema::{column, ExtremaState};
use crate::stats::{is_extremum, EmptyWindow, DO_MAX, DO_MIN};

verus! {

/// Whether every channel of `frame` holds the equilibrium.
pub open spec fn is_equilibrium_frame<S: Sample, const N: usize>(frame: [S; N]) -> bool {
    forall|ch: int| 0 <= ch < N ==> (#[trigger] frame[ch]).level() == S::equilibrium_level()
}

/// The window that follows `window` when `frame` enters it and its oldest
/// frame leaves.
pub open spec fn slide<F>(window: Seq<F>, frame: F) -> Seq<F> {
    window.drop_first().push(frame)
}

/// The window that follows `window` when the frames of `feed` enter it one
/// by one.
pub open spec fn slide_all<F>(window: Seq<F>, feed: Seq<F>) -> Seq<F>
    decreases feed.len(),
{
    if feed.len() == 0 {
        window
    } else {
        slide(slide_all(window, feed.drop_last()), feed.last())
    }
}

/// After any feed a window holds as many frames as before, and they are the
/// last that many of the frames that it held at first followed by the feed.
pub proof fn lemma_slide_all_keeps_the_latest<F>(window: Seq<F>, feed: Seq<F>)
    requires
        window.len() > 0,
    ensures
        slide_all(window, feed).len() == window.len(),
        slide_all(window, feed) == (window + feed).skip(feed.len() as int),
    decreases feed.len(),
{
    if feed.len() == 0 {
        assert((window + feed).skip(0) =~= window);
    } else {
        lemma_slide_all_keeps_the_latest(window, feed.drop_last());
        let before = slide_all(window, feed.drop_last());
        assert(slide(before, feed.last()) =~= (window + feed).skip(feed.len() as int));
    }
}

/// A calculator over a moving window of frames: each frame that arrives
/// takes the place of the oldest one, and the output is an aggregate of the
/// frames in the window.
pub trait MovingCalculator: Sized {
    type Frame: Copy;

    type Output;

    /// Whether the calculator is in a state that its operations leave it in.
    spec fn wf(&self) -> bool;

    /// The frames in the window, oldest first.
    spec fn window(&self) -> Seq<Self::Frame>;

    /// Whether `output` is the aggregate of the frames of `window`.
    spec fn aggregates(window: Seq<Self::Frame>, output: Self::Output) -> bool;

    /// A well-formed calculator has a window with at least one frame.
    proof fn lemma_window_is_not_empty(&self)
        requires
            self.wf(),
        ensures
            self.window().len() > 0,
    ;

    /// A window has at most one aggregate, so reading the calculator again
    /// without a frame in between gives the same output.
    proof fn lemma_aggregate_is_unique(window: Seq<Self::Frame>, a: Self::Output, b: Self::Output)
        requires
            Self::aggregates(window, a),
            Self::aggregates(window, b),
        ensures
            a == b,
    ;

    /// A calculator whose window holds the frames of `buffer`, oldest first.
    fn from_full(buffer: Vec<Self::Frame>) -> (calc: Self)
        requires
            buffer@.len() > 0,
        ensures
            calc.wf(),
            calc.window() == buffer@,
    ;

    /// Gives up the calculator for a buffer with as many slots as the
    /// window has frames.
    fn into_buffer(self) -> (buffer: Vec<Self::Frame>)
        requires
            self.wf(),
        ensures
            buffer@.len() == self.window().len(),
    ;

    /// Fills the window with the frame `fill_val`.
    fn fill(&mut self, fill_val: Self::Frame)
        requires
            old(self).wf(),
        ensures
            final(self).wf(),
            final(self).window() == Seq::new(old(self).window().len(), |i: int| fill_val),
    ;

    /// Fills the window, oldest frame first, with the frames that successive
    /// calls of `fill_func` return.
    fn fill_with<M>(&mut self, fill_func: M)
        where M: FnMut() -> Self::Frame
        requires
            old(self).wf(),
            call_requires(fill_func, ()),
        ensures
            final(self).wf(),
            final(self).window().len() == old(self).window().len(),
            forall|i: int|
                0 <= i < final(self).window().len() ==> call_ensures(
                    fill_func,
                    (),
                    #[trigger] final(self).window()[i],
                ),
    ;

    /// Pushes `input` into the window as its newest frame; the oldest frame
    /// leaves.
    fn advance(&mut self, input: Self::Frame)
        requires
            old(self).wf(),
        ensures
            final(self).wf(),
            final(self).window() == slide(old(self).window(), input),
    ;

    /// The aggregate of the frames in the window.
    fn current(&self) -> (output: Self::Output)
        requires
            self.wf(),
        ensures
            Self::aggregates(self.window(), output),
    ;
}

/// The frame of equilibrium samples.
pub fn equilibrium_frame<S: Sample, const N: usize>() -> (frame: [S; N])
    ensures
        is_equilibrium_frame(frame),
{
    [S::equilibrium();N]
}

/// Whether `frame` holds, in every channel, the extremum of that channel
/// over the frames of `window`.
pub open spec fn holds_extrema<S: Sample, const N: usize>(
    max: bool,
    window: Seq<[S; N]>,
    frame: [S; N],
) -> bool {
    forall|ch: int| 0 <= ch < N ==> is_extremum(max, #[trigger] column(window, ch), frame[ch])
}

/// At most one frame holds the extrema of a window.
pub proof fn lemma_extrema_are_unique<S: Sample, const N: usize>(
    max: bool,
    window: Seq<[S; N]>,
    a: [S; N],
    b: [S; N],
)
    requires
        holds_extrema(max, window, a),
        holds_extrema(max, window, b),
    ensures
        a == b,
{
    assert forall|ch: int| 0 <= ch < N implies a[ch] == b[ch] by {
        assert(is_extremum(max, column(window, ch), a[ch]));
        assert(is_extremum(max, column(window, ch), b[ch]));
        crate::stats::lemma_extremum_is_unique(max, column(window, ch), a[ch], b[ch]);
    }
    assert(a =~= b);
}

/// Keeps the extremum that `MAX` selects, channel by channel, of a moving
/// window of frames. Its view is the window, oldest frame first.
pub struct MovingExtrema<S: Sample, const N: usize, const MAX: bool> {
    window: Fixed<[S; N]>,
    ext_state: ExtremaState<S, N, MAX>,
}

/// Keeps the minimum, channel by channel, of a moving window of frames.
pub type MovingMin<S, const N: usize> = MovingExtrema<S, N, DO_MIN>;

/// Keeps the maximum, channel by channel, of a moving window of frames.
pub type MovingMax<S, const N: usize> = MovingExtrema<S, N, DO_MAX>;

impl<S: Sample, const N: usize, const MAX: bool> View for MovingExtrema<S, N, MAX> {
    type V = Seq<[S; N]>;

    closed spec fn view(&self) -> Seq<[S; N]> {
        self.window@
    }
}

impl<S: Sample, const N: usize, const MAX: bool> MovingExtrema<S, N, MAX> {
    /// Whether the window is not empty and the bookkeeping describes it.
    pub closed spec fn wf(&self) -> bool {
        &&& self.window@.len() > 0
        &&& self.ext_state.wf()
        &&& self.ext_state.tracks(self.window@)
    }

    /// Whether `frame` holds, in every channel, the extremum of that channel
    /// over the window.
    pub open spec fn is_current(&self, frame: [S; N]) -> bool {
        holds_extrema(MAX, self@, frame)
    }

    /// A well-formed calculator has a window with at least one frame.
    pub proof fn lemma_wf_window(&self)
        requires
            self.wf(),
        ensures
            self@.len() > 0,
    {
    }

    /// At most one frame is current: reading the calculator again without
    /// a frame in between gives the same output.
    pub proof fn lemma_current_is_unique(&self, a: [S; N], b: [S; N])
        requires
            self.is_current(a),
            self.is_current(b),
        ensures
            a == b,
    {
        lemma_extrema_are_unique(MAX, self@, a, b);
    }

    /// After any feed the output holds the extrema of the latest frames, as
    /// many as the window holds, of those that the window held at first
    /// followed by the feed.
    pub proof fn lemma_current_covers_the_latest(
        before: Seq<[S; N]>,
        feed: Seq<[S; N]>,
        after: Self,
        output: [S; N],
    )
        requires
            before.len() > 0,
            after@ == slide_all(before, feed),
            after.is_current(output),
        ensures
            after@.len() == before.len(),
            holds_extrema(MAX, (before + feed).skip(feed.len() as int), output),
    {
        lemma_slide_all_keeps_the_latest(before, feed);
    }

    /// A calculator on the window that `window` holds.
    pub fn from_window(window: Fixed<[S; N]>) -> (calc: Self)
        requires
            window@.len() > 0,
        ensures
            calc.wf(),
            calc@ == window@,
    {
        let ext_state = ExtremaState::from_window(&window);
        Self { window, ext_state }
    }

    /// A calculator whose window holds the frames of `buffer`, oldest first.
    pub fn from(buffer: Vec<[S; N]>) -> (made: Result<Self, EmptyWindow>)
        ensures
            buffer@.len() == 0 <==> made is Err,
            made matches Ok(calc) ==> calc.wf() && calc@ == buffer@,
    {
        if buffer.len() == 0 {
            return Err(EmptyWindow);
        }
        Ok(Self::from_window(Fixed::from(buffer)))
    }

    /// Gives up the calculator for the storage behind its window, which
    /// holds the frames of the window in a ring: from some slot on to the
    /// end, and then from the start up to that slot.
    pub fn into_buffer(self) -> (buffer: Vec<[S; N]>)
        ensures
            buffer@.len() == self@.len(),
            exists|head: int|
                0 <= head <= buffer@.len() && self@ == #[trigger] ring_order(buffer@, head),
    {
        proof {
            self.window.lemma_view();
        }
        let (head, buffer) = self.window.into_raw_parts();
        assert(self@ == ring_order(buffer@, head as int));
        buffer
    }

    /// A calculator whose window has as many frames as `buffer` has slots,
    /// each of them the equilibrium frame.
    pub fn from_empty(buffer: Vec<[S; N]>) -> (made: Result<Self, EmptyWindow>)
        ensures
            buffer@.len() == 0 <==> made is Err,
            made matches Ok(calc) ==> {
                &&& calc.wf()
                &&& calc@.len() == buffer@.len()
                &&& forall|i: int| 0 <= i < calc@.len() ==> is_equilibrium_frame(#[trigger] calc@[i])
            },
    {
        if buffer.len() == 0 {
            return Err(EmptyWindow);
        }
        let mut new = Self { window: Fixed::from(buffer), ext_state: ExtremaState::default() };
        new.reset();
        Ok(new)
    }

    /// The number of frames in the window.
    pub fn len(&self) -> (len: usize)
        ensures
            len == self@.len(),
    {
        self.window.capacity()
    }

    /// The frontiers and horizons that the calculator keeps of its window.
    pub fn state(&self) -> (state: &ExtremaState<S, N, MAX>)
        requires
            self.wf(),
        ensures
            state.wf(),
            state.tracks(self@),
    {
        &self.ext_state
    }

    /// Fills the window with the equilibrium frame.
    pub fn reset(&mut self)
        requires
            old(self)@.len() > 0,
        ensures
            final(self).wf(),
            final(self)@.len() == old(self)@.len(),
            forall|i: int|
                0 <= i < final(self)@.len() ==> is_equilibrium_frame(#[trigger] final(self)@[i]),
    {
        self.fill(equilibrium_frame())
    }

    /// Fills the window with the frame `fill_val`.
    pub fn fill(&mut self, fill_val: [S; N])
        requires
            old(self)@.len() > 0,
        ensures
            final(self).wf(),
            final(self)@ == Seq::new(old(self)@.len(), |i: int| fill_val),
    {
        let f_pos = self.len() - 1;
        self.window.fill(fill_val);
        self.ext_state = ExtremaState::filled(fill_val, f_pos);
    }

    /// Fills the window, oldest frame first, with the frames that successive
    /// calls of `fill_func` return.
    pub fn fill_with<M>(&mut self, fill_func: M)
        where M: FnMut() -> [S; N]
        requires
            old(self)@.len() > 0,
            call_requires(fill_func, ()),
        ensures
            final(self).wf(),
            final(self)@.len() == old(self)@.len(),
            forall|i: int|
                0 <= i < final(self)@.len() ==> call_ensures(
                    fill_func,
                    (),
                    #[trigger] final(self)@[i],
                ),
    {
        self.window.fill_with(fill_func);
        self.ext_state = ExtremaState::from_window(&self.window);
    }

    /// Pushes `input` into the window as its newest frame; the oldest frame
    /// leaves.
    pub fn advance(&mut self, input: [S; N])
        requires
            old(self).wf(),
        ensures
            final(self).wf(),
            final(self)@ == slide(old(self)@, input),
    {
        self.window.push(input);
        assert(old(self).ext_state.tracks(old(self).window@));
        self.ext_state.push_pop(input, &self.window);
    }

    /// The extremum of each channel over the window.
    pub fn current(&self) -> (frame: [S; N])
        requires
            self.wf(),
        ensures
            self.is_current(frame),
    {
        let frame = self.ext_state.extrema();
        proof {
            assert forall|ch: int| 0 <= ch < N implies is_extremum(
                MAX,
                #[trigger] column(self@, ch),
                frame[ch],
            ) by {
                assert(self.ext_state.tracks(self.window@) && 0 <= ch < N);
            }
        }
        frame
    }

    /// Pushes `input` into the window and reads the extrema of the window
    /// that results.
    pub fn process(&mut self, input: [S; N]) -> (frame: [S; N])
        requires
            old(self).wf(),
        ensures
            final(self).wf(),
            final(self)@ == slide(old(self)@, input),
            final(self).is_current(frame),
    {
        self.advance(input);
        self.current()
    }
}

impl<S: Sample, const N: usize, const MAX: bool> Clone for MovingExtrema<S, N, MAX> {
    /// A calculator with a window of its own that holds the same frames.
    fn clone(&self) -> (copy: Self)
        ensures
            copy@ == self@,
            self.wf() ==> copy.wf(),
    {
        Self { window: self.window.clone(), ext_state: self.ext_state }
    }
}

impl<S: Sample, const N: usize, const MAX: bool> MovingCalculator for MovingExtrema<S, N, MAX> {
    type Frame = [S; N];

    type Output = [S; N];

    open spec fn wf(&self) -> bool {
        MovingExtrema::wf(self)
    }

    open spec fn window(&self) -> Seq<[S; N]> {
        self@
    }

    open spec fn aggregates(window: Seq<[S; N]>, output: [S; N]) -> bool {
        holds_extrema(MAX, window, output)
    }

    proof fn lemma_window_is_not_empty(&self) {
        self.lemma_wf_window();
    }

    proof fn lemma_aggregate_is_unique(window: Seq<[S; N]>, a: [S; N], b: [S; N]) {
        lemma_extrema_are_unique(MAX, window, a, b);
    }

    fn from_full(buffer: Vec<[S; N]>) -> (calc: Self) {
        MovingExtrema::from_window(Fixed::from(buffer))
    }

    fn into_buffer(self) -> (buffer: Vec<[S; N]>) {
        MovingExtrema::into_buffer(self)
    }

    fn fill(&mut self, fill_val: [S; N]) {
        proof {
            self.lemma_wf_window();
        }
        MovingExtrema::fill(self, fill_val)
    }

    fn fill_with<M>(&mut self, fill_func: M) where M: FnMut() -> [S; N] {
        proof {
            self.lemma_wf_window();
        }
        MovingExtrema::fill_with(self, fill_func)
    }

    fn advance(&mut self, input: [S; N]) {
        MovingExtrema::advance(self, input)
    }

    fn current(&self) -> (output: [S; N]) {
        MovingExtrema::current(self)
    }
}

impl<S: Sample, const N: usize, const MAX: bool> StatefulProcessor for MovingExtrema<S, N, MAX> {
    type Input = [S; N];

    type Output = [S; N];

    open spec fn can_advance(&self, input: [S; N]) -> bool {
        MovingExtrema::wf(self)
    }

    open spec fn advanced(&self, input: [S; N], after: Self) -> bool {
        MovingExtrema::wf(&after) && after@ == slide(self@, input)
    }

    open spec fn can_read(&self) -> bool {
        MovingExtrema::wf(self)
    }

    open spec fn read(&self, output: [S; N]) -> bool {
        self.is_current(output)
    }

    fn advance(&mut self, input: [S; N]) {
        MovingExtrema::advance(self, input)
    }

    fn current(&self) -> (output: [S; N]) {
        MovingExtrema::current(self)
    }
}

/// A well-formed calculator can take in any frame at any time, so it can
/// process the frames of a signal.
pub proof fn lemma_moving_extrema_always_processes<S: Sample, const N: usize, const MAX: bool>(
    calc: MovingExtrema<S, N, MAX>,
)
    requires
        calc.wf(),
    ensures
        always_processes(calc),
{
    let inv = |p: MovingExtrema<S, N, MAX>| p.wf();
    assert(inv(calc));
    assert(keeps_processing(inv));
}

} // verus!
