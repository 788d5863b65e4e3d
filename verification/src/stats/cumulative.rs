//! Statistics over every frame seen so far.

use vstd::prelude::*;

use crate::components::StatefulProcessor;
use crate::sample::Sample;
use crate::stats::moving::{holds_extrema, lemma_extrema_are_unique};
use crate::stats::summage::{
    column_sum, holds_means, lemma_column_sum_bounds, lemma_column_sum_push, lemma_means_are_unique,
    lemma_term_bounds, root_floor, term, Aggregate, Mean, MeanSquare, RootMeanSquare,
};
use crate::stats::extrema::column;
use crate::stats::{is_extremum, surpasses, surpasses_spec, DO_MAX, DO_MIN};

verus! {

/// Keeps the extremum that `MAX` selects, channel by channel, of all the
/// frames that it has taken in. Its view lists these frames, oldest first.
#[derive(Clone)]
pub struct CumulativeExtrema<S: Sample, const N: usize, const MAX: bool> {
    extrema: [S; N],
    count: u64,
    frames: Ghost<Seq<[S; N]>>,
}

/// Keeps the minimum, channel by channel, of all frames taken in.
pub type CumulativeMin<S, const N: usize> = CumulativeExtrema<S, N, DO_MIN>;

/// Keeps the maximum, channel by channel, of all frames taken in.
pub type CumulativeMax<S, const N: usize> = CumulativeExtrema<S, N, DO_MAX>;

impl<S: Sample, const N: usize, const MAX: bool> View for CumulativeExtrema<S, N, MAX> {
    type V = Seq<[S; N]>;

    closed spec fn view(&self) -> Seq<[S; N]> {
        self.frames@
    }
}

impl<S: Sample, const N: usize, const MAX: bool> CumulativeExtrema<S, N, MAX> {
    /// Whether the count is the number of frames taken in, and the extrema
    /// kept are those of these frames.
    pub closed spec fn wf(&self) -> bool {
        &&& self.count == self.frames@.len()
        &&& self.count > 0 ==> holds_extrema(MAX, self.frames@, self.extrema)
    }

    /// Whether `frame` holds, in every channel, the extremum of that channel
    /// over the frames taken in.
    pub open spec fn is_current(&self, frame: [S; N]) -> bool {
        holds_extrema(MAX, self@, frame)
    }

    /// At most one frame is current: reading the calculator again without
    /// a frame in between gives the same output.
    pub proof fn lemma_current_is_unique(&self, a: [S; N], b: [S; N])
        requires
            self.is_current(a),
            self.is_current(b),
        ensures
            a == b,
    {
        lemma_extrema_are_unique(MAX, self@, a, b);
    }

    /// Forgets every frame taken in.
    pub fn reset(&mut self)
        ensures
            final(self).wf(),
            final(self)@.len() == 0,
    {
        *self = Self::default();
    }

    /// Whether no frame has been taken in.
    pub fn is_empty(&self) -> (empty: bool)
        requires
            self.wf(),
        ensures
            empty == (self@.len() == 0),
    {
        self.count == 0
    }

    /// The number of frames taken in.
    pub fn count(&self) -> (count: u64)
        requires
            self.wf(),
        ensures
            count == self@.len(),
    {
        self.count
    }

    /// Takes in the frame `input`.
    pub fn advance(&mut self, input: [S; N])
        requires
            old(self).wf(),
            old(self)@.len() < u64::MAX,
        ensures
            final(self).wf(),
            final(self)@ == old(self)@.push(input),
    {
        let ghost before = self.frames@;
        let ghost grown = before.push(input);
        if self.count == 0 {
            self.extrema = input;
            self.count = 1;
            proof {
                assert forall|ch: int| 0 <= ch < N implies is_extremum(
                    MAX,
                    #[trigger] column(grown, ch),
                    input[ch],
                ) by {
                    assert(column(grown, ch)[0] == input[ch]);
                }
            }
        } else {
            self.count += 1;
            let ghost kept = self.extrema;
            let mut ch: usize = 0;
            while ch < N
                invariant
                    0 <= ch <= N,
                    grown == before.push(input),
                    before.len() > 0,
                    self.count == before.len() + 1,
                    holds_extrema(MAX, before, kept),
                    forall|c: int|
                        0 <= c < ch ==> is_extremum(
                            MAX,
                            #[trigger] column(grown, c),
                            self.extrema[c],
                        ),
                    forall|c: int| ch <= c < N ==> #[trigger] self.extrema[c] == kept[c],
                decreases N - ch,
            {
                let x = input[ch];
                let e = self.extrema[ch];
                proof {
                    let col = column(before, ch as int);
                    let new_col = column(grown, ch as int);
                    assert(is_extremum(MAX, col, kept[ch as int]));
                    assert(new_col =~= col.push(x));
                    let i = choose|i: int| 0 <= i < col.len() && col[i] == e;
                    assert(new_col[i] == e);
                    assert(new_col[col.len() as int] == x);
                    assert forall|j: int| 0 <= j < new_col.len() implies !surpasses_spec(
                        MAX,
                        #[trigger] new_col[j],
                        if surpasses_spec(MAX, x, e) {
                            x
                        } else {
                            e
                        },
                    ) by {
                        if j < col.len() {
                            assert(!surpasses_spec(MAX, col[j], e));
                        }
                    }
                }
                if surpasses::<S, MAX>(&x, &e) {
                    self.extrema[ch] = x;
                }
                ch += 1;
            }
        }
        self.frames = Ghost(grown);
    }

    /// The extremum of each channel over the frames taken in.
    pub fn current(&self) -> (frame: [S; N])
        requires
            self.wf(),
            self@.len() > 0,
        ensures
            self.is_current(frame),
    {
        self.extrema
    }

    /// The extremum of each channel over the frames taken in, or none where
    /// no frame has been taken in.
    pub fn try_current(&self) -> (frame: Option<[S; N]>)
        requires
            self.wf(),
        ensures
            frame is Some <==> self@.len() > 0,
            frame matches Some(f) ==> self.is_current(f),
    {
        if !self.is_empty() {
            Some(self.extrema)
        } else {
            None
        }
    }

    /// Takes in the frame `input` and reads the extrema of the frames taken
    /// in so far.
    pub fn process(&mut self, input: [S; N]) -> (frame: [S; N])
        requires
            old(self).wf(),
            old(self)@.len() < u64::MAX,
        ensures
            final(self).wf(),
            final(self)@ == old(self)@.push(input),
            final(self).is_current(frame),
    {
        self.advance(input);
        self.current()
    }
}

impl<S: Sample, const N: usize, const MAX: bool> Default for CumulativeExtrema<S, N, MAX> {
    /// A calculator that has taken in no frame.
    fn default() -> (calc: Self)
        ensures
            calc.wf(),
            calc@.len() == 0,
    {
        Self { extrema: [S::equilibrium();N], count: 0, frames: Ghost(Seq::empty()) }
    }
}

impl<S: Sample, const N: usize, const MAX: bool> StatefulProcessor for CumulativeExtrema<
    S,
    N,
    MAX,
> {
    type Input = [S; N];

    type Output = [S; N];

    open spec fn can_advance(&self, input: [S; N]) -> bool {
        CumulativeExtrema::wf(self) && self@.len() < u64::MAX
    }

    open spec fn advanced(&self, input: [S; N], after: Self) -> bool {
        CumulativeExtrema::wf(&after) && after@ == self@.push(input)
    }

    open spec fn can_read(&self) -> bool {
        CumulativeExtrema::wf(self) && self@.len() > 0
    }

    open spec fn read(&self, output: [S; N]) -> bool {
        self.is_current(output)
    }

    fn advance(&mut self, input: [S; N]) {
        CumulativeExtrema::advance(self, input)
    }

    fn current(&self) -> (output: [S; N]) {
        CumulativeExtrema::current(self)
    }
}

/// Keeps the aggregate `A`, channel by channel, of all the frames that it
/// has taken in. Its view lists these frames, oldest first.
pub struct CumulativeSummage<A: Aggregate, const N: usize> {
    sum: [i128; N],
    count: u64,
    frames: Ghost<Seq<[i32; N]>>,
    aggregate: core::marker::PhantomData<A>,
}

/// Keeps the root mean square of all frames taken in.
pub type CumulativeRms<const N: usize> = CumulativeSummage<RootMeanSquare, N>;

/// Keeps the mean square of all frames taken in.
pub type CumulativeMs<const N: usize> = CumulativeSummage<MeanSquare, N>;

/// Keeps the mean of all frames taken in.
pub type CumulativeMean<const N: usize> = CumulativeSummage<Mean, N>;

impl<A: Aggregate, const N: usize> View for CumulativeSummage<A, N> {
    type V = Seq<[i32; N]>;

    closed spec fn view(&self) -> Seq<[i32; N]> {
        self.frames@
    }
}

impl<A: Aggregate, const N: usize> CumulativeSummage<A, N> {
    /// Whether the count is the number of frames taken in, and the running
    /// sum of each channel is the sum of its terms.
    pub closed spec fn wf(&self) -> bool {
        &&& self.count == self.frames@.len()
        &&& forall|ch: int|
            0 <= ch < N ==> #[trigger] self.sum[ch] == column_sum(A::squares(), self.frames@, ch)
    }

    /// Whether `output` holds, in every channel, the aggregate of that
    /// channel over the frames taken in.
    pub open spec fn is_current(&self, output: [i64; N]) -> bool {
        holds_means::<A, N>(self@, output)
    }

    /// At most one output is current: reading the calculator again without
    /// a frame in between gives the same output.
    pub proof fn lemma_current_is_unique(&self, a: [i64; N], b: [i64; N])
        requires
            self.is_current(a),
            self.is_current(b),
        ensures
            a == b,
    {
        lemma_means_are_unique::<A, N>(self@, a, b);
    }

    /// Forgets every frame taken in.
    pub fn reset(&mut self)
        ensures
            final(self).wf(),
            final(self)@.len() == 0,
    {
        *self = Self::default();
    }

    /// Whether no frame has been taken in.
    pub fn is_empty(&self) -> (empty: bool)
        requires
            self.wf(),
        ensures
            empty == (self@.len() == 0),
    {
        self.count == 0
    }

    /// The number of frames taken in.
    pub fn count(&self) -> (count: u64)
        requires
            self.wf(),
        ensures
            count == self@.len(),
    {
        self.count
    }

    /// Takes in the frame `input`.
    pub fn advance(&mut self, input: [i32; N])
        requires
            old(self).wf(),
            old(self)@.len() < u64::MAX,
        ensures
            final(self).wf(),
            final(self)@ == old(self)@.push(input),
    {
        let pow2 = A::do_pow2();
        let sqrt = A::do_sqrt();
        let ghost before = self.frames@;
        let ghost grown = before.push(input);
        let ghost sums = self.sum;
        self.count += 1;
        let mut ch: usize = 0;
        while ch < N
            invariant
                0 <= ch <= N,
                pow2 == A::squares(),
                sqrt == A::roots(),
                grown == before.push(input),
                before.len() < u64::MAX,
                self.count == before.len() + 1,
                forall|c: int|
                    0 <= c < N ==> #[trigger] sums[c] == column_sum(A::squares(), before, c),
                forall|c: int|
                    0 <= c < ch ==> #[trigger] self.sum[c] == column_sum(A::squares(), grown, c),
                forall|c: int| ch <= c < N ==> #[trigger] self.sum[c] == sums[c],
            decreases N - ch,
        {
            let x = input[ch] as i128;
            proof {
                A::lemma_roots_of_squares();
                lemma_column_sum_bounds(A::squares(), before, ch as int);
                lemma_column_sum_bounds(A::squares(), grown, ch as int);
                lemma_term_bounds(A::squares(), input[ch as int]);
                lemma_column_sum_push(A::squares(), before, input, ch as int);
                assert(sums[ch as int] == column_sum(A::squares(), before, ch as int));
                assert(-0x8000_0000 * before.len() >= -0x8000_0000 * 0xffff_ffff_ffff_ffff)
                    by (nonlinear_arith)
                    requires
                        before.len() <= 0xffff_ffff_ffff_ffff,
                ;
                assert(0x4000_0000_0000_0000 * before.len() <= 0x4000_0000_0000_0000
                    * 0xffff_ffff_ffff_ffff) by (nonlinear_arith)
                    requires
                        before.len() <= 0xffff_ffff_ffff_ffff,
                ;
            }
            let added = if pow2 {
                x * x
            } else {
                x
            };
            let mut channel_sum = self.sum[ch] + added;
            if sqrt && channel_sum < 0 {
                channel_sum = 0;
            }
            self.sum[ch] = channel_sum;
            ch += 1;
        }
        self.frames = Ghost(grown);
    }

    /// The aggregate of each channel over the frames taken in.
    pub fn current(&self) -> (output: [i64; N])
        requires
            self.wf(),
            self@.len() > 0,
        ensures
            self.is_current(output),
    {
        let sqrt = A::do_sqrt();
        let count = self.count;
        let mut output = [0i64;N];
        let mut ch: usize = 0;
        while ch < N
            invariant
                0 <= ch <= N,
                self.wf(),
                sqrt == A::roots(),
                count == self@.len(),
                count > 0,
                forall|c: int|
                    0 <= c < ch ==> crate::stats::summage::is_mean(
                        A::roots(),
                        column_sum(A::squares(), self@, c),
                        count as int,
                        #[trigger] output[c] as int,
                    ),
            decreases N - ch,
        {
            let sum = self.sum[ch];
            proof {
                A::lemma_roots_of_squares();
                lemma_column_sum_bounds(A::squares(), self@, ch as int);
                assert(sum == column_sum(A::squares(), self@, ch as int));
                let bound: int = 0x4000_0000_0000_0000;
                let total = sum as int;
                let frames = count as int;
                if total >= 0 {
                    assert(0 <= total / frames <= bound) by (nonlinear_arith)
                        requires
                            0 <= total <= bound * frames,
                            frames > 0,
                    ;
                } else {
                    assert(0 <= (-total) / frames <= bound) by (nonlinear_arith)
                        requires
                            0 <= -total <= bound * frames,
                            frames > 0,
                    ;
                }
            }
            let mean = sum / (count as i128);
            output[ch] = if sqrt {
                root_floor(mean as u64) as i64
            } else {
                mean as i64
            };
            ch += 1;
        }
        output
    }

    /// The aggregate of each channel over the frames taken in, or none where
    /// no frame has been taken in.
    pub fn try_current(&self) -> (output: Option<[i64; N]>)
        requires
            self.wf(),
        ensures
            output is Some <==> self@.len() > 0,
            output matches Some(aggregate) ==> self.is_current(aggregate),
    {
        if !self.is_empty() {
            Some(self.current())
        } else {
            None
        }
    }

    /// Takes in the frame `input` and reads the aggregates of the frames
    /// taken in so far.
    pub fn process(&mut self, input: [i32; N]) -> (output: [i64; N])
        requires
            old(self).wf(),
            old(self)@.len() < u64::MAX,
        ensures
            final(self).wf(),
            final(self)@ == old(self)@.push(input),
            final(self).is_current(output),
    {
        self.advance(input);
        self.current()
    }
}

impl<A: Aggregate, const N: usize> Default for CumulativeSummage<A, N> {
    /// A calculator that has taken in no frame.
    fn default() -> (calc: Self)
        ensures
            calc.wf(),
            calc@.len() == 0,
    {
        Self {
            sum: [0i128;N],
            count: 0,
            frames: Ghost(Seq::empty()),
            aggregate: core::marker::PhantomData,
        }
    }
}

impl<A: Aggregate, const N: usize> StatefulProcessor for CumulativeSummage<A, N> {
    type Input = [i32; N];

    type Output = [i64; N];

    open spec fn can_advance(&self, input: [i32; N]) -> bool {
        CumulativeSummage::wf(self) && self@.len() < u64::MAX
    }

    open spec fn advanced(&self, input: [i32; N], after: Self) -> bool {
        CumulativeSummage::wf(&after) && after@ == self@.push(input)
    }

    open spec fn can_read(&self) -> bool {
        CumulativeSummage::wf(self) && self@.len() > 0
    }

    open spec fn read(&self, output: [i64; N]) -> bool {
        self.is_current(output)
    }

    fn advance(&mut self, input: [i32; N]) {
        CumulativeSummage::advance(self, input)
    }

    fn current(&self) -> (output: [i64; N]) {
        CumulativeSummage::current(self)
    }
}

} // verus!
