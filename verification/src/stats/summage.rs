//! Means over a moving window, kept as a running sum.
//!
//! Samples are 32-bit signed integers. The sum of a channel is kept exactly
//! in 128 bits, which hold the sum of the squares of as many samples as a
//! buffer can have slots, so no update loses precision and none overflows.

use vstd::prelude::*;

use crate::buffer::Fixed;
use crate::components::{Processor, StatefulProcessor};
use crate::signal::adaptors::{always_processes, keeps_processing};
use crate::stats::moving::{slide, MovingCalculator};
use crate::stats::EmptyWindow;

verus! {

/// The kind of mean that a calculator keeps: whether it sums the samples or
/// their squares, and whether it takes the square root of the mean.
pub trait Aggregate: Sized {
    /// Whether the samples are squared before they are summed.
    spec fn squares() -> bool;

    /// Whether the square root of the mean is taken.
    spec fn roots() -> bool;

    /// A root is taken of a mean of squares only.
    proof fn lemma_roots_of_squares()
        ensures
            Self::roots() ==> Self::squares(),
    ;

    /// Whether the samples are squared before they are summed.
    fn do_pow2() -> (pow2: bool)
        ensures
            pow2 == Self::squares(),
    ;

    /// Whether the square root of the mean is taken.
    fn do_sqrt() -> (sqrt: bool)
        ensures
            sqrt == Self::roots(),
    ;
}

/// The mean of the samples.
pub struct Mean;

/// The mean of the squares of the samples.
pub struct MeanSquare;

/// The square root of the mean of the squares of the samples.
pub struct RootMeanSquare;

impl Aggregate for Mean {
    open spec fn squares() -> bool {
        false
    }

    open spec fn roots() -> bool {
        false
    }

    proof fn lemma_roots_of_squares() {
    }

    fn do_pow2() -> (pow2: bool) {
        false
    }

    fn do_sqrt() -> (sqrt: bool) {
        false
    }
}

impl Aggregate for MeanSquare {
    open spec fn squares() -> bool {
        true
    }

    open spec fn roots() -> bool {
        false
    }

    proof fn lemma_roots_of_squares() {
    }

    fn do_pow2() -> (pow2: bool) {
        true
    }

    fn do_sqrt() -> (sqrt: bool) {
        false
    }
}

impl Aggregate for RootMeanSquare {
    open spec fn squares() -> bool {
        true
    }

    open spec fn roots() -> bool {
        true
    }

    proof fn lemma_roots_of_squares() {
    }

    fn do_pow2() -> (pow2: bool) {
        true
    }

    fn do_sqrt() -> (sqrt: bool) {
        true
    }
}

/// What the sample `x` adds to the sum: its square or itself.
pub open spec fn term(squares: bool, x: i32) -> int {
    if squares {
        x * x
    } else {
        x as int
    }
}

/// The sum of the terms of channel `channel` over the frames of `window`.
pub open spec fn column_sum<const N: usize>(squares: bool, window: Seq<[i32; N]>, channel: int) -> int
    decreases window.len(),
{
    if window.len() == 0 {
        0
    } else {
        column_sum(squares, window.drop_last(), channel) + term(squares, window.last()[channel])
    }
}

/// The quotient of `a` by the positive `b`, rounded toward zero.
pub open spec fn quotient_toward_zero(a: int, b: int) -> int {
    if a >= 0 {
        a / b
    } else {
        -((-a) / b)
    }
}

/// Whether `root` is the square root of `square`, rounded down.
pub open spec fn is_root_floor(square: int, root: int) -> bool {
    0 <= root && root * root <= square < (root + 1) * (root + 1)
}

/// Whether `output` is the aggregate of a channel whose terms sum to `sum`
/// over `len` frames: the mean, rounded toward zero, or for a root the
/// square root of the mean, rounded down.
pub open spec fn is_mean(roots: bool, sum: int, len: int, output: int) -> bool {
    let mean = quotient_toward_zero(sum, len);
    if roots {
        is_root_floor(mean, output)
    } else {
        output == mean
    }
}

/// Whether `output` holds, in every channel, the aggregate `A` of that
/// channel over the frames of `window`.
pub open spec fn holds_means<A: Aggregate, const N: usize>(
    window: Seq<[i32; N]>,
    output: [i64; N],
) -> bool {
    forall|ch: int|
        0 <= ch < N ==> is_mean(
            A::roots(),
            column_sum(A::squares(), window, ch),
            window.len() as int,
            #[trigger] output[ch] as int,
        )
}

/// A number has at most one square root rounded down.
pub proof fn lemma_root_floor_is_unique(square: int, a: int, b: int)
    requires
        is_root_floor(square, a),
        is_root_floor(square, b),
    ensures
        a == b,
{
    if a < b {
        assert((a + 1) * (a + 1) <= b * b) by (nonlinear_arith)
            requires
                0 <= a,
                a + 1 <= b,
        ;
    } else if b < a {
        assert((b + 1) * (b + 1) <= a * a) by (nonlinear_arith)
            requires
                0 <= b,
                b + 1 <= a,
        ;
    }
}

/// A term lies between the least sample and the square of the least sample.
pub proof fn lemma_term_bounds(squares: bool, x: i32)
    ensures
        -0x8000_0000 <= term(squares, x) <= 0x4000_0000_0000_0000,
        squares ==> 0 <= term(squares, x),
{
    if squares {
        assert(0 <= x * x <= 0x4000_0000_0000_0000) by (nonlinear_arith)
            requires
                -0x8000_0000 <= x <= 0x7fff_ffff,
        ;
    }
}

/// The sum of a channel is bounded by the number of frames times the
/// largest term, and a sum of squares is not negative.
pub proof fn lemma_column_sum_bounds<const N: usize>(
    squares: bool,
    window: Seq<[i32; N]>,
    channel: int,
)
    ensures
        -0x8000_0000 * window.len() <= column_sum(squares, window, channel)
            <= 0x4000_0000_0000_0000 * window.len(),
        squares ==> 0 <= column_sum(squares, window, channel),
    decreases window.len(),
{
    if window.len() > 0 {
        lemma_column_sum_bounds(squares, window.drop_last(), channel);
        lemma_term_bounds(squares, window.last()[channel]);
    }
}

/// A frame that enters the window adds its term to the sum.
pub proof fn lemma_column_sum_push<const N: usize>(
    squares: bool,
    window: Seq<[i32; N]>,
    frame: [i32; N],
    channel: int,
)
    ensures
        column_sum(squares, window.push(frame), channel) == column_sum(squares, window, channel)
            + term(squares, frame[channel]),
{
    assert(window.push(frame).drop_last() =~= window);
}

/// The oldest frame takes its term out of the sum when it leaves.
pub proof fn lemma_column_sum_drop_first<const N: usize>(
    squares: bool,
    window: Seq<[i32; N]>,
    channel: int,
)
    requires
        window.len() > 0,
    ensures
        column_sum(squares, window.drop_first(), channel) == column_sum(squares, window, channel)
            - term(squares, window[0][channel]),
    decreases window.len(),
{
    if window.len() == 1 {
        assert(window.drop_last() =~= Seq::<[i32; N]>::empty());
        assert(window.drop_first() =~= Seq::<[i32; N]>::empty());
    } else {
        lemma_column_sum_drop_first(squares, window.drop_last(), channel);
        assert(window.drop_first().drop_last() =~= window.drop_last().drop_first());
    }
}

/// A window of copies of one frame sums to as many times the term of the
/// frame.
pub proof fn lemma_column_sum_constant<const N: usize>(
    squares: bool,
    len: nat,
    frame: [i32; N],
    channel: int,
)
    ensures
        column_sum(squares, Seq::new(len, |i: int| frame), channel) == len * term(
            squares,
            frame[channel],
        ),
    decreases len,
{
    let window = Seq::new(len, |i: int| frame);
    let t = term(squares, frame[channel]);
    if len > 0 {
        lemma_column_sum_constant(squares, (len - 1) as nat, frame, channel);
        assert(window.drop_last() =~= Seq::new((len - 1) as nat, |i: int| frame));
        assert(window.last() == frame);
        assert(len * t == (len - 1) * t + t) by (nonlinear_arith);
    } else {
        assert(len * t == 0) by (nonlinear_arith)
            requires
                len == 0,
        ;
    }
}

/// At most one output holds the aggregates of a window.
pub proof fn lemma_means_are_unique<A: Aggregate, const N: usize>(
    window: Seq<[i32; N]>,
    a: [i64; N],
    b: [i64; N],
)
    requires
        holds_means::<A, N>(window, a),
        holds_means::<A, N>(window, b),
    ensures
        a == b,
{
    assert forall|ch: int| 0 <= ch < N implies a[ch] == b[ch] by {
        let sum = column_sum(A::squares(), window, ch);
        let mean = quotient_toward_zero(sum, window.len() as int);
        assert(is_mean(A::roots(), sum, window.len() as int, a[ch] as int));
        assert(is_mean(A::roots(), sum, window.len() as int, b[ch] as int));
        if A::roots() {
            lemma_root_floor_is_unique(mean, a[ch] as int, b[ch] as int);
        }
    }
    assert(a =~= b);
}

/// The square root of `square`, rounded down.
pub fn root_floor(square: u64) -> (root: u64)
    ensures
        is_root_floor(square as int, root as int),
        root <= 0xffff_ffff,
{
    let mut low: u64 = 0;
    let mut high: u64 = 0x1_0000_0000;
    while high - low > 1
        invariant
            0 <= low < high <= 0x1_0000_0000,
            low * low <= square < high * high,
        decreases high - low,
    {
        let mid = low + (high - low) / 2;
        assert(mid * mid <= 0x1_0000_0000 * 0x1_0000_0000) by (nonlinear_arith)
            requires
                0 <= mid <= 0x1_0000_0000,
        ;
        if (mid as u128) * (mid as u128) <= square as u128 {
            low = mid;
        } else {
            high = mid;
        }
    }
    low
}

/// Keeps the aggregate `A`, channel by channel, of a moving window of
/// frames. Its view is the window, oldest frame first.
pub struct MovingSummage<A: Aggregate, const N: usize> {
    window: Fixed<[i64; N]>,
    sum: [i128; N],
    frames: Ghost<Seq<[i32; N]>>,
    aggregate: core::marker::PhantomData<A>,
}

/// Keeps the root mean square of a moving window of frames.
pub type MovingRms<const N: usize> = MovingSummage<RootMeanSquare, N>;

/// Keeps the mean square of a moving window of frames.
pub type MovingMs<const N: usize> = MovingSummage<MeanSquare, N>;

/// Keeps the mean of a moving window of frames.
pub type MovingMean<const N: usize> = MovingSummage<Mean, N>;

impl<A: Aggregate, const N: usize> View for MovingSummage<A, N> {
    type V = Seq<[i32; N]>;

    closed spec fn view(&self) -> Seq<[i32; N]> {
        self.frames@
    }
}

/// Whether `terms` holds the terms of the samples of `frame`.
pub open spec fn holds_terms<const N: usize>(squares: bool, frame: [i32; N], terms: [i64; N]) -> bool {
    forall|ch: int| 0 <= ch < N ==> #[trigger] terms[ch] == term(squares, frame[ch])
}

/// The terms of the samples of `frame`.
fn terms_of<A: Aggregate, const N: usize>(frame: &[i32; N]) -> (terms: [i64; N])
    ensures
        holds_terms(A::squares(), *frame, terms),
{
    let pow2 = A::do_pow2();
    let mut terms = [0i64;N];
    let mut ch: usize = 0;
    while ch < N
        invariant
            0 <= ch <= N,
            pow2 == A::squares(),
            forall|c: int| 0 <= c < ch ==> #[trigger] terms[c] == term(A::squares(), frame[c]),
        decreases N - ch,
    {
        let x = frame[ch] as i64;
        proof {
            lemma_term_bounds(pow2, frame[ch as int]);
        }
        terms[ch] = if pow2 {
            x * x
        } else {
            x
        };
        ch += 1;
    }
    terms
}

impl<A: Aggregate, const N: usize> MovingSummage<A, N> {
    /// Whether the window is not empty, holds the terms of the frames, and
    /// the running sum of each channel is the sum of its terms.
    pub closed spec fn wf(&self) -> bool {
        &&& self.window@.len() > 0
        &&& self.window@.len() == self.frames@.len()
        &&& forall|i: int|
            0 <= i < self.frames@.len() ==> holds_terms(
                A::squares(),
                #[trigger] self.frames@[i],
                self.window@[i],
            )
        &&& forall|ch: int|
            0 <= ch < N ==> #[trigger] self.sum[ch] == column_sum(A::squares(), self.frames@, ch)
    }

    /// Whether `output` holds, in every channel, the aggregate of that
    /// channel over the window.
    pub open spec fn is_current(&self, output: [i64; N]) -> bool {
        holds_means::<A, N>(self@, output)
    }

    /// A well-formed calculator has a window with at least one frame.
    pub proof fn lemma_wf_window(&self)
        requires
            self.wf(),
        ensures
            self@.len() > 0,
    {
    }

    /// At most one output is current: reading the calculator again without
    /// a frame in between gives the same output.
    pub proof fn lemma_current_is_unique(&self, a: [i64; N], b: [i64; N])
        requires
            self.is_current(a),
            self.is_current(b),
        ensures
            a == b,
    {
        lemma_means_are_unique::<A, N>(self@, a, b);
    }

    /// A calculator whose window holds the frames of `buffer`, oldest first.
    pub fn from(buffer: Vec<[i32; N]>) -> (made: Result<Self, EmptyWindow>)
        ensures
            buffer@.len() == 0 <==> made is Err,
            made matches Ok(calc) ==> calc.wf() && calc@ == buffer@,
    {
        if buffer.len() == 0 {
            return Err(EmptyWindow);
        }
        Ok(Self::from_frames(&buffer))
    }

    /// A calculator whose window holds the frames of `buffer`, oldest first.
    pub fn from_frames(buffer: &Vec<[i32; N]>) -> (calc: Self)
        requires
            buffer@.len() > 0,
        ensures
            calc.wf(),
            calc@ == buffer@,
    {
        let len = buffer.len();
        let mut terms: Vec<[i64; N]> = Vec::new();
        let mut sum = [0i128;N];
        let mut i: usize = 0;
        while i < len
            invariant
                0 <= i <= len,
                len == buffer@.len(),
                terms@.len() == i,
                forall|k: int| 0 <= k < i ==> holds_terms(A::squares(), #[trigger] buffer@[k], terms@[k]),
                forall|ch: int|
                    0 <= ch < N ==> #[trigger] sum[ch] == column_sum(
                        A::squares(),
                        buffer@.take(i as int),
                        ch,
                    ),
            decreases len - i,
        {
            let frame_terms = terms_of::<A, N>(&buffer[i]);
            let ghost before = sum;
            let mut ch: usize = 0;
            while ch < N
                invariant
                    0 <= ch <= N,
                    0 <= i < len,
                    len == buffer@.len(),
                    holds_terms(A::squares(), buffer@[i as int], frame_terms),
                    forall|c: int|
                        0 <= c < N ==> #[trigger] before[c] == column_sum(
                            A::squares(),
                            buffer@.take(i as int),
                            c,
                        ),
                    forall|c: int|
                        0 <= c < ch ==> #[trigger] sum[c] == column_sum(
                            A::squares(),
                            buffer@.take(i + 1),
                            c,
                        ),
                    forall|c: int| ch <= c < N ==> #[trigger] sum[c] == before[c],
                decreases N - ch,
            {
                proof {
                    lemma_column_sum_bounds(A::squares(), buffer@.take(i as int), ch as int);
                    lemma_term_bounds(A::squares(), buffer@[i as int][ch as int]);
                    lemma_column_sum_push(
                        A::squares(),
                        buffer@.take(i as int),
                        buffer@[i as int],
                        ch as int,
                    );
                    assert(buffer@.take(i as int).push(buffer@[i as int]) =~= buffer@.take(i + 1));
                    assert(before[ch as int] == column_sum(
                        A::squares(),
                        buffer@.take(i as int),
                        ch as int,
                    ));
                    assert(frame_terms[ch as int] == term(
                        A::squares(),
                        buffer@[i as int][ch as int],
                    ));
                }
                sum[ch] = sum[ch] + frame_terms[ch] as i128;
                ch += 1;
            }
            terms.push(frame_terms);
            i += 1;
        }
        assert(buffer@.take(len as int) =~= buffer@);
        Self {
            window: Fixed::from(terms),
            sum,
            frames: Ghost(buffer@),
            aggregate: core::marker::PhantomData,
        }
    }

    /// A calculator whose window has as many frames as `buffer` has slots,
    /// each of them the frame of zeros.
    pub fn from_empty(buffer: Vec<[i32; N]>) -> (made: Result<Self, EmptyWindow>)
        ensures
            buffer@.len() == 0 <==> made is Err,
            made matches Ok(calc) ==> calc.wf() && calc@ == Seq::new(
                buffer@.len(),
                |i: int| [0i32;N],
            ),
    {
        if buffer.len() == 0 {
            return Err(EmptyWindow);
        }
        let mut new = Self::from_frames(&buffer);
        new.reset();
        Ok(new)
    }

    /// The number of frames in the window.
    pub fn len(&self) -> (len: usize)
        requires
            self.wf(),
        ensures
            len == self@.len(),
    {
        self.window.capacity()
    }

    /// Fills the window with the frame of zeros.
    pub fn reset(&mut self)
        requires
            old(self).wf(),
        ensures
            final(self).wf(),
            final(self)@ == Seq::new(old(self)@.len(), |i: int| [0i32;N]),
    {
        self.fill([0i32;N])
    }

    /// Fills the window with the frame `fill_val`.
    pub fn fill(&mut self, fill_val: [i32; N])
        requires
            old(self).wf(),
        ensures
            final(self).wf(),
            final(self)@ == Seq::new(old(self)@.len(), |i: int| fill_val),
    {
        let terms = terms_of::<A, N>(&fill_val);
        let len = self.window.capacity();
        self.window.fill(terms);
        let mut ch: usize = 0;
        while ch < N
            invariant
                0 <= ch <= N,
                len > 0,
                self.window@ == Seq::new(len as nat, |i: int| terms),
                holds_terms(A::squares(), fill_val, terms),
                forall|c: int|
                    0 <= c < ch ==> #[trigger] self.sum[c] == len * term(A::squares(), fill_val[c]),
            decreases N - ch,
        {
            proof {
                lemma_term_bounds(A::squares(), fill_val[ch as int]);
                assert(terms[ch as int] == term(A::squares(), fill_val[ch as int]));
                let t = term(A::squares(), fill_val[ch as int]);
                assert(-0x8000_0000 * 0xffff_ffff_ffff_ffff <= len * t <= 0xffff_ffff_ffff_ffff
                    * 0x4000_0000_0000_0000) by (nonlinear_arith)
                    requires
                        0 <= len <= 0xffff_ffff_ffff_ffff,
                        -0x8000_0000 <= t <= 0x4000_0000_0000_0000,
                ;
            }
            self.sum[ch] = (len as i128) * (terms[ch] as i128);
            ch += 1;
        }
        self.frames = Ghost(Seq::new(len as nat, |i: int| fill_val));
        proof {
            assert forall|c: int| 0 <= c < N implies #[trigger] self.sum[c] == column_sum(
                A::squares(),
                self.frames@,
                c,
            ) by {
                lemma_column_sum_constant(A::squares(), len as nat, fill_val, c);
            }
        }
    }

    /// Fills the window, oldest frame first, with the frames that successive
    /// calls of `fill_func` return.
    pub fn fill_with<M>(&mut self, fill_func: M)
        where M: FnMut() -> [i32; N]
        requires
            old(self).wf(),
            call_requires(fill_func, ()),
        ensures
            final(self).wf(),
            final(self)@.len() == old(self)@.len(),
            forall|i: int|
                0 <= i < final(self)@.len() ==> call_ensures(
                    fill_func,
                    (),
                    #[trigger] final(self)@[i],
                ),
    {
        let mut fill_func = fill_func;
        let ghost generator = fill_func;
        let len = self.window.capacity();
        self.window.fill([0i64;N]);
        self.sum = [0i128;N];
        self.frames = Ghost(Seq::empty());
        let mut i: usize = 0;
        while i < len
            invariant
                0 <= i <= len,
                fill_func == generator,
                call_requires(fill_func, ()),
                self.window@.len() == len,
                self.frames@.len() == i,
                forall|k: int|
                    0 <= k < i ==> holds_terms(
                        A::squares(),
                        #[trigger] self.frames@[k],
                        self.window@[k],
                    ),
                forall|k: int| 0 <= k < i ==> call_ensures(generator, (), #[trigger] self.frames@[k]),
                forall|ch: int|
                    0 <= ch < N ==> #[trigger] self.sum[ch] == column_sum(
                        A::squares(),
                        self.frames@,
                        ch,
                    ),
            decreases len - i,
        {
            let frame = fill_func();
            let terms = terms_of::<A, N>(&frame);
            proof {
                vstd::arithmetic::div_mod::lemma_small_mod(i as nat, len as nat);
            }
            *self.window.get_wrapped_mut(i) = terms;
            let ghost before = self.sum;
            let ghost collected = self.frames@;
            let ghost stored = self.window@;
            let mut ch: usize = 0;
            while ch < N
                invariant
                    0 <= ch <= N,
                    collected.len() < usize::MAX,
                    self.window@ == stored,
                    self.frames@ == collected,
                    holds_terms(A::squares(), frame, terms),
                    forall|c: int|
                        0 <= c < N ==> #[trigger] before[c] == column_sum(
                            A::squares(),
                            collected,
                            c,
                        ),
                    forall|c: int|
                        0 <= c < ch ==> #[trigger] self.sum[c] == column_sum(
                            A::squares(),
                            collected.push(frame),
                            c,
                        ),
                    forall|c: int| ch <= c < N ==> #[trigger] self.sum[c] == before[c],
                decreases N - ch,
            {
                proof {
                    lemma_column_sum_bounds(A::squares(), collected, ch as int);
                    lemma_term_bounds(A::squares(), frame[ch as int]);
                    lemma_column_sum_push(A::squares(), collected, frame, ch as int);
                    assert(before[ch as int] == column_sum(A::squares(), collected, ch as int));
                    assert(terms[ch as int] == term(A::squares(), frame[ch as int]));
                    assert(-0x8000_0000 * collected.len() >= -0x8000_0000 * 0xffff_ffff_ffff_ffff)
                        by (nonlinear_arith)
                        requires
                            collected.len() <= 0xffff_ffff_ffff_ffff,
                    ;
                    assert(0x4000_0000_0000_0000 * collected.len() <= 0x4000_0000_0000_0000
                        * 0xffff_ffff_ffff_ffff) by (nonlinear_arith)
                        requires
                            collected.len() <= 0xffff_ffff_ffff_ffff,
                    ;
                }
                self.sum[ch] = self.sum[ch] + terms[ch] as i128;
                ch += 1;
            }
            self.frames = Ghost(collected.push(frame));
            i += 1;
        }
    }

    /// Pushes `input` into the window as its newest frame; the oldest frame
    /// leaves.
    pub fn advance(&mut self, input: [i32; N])
        requires
            old(self).wf(),
        ensures
            final(self).wf(),
            final(self)@ == slide(old(self)@, input),
    {
        let sqrt = A::do_sqrt();
        let terms = terms_of::<A, N>(&input);
        let len = self.window.capacity();
        let popped = self.window.push(terms);
        let ghost before = self.sum;
        let ghost frames = self.frames@;
        let ghost slid = slide(frames, input);
        let ghost stored = self.window@;
        assert(holds_terms(A::squares(), frames[0], popped));
        let mut ch: usize = 0;
        while ch < N
            invariant
                0 <= ch <= N,
                sqrt == A::roots(),
                self.window@ == stored,
                0 < frames.len() <= usize::MAX,
                slid == slide(frames, input),
                holds_terms(A::squares(), input, terms),
                holds_terms(A::squares(), frames[0], popped),
                forall|c: int|
                    0 <= c < N ==> #[trigger] before[c] == column_sum(A::squares(), frames, c),
                forall|c: int|
                    0 <= c < ch ==> #[trigger] self.sum[c] == column_sum(A::squares(), slid, c),
                forall|c: int| ch <= c < N ==> #[trigger] self.sum[c] == before[c],
            decreases N - ch,
        {
            proof {
                A::lemma_roots_of_squares();
                lemma_column_sum_bounds(A::squares(), frames, ch as int);
                lemma_column_sum_bounds(A::squares(), slid, ch as int);
                lemma_term_bounds(A::squares(), input[ch as int]);
                lemma_term_bounds(A::squares(), frames[0][ch as int]);
                lemma_column_sum_drop_first(A::squares(), frames, ch as int);
                lemma_column_sum_push(A::squares(), frames.drop_first(), input, ch as int);
                assert(before[ch as int] == column_sum(A::squares(), frames, ch as int));
                assert(terms[ch as int] == term(A::squares(), input[ch as int]));
                assert(popped[ch as int] == term(A::squares(), frames[0][ch as int]));
                assert(-0x8000_0000 * frames.len() >= -0x8000_0000 * 0xffff_ffff_ffff_ffff)
                    by (nonlinear_arith)
                    requires
                        frames.len() <= 0xffff_ffff_ffff_ffff,
                ;
                assert(0x4000_0000_0000_0000 * frames.len() <= 0x4000_0000_0000_0000
                    * 0xffff_ffff_ffff_ffff) by (nonlinear_arith)
                    requires
                        frames.len() <= 0xffff_ffff_ffff_ffff,
                ;
            }
            let mut channel_sum = self.sum[ch] + terms[ch] as i128 - popped[ch] as i128;
            if sqrt && channel_sum < 0 {
                channel_sum = 0;
            }
            self.sum[ch] = channel_sum;
            ch += 1;
        }
        self.frames = Ghost(slid);
    }

    /// The aggregate of each channel over the window.
    pub fn current(&self) -> (output: [i64; N])
        requires
            self.wf(),
        ensures
            self.is_current(output),
    {
        let sqrt = A::do_sqrt();
        let len = self.window.capacity();
        let mut output = [0i64;N];
        let mut ch: usize = 0;
        while ch < N
            invariant
                0 <= ch <= N,
                self.wf(),
                sqrt == A::roots(),
                len == self@.len(),
                forall|c: int|
                    0 <= c < ch ==> is_mean(
                        A::roots(),
                        column_sum(A::squares(), self@, c),
                        len as int,
                        #[trigger] output[c] as int,
                    ),
            decreases N - ch,
        {
            let sum = self.sum[ch];
            proof {
                A::lemma_roots_of_squares();
                lemma_column_sum_bounds(A::squares(), self@, ch as int);
                assert(sum == column_sum(A::squares(), self@, ch as int));
                let bound: int = 0x4000_0000_0000_0000;
                let total = sum as int;
                let count = len as int;
                if total >= 0 {
                    assert(0 <= total / count <= bound) by (nonlinear_arith)
                        requires
                            0 <= total <= bound * count,
                            count > 0,
                    ;
                } else {
                    assert(0 <= (-total) / count <= bound) by (nonlinear_arith)
                        requires
                            0 <= -total <= bound * count,
                            count > 0,
                    ;
                }
            }
            let mean = sum / (len as i128);
            output[ch] = if sqrt {
                root_floor(mean as u64) as i64
            } else {
                mean as i64
            };
            ch += 1;
        }
        output
    }

    /// Pushes `input` into the window and reads the aggregates of the window
    /// that results.
    pub fn process(&mut self, input: [i32; N]) -> (output: [i64; N])
        requires
            old(self).wf(),
        ensures
            final(self).wf(),
            final(self)@ == slide(old(self)@, input),
            final(self).is_current(output),
    {
        self.advance(input);
        self.current()
    }

    /// Gives up the calculator for a buffer with as many slots as the
    /// window has frames, each of which holds the frame of zeros.
    pub fn into_buffer(self) -> (buffer: Vec<[i32; N]>)
        requires
            self.wf(),
        ensures
            buffer@ == Seq::new(self@.len(), |i: int| [0i32;N]),
    {
        let len = self.window.capacity();
        let mut buffer: Vec<[i32; N]> = Vec::new();
        let mut i: usize = 0;
        while i < len
            invariant
                0 <= i <= len,
                buffer@ == Seq::new(i as nat, |k: int| [0i32;N]),
            decreases len - i,
        {
            buffer.push([0i32;N]);
            i += 1;
            assert(buffer@ =~= Seq::new(i as nat, |k: int| [0i32;N]));
        }
        buffer
    }
}

impl<A: Aggregate, const N: usize> Clone for MovingSummage<A, N> {
    /// A calculator with a window of its own that holds the same frames.
    fn clone(&self) -> (copy: Self)
        ensures
            copy@ == self@,
            self.wf() ==> copy.wf(),
    {
        Self {
            window: self.window.clone(),
            sum: self.sum,
            frames: self.frames,
            aggregate: core::marker::PhantomData,
        }
    }
}

impl<A: Aggregate, const N: usize> MovingCalculator for MovingSummage<A, N> {
    type Frame = [i32; N];

    type Output = [i64; N];

    open spec fn wf(&self) -> bool {
        MovingSummage::wf(self)
    }

    open spec fn window(&self) -> Seq<[i32; N]> {
        self@
    }

    open spec fn aggregates(window: Seq<[i32; N]>, output: [i64; N]) -> bool {
        holds_means::<A, N>(window, output)
    }

    proof fn lemma_window_is_not_empty(&self) {
        self.lemma_wf_window();
    }

    proof fn lemma_aggregate_is_unique(window: Seq<[i32; N]>, a: [i64; N], b: [i64; N]) {
        lemma_means_are_unique::<A, N>(window, a, b);
    }

    fn from_full(buffer: Vec<[i32; N]>) -> (calc: Self) {
        MovingSummage::from_frames(&buffer)
    }

    fn into_buffer(self) -> (buffer: Vec<[i32; N]>) {
        MovingSummage::into_buffer(self)
    }

    fn fill(&mut self, fill_val: [i32; N]) {
        MovingSummage::fill(self, fill_val)
    }

    fn fill_with<M>(&mut self, fill_func: M) where M: FnMut() -> [i32; N] {
        MovingSummage::fill_with(self, fill_func)
    }

    fn advance(&mut self, input: [i32; N]) {
        MovingSummage::advance(self, input)
    }

    fn current(&self) -> (output: [i64; N]) {
        MovingSummage::current(self)
    }
}

impl<A: Aggregate, const N: usize> StatefulProcessor for MovingSummage<A, N> {
    type Input = [i32; N];

    type Output = [i64; N];

    open spec fn can_advance(&self, input: [i32; N]) -> bool {
        MovingSummage::wf(self)
    }

    open spec fn advanced(&self, input: [i32; N], after: Self) -> bool {
        MovingSummage::wf(&after) && after@ == slide(self@, input)
    }

    open spec fn can_read(&self) -> bool {
        MovingSummage::wf(self)
    }

    open spec fn read(&self, output: [i64; N]) -> bool {
        self.is_current(output)
    }

    fn advance(&mut self, input: [i32; N]) {
        MovingSummage::advance(self, input)
    }

    fn current(&self) -> (output: [i64; N]) {
        MovingSummage::current(self)
    }
}

/// A well-formed calculator can take in any frame at any time, so it can
/// process the frames of a signal.
pub proof fn lemma_moving_summage_always_processes<A: Aggregate, const N: usize>(
    calc: MovingSummage<A, N>,
)
    requires
        calc.wf(),
    ensures
        always_processes(calc),
{
    let inv = |p: MovingSummage<A, N>| p.wf();
    assert(inv(calc));
    assert(keeps_processing(inv));
}

} // verus!
