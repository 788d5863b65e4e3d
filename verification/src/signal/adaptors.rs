use vstd::prelude::*;

use crate::components::{Combinator, Processor};
use crate::frame::{all_equilibrium, Frame};
use crate::signal::{nth, runs_out, skips, Signal};

verus! {

/// A signal that yields the frame of silence a number of times before it
/// yields the frames of another signal.
pub struct Delay<S: Signal> {
    signal: S,
    n_frames: usize,
}

impl<S: Signal> Delay<S> {
    /// The signal that is delayed.
    pub closed spec fn signal(&self) -> S {
        self.signal
    }

    /// The number of frames of silence that are still to come.
    pub closed spec fn n_frames(&self) -> usize {
        self.n_frames
    }

    /// The signal `signal` delayed by `n_frames` frames of silence.
    pub fn new(signal: S, n_frames: usize) -> (delay: Self)
        ensures
            delay.signal() == signal,
            delay.n_frames() == n_frames,
    {
        Self { signal, n_frames }
    }
}

impl<S: Signal> Signal for Delay<S> {
    type Frame = S::Frame;

    open spec fn wf(&self) -> bool {
        self.signal().wf()
    }

    open spec fn yields(&self, after: Self, frame: Option<S::Frame>) -> bool {
        if self.n_frames() > 0 {
            &&& frame matches Some(f) && all_equilibrium(f.channels())
            &&& after.n_frames() == self.n_frames() - 1
            &&& after.signal() == self.signal()
        } else {
            after.n_frames() == 0 && self.signal().yields(after.signal(), frame)
        }
    }

    fn next(&mut self) -> (frame: Option<S::Frame>) {
        if self.n_frames > 0 {
            self.n_frames -= 1;
            Some(S::Frame::equil())
        } else {
            self.signal.next()
        }
    }
}

/// A signal that calls a closure on each frame of another signal before it
/// yields the frame.
#[verifier::reject_recursive_types(F)]
pub struct Inspect<S, F> where S: Signal, F: FnMut(&S::Frame) {
    signal: S,
    func: F,
}

impl<S, F> Inspect<S, F> where S: Signal, F: FnMut(&S::Frame) {
    /// The signal that is inspected.
    pub closed spec fn signal(&self) -> S {
        self.signal
    }

    /// The closure that sees the frames.
    pub closed spec fn func(&self) -> F {
        self.func
    }

    /// The signal `signal` with each frame shown to `func`.
    pub fn new(signal: S, func: F) -> (inspect: Self)
        ensures
            inspect.signal() == signal,
            inspect.func() == func,
    {
        Self { signal, func }
    }
}

impl<S, F> Signal for Inspect<S, F> where S: Signal, F: FnMut(&S::Frame) {
    type Frame = S::Frame;

    /// The closure can be called on any frame.
    open spec fn wf(&self) -> bool {
        &&& self.signal().wf()
        &&& forall|frame: S::Frame| #[trigger] call_requires(self.func(), (&frame,))
    }

    open spec fn yields(&self, after: Self, frame: Option<S::Frame>) -> bool {
        &&& self.signal().yields(after.signal(), frame)
        &&& after.func() == self.func()
        &&& frame matches Some(f) ==> call_ensures(self.func(), (&f,), ())
    }

    fn next(&mut self) -> (frame: Option<S::Frame>) {
        match self.signal.next() {
            Some(f) => {
                assert(call_requires(old(self).func(), (&f,)));
                (self.func)(&f);
                assert forall|frame: S::Frame| #[trigger]
                    call_requires(self.func(), (&frame,)) by {
                    assert(call_requires(old(self).func(), (&frame,)));
                }
                Some(f)
            },
            None => {
                assert forall|frame: S::Frame| #[trigger]
                    call_requires(self.func(), (&frame,)) by {
                    assert(call_requires(old(self).func(), (&frame,)));
                }
                None
            },
        }
    }
}

/// A signal that yields the first frames of another signal, up to a number,
/// and then has run out.
pub struct Take<S: Signal> {
    signal: S,
    n: usize,
}

impl<S: Signal> Take<S> {
    /// The signal that is drawn from.
    pub closed spec fn signal(&self) -> S {
        self.signal
    }

    /// The number of frames that may still be drawn.
    pub closed spec fn n(&self) -> usize {
        self.n
    }

    /// The first `n` frames of `signal`.
    pub fn new(signal: S, n: usize) -> (take: Self)
        ensures
            take.signal() == signal,
            take.n() == n,
    {
        Self { signal, n }
    }
}

impl<S: Signal> Signal for Take<S> {
    type Frame = S::Frame;

    open spec fn wf(&self) -> bool {
        self.signal().wf()
    }

    open spec fn yields(&self, after: Self, frame: Option<S::Frame>) -> bool {
        if self.n() > 0 {
            after.n() == self.n() - 1 && self.signal().yields(after.signal(), frame)
        } else {
            frame is None && after.n() == 0 && after.signal() == self.signal()
        }
    }

    fn next(&mut self) -> (frame: Option<S::Frame>) {
        if self.n > 0 {
            self.n -= 1;
            self.signal.next()
        } else {
            None
        }
    }
}

/// A signal that yields the frames of another signal and, where that runs
/// out early, frames of silence until a number of frames has been yielded.
pub struct Pad<S: Signal> {
    signal: S,
    n: usize,
}

impl<S: Signal> Pad<S> {
    /// The signal that is padded.
    pub closed spec fn signal(&self) -> S {
        self.signal
    }

    /// The number of frames that are still to be yielded at least.
    pub closed spec fn n(&self) -> usize {
        self.n
    }

    /// The signal `signal` padded with silence to at least `n` frames.
    pub fn new(signal: S, n: usize) -> (pad: Self)
        ensures
            pad.signal() == signal,
            pad.n() == n,
    {
        Self { signal, n }
    }
}

impl<S: Signal> Signal for Pad<S> {
    type Frame = S::Frame;

    open spec fn wf(&self) -> bool {
        self.signal().wf()
    }

    open spec fn yields(&self, after: Self, frame: Option<S::Frame>) -> bool {
        &&& after.n() == if self.n() > 0 {
            self.n() - 1
        } else {
            0
        }
        &&& {
            ||| self.signal().yields(after.signal(), frame) && (frame is Some || self.n() == 0)
            ||| {
                &&& self.signal().yields(after.signal(), None)
                &&& self.n() > 0
                &&& frame matches Some(f) && all_equilibrium(f.channels())
            }
        }
    }

    fn next(&mut self) -> (frame: Option<S::Frame>) {
        let ret = match self.signal.next() {
            None => if self.n > 0 {
                Some(S::Frame::equil())
            } else {
                None
            },
            x => x,
        };
        self.n = if self.n > 0 {
            self.n - 1
        } else {
            0
        };
        ret
    }
}

/// A signal that yields the first frame of another signal and, after that,
/// each frame that lies a fixed number of frames further on.
pub struct StepBy<S: Signal> {
    signal: S,
    n: usize,
    started: bool,
}

impl<S: Signal> StepBy<S> {
    /// The signal that is drawn from.
    pub closed spec fn signal(&self) -> S {
        self.signal
    }

    /// The number of frames that are skipped between two that are yielded.
    pub closed spec fn n(&self) -> usize {
        self.n
    }

    /// Whether the first frame has been drawn.
    pub closed spec fn started(&self) -> bool {
        self.started
    }

    /// Every `step`-th frame of `signal`, from the first one on.
    pub fn new(signal: S, step: usize) -> (step_by: Self)
        requires
            step > 0,
        ensures
            step_by.signal() == signal,
            step_by.n() == step - 1,
            !step_by.started(),
    {
        let n = step - 1;
        Self { signal, n, started: false }
    }
}

impl<S: Signal> Signal for StepBy<S> {
    type Frame = S::Frame;

    open spec fn wf(&self) -> bool {
        self.signal().wf()
    }

    open spec fn yields(&self, after: Self, frame: Option<S::Frame>) -> bool {
        &&& after.n() == self.n()
        &&& after.started()
        &&& if !self.started() {
            self.signal().yields(after.signal(), frame)
        } else {
            match frame {
                Some(f) => exists|mid: S| #[trigger]
                    skips(self.signal(), mid, self.n() as nat) && mid.yields(
                        after.signal(),
                        Some(f),
                    ),
                None => exists|drawn: nat|
                    drawn <= self.n() && #[trigger] runs_out(
                        self.signal(),
                        after.signal(),
                        drawn,
                    ),
            }
        }
    }

    fn next(&mut self) -> (frame: Option<S::Frame>) {
        if !self.started {
            self.started = true;
            self.signal.next()
        } else {
            let frame = nth(&mut self.signal, self.n);
            proof {
                if frame is Some {
                    let f = frame->Some_0;
                    {
                        let mid = choose|mid: S| #[trigger]
                            skips(old(self).signal, mid, self.n as nat) && mid.yields(
                                self.signal,
                                Some(f),
                            );
                        assert(skips(old(self).signal(), mid, self.n() as nat) && mid.yields(
                            self.signal(),
                            Some(f),
                        ));
                    }
                } else {
                    {
                        let drawn = choose|drawn: nat|
                            drawn <= self.n && #[trigger] runs_out(
                                old(self).signal,
                                self.signal,
                                drawn,
                            );
                        assert(drawn <= self.n() && runs_out(
                            old(self).signal(),
                            self.signal(),
                            drawn,
                        ));
                    }
                }
            }
            frame
        }
    }
}

/// Whether a processor that starts out as `processor` can take in any input
/// at any time: some property holds of it, lets a processor take in any
/// input, and holds again of the processor afterwards.
pub open spec fn always_processes<P: Processor>(processor: P) -> bool {
    exists|inv: spec_fn(P) -> bool| #[trigger] inv(processor) && keeps_processing(inv)
}

/// Whether `inv` lets a processor take in any input and holds again of the
/// processor afterwards.
pub open spec fn keeps_processing<P: Processor>(inv: spec_fn(P) -> bool) -> bool {
    &&& forall|p: P, input: P::Input| inv(p) ==> #[trigger] p.can_process(input)
    &&& forall|p: P, input: P::Input, after: P, output: P::Output|
        inv(p) && #[trigger] p.processed(input, after, output) ==> inv(after)
}

/// A signal that feeds the frames of another signal to a processor and
/// yields its outputs.
pub struct Process<S, P> where S: Signal, P: Processor<Input = S::Frame>, P::Output: Frame {
    signal: S,
    processor: P,
}

impl<S, P> Process<S, P> where S: Signal, P: Processor<Input = S::Frame>, P::Output: Frame {
    /// The signal that feeds the processor.
    pub closed spec fn signal(&self) -> S {
        self.signal
    }

    /// The processor.
    pub closed spec fn processor(&self) -> P {
        self.processor
    }

    /// The outputs of `processor` for the frames of `signal`.
    pub fn new(signal: S, processor: P) -> (process: Self)
        ensures
            process.signal() == signal,
            process.processor() == processor,
    {
        Self { signal, processor }
    }

    /// The processor.
    pub fn state(&self) -> (processor: &P)
        ensures
            *processor == self.processor(),
    {
        &self.processor
    }

    /// The processor, to be changed in place.
    pub fn state_mut(&mut self) -> (processor: &mut P)
        ensures
            *processor == old(self).processor(),
            final(self).processor() == *final(processor),
            final(self).signal() == old(self).signal(),
    {
        &mut self.processor
    }
}

impl<S, P> Signal for Process<S, P> where S: Signal, P: Processor<Input = S::Frame>, P::Output: Frame {
    type Frame = P::Output;

    open spec fn wf(&self) -> bool {
        self.signal().wf() && always_processes(self.processor())
    }

    open spec fn yields(&self, after: Self, frame: Option<P::Output>) -> bool {
        match frame {
            Some(output) => exists|input: S::Frame|
                {
                    &&& #[trigger] self.signal().yields(after.signal(), Some(input))
                    &&& self.processor().processed(input, after.processor(), output)
                },
            None => self.signal().yields(after.signal(), None) && after.processor()
                == self.processor(),
        }
    }

    fn next(&mut self) -> (frame: Option<P::Output>) {
        let ghost inv = choose|inv: spec_fn(P) -> bool| #[trigger]
            inv(self.processor) && keeps_processing(inv);
        match self.signal.next() {
            Some(input) => {
                assert(self.processor.can_process(input));
                let output = self.processor.process(input);
                assert(old(self).processor.processed(input, self.processor, output));
                assert(inv(self.processor));
                Some(output)
            },
            None => None,
        }
    }
}

/// Whether a combinator that starts out as `combinator` can take in any
/// pair of inputs at any time.
pub open spec fn always_combines<C: Combinator>(combinator: C) -> bool {
    exists|inv: spec_fn(C) -> bool| #[trigger] inv(combinator) && keeps_combining(inv)
}

/// Whether `inv` lets a combinator take in any pair of inputs and holds
/// again of the combinator afterwards.
pub open spec fn keeps_combining<C: Combinator>(inv: spec_fn(C) -> bool) -> bool {
    &&& forall|c: C, input_l: C::InputL, input_r: C::InputR|
        inv(c) ==> #[trigger] c.can_combine(input_l, input_r)
    &&& forall|c: C, input_l: C::InputL, input_r: C::InputR, after: C, output: C::Output|
        inv(c) && #[trigger] c.combined(input_l, input_r, after, output) ==> inv(after)
}

/// A signal that draws a frame from each of two signals, feeds the pair to
/// a combinator and yields its output. It has run out when one of the two
/// signals has.
pub struct Combine<SL, SR, C> where
    SL: Signal,
    SR: Signal,
    C: Combinator<InputL = SL::Frame, InputR = SR::Frame>,
    C::Output: Frame,
 {
    signal_l: SL,
    signal_r: SR,
    combinator: C,
}

impl<SL, SR, C> Combine<SL, SR, C> where
    SL: Signal,
    SR: Signal,
    C: Combinator<InputL = SL::Frame, InputR = SR::Frame>,
    C::Output: Frame,
 {
    /// The signal of the left inputs.
    pub closed spec fn signal_l(&self) -> SL {
        self.signal_l
    }

    /// The signal of the right inputs.
    pub closed spec fn signal_r(&self) -> SR {
        self.signal_r
    }

    /// The combinator.
    pub closed spec fn combinator(&self) -> C {
        self.combinator
    }

    /// The outputs of `combinator` for the pairs of frames of `signal_l` and
    /// `signal_r`.
    pub fn new(signal_l: SL, signal_r: SR, combinator: C) -> (combine: Self)
        ensures
            combine.signal_l() == signal_l,
            combine.signal_r() == signal_r,
            combine.combinator() == combinator,
    {
        Self { signal_l, signal_r, combinator }
    }

    /// The combinator.
    pub fn state(&self) -> (combinator: &C)
        ensures
            *combinator == self.combinator(),
    {
        &self.combinator
    }

    /// The combinator, to be changed in place.
    pub fn state_mut(&mut self) -> (combinator: &mut C)
        ensures
            *combinator == old(self).combinator(),
            final(self).combinator() == *final(combinator),
            final(self).signal_l() == old(self).signal_l(),
            final(self).signal_r() == old(self).signal_r(),
    {
        &mut self.combinator
    }
}

impl<SL, SR, C> Signal for Combine<SL, SR, C> where
    SL: Signal,
    SR: Signal,
    C: Combinator<InputL = SL::Frame, InputR = SR::Frame>,
    C::Output: Frame,
 {
    type Frame = C::Output;

    open spec fn wf(&self) -> bool {
        self.signal_l().wf() && self.signal_r().wf() && always_combines(self.combinator())
    }

    /// The left signal is drawn from first; where it has run out, the right
    /// signal is left as it is.
    open spec fn yields(&self, after: Self, frame: Option<C::Output>) -> bool {
        match frame {
            Some(output) => exists|input_l: SL::Frame, input_r: SR::Frame|
                {
                    &&& #[trigger] self.signal_l().yields(after.signal_l(), Some(input_l))
                    &&& #[trigger] self.signal_r().yields(after.signal_r(), Some(input_r))
                    &&& self.combinator().combined(input_l, input_r, after.combinator(), output)
                },
            None => {
                &&& after.combinator() == self.combinator()
                &&& {
                    ||| self.signal_l().yields(after.signal_l(), None) && after.signal_r()
                        == self.signal_r()
                    ||| exists|input_l: SL::Frame|
                        {
                            &&& #[trigger] self.signal_l().yields(
                                after.signal_l(),
                                Some(input_l),
                            )
                            &&& self.signal_r().yields(after.signal_r(), None)
                        }
                }
            },
        }
    }

    fn next(&mut self) -> (frame: Option<C::Output>) {
        let ghost inv = choose|inv: spec_fn(C) -> bool| #[trigger]
            inv(self.combinator) && keeps_combining(inv);
        let input_l = match self.signal_l.next() {
            Some(input_l) => input_l,
            None => {
                return None;
            },
        };
        let input_r = match self.signal_r.next() {
            Some(input_r) => input_r,
            None => {
                assert(old(self).signal_l.yields(self.signal_l, Some(input_l)));
                return None;
            },
        };
        assert(self.combinator.can_combine(input_l, input_r));
        let output = self.combinator.combine(input_l, input_r);
        assert(old(self).combinator.combined(input_l, input_r, self.combinator, output));
        assert(inv(self.combinator));
        assert(old(self).signal_l.yields(self.signal_l, Some(input_l)) && old(
            self,
        ).signal_r.yields(self.signal_r, Some(input_r)));
        Some(output)
    }
}

/// Whether a processor that starts out as `processor` can take in any input
/// at any time and cannot withhold its output forever: some budget is set
/// for it, a processor with a budget can take in any input and has a budget
/// afterwards, and an input without an output lowers the budget.
pub open spec fn always_yields<F, P: Processor<Output = Option<F>>>(processor: P) -> bool {
    exists|budget: spec_fn(P) -> Option<nat>| #[trigger]
        budget(processor) is Some && keeps_yielding(budget)
}

/// Whether a processor with a budget can take in any input and has a budget
/// afterwards, which is lower where it gave no output.
pub open spec fn keeps_yielding<F, P: Processor<Output = Option<F>>>(
    budget: spec_fn(P) -> Option<nat>,
) -> bool {
    &&& forall|p: P, input: P::Input| budget(p) is Some ==> #[trigger] p.can_process(input)
    &&& forall|p: P, input: P::Input, after: P, output: Option<F>|
        budget(p) is Some && #[trigger] p.processed(input, after, output) ==> {
            &&& budget(after) is Some
            &&& output is None ==> budget(after)->Some_0 < budget(p)->Some_0
        }
}

/// Whether feeding `count` frames of the signal `signal` to the processor
/// `processor`, with no output for any of them, may leave the two as
/// `signal_after` and `processor_after`.
pub open spec fn withholds<F, S: Signal, P: Processor<Input = S::Frame, Output = Option<F>>>(
    signal: S,
    processor: P,
    signal_after: S,
    processor_after: P,
    count: nat,
) -> bool
    decreases count,
{
    if count == 0 {
        signal_after == signal && processor_after == processor
    } else {
        exists|signal_mid: S, processor_mid: P, input: S::Frame|
            {
                &&& withholds(signal, processor, signal_mid, processor_mid, (count - 1) as nat)
                &&& #[trigger] signal_mid.yields(signal_after, Some(input))
                &&& #[trigger] processor_mid.processed(input, processor_after, None)
            }
    }
}

/// A signal that feeds the frames of another signal to a processor that
/// may withhold its output, and yields the outputs that it gives.
#[verifier::reject_recursive_types(F)]
pub struct ProcessLazy<S, P, F> where
    S: Signal,
    P: Processor<Input = S::Frame, Output = Option<F>>,
    F: Frame,
 {
    signal: S,
    lazy_processor: P,
}

impl<S, P, F> ProcessLazy<S, P, F> where
    S: Signal,
    P: Processor<Input = S::Frame, Output = Option<F>>,
    F: Frame,
 {
    /// The signal that feeds the processor.
    pub closed spec fn signal(&self) -> S {
        self.signal
    }

    /// The processor.
    pub closed spec fn processor(&self) -> P {
        self.lazy_processor
    }

    /// The outputs that `lazy_processor` gives for the frames of `signal`.
    pub fn new(signal: S, lazy_processor: P) -> (process: Self)
        ensures
            process.signal() == signal,
            process.processor() == lazy_processor,
    {
        Self { signal, lazy_processor }
    }

    /// The processor.
    pub fn state(&self) -> (processor: &P)
        ensures
            *processor == self.processor(),
    {
        &self.lazy_processor
    }

    /// The processor, to be changed in place.
    pub fn state_mut(&mut self) -> (processor: &mut P)
        ensures
            *processor == old(self).processor(),
            final(self).processor() == *final(processor),
            final(self).signal() == old(self).signal(),
    {
        &mut self.lazy_processor
    }
}

impl<S, P, F> Signal for ProcessLazy<S, P, F> where
    S: Signal,
    P: Processor<Input = S::Frame, Output = Option<F>>,
    F: Frame,
 {
    type Frame = F;

    open spec fn wf(&self) -> bool {
        self.signal().wf() && always_yields(self.processor())
    }

    /// Frames are fed to the processor until it gives an output or the
    /// signal has run out.
    open spec fn yields(&self, after: Self, frame: Option<F>) -> bool {
        exists|signal_mid: S, processor_mid: P, count: nat|
            {
                &&& #[trigger] withholds(
                    self.signal(),
                    self.processor(),
                    signal_mid,
                    processor_mid,
                    count,
                )
                &&& match frame {
                    Some(output) => exists|input: S::Frame|
                        {
                            &&& #[trigger] signal_mid.yields(after.signal(), Some(input))
                            &&& processor_mid.processed(input, after.processor(), Some(output))
                        },
                    None => signal_mid.yields(after.signal(), None) && after.processor()
                        == processor_mid,
                }
            }
    }

    fn next(&mut self) -> (frame: Option<F>) {
        let ghost budget = choose|budget: spec_fn(P) -> Option<nat>| #[trigger]
            budget(self.lazy_processor) is Some && keeps_yielding(budget);
        let ghost mut count: nat = 0;
        loop
            invariant
                self.signal.wf(),
                budget(self.lazy_processor) is Some,
                keeps_yielding(budget),
                withholds(
                    old(self).signal,
                    old(self).lazy_processor,
                    self.signal,
                    self.lazy_processor,
                    count,
                ),
            decreases budget(self.lazy_processor)->Some_0,
        {
            let ghost signal_mid = self.signal;
            let ghost processor_mid = self.lazy_processor;
            let input = match self.signal.next() {
                Some(input) => input,
                None => {
                    assert(withholds(
                        old(self).signal(),
                        old(self).processor(),
                        signal_mid,
                        processor_mid,
                        count,
                    ) && signal_mid.yields(self.signal(), None) && self.processor()
                        == processor_mid);
                    return None;
                },
            };
            assert(self.lazy_processor.can_process(input));
            let output = self.lazy_processor.process(input);
            assert(processor_mid.processed(input, self.lazy_processor, output));
            assert(signal_mid.yields(self.signal, Some(input)));
            if output.is_some() {
                assert(signal_mid.yields(self.signal(), Some(input)) && processor_mid.processed(
                    input,
                    self.processor(),
                    Some(output->Some_0),
                ));
                assert(withholds(
                    old(self).signal(),
                    old(self).processor(),
                    signal_mid,
                    processor_mid,
                    count,
                ));
                return output;
            }
            proof {
                count = count + 1;
                assert(withholds(
                    old(self).signal,
                    old(self).lazy_processor,
                    signal_mid,
                    processor_mid,
                    (count - 1) as nat,
                ));
            }
        }
    }
}

/// Whether a combinator that starts out as `combinator` can take in any
/// pair of inputs at any time and cannot withhold its output forever.
pub open spec fn always_yields_combined<F, C: Combinator<Output = Option<F>>>(
    combinator: C,
) -> bool {
    exists|budget: spec_fn(C) -> Option<nat>| #[trigger]
        budget(combinator) is Some && keeps_yielding_combined(budget)
}

/// Whether a combinator with a budget can take in any pair of inputs and
/// has a budget afterwards, which is lower where it gave no output.
pub open spec fn keeps_yielding_combined<F, C: Combinator<Output = Option<F>>>(
    budget: spec_fn(C) -> Option<nat>,
) -> bool {
    &&& forall|c: C, input_l: C::InputL, input_r: C::InputR|
        budget(c) is Some ==> #[trigger] c.can_combine(input_l, input_r)
    &&& forall|c: C, input_l: C::InputL, input_r: C::InputR, after: C, output: Option<F>|
        budget(c) is Some && #[trigger] c.combined(input_l, input_r, after, output) ==> {
            &&& budget(after) is Some
            &&& output is None ==> budget(after)->Some_0 < budget(c)->Some_0
        }
}

/// The state of two signals and the combinator that their frames are fed
/// to.
pub struct Combining<SL, SR, C> {
    pub signal_l: SL,
    pub signal_r: SR,
    pub combinator: C,
}

/// Whether feeding `count` pairs of frames of two signals to a combinator,
/// with no output for any of them, may turn the state `before` into the
/// state `after`.
pub open spec fn withholds_combined<
    F,
    SL: Signal,
    SR: Signal,
    C: Combinator<InputL = SL::Frame, InputR = SR::Frame, Output = Option<F>>,
>(before: Combining<SL, SR, C>, after: Combining<SL, SR, C>, count: nat) -> bool
    decreases count,
{
    if count == 0 {
        after == before
    } else {
        exists|mid: Combining<SL, SR, C>, input_l: SL::Frame, input_r: SR::Frame|
            {
                &&& withholds_combined(before, mid, (count - 1) as nat)
                &&& #[trigger] mid.signal_l.yields(after.signal_l, Some(input_l))
                &&& #[trigger] mid.signal_r.yields(after.signal_r, Some(input_r))
                &&& #[trigger] mid.combinator.combined(input_l, input_r, after.combinator, None)
            }
    }
}

/// A signal that draws a frame from each of two signals, feeds the pair to
/// a combinator that may withhold its output, and yields the outputs that
/// it gives. It has run out when one of the two signals has.
#[verifier::reject_recursive_types(F)]
pub struct CombineLazy<SL, SR, C, F> where
    SL: Signal,
    SR: Signal,
    C: Combinator<InputL = SL::Frame, InputR = SR::Frame, Output = Option<F>>,
    F: Frame,
 {
    signal_l: SL,
    signal_r: SR,
    lazy_combinator: C,
}

impl<SL, SR, C, F> CombineLazy<SL, SR, C, F> where
    SL: Signal,
    SR: Signal,
    C: Combinator<InputL = SL::Frame, InputR = SR::Frame, Output = Option<F>>,
    F: Frame,
 {
    /// The two signals and the combinator.
    pub closed spec fn parts(&self) -> Combining<SL, SR, C> {
        Combining {
            signal_l: self.signal_l,
            signal_r: self.signal_r,
            combinator: self.lazy_combinator,
        }
    }

    /// The outputs that `lazy_combinator` gives for the pairs of frames of
    /// `signal_l` and `signal_r`.
    pub fn new(signal_l: SL, signal_r: SR, lazy_combinator: C) -> (combine: Self)
        ensures
            combine.parts() == (Combining { signal_l, signal_r, combinator: lazy_combinator }),
    {
        Self { signal_l, signal_r, lazy_combinator }
    }

    /// The combinator.
    pub fn state(&self) -> (combinator: &C)
        ensures
            *combinator == self.parts().combinator,
    {
        &self.lazy_combinator
    }

    /// The combinator, to be changed in place.
    pub fn state_mut(&mut self) -> (combinator: &mut C)
        ensures
            *combinator == old(self).parts().combinator,
            final(self).parts() == (Combining {
                signal_l: old(self).parts().signal_l,
                signal_r: old(self).parts().signal_r,
                combinator: *final(combinator),
            }),
    {
        &mut self.lazy_combinator
    }
}

impl<SL, SR, C, F> Signal for CombineLazy<SL, SR, C, F> where
    SL: Signal,
    SR: Signal,
    C: Combinator<InputL = SL::Frame, InputR = SR::Frame, Output = Option<F>>,
    F: Frame,
 {
    type Frame = F;

    open spec fn wf(&self) -> bool {
        &&& self.parts().signal_l.wf()
        &&& self.parts().signal_r.wf()
        &&& always_yields_combined(self.parts().combinator)
    }

    /// Pairs of frames are fed to the combinator until it gives an output
    /// or one of the signals has run out. The left signal is drawn from
    /// first; where it has run out, the right signal is left as it is.
    open spec fn yields(&self, after: Self, frame: Option<F>) -> bool {
        exists|mid: Combining<SL, SR, C>, count: nat|
            {
                &&& #[trigger] withholds_combined(self.parts(), mid, count)
                &&& match frame {
                    Some(output) => exists|input_l: SL::Frame, input_r: SR::Frame|
                        {
                            &&& #[trigger] mid.signal_l.yields(
                                after.parts().signal_l,
                                Some(input_l),
                            )
                            &&& #[trigger] mid.signal_r.yields(
                                after.parts().signal_r,
                                Some(input_r),
                            )
                            &&& mid.combinator.combined(
                                input_l,
                                input_r,
                                after.parts().combinator,
                                Some(output),
                            )
                        },
                    None => {
                        &&& after.parts().combinator == mid.combinator
                        &&& {
                            ||| mid.signal_l.yields(after.parts().signal_l, None)
                                && after.parts().signal_r == mid.signal_r
                            ||| exists|input_l: SL::Frame|
                                {
                                    &&& #[trigger] mid.signal_l.yields(
                                        after.parts().signal_l,
                                        Some(input_l),
                                    )
                                    &&& mid.signal_r.yields(after.parts().signal_r, None)
                                }
                        }
                    },
                }
            }
    }

    fn next(&mut self) -> (frame: Option<F>) {
        let ghost budget = choose|budget: spec_fn(C) -> Option<nat>| #[trigger]
            budget(self.lazy_combinator) is Some && keeps_yielding_combined(budget);
        let ghost mut count: nat = 0;
        loop
            invariant
                self.signal_l.wf(),
                self.signal_r.wf(),
                budget(self.lazy_combinator) is Some,
                keeps_yielding_combined(budget),
                withholds_combined(old(self).parts(), self.parts(), count),
            decreases budget(self.lazy_combinator)->Some_0,
        {
            let ghost mid = self.parts();
            let input_l = match self.signal_l.next() {
                Some(input_l) => input_l,
                None => {
                    assert(withholds_combined(old(self).parts(), mid, count)
                        && mid.signal_l.yields(self.parts().signal_l, None));
                    return None;
                },
            };
            let input_r = match self.signal_r.next() {
                Some(input_r) => input_r,
                None => {
                    assert(mid.signal_l.yields(self.parts().signal_l, Some(input_l))
                        && mid.signal_r.yields(self.parts().signal_r, None));
                    assert(withholds_combined(old(self).parts(), mid, count));
                    return None;
                },
            };
            assert(self.lazy_combinator.can_combine(input_l, input_r));
            let output = self.lazy_combinator.combine(input_l, input_r);
            assert(mid.combinator.combined(input_l, input_r, self.lazy_combinator, output));
            assert(mid.signal_l.yields(self.parts().signal_l, Some(input_l)));
            assert(mid.signal_r.yields(self.parts().signal_r, Some(input_r)));
            if output.is_some() {
                assert(mid.combinator.combined(
                    input_l,
                    input_r,
                    self.parts().combinator,
                    Some(output->Some_0),
                ));
                assert(withholds_combined(old(self).parts(), mid, count));
                return output;
            }
            proof {
                count = count + 1;
                assert(withholds_combined(old(self).parts(), mid, (count - 1) as nat));
                assert(mid.combinator.combined(input_l, input_r, self.parts().combinator, None));
            }
        }
    }
}

} // verus!
