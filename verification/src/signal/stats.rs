//! Signals of the statistics of other signals.

use vstd::prelude::*;

use crate::sample::Sample;
use crate::signal::adaptors::{Process, ProcessLazy};
use crate::signal::Signal;
use crate::stats::buffered::{lemma_buffered_always_yields, Buffered};
use crate::stats::moving::{
    is_equilibrium_frame, lemma_moving_extrema_always_processes, MovingExtrema,
};
use crate::stats::summage::{
    lemma_moving_summage_always_processes, Aggregate, Mean, MeanSquare, MovingSummage,
    RootMeanSquare,
};
use crate::stats::{EmptyWindow, DO_MAX, DO_MIN};

verus! {

/// The extrema of `signal` over a moving window of as many frames as
/// `window` has slots, which starts out filled with the equilibrium.
pub fn moving_extrema<S, X, const N: usize, const MAX: bool>(
    signal: S,
    window: Vec<[X; N]>,
) -> (made: Result<Process<S, MovingExtrema<X, N, MAX>>, EmptyWindow>) where
    S: Signal<Frame = [X; N]>,
    X: Sample,

    ensures
        window@.len() == 0 <==> made is Err,
        made matches Ok(process) ==> {
            &&& process.signal() == signal
            &&& process.processor().wf()
            &&& process.processor()@.len() == window@.len()
            &&& forall|i: int|
                0 <= i < window@.len() ==> is_equilibrium_frame(#[trigger] process.processor()@[i])
            &&& signal.wf() ==> process.wf()
        },
{
    match MovingExtrema::<X, N, MAX>::from_empty(window) {
        Ok(processor) => {
            proof {
                lemma_moving_extrema_always_processes(processor);
            }
            Ok(Process::new(signal, processor))
        },
        Err(error) => Err(error),
    }
}

/// The extrema of `signal` over a moving window that starts out with the
/// frames of `window`.
pub fn moving_extrema_padded<S, X, const N: usize, const MAX: bool>(
    signal: S,
    window: Vec<[X; N]>,
) -> (made: Result<Process<S, MovingExtrema<X, N, MAX>>, EmptyWindow>) where
    S: Signal<Frame = [X; N]>,
    X: Sample,

    ensures
        window@.len() == 0 <==> made is Err,
        made matches Ok(process) ==> {
            &&& process.signal() == signal
            &&& process.processor().wf()
            &&& process.processor()@ == window@
            &&& signal.wf() ==> process.wf()
        },
{
    match MovingExtrema::<X, N, MAX>::from(window) {
        Ok(processor) => {
            proof {
                lemma_moving_extrema_always_processes(processor);
            }
            Ok(Process::new(signal, processor))
        },
        Err(error) => Err(error),
    }
}

/// The extrema of `signal` over a moving window of as many frames as
/// `window` has slots, from the frame on that fills the window.
pub fn buffered_moving_extrema<S, X, const N: usize, const MAX: bool>(
    signal: S,
    window: Vec<[X; N]>,
) -> (made: Result<ProcessLazy<S, Buffered<MovingExtrema<X, N, MAX>>, [X; N]>, EmptyWindow>) where
    S: Signal<Frame = [X; N]>,
    X: Sample,

    ensures
        window@.len() == 0 <==> made is Err,
        made matches Ok(process) ==> {
            &&& process.signal() == signal
            &&& process.processor().wf()
            &&& process.processor()@ == crate::stats::buffered::Buffering::<[X; N]>::fresh(
                window@.len(),
            )
            &&& signal.wf() ==> process.wf()
        },
{
    match Buffered::<MovingExtrema<X, N, MAX>>::from(window) {
        Ok(processor) => {
            proof {
                lemma_buffered_always_yields(processor);
            }
            Ok(ProcessLazy::new(signal, processor))
        },
        Err(error) => Err(error),
    }
}

/// The aggregate `A` of `signal` over a moving window of as many frames as
/// `window` has slots, which starts out filled with zeros.
pub fn moving_summage<S, A, const N: usize>(signal: S, window: Vec<[i32; N]>) -> (made: Result<
    Process<S, MovingSummage<A, N>>,
    EmptyWindow,
>) where S: Signal<Frame = [i32; N]>, A: Aggregate
    ensures
        window@.len() == 0 <==> made is Err,
        made matches Ok(process) ==> {
            &&& process.signal() == signal
            &&& process.processor().wf()
            &&& process.processor()@ == Seq::new(window@.len(), |i: int| [0i32;N])
            &&& signal.wf() ==> process.wf()
        },
{
    match MovingSummage::<A, N>::from_empty(window) {
        Ok(processor) => {
            proof {
                lemma_moving_summage_always_processes(processor);
            }
            Ok(Process::new(signal, processor))
        },
        Err(error) => Err(error),
    }
}

/// The aggregate `A` of `signal` over a moving window that starts out with
/// the frames of `window`.
pub fn moving_summage_padded<S, A, const N: usize>(signal: S, window: Vec<[i32; N]>) -> (made: Result<
    Process<S, MovingSummage<A, N>>,
    EmptyWindow,
>) where S: Signal<Frame = [i32; N]>, A: Aggregate

    ensures
        window@.len() == 0 <==> made is Err,
        made matches Ok(process) ==> {
            &&& process.signal() == signal
            &&& process.processor().wf()
            &&& process.processor()@ == window@
            &&& signal.wf() ==> process.wf()
        },
{
    match MovingSummage::<A, N>::from(window) {
        Ok(processor) => {
            proof {
                lemma_moving_summage_always_processes(processor);
            }
            Ok(Process::new(signal, processor))
        },
        Err(error) => Err(error),
    }
}

/// The aggregate `A` of `signal` over a moving window of as many frames as
/// `window` has slots, from the frame on that fills the window.
pub fn buffered_moving_summage<S, A, const N: usize>(signal: S, window: Vec<[i32; N]>) -> (made: Result<
    ProcessLazy<S, Buffered<MovingSummage<A, N>>, [i64; N]>,
    EmptyWindow,
>) where S: Signal<Frame = [i32; N]>, A: Aggregate

    ensures
        window@.len() == 0 <==> made is Err,
        made matches Ok(process) ==> {
            &&& process.signal() == signal
            &&& process.processor().wf()
            &&& process.processor()@ == crate::stats::buffered::Buffering::<[i32; N]>::fresh(
                window@.len(),
            )
            &&& signal.wf() ==> process.wf()
        },
{
    match Buffered::<MovingSummage<A, N>>::from(window) {
        Ok(processor) => {
            proof {
                lemma_buffered_always_yields(processor);
            }
            Ok(ProcessLazy::new(signal, processor))
        },
        Err(error) => Err(error),
    }
}

/// The minimum of `signal` over a moving window of as many frames as
/// `window` has slots, which starts out filled with the equilibrium.
pub fn moving_min<S, X, const N: usize>(signal: S, window: Vec<[X; N]>) -> (made: Result<
    Process<S, MovingExtrema<X, N, DO_MIN>>,
    EmptyWindow,
>) where S: Signal<Frame = [X; N]>, X: Sample
    ensures
        window@.len() == 0 <==> made is Err,
        made matches Ok(process) ==> {
            &&& process.signal() == signal
            &&& process.processor().wf()
            &&& process.processor()@.len() == window@.len()
            &&& forall|i: int|
                0 <= i < window@.len() ==> is_equilibrium_frame(#[trigger] process.processor()@[i])
            &&& signal.wf() ==> process.wf()
        },
{
    moving_extrema::<S, X, N, DO_MIN>(signal, window)
}

/// The minimum of `signal` over a moving window that starts out with the
/// frames of `window`.
pub fn moving_min_padded<S, X, const N: usize>(signal: S, window: Vec<[X; N]>) -> (made: Result<
    Process<S, MovingExtrema<X, N, DO_MIN>>,
    EmptyWindow,
>) where S: Signal<Frame = [X; N]>, X: Sample
    ensures
        window@.len() == 0 <==> made is Err,
        made matches Ok(process) ==> {
            &&& process.signal() == signal
            &&& process.processor().wf()
            &&& process.processor()@ == window@
            &&& signal.wf() ==> process.wf()
        },
{
    moving_extrema_padded::<S, X, N, DO_MIN>(signal, window)
}

/// The minimum of `signal` over a moving window of as many frames as
/// `window` has slots, from the frame on that fills the window.
pub fn buffered_moving_min<S, X, const N: usize>(signal: S, window: Vec<[X; N]>) -> (made: Result<
    ProcessLazy<S, Buffered<MovingExtrema<X, N, DO_MIN>>, [X; N]>,
    EmptyWindow,
>) where S: Signal<Frame = [X; N]>, X: Sample
    ensures
        window@.len() == 0 <==> made is Err,
        made matches Ok(process) ==> {
            &&& process.signal() == signal
            &&& process.processor().wf()
            &&& !process.processor()@.active
            &&& process.processor()@.capacity == window@.len()
            &&& process.processor()@.frames.len() == 0
            &&& signal.wf() ==> process.wf()
        },
{
    buffered_moving_extrema::<S, X, N, DO_MIN>(signal, window)
}

/// The maximum of `signal` over a moving window of as many frames as
/// `window` has slots, which starts out filled with the equilibrium.
pub fn moving_max<S, X, const N: usize>(signal: S, window: Vec<[X; N]>) -> (made: Result<
    Process<S, MovingExtrema<X, N, DO_MAX>>,
    EmptyWindow,
>) where S: Signal<Frame = [X; N]>, X: Sample
    ensures
        window@.len() == 0 <==> made is Err,
        made matches Ok(process) ==> {
            &&& process.signal() == signal
            &&& process.processor().wf()
            &&& process.processor()@.len() == window@.len()
            &&& forall|i: int|
                0 <= i < window@.len() ==> is_equilibrium_frame(#[trigger] process.processor()@[i])
            &&& signal.wf() ==> process.wf()
        },
{
    moving_extrema::<S, X, N, DO_MAX>(signal, window)
}

/// The maximum of `signal` over a moving window that starts out with the
/// frames of `window`.
pub fn moving_max_padded<S, X, const N: usize>(signal: S, window: Vec<[X; N]>) -> (made: Result<
    Process<S, MovingExtrema<X, N, DO_MAX>>,
    EmptyWindow,
>) where S: Signal<Frame = [X; N]>, X: Sample
    ensures
        window@.len() == 0 <==> made is Err,
        made matches Ok(process) ==> {
            &&& process.signal() == signal
            &&& process.processor().wf()
            &&& process.processor()@ == window@
            &&& signal.wf() ==> process.wf()
        },
{
    moving_extrema_padded::<S, X, N, DO_MAX>(signal, window)
}

/// The maximum of `signal` over a moving window of as many frames as
/// `window` has slots, from the frame on that fills the window.
pub fn buffered_moving_max<S, X, const N: usize>(signal: S, window: Vec<[X; N]>) -> (made: Result<
    ProcessLazy<S, Buffered<MovingExtrema<X, N, DO_MAX>>, [X; N]>,
    EmptyWindow,
>) where S: Signal<Frame = [X; N]>, X: Sample
    ensures
        window@.len() == 0 <==> made is Err,
        made matches Ok(process) ==> {
            &&& process.signal() == signal
            &&& process.processor().wf()
            &&& !process.processor()@.active
            &&& process.processor()@.capacity == window@.len()
            &&& process.processor()@.frames.len() == 0
            &&& signal.wf() ==> process.wf()
        },
{
    buffered_moving_extrema::<S, X, N, DO_MAX>(signal, window)
}

/// The root mean square of `signal` over a moving window of as many frames as
/// `window` has slots, which starts out filled with zeros.
pub fn moving_rms<S, const N: usize>(signal: S, window: Vec<[i32; N]>) -> (made: Result<
    Process<S, MovingSummage<RootMeanSquare, N>>,
    EmptyWindow,
>) where S: Signal<Frame = [i32; N]>
    ensures
        window@.len() == 0 <==> made is Err,
        made matches Ok(process) ==> {
            &&& process.signal() == signal
            &&& process.processor().wf()
            &&& process.processor()@ == Seq::new(window@.len(), |i: int| [0i32;N])
            &&& signal.wf() ==> process.wf()
        },
{
    moving_summage::<S, RootMeanSquare, N>(signal, window)
}

/// The root mean square of `signal` over a moving window that starts out with the
/// frames of `window`.
pub fn moving_rms_padded<S, const N: usize>(signal: S, window: Vec<[i32; N]>) -> (made: Result<
    Process<S, MovingSummage<RootMeanSquare, N>>,
    EmptyWindow,
>) where S: Signal<Frame = [i32; N]>
    ensures
        window@.len() == 0 <==> made is Err,
        made matches Ok(process) ==> {
            &&& process.signal() == signal
            &&& process.processor().wf()
            &&& process.processor()@ == window@
            &&& signal.wf() ==> process.wf()
        },
{
    moving_summage_padded::<S, RootMeanSquare, N>(signal, window)
}

/// The root mean square of `signal` over a moving window of as many frames as
/// `window` has slots, from the frame on that fills the window.
pub fn buffered_moving_rms<S, const N: usize>(signal: S, window: Vec<[i32; N]>) -> (made: Result<
    ProcessLazy<S, Buffered<MovingSummage<RootMeanSquare, N>>, [i64; N]>,
    EmptyWindow,
>) where S: Signal<Frame = [i32; N]>
    ensures
        window@.len() == 0 <==> made is Err,
        made matches Ok(process) ==> {
            &&& process.signal() == signal
            &&& process.processor().wf()
            &&& !process.processor()@.active
            &&& process.processor()@.capacity == window@.len()
            &&& process.processor()@.frames.len() == 0
            &&& signal.wf() ==> process.wf()
        },
{
    buffered_moving_summage::<S, RootMeanSquare, N>(signal, window)
}

/// The mean square of `signal` over a moving window of as many frames as
/// `window` has slots, which starts out filled with zeros.
pub fn moving_ms<S, const N: usize>(signal: S, window: Vec<[i32; N]>) -> (made: Result<
    Process<S, MovingSummage<MeanSquare, N>>,
    EmptyWindow,
>) where S: Signal<Frame = [i32; N]>
    ensures
        window@.len() == 0 <==> made is Err,
        made matches Ok(process) ==> {
            &&& process.signal() == signal
            &&& process.processor().wf()
            &&& process.processor()@ == Seq::new(window@.len(), |i: int| [0i32;N])
            &&& signal.wf() ==> process.wf()
        },
{
    moving_summage::<S, MeanSquare, N>(signal, window)
}

/// The mean square of `signal` over a moving window that starts out with the
/// frames of `window`.
pub fn moving_ms_padded<S, const N: usize>(signal: S, window: Vec<[i32; N]>) -> (made: Result<
    Process<S, MovingSummage<MeanSquare, N>>,
    EmptyWindow,
>) where S: Signal<Frame = [i32; N]>
    ensures
        window@.len() == 0 <==> made is Err,
        made matches Ok(process) ==> {
            &&& process.signal() == signal
            &&& process.processor().wf()
            &&& process.processor()@ == window@
            &&& signal.wf() ==> process.wf()
        },
{
    moving_summage_padded::<S, MeanSquare, N>(signal, window)
}

/// The mean square of `signal` over a moving window of as many frames as
/// `window` has slots, from the frame on that fills the window.
pub fn buffered_moving_ms<S, const N: usize>(signal: S, window: Vec<[i32; N]>) -> (made: Result<
    ProcessLazy<S, Buffered<MovingSummage<MeanSquare, N>>, [i64; N]>,
    EmptyWindow,
>) where S: Signal<Frame = [i32; N]>
    ensures
        window@.len() == 0 <==> made is Err,
        made matches Ok(process) ==> {
            &&& process.signal() == signal
            &&& process.processor().wf()
            &&& !process.processor()@.active
            &&& process.processor()@.capacity == window@.len()
            &&& process.processor()@.frames.len() == 0
            &&& signal.wf() ==> process.wf()
        },
{
    buffered_moving_summage::<S, MeanSquare, N>(signal, window)
}

/// The mean of `signal` over a moving window of as many frames as
/// `window` has slots, which starts out filled with zeros.
pub fn moving_mean<S, const N: usize>(signal: S, window: Vec<[i32; N]>) -> (made: Result<
    Process<S, MovingSummage<Mean, N>>,
    EmptyWindow,
>) where S: Signal<Frame = [i32; N]>
    ensures
        window@.len() == 0 <==> made is Err,
        made matches Ok(process) ==> {
            &&& process.signal() == signal
            &&& process.processor().wf()
            &&& process.processor()@ == Seq::new(window@.len(), |i: int| [0i32;N])
            &&& signal.wf() ==> process.wf()
        },
{
    moving_summage::<S, Mean, N>(signal, window)
}

/// The mean of `signal` over a moving window that starts out with the
/// frames of `window`.
pub fn moving_mean_padded<S, const N: usize>(signal: S, window: Vec<[i32; N]>) -> (made: Result<
    Process<S, MovingSummage<Mean, N>>,
    EmptyWindow,
>) where S: Signal<Frame = [i32; N]>
    ensures
        window@.len() == 0 <==> made is Err,
        made matches Ok(process) ==> {
            &&& process.signal() == signal
            &&& process.processor().wf()
            &&& process.processor()@ == window@
            &&& signal.wf() ==> process.wf()
        },
{
    moving_summage_padded::<S, Mean, N>(signal, window)
}

/// The mean of `signal` over a moving window of as many frames as
/// `window` has slots, from the frame on that fills the window.
pub fn buffered_moving_mean<S, const N: usize>(signal: S, window: Vec<[i32; N]>) -> (made: Result<
    ProcessLazy<S, Buffered<MovingSummage<Mean, N>>, [i64; N]>,
    EmptyWindow,
>) where S: Signal<Frame = [i32; N]>
    ensures
        window@.len() == 0 <==> made is Err,
        made matches Ok(process) ==> {
            &&& process.signal() == signal
            &&& process.processor().wf()
            &&& !process.processor()@.active
            &&& process.processor()@.capacity == window@.len()
            &&& process.processor()@.frames.len() == 0
            &&& signal.wf() ==> process.wf()
        },
{
    buffered_moving_summage::<S, Mean, N>(signal, window)
}

} // verus!
