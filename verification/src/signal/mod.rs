//! Signals: sources of frames that are drawn one at a time.

pub mod adaptors;
pub mod sources;
pub mod stats;

pub use sources::{
    from_fn, from_frames, from_samples_dynamic, from_samples_fixed, FromFn, FromFrames,
    FromSamplesDynamic, FromSamplesFixed,
};

use vstd::prelude::*;

use crate::frame::Frame;

verus! {

/// A source of frames, drawn one at a time until it runs out.
pub trait Signal: Sized {
    /// The frames that the signal yields.
    type Frame: Frame;

    /// Whether the signal is in a state that its operations leave it in.
    spec fn wf(&self) -> bool;

    /// Whether drawing from the signal may leave it as `after` and yield
    /// `frame`.
    spec fn yields(&self, after: Self, frame: Option<Self::Frame>) -> bool;

    /// Draws the next frame, or none where the signal has run out.
    fn next(&mut self) -> (frame: Option<Self::Frame>)
        requires
            old(self).wf(),
        ensures
            final(self).wf(),
            old(self).yields(*final(self), frame),
    ;

    /// Draws the next frame, or the frame of silence where the signal has
    /// run out.
    fn sig_next(&mut self) -> (frame: Self::Frame)
        requires
            old(self).wf(),
        ensures
            final(self).wf(),
            old(self).yields(*final(self), Some(frame)) || (old(self).yields(*final(self), None)
                && crate::frame::all_equilibrium(frame.channels())),
    {
        match self.next() {
            Some(frame) => frame,
            None => Self::Frame::equil(),
        }
    }

    /// Borrows the signal, so that it can be drawn from without being
    /// taken over.
    fn by_ref(&mut self) -> (borrowed: &mut Self)
        ensures
            *borrowed == *old(self),
            *final(self) == *final(borrowed),
    {
        self
    }
}

/// Whether drawing `count` frames from `before`, none of them missing, may
/// leave the signal as `after`.
pub open spec fn skips<S: Signal>(before: S, after: S, count: nat) -> bool
    decreases count,
{
    if count == 0 {
        after == before
    } else {
        exists|mid: S, frame: S::Frame|
            skips(before, mid, (count - 1) as nat) && #[trigger] mid.yields(after, Some(frame))
    }
}

/// Whether the signal `before` runs out after exactly `count` frames and is
/// then left as `after`.
pub open spec fn runs_out<S: Signal>(before: S, after: S, count: nat) -> bool {
    exists|mid: S| #[trigger] skips(before, mid, count) && mid.yields(after, None)
}

/// Draws and discards `n` frames from `signal`. Where it runs out before
/// that, the error tells how many frames were drawn.
pub fn advance_by<S: Signal>(signal: &mut S, n: usize) -> (advanced: Result<(), usize>)
    requires
        old(signal).wf(),
    ensures
        final(signal).wf(),
        advanced is Ok ==> skips(*old(signal), *final(signal), n as nat),
        advanced matches Err(drawn) ==> drawn < n && runs_out(
            *old(signal),
            *final(signal),
            drawn as nat,
        ),
{
    let mut left = n;
    while left > 0
        invariant
            left <= n,
            signal.wf(),
            skips(*old(signal), *signal, (n - left) as nat),
        decreases left,
    {
        let ghost mid = *signal;
        match signal.next() {
            Some(frame) => {
                assert(skips(*old(signal), mid, (n - left) as nat) && mid.yields(
                    *signal,
                    Some(frame),
                ));
            },
            None => {
                assert(skips(*old(signal), mid, (n - left) as nat) && mid.yields(*signal, None));
                return Err(n - left);
            },
        }
        left -= 1;
    }
    Ok(())
}

/// Draws and discards `n` frames from `signal` and then draws the frame
/// that follows them. Where the signal runs out before that, none is
/// returned.
pub fn nth<S: Signal>(signal: &mut S, n: usize) -> (frame: Option<S::Frame>)
    requires
        old(signal).wf(),
    ensures
        final(signal).wf(),
        frame matches Some(f) ==> exists|mid: S| #[trigger]
            skips(*old(signal), mid, n as nat) && mid.yields(*final(signal), Some(f)),
        frame is None ==> exists|drawn: nat|
            drawn <= n && #[trigger] runs_out(*old(signal), *final(signal), drawn),
{
    match advance_by(signal, n) {
        Ok(()) => {
            let ghost mid = *signal;
            let frame = signal.next();
            proof {
                if frame is None {
                    assert(skips(*old(signal), mid, n as nat) && mid.yields(*signal, None));
                    assert(runs_out(*old(signal), *signal, n as nat));
                } else {
                    assert(skips(*old(signal), mid, n as nat) && mid.yields(*signal, frame));
                }
            }
            frame
        },
        Err(drawn) => {
            assert(runs_out(*old(signal), *signal, drawn as nat));
            None
        },
    }
}

} // verus!
