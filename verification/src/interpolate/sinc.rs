use vstd::prelude::*;

verus! {

/// The bookkeeping of a sinc interpolator over a ring buffer of frames: how
/// deep the interpolation reaches to either side, and between which two
/// frames of the buffer it stands.
///
/// The interpolator stands between the frames at the positions `idx` and
/// `idx + 1` of the buffer. For each lag below the span it reads the frame
/// that lies that many positions before the left one and the frame that
/// lies that many positions after the right one.
pub struct SincCursor {
    capacity: usize,
    idx: usize,
}

impl SincCursor {
    #[verifier::type_invariant]
    spec fn in_range(self) -> bool {
        self.capacity % 2 == 0 && self.idx <= self.capacity / 2
    }

    /// The number of frames in the buffer.
    pub closed spec fn capacity(&self) -> nat {
        self.capacity as nat
    }

    /// The position of the frame to the left.
    pub closed spec fn idx(&self) -> nat {
        self.idx as nat
    }

    /// The number of lags that the interpolator reads at position `idx` of
    /// a buffer of `capacity` frames: half the capacity, cut down to the
    /// frames that lie at or before the left frame.
    pub open spec fn span_at(capacity: nat, idx: nat) -> nat {
        let depth = capacity / 2;
        if idx + depth >= capacity {
            (capacity - depth) as nat
        } else if idx + 1 < depth {
            idx + 1
        } else {
            depth
        }
    }

    /// A cursor at the start of a buffer of `capacity` frames, an even
    /// number.
    pub fn new(capacity: usize) -> (cursor: Self)
        requires
            capacity % 2 == 0,
        ensures
            cursor.capacity() == capacity,
            cursor.idx() == 0,
    {
        Self { capacity, idx: 0 }
    }

    /// How deep the interpolation reaches to either side: half the
    /// capacity.
    pub fn depth(&self) -> (depth: usize)
        ensures
            depth == self.capacity() / 2,
    {
        self.capacity / 2
    }

    /// The position of the frame to the left.
    pub fn position(&self) -> (idx: usize)
        ensures
            idx == self.idx(),
            idx <= self.capacity() / 2,
    {
        proof {
            use_type_invariant(self);
        }
        self.idx
    }

    /// Moves on by a frame that was pushed into the buffer: the position
    /// rises until it has reached the depth and then stays.
    pub fn advance(&mut self)
        ensures
            final(self).capacity() == old(self).capacity(),
            final(self).idx() == if old(self).idx() < old(self).capacity() / 2 {
                old(self).idx() + 1
            } else {
                old(self).idx()
            },
    {
        proof {
            use_type_invariant(&*self);
        }
        if self.idx < self.depth() {
            self.idx += 1;
        }
    }

    /// The number of lags that the interpolator reads. It is at most one
    /// more than the position, so that no lag below it reaches before the
    /// start of the buffer.
    pub fn span(&self) -> (max_depth: usize)
        ensures
            max_depth == Self::span_at(self.capacity(), self.idx()),
            max_depth <= self.capacity() / 2,
            max_depth <= self.idx() + 1,
    {
        proof {
            use_type_invariant(self);
        }
        let nl = self.idx;
        let nr = self.idx + 1;
        let depth = self.depth();
        let rightmost = nl + depth;
        if rightmost >= self.capacity {
            self.capacity - depth
        } else if nr < depth {
            nr
        } else {
            depth
        }
    }
}

} // verus!
