//! The points at which a window function is sampled.
//!
//! A window of a number of points spans the unit interval. A symmetric
//! window has its first point at 0 and its last point at 1; a periodic
//! window is a symmetric window of one point more without its last point.
//! A point is held as a fraction of whole numbers.

use vstd::prelude::*;

verus! {

/// A point of a window.
#[derive(Debug, Clone, Copy, PartialEq, Eq, Structural)]
pub enum Point {
    /// The only point of a symmetric window of one point, where the value of
    /// every window is 1.
    One,
    /// The point `index` over `bins` of the unit interval.
    At { index: usize, bins: usize },
}

/// The points of a window of `len` points, in their order.
pub open spec fn points(len: nat, symmetric: bool) -> Seq<Point> {
    if len == 1 && symmetric {
        seq![Point::One]
    } else {
        Seq::new(
            len,
            |i: int|
                Point::At {
                    index: i as usize,
                    bins: if symmetric {
                        (len - 1) as usize
                    } else {
                        len as usize
                    },
                },
        )
    }
}

enum PointsImpl {
    ZeroOne(bool),
    Normal(usize, usize, usize),
}

/// A double-ended cursor over the points of a window, symmetric where
/// `SYMM` holds and periodic where not. Its view lists the points that it
/// has yet to hand out.
pub struct Points<const SYMM: bool> {
    state: PointsImpl,
}

impl<const SYMM: bool> View for Points<SYMM> {
    type V = Seq<Point>;

    closed spec fn view(&self) -> Seq<Point> {
        match self.state {
            PointsImpl::ZeroOne(left) => if left {
                seq![Point::One]
            } else {
                Seq::empty()
            },
            PointsImpl::Normal(front, back, bins) => Seq::new(
                (back - front) as nat,
                |i: int| Point::At { index: (front + i) as usize, bins },
            ),
        }
    }
}

impl<const SYMM: bool> Points<SYMM> {
    #[verifier::type_invariant]
    spec fn range_in_order(self) -> bool {
        match self.state {
            PointsImpl::ZeroOne(_) => true,
            PointsImpl::Normal(front, back, bins) => front <= back,
        }
    }

    /// A cursor over the points of a window of `len` points.
    pub fn new(len: usize) -> (cursor: Self)
        ensures
            cursor@ == points(len as nat, SYMM),
    {
        let bins = if len == 0 {
            let cursor = Self { state: PointsImpl::ZeroOne(false) };
            assert(cursor@ =~= points(0, SYMM));
            return cursor;
        } else if len == 1 && SYMM {
            return Self { state: PointsImpl::ZeroOne(true) };
        } else if SYMM {
            len - 1
        } else {
            len
        };
        let cursor = Self { state: PointsImpl::Normal(0, len, bins) };
        assert(cursor@ =~= points(len as nat, SYMM));
        cursor
    }

    /// The number of points that are left.
    pub fn len(&self) -> (n: usize)
        ensures
            n == self@.len(),
    {
        proof {
            use_type_invariant(self);
        }
        match self.state {
            PointsImpl::ZeroOne(left) => if left {
                1
            } else {
                0
            },
            PointsImpl::Normal(front, back, _) => back - front,
        }
    }

    /// Hands out the first point that is left.
    pub fn next(&mut self) -> (point: Option<Point>)
        ensures
            old(self)@.len() == 0 ==> point.is_none() && final(self)@ == old(self)@,
            old(self)@.len() > 0 ==> point == Some(old(self)@[0]) && final(self)@ == old(
                self,
            )@.drop_first(),
    {
        proof {
            use_type_invariant(&*self);
        }
        match self.state {
            PointsImpl::ZeroOne(left) => {
                if left {
                    self.state = PointsImpl::ZeroOne(false);
                    assert(self@ =~= old(self)@.drop_first());
                    Some(Point::One)
                } else {
                    None
                }
            },
            PointsImpl::Normal(front, back, bins) => {
                if front < back {
                    self.state = PointsImpl::Normal(front + 1, back, bins);
                    assert(self@ =~= old(self)@.drop_first());
                    Some(Point::At { index: front, bins })
                } else {
                    None
                }
            },
        }
    }

    /// Hands out the last point that is left.
    pub fn next_back(&mut self) -> (point: Option<Point>)
        ensures
            old(self)@.len() == 0 ==> point.is_none() && final(self)@ == old(self)@,
            old(self)@.len() > 0 ==> point == Some(old(self)@.last()) && final(self)@ == old(
                self,
            )@.drop_last(),
    {
        proof {
            use_type_invariant(&*self);
        }
        match self.state {
            PointsImpl::ZeroOne(left) => {
                if left {
                    self.state = PointsImpl::ZeroOne(false);
                    assert(self@ =~= old(self)@.drop_last());
                    Some(Point::One)
                } else {
                    None
                }
            },
            PointsImpl::Normal(front, back, bins) => {
                if front < back {
                    self.state = PointsImpl::Normal(front, back - 1, bins);
                    assert(self@ =~= old(self)@.drop_last());
                    Some(Point::At { index: back - 1, bins })
                } else {
                    None
                }
            },
        }
    }
}

} // verus!
