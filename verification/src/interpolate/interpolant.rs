use vstd::prelude::*;

verus! {

/// A source of positions between two neighbouring frames of a signal.
pub trait Interpolant: Sized {
    /// A position between one frame and the next.
    type Inter;

    /// Whether the interpolant can take a step.
    spec fn can_step(&self) -> bool;

    /// Whether a step may leave the interpolant as `after`, at `position`
    /// before the step and `frames_to_adv` frames further on after it.
    spec fn stepped(&self, after: Self, position: Self::Inter, frames_to_adv: usize) -> bool;

    /// Gives the present position and moves one step on; the count tells how
    /// many frames of the signal the step has passed.
    fn step(&mut self) -> (step: (Self::Inter, usize))
        requires
            old(self).can_step(),
        ensures
            old(self).stepped(*final(self), step.0, step.1),
    ;
}

/// One more than a whole number either wraps its remainder to 0 and raises
/// the quotient, or raises the remainder.
pub proof fn lemma_div_mod_of_successor(n: int, m: int)
    requires
        n >= 0,
        m > 0,
    ensures
        n % m == m - 1 ==> (n + 1) % m == 0 && (n + 1) / m == n / m + 1,
        n % m != m - 1 ==> (n + 1) % m == n % m + 1 && (n + 1) / m == n / m,
{
    vstd::arithmetic::div_mod::lemma_fundamental_div_mod(n, m);
    vstd::arithmetic::div_mod::lemma_mod_bound(n, m);
    let q = n / m;
    let r = n % m;
    assert(m * q == q * m) by (nonlinear_arith);
    if r == m - 1 {
        assert(n + 1 == (q + 1) * m + 0) by (nonlinear_arith)
            requires
                n == q * m + r,
                r == m - 1,
        ;
        vstd::arithmetic::div_mod::lemma_fundamental_div_mod_converse(n + 1, m, q + 1, 0);
    } else {
        vstd::arithmetic::div_mod::lemma_fundamental_div_mod_converse(n + 1, m, q, r + 1);
    }
}

/// An interpolant for resampling by a ratio of whole numbers: it puts
/// `inter_pts_add` points between each two frames of the source and then
/// keeps one point and drops the `after_pts_rem` points that follow.
///
/// The position is `index` over `inter_pts_add + 1`.
pub struct ResampleRational {
    inter_pts_add: usize,
    after_pts_rem: usize,
    i: usize,
}

impl ResampleRational {
    #[verifier::type_invariant]
    spec fn index_in_range(self) -> bool {
        self.i <= self.inter_pts_add
    }

    /// The number of points put between two frames of the source.
    pub closed spec fn inter_pts_add(&self) -> int {
        self.inter_pts_add as int
    }

    /// The number of points dropped after each point that is kept.
    pub closed spec fn after_pts_rem(&self) -> int {
        self.after_pts_rem as int
    }

    /// The numerator of the position.
    pub closed spec fn index(&self) -> int {
        self.i as int
    }

    /// The number of frames of the source that the next step passes.
    pub open spec fn frames_passed(&self) -> int {
        (self.index() + self.after_pts_rem() + 1) / (self.inter_pts_add() + 1)
    }

    /// An interpolant at position 0 that adds `to_add` points and removes
    /// `to_rem` points; where the two are equal it adds and removes none.
    pub fn new(to_add: usize, to_rem: usize) -> (interpolant: Self)
        ensures
            interpolant.index() == 0,
            to_add == to_rem ==> interpolant.inter_pts_add() == 0 && interpolant.after_pts_rem()
                == 0,
            to_add != to_rem ==> interpolant.inter_pts_add() == to_add
                && interpolant.after_pts_rem() == to_rem,
    {
        let (to_add, to_rem) = if to_add == to_rem {
            (0, 0)
        } else {
            (to_add, to_rem)
        };
        Self { inter_pts_add: to_add, after_pts_rem: to_rem, i: 0 }
    }
}

impl Interpolant for ResampleRational {
    /// The position as a fraction: its numerator and its denominator.
    type Inter = (u128, u128);

    /// The number of frames that the step passes fits the machine word.
    open spec fn can_step(&self) -> bool {
        self.frames_passed() <= usize::MAX
    }

    open spec fn stepped(&self, after: Self, position: (u128, u128), frames_to_adv: usize) -> bool {
        &&& position.0 == self.index()
        &&& position.1 == self.inter_pts_add() + 1
        &&& after.inter_pts_add() == self.inter_pts_add()
        &&& after.after_pts_rem() == self.after_pts_rem()
        &&& after.index() == (self.index() + self.after_pts_rem() + 1) % (self.inter_pts_add() + 1)
        &&& frames_to_adv == self.frames_passed()
    }

    fn step(&mut self) -> (step: ((u128, u128), usize)) {
        proof {
            use_type_invariant(&*self);
        }
        let position = (self.i as u128, self.inter_pts_add as u128 + 1);
        let ghost start = self.i as int;
        let ghost points = self.inter_pts_add + 1;
        let add = self.inter_pts_add;
        let rem = self.after_pts_rem;
        let mut frames_to_adv: usize = 0;
        let mut k: usize = 0;
        proof {
            vstd::arithmetic::div_mod::lemma_small_mod(start as nat, points as nat);
            vstd::arithmetic::div_mod::lemma_basic_div(start, points);
        }
        loop
            invariant_except_break
                self.i == (start + k) % points,
                frames_to_adv == (start + k) / points,
            invariant
                k <= rem,
                points == add + 1,
                0 <= start <= add,
                self.inter_pts_add == add,
                self.after_pts_rem == rem,
                (start + rem + 1) / points <= usize::MAX,
            ensures
                self.inter_pts_add == add,
                self.after_pts_rem == rem,
                self.i == (start + rem + 1) % points,
                frames_to_adv == (start + rem + 1) / points,
            decreases rem - k,
        {
            proof {
                lemma_div_mod_of_successor(start + k, points);
                vstd::arithmetic::div_mod::lemma_div_is_ordered(
                    start + k + 1,
                    start + rem + 1,
                    points,
                );
                vstd::arithmetic::div_mod::lemma_mod_bound(start + k + 1, points);
            }
            if self.i >= add {
                self.i = 0;
                frames_to_adv += 1;
            } else {
                self.i += 1;
            }
            if k == rem {
                break ;
            }
            k += 1;
        }
        (position, frames_to_adv)
    }
}

} // verus!
