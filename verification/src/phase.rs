//! Phases that step around the unit interval by a ratio of whole numbers.

use vstd::prelude::*;

use crate::sample::conv::lemma_pow2_adds;
use crate::sample::pow2;

verus! {

/// Whether `d` divides `n`.
pub open spec fn divides(d: int, n: int) -> bool {
    n % d == 0
}

/// Whether 1 is the only positive number that divides both `a` and `b`.
pub open spec fn coprime(a: int, b: int) -> bool {
    forall|d: int| d > 1 && #[trigger] divides(d, a) ==> !divides(d, b)
}

/// Whether `g` is the greatest number that divides both `a` and `b`.
pub open spec fn is_gcd(g: int, a: int, b: int) -> bool {
    &&& g > 0
    &&& divides(g, a)
    &&& divides(g, b)
    &&& forall|d: int| d > 0 && #[trigger] divides(d, a) && divides(d, b) ==> d <= g
}

/// Whether `reduced` over `reduced_by` is the ratio of `num` to `den` in
/// lowest terms.
pub open spec fn in_lowest_terms(num: int, den: int, reduced: int, reduced_by: int) -> bool {
    &&& reduced > 0
    &&& reduced_by > 0
    &&& reduced * den == reduced_by * num
    &&& coprime(reduced, reduced_by)
}

/// Calls `gcd::Gcd::gcd` on two `u32` values. The crate documents it as
/// determining the greatest common divisor, and its source returns the
/// other argument where one of them is 0.
#[verifier::external_body]
fn gcd_u32(a: u32, b: u32) -> (g: u32)
    ensures
        a > 0 || b > 0 ==> is_gcd(g as int, a as int, b as int),
        a == 0 && b == 0 ==> g == 0,
{
    gcd::Gcd::gcd(a, b)
}

/// A multiple of a divisor is divisible by it.
proof fn lemma_divides_multiple(d: int, k: int)
    requires
        d > 0,
    ensures
        divides(d, d * k),
{
    vstd::arithmetic::div_mod::lemma_mod_multiples_basic(k, d);
    assert(k * d == d * k) by (nonlinear_arith);
}

/// A number is its divisor times the quotient.
proof fn lemma_divides_quotient(d: int, n: int)
    requires
        d > 0,
        divides(d, n),
    ensures
        n == d * (n / d),
{
    vstd::arithmetic::div_mod::lemma_fundamental_div_mod(n, d);
}

/// The quotients of two numbers by their greatest common divisor have no
/// common divisor but 1.
proof fn lemma_gcd_quotients_are_coprime(g: int, a: int, b: int)
    requires
        is_gcd(g, a, b),
        a > 0,
        b > 0,
    ensures
        coprime(a / g, b / g),
        a / g > 0,
        b / g > 0,
        (a / g) * b == (b / g) * a,
{
    lemma_divides_quotient(g, a);
    lemma_divides_quotient(g, b);
    let x = a / g;
    let y = b / g;
    assert(x > 0 && y > 0) by (nonlinear_arith)
        requires
            a == g * x,
            b == g * y,
            a > 0,
            b > 0,
            g > 0,
    ;
    assert(x * b == y * a) by (nonlinear_arith)
        requires
            a == g * x,
            b == g * y,
    ;
    assert forall|d: int| d > 1 && #[trigger] divides(d, x) implies !divides(d, y) by {
        if divides(d, y) {
            lemma_divides_quotient(d, x);
            lemma_divides_quotient(d, y);
            let e = d * g;
            assert(a == e * (x / d)) by (nonlinear_arith)
                requires
                    a == g * x,
                    x == d * (x / d),
                    e == d * g,
            ;
            assert(b == e * (y / d)) by (nonlinear_arith)
                requires
                    b == g * y,
                    y == d * (y / d),
                    e == d * g,
            ;
            assert(e > g) by (nonlinear_arith)
                requires
                    e == d * g,
                    d > 1,
                    g > 0,
            ;
            lemma_divides_multiple(e, x / d);
            lemma_divides_multiple(e, y / d);
            assert(divides(e, a) && divides(e, b));
        }
    }
}

/// An odd number that divides the double of a number divides the number.
proof fn lemma_odd_divides_half(d: int, m: int)
    requires
        d > 0,
        d % 2 == 1,
        m >= 0,
        divides(d, 2 * m),
    ensures
        divides(d, m),
{
    lemma_divides_quotient(d, 2 * m);
    let k = (2 * m) / d;
    assert(k % 2 == 0) by {
        vstd::arithmetic::div_mod::lemma_mul_mod_noop_general(d, k, 2);
        vstd::arithmetic::div_mod::lemma_mod_multiples_basic(m, 2);
        assert((d * k) % 2 == 0) by {
            assert(m * 2 == d * k);
        }
        assert((d % 2) * (k % 2) == k % 2) by (nonlinear_arith)
            requires
                d % 2 == 1,
        ;
        vstd::arithmetic::div_mod::lemma_mod_bound(k, 2);
        vstd::arithmetic::div_mod::lemma_small_mod((k % 2) as nat, 2);
    }
    let h = k / 2;
    assert(m == d * h) by (nonlinear_arith)
        requires
            2 * m == d * k,
            k == 2 * h,
    ;
    lemma_divides_multiple(d, h);
}

/// A power of 2 and an odd number have no common divisor but 1.
proof fn lemma_pow2_coprime_to_odd(exponent: nat, odd: int)
    requires
        odd > 0,
        odd % 2 == 1,
    ensures
        coprime(pow2(exponent), odd),
        pow2(exponent) > 0,
    decreases exponent,
{
    if exponent > 0 {
        lemma_pow2_coprime_to_odd((exponent - 1) as nat, odd);
    }
    assert forall|d: int| d > 1 && #[trigger] divides(d, pow2(exponent)) implies !divides(
        d,
        odd,
    ) by {
        if divides(d, odd) {
            if d % 2 == 0 {
                lemma_divides_quotient(d, odd);
                assert(odd % 2 == 0) by {
                    vstd::arithmetic::div_mod::lemma_mul_mod_noop_general(d, odd / d, 2);
                    assert((d % 2) * ((odd / d) % 2) == 0) by (nonlinear_arith)
                        requires
                            d % 2 == 0,
                    ;
                    vstd::arithmetic::div_mod::lemma_small_mod(0, 2);
                }
            } else if exponent == 0 {
                vstd::arithmetic::div_mod::lemma_small_mod(1, d as nat);
            } else {
                lemma_odd_divides_half(d, pow2((exponent - 1) as nat));
                assert(divides(d, pow2((exponent - 1) as nat)));
            }
        }
    }
}

/// Having no common divisor but 1 does not depend on the order.
proof fn lemma_coprime_is_symmetric(a: int, b: int)
    requires
        coprime(a, b),
    ensures
        coprime(b, a),
{
    assert forall|d: int| d > 1 && #[trigger] divides(d, b) implies !divides(d, a) by {
        if divides(d, a) {
            assert(!divides(d, b));
        }
    }
}

/// Shifting 1 left by `exponent` bits gives the `exponent`-th power of 2.
proof fn lemma_shift_is_pow2(exponent: u32)
    requires
        exponent < 32,
    ensures
        (1u32 << exponent) == pow2(exponent as nat),
    decreases exponent,
{
    if exponent == 0 {
        assert(1u32 << 0u32 == 1u32) by (bit_vector);
    } else {
        let less = (exponent - 1) as u32;
        lemma_shift_is_pow2(less);
        assert((1u32 << exponent) == 2 * (1u32 << less)) by (bit_vector)
            requires
                0 < exponent < 32,
                less == exponent - 1,
        ;
    }
}

/// 1 over 1 is in lowest terms the ratio of a number to itself.
proof fn lemma_lowest_terms_of_equals(n: int)
    requires
        n > 0,
    ensures
        in_lowest_terms(n, n, 1, 1),
{
    assert forall|d: int| d > 1 && #[trigger] divides(d, 1) implies !divides(d, 1) by {
        vstd::arithmetic::div_mod::lemma_small_mod(1, d as nat);
    }
}

/// Turning a ratio in lowest terms upside down leaves it in lowest terms.
proof fn lemma_lowest_terms_inverted(num: int, den: int, reduced: int, reduced_by: int)
    requires
        in_lowest_terms(num, den, reduced, reduced_by),
    ensures
        in_lowest_terms(den, num, reduced_by, reduced),
{
    lemma_coprime_is_symmetric(reduced, reduced_by);
}

/// The ratio of 2 to the 32 to an odd number is in lowest terms.
proof fn lemma_odd_is_reduced(normal: u32)
    requires
        vstd::std_specs::bits::u32_trailing_zeros(normal) == 0,
    ensures
        in_lowest_terms(0x1_0000_0000, normal as int, 0x1_0000_0000, normal as int),
{
    vstd::std_specs::bits::axiom_u32_trailing_zeros(normal);
    reveal_with_fuel(pow2, 33);
    assert(pow2(32) == 0x1_0000_0000);
    assert(normal % 2 == 1) by (bit_vector)
        requires
            (normal >> 0u32) & 1u32 == 1u32,
    ;
    lemma_pow2_coprime_to_odd(32, normal as int);
}

/// Shifting the trailing zero bits out of both terms reduces the ratio of 2
/// to the 32 to an even number to lowest terms.
proof fn lemma_even_is_reduced(normal: u32, zeros: u32, shl_n: u32, high: u32, odd: u32)
    requires
        zeros == vstd::std_specs::bits::u32_trailing_zeros(normal),
        0 < zeros < 32,
        shl_n == 32 - zeros,
        high == 1u32 << shl_n,
        odd == normal >> zeros,
    ensures
        in_lowest_terms(0x1_0000_0000, normal as int, high as int, odd as int),
{
    vstd::std_specs::bits::axiom_u32_trailing_zeros(normal);
    reveal_with_fuel(pow2, 33);
    assert(pow2(32) == 0x1_0000_0000);
    assert(odd % 2 == 1 && odd > 0 && odd * (1u32 << zeros) == normal) by (bit_vector)
        requires
            0 < zeros < 32,
            shl_n == 32 - zeros,
            (normal >> zeros) & 1u32 == 1u32,
            normal << shl_n == 0,
            odd == normal >> zeros,
    ;
    lemma_shift_is_pow2(shl_n);
    lemma_shift_is_pow2(zeros);
    lemma_pow2_adds(shl_n as nat, zeros as nat);
    lemma_pow2_coprime_to_odd(shl_n as nat, odd as int);
    let upper = pow2(shl_n as nat);
    let lower = pow2(zeros as nat);
    assert(upper * (odd * lower) == odd * (upper * lower)) by (nonlinear_arith);
}

/// Which of the two terms of a ratio does not fit in 32 bits.
enum Maxed {
    Num,
    Den,
}

/// Reduces the ratio of `to_add + 1` to `to_rem + 1` to lowest terms and
/// returns each of its two terms less 1.
pub fn simplify(to_add: u32, to_rem: u32) -> (simplified: (u32, u32))
    ensures
        in_lowest_terms(to_add + 1, to_rem + 1, simplified.0 + 1, simplified.1 + 1),
{
    let (maxed, normal) = {
        if to_add == to_rem {
            proof {
                lemma_lowest_terms_of_equals(to_add + 1);
            }
            return (0, 0);
        } else if to_add == u32::MAX {
            (Maxed::Num, to_rem + 1)
        } else if to_rem == u32::MAX {
            (Maxed::Den, to_add + 1)
        } else {
            let num = to_add + 1;
            let den = to_rem + 1;
            let div = gcd_u32(num, den);
            proof {
                lemma_gcd_quotients_are_coprime(div as int, num as int, den as int);
            }
            let s_num = num / div;
            let s_den = den / div;
            return (s_num - 1, s_den - 1);
        }
    };
    let div_pow_2 = normal.trailing_zeros();
    proof {
        vstd::std_specs::bits::axiom_u32_trailing_zeros(normal);
    }
    if div_pow_2 == 0 {
        proof {
            lemma_odd_is_reduced(normal);
            if maxed is Den {
                lemma_lowest_terms_inverted(
                    0x1_0000_0000,
                    normal as int,
                    0x1_0000_0000,
                    normal as int,
                );
            }
        }
        return (to_add, to_rem);
    }
    let shl_n = u32::BITS - div_pow_2;
    let simp_overflow = 1u32 << shl_n;
    let simp_normal = normal >> div_pow_2;
    proof {
        lemma_even_is_reduced(normal, div_pow_2, shl_n, simp_overflow, simp_normal);
        if maxed is Den {
            lemma_lowest_terms_inverted(
                0x1_0000_0000,
                normal as int,
                simp_overflow as int,
                simp_normal as int,
            );
        }
    }
    match maxed {
        Maxed::Num => (simp_overflow - 1, simp_normal - 1),
        Maxed::Den => (simp_normal - 1, simp_overflow - 1),
    }
}

/// A phase that steps around the unit interval by a ratio of whole numbers
/// and counts how often it wraps around.
///
/// The phase is `index` over `max_value + 1`. Each step adds
/// `skip_extra + 1` to the index and takes it modulo `max_value + 1`.
pub struct Rational {
    i: u64,
    max_value: u32,
    skip_extra: u32,
}

impl Rational {
    #[verifier::type_invariant]
    spec fn index_in_range(self) -> bool {
        self.i <= self.max_value
    }

    /// The numerator of the phase.
    pub closed spec fn index(&self) -> int {
        self.i as int
    }

    /// The denominator of the phase, less 1.
    pub closed spec fn max_value(&self) -> int {
        self.max_value as int
    }

    /// The number that a step adds to the index, less 1.
    pub closed spec fn skip_extra(&self) -> int {
        self.skip_extra as int
    }

    /// A phase at 0 that steps by the ratio of `to_rem + 1` to `to_add + 1`,
    /// held in lowest terms.
    pub fn new(to_add: u32, to_rem: u32) -> (phase: Self)
        ensures
            phase.index() == 0,
            in_lowest_terms(
                to_add + 1,
                to_rem + 1,
                phase.max_value() + 1,
                phase.skip_extra() + 1,
            ),
    {
        let (to_add, to_rem) = simplify(to_add, to_rem);
        Self { i: 0, max_value: to_add, skip_extra: to_rem }
    }

    /// Moves the phase one step on and returns how often it wrapped around,
    /// modulo 2 to the 32.
    pub fn advance_count(&mut self) -> (loops: u32)
        ensures
            final(self).max_value() == old(self).max_value(),
            final(self).skip_extra() == old(self).skip_extra(),
            final(self).index() == (old(self).index() + old(self).skip_extra() + 1) % (old(
                self,
            ).max_value() + 1),
            loops == ((old(self).index() + old(self).skip_extra() + 1) / (old(self).max_value()
                + 1)) % 0x1_0000_0000,
    {
        proof {
            use_type_invariant(&*self);
        }
        let adv_i = self.i + self.skip_extra as u64 + 1;
        let div = self.max_value as u64 + 1;
        self.i = adv_i % div;
        let num_loops = adv_i / div;
        assert(num_loops as u32 == num_loops % 0x1_0000_0000) by (bit_vector);
        #[verifier::truncate]
        (num_loops as u32)
    }

    /// The phase as a fraction: its numerator and its denominator.
    pub fn current(&self) -> (fraction: (u64, u64))
        ensures
            fraction.0 == self.index(),
            fraction.1 == self.max_value() + 1,
            fraction.0 < fraction.1,
    {
        proof {
            use_type_invariant(self);
        }
        (self.i, self.max_value as u64 + 1)
    }
}

} // verus!
