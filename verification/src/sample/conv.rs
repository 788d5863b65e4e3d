//! Conversions between sample formats that keep the amplitude.

use vstd::prelude::*;

use crate::sample::{lemma_pow2_values, pow2, Sample};

verus! {

/// The offset in a format of `bits_out` bits that stands for the amplitude
/// of `offset` in a format of `bits_in` bits: scaled up by the power of 2
/// between the two widths, or scaled down by it and rounded down.
pub open spec fn rescaled(offset: int, bits_in: nat, bits_out: nat) -> int {
    if bits_in <= bits_out {
        offset * pow2((bits_out - bits_in) as nat)
    } else {
        offset / pow2((bits_in - bits_out) as nat)
    }
}

/// A power of 2 is positive, and powers of 2 multiply by adding their
/// exponents.
pub proof fn lemma_pow2_adds(a: nat, b: nat)
    ensures
        pow2(a) > 0,
        pow2(a) * pow2(b) == pow2(a + b),
    decreases a,
{
    if a == 0 {
        assert(1 * pow2(b) == pow2(b));
    } else {
        lemma_pow2_adds((a - 1) as nat, b);
        assert((2 * pow2((a - 1) as nat)) * pow2(b) == 2 * (pow2((a - 1) as nat) * pow2(b)))
            by (nonlinear_arith);
        assert(((a - 1) as nat + b) as nat == (a + b - 1) as nat);
    }
}

/// A larger exponent gives a larger power of 2.
pub proof fn lemma_pow2_grows(a: nat, b: nat)
    requires
        a <= b,
    ensures
        0 < pow2(a) <= pow2(b),
    decreases b,
{
    lemma_pow2_adds(a, 0);
    if a < b {
        lemma_pow2_grows(a, (b - 1) as nat);
    }
}

/// An offset that is rescaled lies in the range of the format that it is
/// rescaled to.
pub proof fn lemma_rescaled_range(offset: int, bits_in: nat, bits_out: nat)
    requires
        1 <= bits_in,
        1 <= bits_out,
        -pow2((bits_in - 1) as nat) <= offset < pow2((bits_in - 1) as nat),
    ensures
        -pow2((bits_out - 1) as nat) <= rescaled(offset, bits_in, bits_out) < pow2(
            (bits_out - 1) as nat,
        ),
{
    let half_in = pow2((bits_in - 1) as nat);
    let half_out = pow2((bits_out - 1) as nat);
    if bits_in <= bits_out {
        let factor = pow2((bits_out - bits_in) as nat);
        lemma_pow2_adds((bits_in - 1) as nat, (bits_out - bits_in) as nat);
        assert(((bits_in - 1) as nat + (bits_out - bits_in) as nat) as nat == (bits_out - 1) as nat);
        lemma_pow2_adds((bits_out - bits_in) as nat, 0);
        assert(-half_out <= offset * factor < half_out) by (nonlinear_arith)
            requires
                -half_in <= offset < half_in,
                factor > 0,
                half_in * factor == half_out,
        ;
    } else {
        let factor = pow2((bits_in - bits_out) as nat);
        lemma_pow2_adds((bits_out - 1) as nat, (bits_in - bits_out) as nat);
        assert(((bits_out - 1) as nat + (bits_in - bits_out) as nat) as nat == (bits_in - 1) as nat);
        lemma_pow2_adds((bits_in - bits_out) as nat, 0);
        assert(half_out * factor == factor * half_out) by (nonlinear_arith);
        vstd::arithmetic::div_mod::lemma_div_multiples_vanish(half_out, factor);
        vstd::arithmetic::div_mod::lemma_div_multiples_vanish(-half_out, factor);
        assert(factor * (-half_out) == -half_in) by (nonlinear_arith)
            requires
                half_out * factor == half_in,
        ;
        vstd::arithmetic::div_mod::lemma_div_is_ordered(-half_in, offset, factor);
        vstd::arithmetic::div_mod::lemma_div_is_ordered(offset, half_in - 1, factor);
        assert((half_in - 1) / factor < half_out) by {
            vstd::arithmetic::div_mod::lemma_fundamental_div_mod(half_in - 1, factor);
            let q = (half_in - 1) / factor;
            let r = (half_in - 1) % factor;
            assert(q < half_out) by (nonlinear_arith)
                requires
                    half_in - 1 == factor * q + r,
                    0 <= r,
                    factor > 0,
                    half_in == half_out * factor,
            ;
        }
    }
}

/// An offset that is rescaled to a format at least as wide and back again
/// is the offset that it was.
pub proof fn lemma_widening_round_trips(offset: int, bits_in: nat, bits_out: nat)
    requires
        bits_in <= bits_out,
    ensures
        rescaled(rescaled(offset, bits_in, bits_out), bits_out, bits_in) == offset,
{
    let factor = pow2((bits_out - bits_in) as nat);
    lemma_pow2_adds((bits_out - bits_in) as nat, 0);
    if bits_in == bits_out {
        assert(offset * 1 == offset);
    } else {
        vstd::arithmetic::div_mod::lemma_div_multiples_vanish(offset, factor);
        assert(factor * offset == offset * factor) by (nonlinear_arith);
    }
}

/// The `exponent`-th power of 2.
pub fn power_of_two(exponent: u32) -> (power: i128)
    requires
        exponent <= 126,
    ensures
        power == pow2(exponent as nat),
{
    let mut power: i128 = 1;
    let mut done: u32 = 0;
    while done < exponent
        invariant
            done <= exponent <= 126,
            power == pow2(done as nat),
        decreases exponent - done,
    {
        proof {
            lemma_pow2_grows((done + 1) as nat, 126);
            lemma_pow2_grows(126, 127);
            lemma_pow2_values();
        }
        power = power * 2;
        done += 1;
    }
    power
}

/// The offset in a format of `bits_out` bits that stands for the amplitude
/// of `offset` in a format of `bits_in` bits.
pub fn rescale(offset: i128, bits_in: u32, bits_out: u32) -> (scaled: i128)
    requires
        8 <= bits_in <= 128,
        8 <= bits_out <= 128,
        -pow2((bits_in - 1) as nat) <= offset < pow2((bits_in - 1) as nat),
    ensures
        scaled == rescaled(offset as int, bits_in as nat, bits_out as nat),
{
    proof {
        lemma_rescaled_range(offset as int, bits_in as nat, bits_out as nat);
        lemma_pow2_grows((bits_out - 1) as nat, 127);
        lemma_pow2_values();
        if bits_in <= bits_out {
            lemma_pow2_adds((bits_out - bits_in) as nat, 0);
        } else {
            lemma_pow2_adds((bits_in - bits_out) as nat, 0);
        }
    }
    if bits_in <= bits_out {
        let factor = power_of_two(bits_out - bits_in);
        offset * factor
    } else {
        let factor = power_of_two(bits_in - bits_out);
        if offset >= 0 {
            offset / factor
        } else {
            proof {
                let o = offset as int;
                let f = factor as int;
                vstd::arithmetic::div_mod::lemma_fundamental_div_mod(o, f);
                vstd::arithmetic::div_mod::lemma_mod_bound(o, f);
                let q = o / f;
                let r = o % f;
                assert(-1 - o == (-1 - q) * f + (f - 1 - r)) by (nonlinear_arith)
                    requires
                        o == f * q + r,
                ;
                vstd::arithmetic::div_mod::lemma_fundamental_div_mod_converse(
                    -1 - o,
                    f,
                    -1 - q,
                    f - 1 - r,
                );
            }
            -((-1 - offset) / factor) - 1
        }
    }
}

/// A sample format that samples of the format `S` can be converted to.
pub trait FromSample<S: Sample>: Sample {
    /// The sample of this format that stands for the amplitude of `s`.
    fn from_sample(s: S) -> (converted: Self)
        ensures
            converted.offset() == rescaled(s.offset(), S::bits(), Self::bits()),
    ;
}

impl<S: Sample, T: Sample> FromSample<S> for T {
    fn from_sample(s: S) -> (converted: Self) {
        proof {
            S::lemma_bits_range();
            T::lemma_bits_range();
            S::lemma_offset_range(s);
            lemma_rescaled_range(s.offset(), S::bits(), T::bits());
        }
        T::from_offset(rescale(s.to_offset(), S::bit_width(), T::bit_width()))
    }
}

/// A sample format whose samples can be converted to the format `S`.
pub trait IntoSample<S: Sample>: Sample {
    /// The sample of the format `S` that stands for the amplitude of this
    /// sample.
    fn into_sample(self) -> (converted: S)
        ensures
            converted.offset() == rescaled(self.offset(), Self::bits(), S::bits()),
    ;
}

impl<T: Sample, U: FromSample<T>> IntoSample<U> for T {
    fn into_sample(self) -> (converted: U) {
        U::from_sample(self)
    }
}

} // verus!
