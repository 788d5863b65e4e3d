//! Sample formats: the value of one channel at one instant.

pub mod conv;

pub use self::conv::{FromSample, IntoSample};

use vstd::prelude::*;

verus! {

/// The `exponent`-th power of 2.
pub open spec fn pow2(exponent: nat) -> int
    decreases exponent,
{
    if exponent == 0 {
        1
    } else {
        2 * pow2((exponent - 1) as nat)
    }
}

/// A sample format: a type whose values measure the signal of one channel.
///
/// The integer `level` of a sample is its mathematical model: samples are
/// ordered, and told apart, by their levels alone. A format of `bits` bits
/// has as many levels below its equilibrium as a signed integer of that
/// width has below 0, and as many from the equilibrium up as that has from
/// 0 up.
pub trait Sample: Copy + Sized {
    /// The integer that this sample stands for.
    spec fn level(self) -> int;

    /// The level halfway between the two ends of the format's range, which
    /// stands for silence.
    spec fn equilibrium_level() -> int;

    /// The number of bits of the format, between 8 and 128.
    spec fn bits() -> nat;

    /// The distance of this sample from the equilibrium.
    open spec fn offset(self) -> int {
        self.level() - Self::equilibrium_level()
    }

    /// Two samples of the same level are the same sample.
    proof fn lemma_level_is_injective(a: Self, b: Self)
        requires
            a.level() == b.level(),
        ensures
            a == b,
    ;

    /// A format has between 8 and 128 bits.
    proof fn lemma_bits_range()
        ensures
            8 <= Self::bits() <= 128,
    ;

    /// The offsets of a format are those of a signed integer of its width.
    proof fn lemma_offset_range(s: Self)
        ensures
            -pow2((Self::bits() - 1) as nat) <= s.offset() < pow2((Self::bits() - 1) as nat),
    ;

    /// The sample that stands for silence.
    fn equilibrium() -> (e: Self)
        ensures
            e.level() == Self::equilibrium_level(),
    ;

    /// The number of bits of the format.
    fn bit_width() -> (bits: u32)
        ensures
            bits == Self::bits(),
    ;

    /// Whether this sample lies strictly below `other`.
    fn precedes(self, other: Self) -> (b: bool)
        ensures
            b == (self.level() < other.level()),
    ;

    /// The distance of this sample from the equilibrium.
    fn to_offset(self) -> (offset: i128)
        ensures
            offset == self.offset(),
    ;

    /// The sample at the distance `offset` from the equilibrium.
    fn from_offset(offset: i128) -> (s: Self)
        requires
            -pow2((Self::bits() - 1) as nat) <= offset < pow2((Self::bits() - 1) as nat),
        ensures
            s.offset() == offset,
    ;
}

/// A sample format whose equilibrium is the level 0.
pub trait SignedSample: Sample {
    /// The equilibrium of a signed format is 0.
    proof fn lemma_equilibrium_is_zero()
        ensures
            Self::equilibrium_level() == 0,
    ;

    /// This sample raised by the amplitude `amp`.
    fn add_amp(self, amp: Self) -> (sum: Self)
        requires
            -pow2((Self::bits() - 1) as nat) <= self.level() + amp.level() < pow2(
                (Self::bits() - 1) as nat,
            ),
        ensures
            sum.level() == self.level() + amp.level(),
    ;

    /// This sample lowered by the amplitude `amp`.
    fn sub_amp(self, amp: Self) -> (difference: Self)
        requires
            -pow2((Self::bits() - 1) as nat) <= self.level() - amp.level() < pow2(
                (Self::bits() - 1) as nat,
            ),
        ensures
            difference.level() == self.level() - amp.level(),
    ;
}

/// The powers of 2 that bound the sample formats.
pub proof fn lemma_pow2_values()
    ensures
        pow2(7) == 0x80,
        pow2(15) == 0x8000,
        pow2(31) == 0x8000_0000,
        pow2(63) == 0x8000_0000_0000_0000,
        pow2(127) == 0x8000_0000_0000_0000_0000_0000_0000_0000,
{
    reveal_with_fuel(pow2, 16);
    assert(pow2(7) == 0x80);
    assert(pow2(15) == 0x8000);
    assert(pow2(31) == 0x1_0000 * pow2(15));
    assert(pow2(47) == 0x1_0000 * pow2(31));
    assert(pow2(63) == 0x1_0000 * pow2(47));
    assert(pow2(79) == 0x1_0000 * pow2(63));
    assert(pow2(95) == 0x1_0000 * pow2(79));
    assert(pow2(111) == 0x1_0000 * pow2(95));
    assert(pow2(127) == 0x1_0000 * pow2(111));
}

impl Sample for i8 {
    open spec fn level(self) -> int {
        self as int
    }

    open spec fn equilibrium_level() -> int {
        0
    }

    open spec fn bits() -> nat {
        8
    }

    proof fn lemma_level_is_injective(a: Self, b: Self) {
    }

    proof fn lemma_bits_range() {
    }

    proof fn lemma_offset_range(s: Self) {
        lemma_pow2_values();
    }

    fn equilibrium() -> (e: Self) {
        0
    }

    fn bit_width() -> (bits: u32) {
        8
    }

    fn precedes(self, other: Self) -> (b: bool) {
        self < other
    }

    fn to_offset(self) -> (offset: i128) {
        self as i128
    }

    fn from_offset(offset: i128) -> (s: Self) {
        proof {
            lemma_pow2_values();
        }
        offset as i8
    }
}

impl Sample for i16 {
    open spec fn level(self) -> int {
        self as int
    }

    open spec fn equilibrium_level() -> int {
        0
    }

    open spec fn bits() -> nat {
        16
    }

    proof fn lemma_level_is_injective(a: Self, b: Self) {
    }

    proof fn lemma_bits_range() {
    }

    proof fn lemma_offset_range(s: Self) {
        lemma_pow2_values();
    }

    fn equilibrium() -> (e: Self) {
        0
    }

    fn bit_width() -> (bits: u32) {
        16
    }

    fn precedes(self, other: Self) -> (b: bool) {
        self < other
    }

    fn to_offset(self) -> (offset: i128) {
        self as i128
    }

    fn from_offset(offset: i128) -> (s: Self) {
        proof {
            lemma_pow2_values();
        }
        offset as i16
    }
}

impl Sample for i32 {
    open spec fn level(self) -> int {
        self as int
    }

    open spec fn equilibrium_level() -> int {
        0
    }

    open spec fn bits() -> nat {
        32
    }

    proof fn lemma_level_is_injective(a: Self, b: Self) {
    }

    proof fn lemma_bits_range() {
    }

    proof fn lemma_offset_range(s: Self) {
        lemma_pow2_values();
    }

    fn equilibrium() -> (e: Self) {
        0
    }

    fn bit_width() -> (bits: u32) {
        32
    }

    fn precedes(self, other: Self) -> (b: bool) {
        self < other
    }

    fn to_offset(self) -> (offset: i128) {
        self as i128
    }

    fn from_offset(offset: i128) -> (s: Self) {
        proof {
            lemma_pow2_values();
        }
        offset as i32
    }
}

impl Sample for i64 {
    open spec fn level(self) -> int {
        self as int
    }

    open spec fn equilibrium_level() -> int {
        0
    }

    open spec fn bits() -> nat {
        64
    }

    proof fn lemma_level_is_injective(a: Self, b: Self) {
    }

    proof fn lemma_bits_range() {
    }

    proof fn lemma_offset_range(s: Self) {
        lemma_pow2_values();
    }

    fn equilibrium() -> (e: Self) {
        0
    }

    fn bit_width() -> (bits: u32) {
        64
    }

    fn precedes(self, other: Self) -> (b: bool) {
        self < other
    }

    fn to_offset(self) -> (offset: i128) {
        self as i128
    }

    fn from_offset(offset: i128) -> (s: Self) {
        proof {
            lemma_pow2_values();
        }
        offset as i64
    }
}

impl Sample for i128 {
    open spec fn level(self) -> int {
        self as int
    }

    open spec fn equilibrium_level() -> int {
        0
    }

    open spec fn bits() -> nat {
        128
    }

    proof fn lemma_level_is_injective(a: Self, b: Self) {
    }

    proof fn lemma_bits_range() {
    }

    proof fn lemma_offset_range(s: Self) {
        lemma_pow2_values();
    }

    fn equilibrium() -> (e: Self) {
        0
    }

    fn bit_width() -> (bits: u32) {
        128
    }

    fn precedes(self, other: Self) -> (b: bool) {
        self < other
    }

    fn to_offset(self) -> (offset: i128) {
        self as i128
    }

    fn from_offset(offset: i128) -> (s: Self) {
        proof {
            lemma_pow2_values();
        }
        offset as i128
    }
}

impl Sample for u8 {
    open spec fn level(self) -> int {
        self as int
    }

    open spec fn equilibrium_level() -> int {
        0x80
    }

    open spec fn bits() -> nat {
        8
    }

    proof fn lemma_level_is_injective(a: Self, b: Self) {
    }

    proof fn lemma_bits_range() {
    }

    proof fn lemma_offset_range(s: Self) {
        lemma_pow2_values();
    }

    fn equilibrium() -> (e: Self) {
        0x80
    }

    fn bit_width() -> (bits: u32) {
        8
    }

    fn precedes(self, other: Self) -> (b: bool) {
        self < other
    }

    fn to_offset(self) -> (offset: i128) {
        (self as i128) - 0x80
    }

    fn from_offset(offset: i128) -> (s: Self) {
        proof {
            lemma_pow2_values();
        }
        (offset + 0x80) as u8
    }
}

impl Sample for u16 {
    open spec fn level(self) -> int {
        self as int
    }

    open spec fn equilibrium_level() -> int {
        0x8000
    }

    open spec fn bits() -> nat {
        16
    }

    proof fn lemma_level_is_injective(a: Self, b: Self) {
    }

    proof fn lemma_bits_range() {
    }

    proof fn lemma_offset_range(s: Self) {
        lemma_pow2_values();
    }

    fn equilibrium() -> (e: Self) {
        0x8000
    }

    fn bit_width() -> (bits: u32) {
        16
    }

    fn precedes(self, other: Self) -> (b: bool) {
        self < other
    }

    fn to_offset(self) -> (offset: i128) {
        (self as i128) - 0x8000
    }

    fn from_offset(offset: i128) -> (s: Self) {
        proof {
            lemma_pow2_values();
        }
        (offset + 0x8000) as u16
    }
}

impl Sample for u32 {
    open spec fn level(self) -> int {
        self as int
    }

    open spec fn equilibrium_level() -> int {
        0x8000_0000
    }

    open spec fn bits() -> nat {
        32
    }

    proof fn lemma_level_is_injective(a: Self, b: Self) {
    }

    proof fn lemma_bits_range() {
    }

    proof fn lemma_offset_range(s: Self) {
        lemma_pow2_values();
    }

    fn equilibrium() -> (e: Self) {
        0x8000_0000
    }

    fn bit_width() -> (bits: u32) {
        32
    }

    fn precedes(self, other: Self) -> (b: bool) {
        self < other
    }

    fn to_offset(self) -> (offset: i128) {
        (self as i128) - 0x8000_0000
    }

    fn from_offset(offset: i128) -> (s: Self) {
        proof {
            lemma_pow2_values();
        }
        (offset + 0x8000_0000) as u32
    }
}

impl Sample for u64 {
    open spec fn level(self) -> int {
        self as int
    }

    open spec fn equilibrium_level() -> int {
        0x8000_0000_0000_0000
    }

    open spec fn bits() -> nat {
        64
    }

    proof fn lemma_level_is_injective(a: Self, b: Self) {
    }

    proof fn lemma_bits_range() {
    }

    proof fn lemma_offset_range(s: Self) {
        lemma_pow2_values();
    }

    fn equilibrium() -> (e: Self) {
        0x8000_0000_0000_0000
    }

    fn bit_width() -> (bits: u32) {
        64
    }

    fn precedes(self, other: Self) -> (b: bool) {
        self < other
    }

    fn to_offset(self) -> (offset: i128) {
        (self as i128) - 0x8000_0000_0000_0000
    }

    fn from_offset(offset: i128) -> (s: Self) {
        proof {
            lemma_pow2_values();
        }
        (offset + 0x8000_0000_0000_0000) as u64
    }
}

impl Sample for u128 {
    open spec fn level(self) -> int {
        self as int
    }

    open spec fn equilibrium_level() -> int {
        0x8000_0000_0000_0000_0000_0000_0000_0000
    }

    open spec fn bits() -> nat {
        128
    }

    proof fn lemma_level_is_injective(a: Self, b: Self) {
    }

    proof fn lemma_bits_range() {
    }

    proof fn lemma_offset_range(s: Self) {
        lemma_pow2_values();
    }

    fn equilibrium() -> (e: Self) {
        0x8000_0000_0000_0000_0000_0000_0000_0000
    }

    fn bit_width() -> (bits: u32) {
        128
    }

    fn precedes(self, other: Self) -> (b: bool) {
        self < other
    }

    fn to_offset(self) -> (offset: i128) {
        if self >= 0x8000_0000_0000_0000_0000_0000_0000_0000 {
            (self - 0x8000_0000_0000_0000_0000_0000_0000_0000) as i128
        } else {
            (self as i128) + i128::MIN
        }
    }

    fn from_offset(offset: i128) -> (s: Self) {
        proof {
            lemma_pow2_values();
        }
        if offset >= 0 {
            (offset as u128) + 0x8000_0000_0000_0000_0000_0000_0000_0000
        } else {
            (offset - i128::MIN) as u128
        }
    }
}

impl SignedSample for i8 {
    proof fn lemma_equilibrium_is_zero() {
    }

    fn add_amp(self, amp: Self) -> (sum: Self) {
        proof {
            lemma_pow2_values();
        }
        self + amp
    }

    fn sub_amp(self, amp: Self) -> (difference: Self) {
        proof {
            lemma_pow2_values();
        }
        self - amp
    }
}

impl SignedSample for i16 {
    proof fn lemma_equilibrium_is_zero() {
    }

    fn add_amp(self, amp: Self) -> (sum: Self) {
        proof {
            lemma_pow2_values();
        }
        self + amp
    }

    fn sub_amp(self, amp: Self) -> (difference: Self) {
        proof {
            lemma_pow2_values();
        }
        self - amp
    }
}

impl SignedSample for i32 {
    proof fn lemma_equilibrium_is_zero() {
    }

    fn add_amp(self, amp: Self) -> (sum: Self) {
        proof {
            lemma_pow2_values();
        }
        self + amp
    }

    fn sub_amp(self, amp: Self) -> (difference: Self) {
        proof {
            lemma_pow2_values();
        }
        self - amp
    }
}

impl SignedSample for i64 {
    proof fn lemma_equilibrium_is_zero() {
    }

    fn add_amp(self, amp: Self) -> (sum: Self) {
        proof {
            lemma_pow2_values();
        }
        self + amp
    }

    fn sub_amp(self, amp: Self) -> (difference: Self) {
        proof {
            lemma_pow2_values();
        }
        self - amp
    }
}

impl SignedSample for i128 {
    proof fn lemma_equilibrium_is_zero() {
    }

    fn add_amp(self, amp: Self) -> (sum: Self) {
        proof {
            lemma_pow2_values();
        }
        self + amp
    }

    fn sub_amp(self, amp: Self) -> (difference: Self) {
        proof {
            lemma_pow2_values();
        }
        self - amp
    }
}

} // verus!
