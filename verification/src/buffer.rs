//! The unsigned integer types that can serve as a bit-packing buffer.
use crate::bitmath::{
    bit_and, bit_or, lemma_and_low_mask, lemma_mask_from_max, lemma_shl_truncates, low_mask,
};
use vstd::arithmetic::mul::*;
use vstd::arithmetic::power2::*;
use vstd::bits::*;
use std::ops::{BitAnd, BitOr, Not, Shl, Shr};
use vstd::prelude::*;

verus! {

/// An unsigned integer type that can serve as a bit-packing buffer.
///
/// Implemented for [`u8`], [`u16`], [`u32`], [`u64`], and [`u128`]. The
/// operations are specified over the buffer's value as a natural number.
pub trait Buffer:
    Shl<u32, Output = Self> + Shr<u32, Output = Self> + BitOr<Output = Self> + BitAnd<
        Output = Self,
    > + Not<Output = Self> + Eq + Copy + Sized {
    /// The zero value.
    const ZERO: Self;
    /// The unit value (`1`).
    const ONE: Self;
    /// The maximum value (all bits set).
    const MAX: Self;
    /// The number of bits in this type.
    const BITS: u32;

    /// The buffer as a natural number.
    spec fn value(&self) -> nat;

    /// The constants mean what their names say, and every value fits in
    /// `BITS` bits.
    proof fn lemma_buffer_facts(x: Self)
        ensures
            Self::ZERO.value() == 0,
            Self::ONE.value() == 1,
            Self::MAX.value() == low_mask(Self::BITS as nat),
            8 <= Self::BITS <= 128,
            x.value() < pow2(Self::BITS as nat),
    ;

    /// `self << n`: the bits shifted past `BITS` are lost.
    fn shift_left(self, n: u32) -> (r: Self)
        requires
            n < Self::BITS,
        ensures
            r.value() == (self.value() * pow2(n as nat)) % pow2(Self::BITS as nat),
    ;

    /// `self >> n`.
    fn shift_right(self, n: u32) -> (r: Self)
        requires
            n < Self::BITS,
        ensures
            r.value() == self.value() / pow2(n as nat),
    ;

    /// `self & rhs`.
    fn and_with(self, rhs: Self) -> (r: Self)
        ensures
            r.value() == bit_and(self.value(), rhs.value()),
    ;

    /// `self | rhs`.
    fn or_with(self, rhs: Self) -> (r: Self)
        ensures
            r.value() == bit_or(self.value(), rhs.value()),
    ;

    /// `self == rhs`.
    fn equals(self, rhs: Self) -> (r: bool)
        ensures
            r == (self.value() == rhs.value()),
    ;
}

/// The constants of each buffer type: `BITS` is the width of the type,
/// `ZERO` and `ONE` are `0` and `1`, `MAX` has every bit set.
pub proof fn lemma_buffer_constants()
    ensures
        <u8 as Buffer>::BITS == 8 && <u8 as Buffer>::ZERO == 0 && <u8 as Buffer>::ONE == 1
            && <u8 as Buffer>::MAX == u8::MAX,
        <u16 as Buffer>::BITS == 16 && <u16 as Buffer>::ZERO == 0 && <u16 as Buffer>::ONE == 1
            && <u16 as Buffer>::MAX == u16::MAX,
        <u32 as Buffer>::BITS == 32 && <u32 as Buffer>::ZERO == 0 && <u32 as Buffer>::ONE == 1
            && <u32 as Buffer>::MAX == u32::MAX,
        <u64 as Buffer>::BITS == 64 && <u64 as Buffer>::ZERO == 0 && <u64 as Buffer>::ONE == 1
            && <u64 as Buffer>::MAX == u64::MAX,
        <u128 as Buffer>::BITS == 128 && <u128 as Buffer>::ZERO == 0 && <u128 as Buffer>::ONE == 1
            && <u128 as Buffer>::MAX == u128::MAX,
{
}

proof fn lemma_u128_and(x: u128, y: u128)
    ensures
        (x & y) as nat == bit_and(x as nat, y as nat),
    decreases x,
{
    if x == 0 || y == 0 {
        assert(x == 0 || y == 0 ==> x & y == 0) by (bit_vector);
    } else {
        assert(x & y == 2 * ((x / 2) & (y / 2)) + (x % 2) * (y % 2)) by (bit_vector);
        lemma_u128_and(x / 2, y / 2);
    }
}

proof fn lemma_u128_or(x: u128, y: u128)
    ensures
        (x | y) as nat == bit_or(x as nat, y as nat),
    decreases x + y,
{
    if x == 0 {
        assert(x == 0 ==> x | y == y) by (bit_vector);
    } else if y == 0 {
        assert(y == 0 ==> x | y == x) by (bit_vector);
    } else {
        assert(x | y == 2 * ((x / 2) | (y / 2)) + (if x % 2 == 1 || y % 2 == 1 {
            1u128
        } else {
            0u128
        })) by (bit_vector);
        lemma_u128_or(x / 2, y / 2);
    }
}

proof fn lemma_u128_shl_is_mul(x: u128, n: u128)
    requires
        n < 128,
        x * pow2(n as nat) <= u128::MAX,
    ensures
        x << n == x * pow2(n as nat),
    decreases n,
{
    if n == 0 {
        assert(x << 0 == x) by (bit_vector);
        lemma2_to64();
    } else {
        assert(x << n == ((x << ((n - 1) as u128)) * 2) as u128) by (bit_vector)
            requires
                0 < n < 128,
        ;
        lemma_pow2_unfold(n as nat);
        lemma_pow2_strictly_increases((n - 1) as nat, n as nat);
        lemma_mul_inequality(pow2((n - 1) as nat) as int, pow2(n as nat) as int, x as int);
        lemma_mul_is_commutative(x as int, pow2((n - 1) as nat) as int);
        lemma_mul_is_commutative(x as int, pow2(n as nat) as int);
        lemma_u128_shl_is_mul(x, (n - 1) as u128);
        lemma_mul_is_associative(x as int, pow2((n - 1) as nat) as int, 2);
    }
}

proof fn lemma_pow2_128()
    ensures
        pow2(128) == 0x1_0000_0000_0000_0000_0000_0000_0000_0000,
{
    lemma2_to64();
    lemma2_to64_rest();
    lemma_pow2_adds(64, 64);
}

proof fn lemma_u8_and(x: u8, y: u8)
    ensures
        (x & y) as nat == bit_and(x as nat, y as nat),
{
    assert((x & y) as u128 == (x as u128) & (y as u128)) by (bit_vector);
    lemma_u128_and(x as u128, y as u128);
}

proof fn lemma_u8_or(x: u8, y: u8)
    ensures
        (x | y) as nat == bit_or(x as nat, y as nat),
{
    assert((x | y) as u128 == (x as u128) | (y as u128)) by (bit_vector);
    lemma_u128_or(x as u128, y as u128);
}

impl Buffer for u8 {
    const ZERO: Self = 0;
    const ONE: Self = 1;
    const MAX: Self = u8::MAX;
    const BITS: u32 = 8;

    open spec fn value(&self) -> nat {
        *self as nat
    }

    proof fn lemma_buffer_facts(x: Self) {
        lemma2_to64();
    }

    fn shift_left(self, n: u32) -> (r: Self) {
        let k = n as u8;
        proof {
            lemma2_to64();
            let m = u8::MAX >> k;
            assert(self << k == (self & (u8::MAX >> k)) << k) by (bit_vector)
                requires
                    k < 8,
            ;
            lemma_u8_shr_is_div(u8::MAX, k);
            lemma_mask_from_max(8, (8 - n) as nat);
            lemma_u8_and(self, m);
            lemma_and_low_mask(self as nat, (8 - n) as nat);
            lemma_shl_truncates(self as nat, n as nat, 8);
            lemma_u8_shl_is_mul(self & m, k);
        }
        self << k
    }

    fn shift_right(self, n: u32) -> (r: Self) {
        proof {
            lemma_u8_shr_is_div(self, n as u8);
        }
        self >> (n as u8)
    }

    fn and_with(self, rhs: Self) -> (r: Self) {
        proof {
            lemma_u8_and(self, rhs);
        }
        self & rhs
    }

    fn or_with(self, rhs: Self) -> (r: Self) {
        proof {
            lemma_u8_or(self, rhs);
        }
        self | rhs
    }

    fn equals(self, rhs: Self) -> (r: bool) {
        self == rhs
    }
}

proof fn lemma_u16_and(x: u16, y: u16)
    ensures
        (x & y) as nat == bit_and(x as nat, y as nat),
{
    assert((x & y) as u128 == (x as u128) & (y as u128)) by (bit_vector);
    lemma_u128_and(x as u128, y as u128);
}

proof fn lemma_u16_or(x: u16, y: u16)
    ensures
        (x | y) as nat == bit_or(x as nat, y as nat),
{
    assert((x | y) as u128 == (x as u128) | (y as u128)) by (bit_vector);
    lemma_u128_or(x as u128, y as u128);
}

impl Buffer for u16 {
    const ZERO: Self = 0;
    const ONE: Self = 1;
    const MAX: Self = u16::MAX;
    const BITS: u32 = 16;

    open spec fn value(&self) -> nat {
        *self as nat
    }

    proof fn lemma_buffer_facts(x: Self) {
        lemma2_to64();
    }

    fn shift_left(self, n: u32) -> (r: Self) {
        let k = n as u16;
        proof {
            lemma2_to64();
            let m = u16::MAX >> k;
            assert(self << k == (self & (u16::MAX >> k)) << k) by (bit_vector)
                requires
                    k < 16,
            ;
            lemma_u16_shr_is_div(u16::MAX, k);
            lemma_mask_from_max(16, (16 - n) as nat);
            lemma_u16_and(self, m);
            lemma_and_low_mask(self as nat, (16 - n) as nat);
            lemma_shl_truncates(self as nat, n as nat, 16);
            lemma_u16_shl_is_mul(self & m, k);
        }
        self << k
    }

    fn shift_right(self, n: u32) -> (r: Self) {
        proof {
            lemma_u16_shr_is_div(self, n as u16);
        }
        self >> (n as u16)
    }

    fn and_with(self, rhs: Self) -> (r: Self) {
        proof {
            lemma_u16_and(self, rhs);
        }
        self & rhs
    }

    fn or_with(self, rhs: Self) -> (r: Self) {
        proof {
            lemma_u16_or(self, rhs);
        }
        self | rhs
    }

    fn equals(self, rhs: Self) -> (r: bool) {
        self == rhs
    }
}

proof fn lemma_u32_and(x: u32, y: u32)
    ensures
        (x & y) as nat == bit_and(x as nat, y as nat),
{
    assert((x & y) as u128 == (x as u128) & (y as u128)) by (bit_vector);
    lemma_u128_and(x as u128, y as u128);
}

proof fn lemma_u32_or(x: u32, y: u32)
    ensures
        (x | y) as nat == bit_or(x as nat, y as nat),
{
    assert((x | y) as u128 == (x as u128) | (y as u128)) by (bit_vector);
    lemma_u128_or(x as u128, y as u128);
}

impl Buffer for u32 {
    const ZERO: Self = 0;
    const ONE: Self = 1;
    const MAX: Self = u32::MAX;
    const BITS: u32 = 32;

    open spec fn value(&self) -> nat {
        *self as nat
    }

    proof fn lemma_buffer_facts(x: Self) {
        lemma2_to64();
    }

    fn shift_left(self, n: u32) -> (r: Self) {
        let k = n as u32;
        proof {
            lemma2_to64();
            let m = u32::MAX >> k;
            assert(self << k == (self & (u32::MAX >> k)) << k) by (bit_vector)
                requires
                    k < 32,
            ;
            lemma_u32_shr_is_div(u32::MAX, k);
            lemma_mask_from_max(32, (32 - n) as nat);
            lemma_u32_and(self, m);
            lemma_and_low_mask(self as nat, (32 - n) as nat);
            lemma_shl_truncates(self as nat, n as nat, 32);
            lemma_u32_shl_is_mul(self & m, k);
        }
        self << k
    }

    fn shift_right(self, n: u32) -> (r: Self) {
        proof {
            lemma_u32_shr_is_div(self, n as u32);
        }
        self >> (n as u32)
    }

    fn and_with(self, rhs: Self) -> (r: Self) {
        proof {
            lemma_u32_and(self, rhs);
        }
        self & rhs
    }

    fn or_with(self, rhs: Self) -> (r: Self) {
        proof {
            lemma_u32_or(self, rhs);
        }
        self | rhs
    }

    fn equals(self, rhs: Self) -> (r: bool) {
        self == rhs
    }
}

proof fn lemma_u64_and(x: u64, y: u64)
    ensures
        (x & y) as nat == bit_and(x as nat, y as nat),
{
    assert((x & y) as u128 == (x as u128) & (y as u128)) by (bit_vector);
    lemma_u128_and(x as u128, y as u128);
}

proof fn lemma_u64_or(x: u64, y: u64)
    ensures
        (x | y) as nat == bit_or(x as nat, y as nat),
{
    assert((x | y) as u128 == (x as u128) | (y as u128)) by (bit_vector);
    lemma_u128_or(x as u128, y as u128);
}

impl Buffer for u64 {
    const ZERO: Self = 0;
    const ONE: Self = 1;
    const MAX: Self = u64::MAX;
    const BITS: u32 = 64;

    open spec fn value(&self) -> nat {
        *self as nat
    }

    proof fn lemma_buffer_facts(x: Self) {
        lemma2_to64();
        lemma2_to64_rest();
    }

    fn shift_left(self, n: u32) -> (r: Self) {
        let k = n as u64;
        proof {
            lemma2_to64();
            lemma2_to64_rest();
            let m = u64::MAX >> k;
            assert(self << k == (self & (u64::MAX >> k)) << k) by (bit_vector)
                requires
                    k < 64,
            ;
            lemma_u64_shr_is_div(u64::MAX, k);
            lemma_mask_from_max(64, (64 - n) as nat);
            lemma_u64_and(self, m);
            lemma_and_low_mask(self as nat, (64 - n) as nat);
            lemma_shl_truncates(self as nat, n as nat, 64);
            lemma_u64_shl_is_mul(self & m, k);
        }
        self << k
    }

    fn shift_right(self, n: u32) -> (r: Self) {
        proof {
            lemma_u64_shr_is_div(self, n as u64);
        }
        self >> (n as u64)
    }

    fn and_with(self, rhs: Self) -> (r: Self) {
        proof {
            lemma_u64_and(self, rhs);
        }
        self & rhs
    }

    fn or_with(self, rhs: Self) -> (r: Self) {
        proof {
            lemma_u64_or(self, rhs);
        }
        self | rhs
    }

    fn equals(self, rhs: Self) -> (r: bool) {
        self == rhs
    }
}

impl Buffer for u128 {
    const ZERO: Self = 0;
    const ONE: Self = 1;
    const MAX: Self = u128::MAX;
    const BITS: u32 = 128;

    open spec fn value(&self) -> nat {
        *self as nat
    }

    proof fn lemma_buffer_facts(x: Self) {
        lemma_pow2_128();
    }

    fn shift_left(self, n: u32) -> (r: Self) {
        let k = n as u128;
        proof {
            lemma_pow2_128();
            let m = u128::MAX >> k;
            assert(self << k == (self & (u128::MAX >> k)) << k) by (bit_vector)
                requires
                    k < 128,
            ;
            lemma_u128_shr_is_div(u128::MAX, k);
            lemma_mask_from_max(128, (128 - n) as nat);
            lemma_u128_and(self, m);
            lemma_and_low_mask(self as nat, (128 - n) as nat);
            lemma_shl_truncates(self as nat, n as nat, 128);
            lemma_u128_shl_is_mul(self & m, k);
        }
        self << k
    }

    fn shift_right(self, n: u32) -> (r: Self) {
        proof {
            lemma_u128_shr_is_div(self, n as u128);
        }
        self >> (n as u128)
    }

    fn and_with(self, rhs: Self) -> (r: Self) {
        proof {
            lemma_u128_and(self, rhs);
        }
        self & rhs
    }

    fn or_with(self, rhs: Self) -> (r: Self) {
        proof {
            lemma_u128_or(self, rhs);
        }
        self | rhs
    }

    fn equals(self, rhs: Self) -> (r: bool) {
        self == rhs
    }
}

} // verus!
