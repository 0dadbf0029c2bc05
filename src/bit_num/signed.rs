//! Signed narrow integers.
use crate::bit_num::{lemma_i64_pow2_le, lemma_u64_pow2_le, max_with_bits, narrow};
use crate::bit_ops::{lemma_nat_of_bound, lemma_window_split, nat_of, read_bits, write_bits};
use crate::bit_type::BitType;
use vstd::arithmetic::power2::*;
use vstd::bits::{lemma_u64_pow2_no_overflow, lemma_u64_shl_is_mul};
use vstd::prelude::*;

verus! {

/// A signed integer of `N` bits, held in an `i64`, stored in two's complement.
#[derive(Clone, Copy, Debug, Default, PartialEq, Eq)]
pub struct I<const N: usize>(pub i64);

/// Builds a signed integer of `N` bits; the value must fit.
pub fn ibits<const N: usize>(value: i64) -> (r: I<N>)
    requires
        I::<N>::spec_fits(value as int),
    ensures
        r.0 == value,
        r.spec_valid(),
{
    I::new(value)
}

/// The value that `n` bits hold read as two's complement.
pub open spec fn signed_of(x: nat, n: nat) -> int {
    if n == 0 {
        0
    } else if x >= pow2((n - 1) as nat) {
        x - pow2(n)
    } else {
        x as int
    }
}

/// Division rounded toward zero, as Rust's signed `/` does.
pub open spec fn div_toward_zero(a: int, b: int) -> int {
    let q = (abs(a) / abs(b)) as int;
    if (a < 0) != (b < 0) {
        -q
    } else {
        q
    }
}

/// The absolute value.
pub open spec fn abs(a: int) -> nat {
    if a < 0 {
        (-a) as nat
    } else {
        a as nat
    }
}

/// The absolute value of `a`, which fits a `u64` for every `i64`.
fn magnitude(a: i64) -> (r: u64)
    ensures
        r == abs(a as int),
{
    if a < 0 {
        ((-(a + 1)) as u64) + 1
    } else {
        a as u64
    }
}

impl<const N: usize> I<N> {
    /// Values that fit in `N` bits of two's complement.
    pub open spec fn spec_fits(value: int) -> bool {
        1 <= N <= 64 && -pow2((N - 1) as nat) <= value < pow2((N - 1) as nat)
    }

    /// Tests whether `value` fits in `N` bits of two's complement.
    pub fn fits(value: i64) -> (r: bool)
        ensures
            r == Self::spec_fits(value as int),
    {
        if N == 0 || N > 64 {
            return false;
        }
        proof {
            lemma_u64_pow2_no_overflow((N - 1) as nat);
        }
        let half = max_with_bits(N - 1);
        if value >= 0 {
            (value as u64) <= half
        } else {
            ((-(value + 1)) as u64) <= half
        }
    }

    /// Wraps `value`; it must fit in `N` bits.
    pub fn new(value: i64) -> (r: Self)
        requires
            Self::spec_fits(value as int),
        ensures
            r.0 == value,
    {
        I(value)
    }

    /// Whether the value is below zero.
    pub fn is_negative(self) -> (r: bool)
        ensures
            r == (self.0 < 0),
    {
        self.0 < 0
    }

    /// The value held, sign-extended to 64 bits.
    pub fn extract_underlying(self) -> (r: i64)
        ensures
            r == self.0,
    {
        self.0
    }

    /// Sum; it must fit in `N` bits.
    pub fn add(self, rhs: Self) -> (r: Self)
        requires
            Self::spec_fits(self.0 + rhs.0),
        ensures
            r.0 == self.0 + rhs.0,
    {
        proof {
            lemma_i64_pow2_le((N - 1) as nat);
        }
        I(self.0 + rhs.0)
    }

    /// Difference; it must fit in `N` bits.
    pub fn sub(self, rhs: Self) -> (r: Self)
        requires
            Self::spec_fits(self.0 - rhs.0),
        ensures
            r.0 == self.0 - rhs.0,
    {
        proof {
            lemma_i64_pow2_le((N - 1) as nat);
        }
        I(self.0 - rhs.0)
    }

    /// Product; it must fit in `N` bits.
    pub fn mul(self, rhs: Self) -> (r: Self)
        requires
            Self::spec_fits(self.0 * rhs.0),
        ensures
            r.0 == self.0 * rhs.0,
    {
        proof {
            lemma_i64_pow2_le((N - 1) as nat);
        }
        I(self.0 * rhs.0)
    }

    /// Quotient, rounded toward zero; the divisor must not be zero and the
    /// quotient must fit in `N` bits.
    pub fn div(self, rhs: Self) -> (r: Self)
        requires
            rhs.0 != 0,
            Self::spec_fits(div_toward_zero(self.0 as int, rhs.0 as int)),
        ensures
            r.0 == div_toward_zero(self.0 as int, rhs.0 as int),
    {
        let a = magnitude(self.0);
        let b = magnitude(rhs.0);
        let q = a / b;
        proof {
            lemma_i64_pow2_le((N - 1) as nat);
        }
        if q == 0 {
            I(0)
        } else if (self.0 < 0) != (rhs.0 < 0) {
            I(-((q - 1) as i64) - 1)
        } else {
            I(q as i64)
        }
    }

    /// Shift left by `rhs` places, that is, multiplication by `2^rhs`; the
    /// result must fit in `N` bits.
    pub fn shl(self, rhs: u32) -> (r: Self)
        requires
            rhs < 64,
            Self::spec_fits(self.0 * pow2(rhs as nat)),
        ensures
            r.0 == self.0 * pow2(rhs as nat),
    {
        let a = magnitude(self.0);
        proof {
            lemma_u64_pow2_no_overflow(rhs as nat);
            lemma_u64_shl_is_mul(1, rhs as u64);
            lemma_i64_pow2_le((N - 1) as nat);
            lemma_pow2_pos(rhs as nat);
            let pp = pow2(rhs as nat) as int;
            if self.0 < 0 {
                vstd::arithmetic::mul::lemma_mul_unary_negation(self.0 as int, pp);
                vstd::arithmetic::mul::lemma_mul_inequality(1, a as int, pp);
            }
            assert(a * pp == abs(self.0 * pp));
        }
        let p = 1u64 << rhs as u64;
        let prod = a * p;
        if self.0 < 0 {
            I(-((prod - 1) as i64) - 1)
        } else {
            I(prod as i64)
        }
    }

    /// Shift right by `rhs` places, that is, division by `2^rhs` rounded
    /// down.
    pub fn shr(self, rhs: u32) -> (r: Self)
        requires
            rhs < 64,
        ensures
            r.0 == (self.0 as int) / (pow2(rhs as nat) as int),
    {
        proof {
            lemma_u64_pow2_no_overflow(rhs as nat);
            lemma_pow2_pos(rhs as nat);
        }
        if self.0 >= 0 {
            let q = (self.0 as u64) >> rhs as u64;
            proof {
                vstd::bits::lemma_u64_shr_is_div(self.0 as u64, rhs as u64);
            }
            I(q as i64)
        } else {
            let m = (-(self.0 + 1)) as u64;
            let q = m >> rhs as u64;
            proof {
                let p = pow2(rhs as nat) as int;
                vstd::bits::lemma_u64_shr_is_div(m, rhs as u64);
                vstd::arithmetic::div_mod::lemma_fundamental_div_mod(m as int, p);
                vstd::arithmetic::div_mod::lemma_mod_bound(m as int, p);
                vstd::arithmetic::div_mod::lemma_div_pos_is_pos(m as int, p);
                vstd::arithmetic::div_mod::lemma_div_is_ordered_by_denominator(m as int, 1, p);
                assert(m as int / 1 == m);
                vstd::arithmetic::mul::lemma_mul_is_commutative(m as int / p, p);
                vstd::arithmetic::mul::lemma_mul_is_distributive_add_other_way(p, -(m as int / p), -1);
                vstd::arithmetic::mul::lemma_mul_unary_negation(m as int / p, p);
                vstd::arithmetic::div_mod::lemma_fundamental_div_mod_converse(
                    self.0 as int,
                    p,
                    -(m as int / p) - 1,
                    p - (m as int % p) - 1,
                );
            }
            I(-(q as i64) - 1)
        }
    }

    /// Adds `rhs` in place; the sum must fit in `N` bits.
    pub fn add_assign(&mut self, rhs: Self)
        requires
            Self::spec_fits(old(self).0 + rhs.0),
        ensures
            final(self).0 == old(self).0 + rhs.0,
    {
        *self = self.add(rhs);
    }

    /// Subtracts `rhs` in place; the difference must fit in `N` bits.
    pub fn sub_assign(&mut self, rhs: Self)
        requires
            Self::spec_fits(old(self).0 - rhs.0),
        ensures
            final(self).0 == old(self).0 - rhs.0,
    {
        *self = self.sub(rhs);
    }

    /// Multiplies by `rhs` in place; the product must fit in `N` bits.
    pub fn mul_assign(&mut self, rhs: Self)
        requires
            Self::spec_fits(old(self).0 * rhs.0),
        ensures
            final(self).0 == old(self).0 * rhs.0,
    {
        *self = self.mul(rhs);
    }

    /// Shifts left in place, under the conditions of `shl`.
    pub fn shl_assign(&mut self, rhs: u32)
        requires
            rhs < 64,
            Self::spec_fits(old(self).0 * pow2(rhs as nat)),
        ensures
            final(self).0 == old(self).0 * pow2(rhs as nat),
    {
        *self = self.shl(rhs);
    }

    /// Shifts right in place.
    pub fn shr_assign(&mut self, rhs: u32)
        requires
            rhs < 64,
        ensures
            final(self).0 == (old(self).0 as int) / (pow2(rhs as nat) as int),
    {
        *self = self.shr(rhs);
    }

    /// Divides by `rhs` in place, under the conditions of `div`.
    pub fn div_assign(&mut self, rhs: Self)
        requires
            rhs.0 != 0,
            Self::spec_fits(div_toward_zero(old(self).0 as int, rhs.0 as int)),
        ensures
            final(self).0 == div_toward_zero(old(self).0 as int, rhs.0 as int),
    {
        *self = self.div(rhs);
    }
}

impl<const N: usize> BitType for I<N> {
    open spec fn spec_bits() -> nat {
        N as nat
    }

    /// Widths over 64 keep the low 64 bits, which is all an `i64` holds.
    open spec fn spec_decode(bits: Seq<bool>) -> Self {
        I(
            signed_of(
                nat_of(bits.subrange(0, narrow(N as nat) as int)),
                narrow(N as nat),
            ) as i64,
        )
    }

    open spec fn spec_valid(&self) -> bool {
        Self::spec_fits(self.0 as int)
    }

    fn bits() -> (r: usize) {
        N
    }

    fn from_aligned(aligned: &Self, slice: &mut [u8], offset: usize) {
        let v = aligned.0;
        proof {
            lemma_u64_pow2_le(N as nat);
            lemma_pow2_unfold(N as nat);
        }
        let m = max_with_bits(N);
        let pattern: u64 = if v >= 0 {
            v as u64
        } else {
            m - ((-(v + 1)) as u64)
        };
        write_bits(slice, offset, N, pattern);
        proof {
            lemma_window_split(slice@, offset as int, N as int, 0, N as int);
        }
    }

    fn to_aligned(slice: &[u8], offset: usize) -> (r: Self) {
        let n = if N > 64 {
            64
        } else {
            N
        };
        proof {
            lemma_window_split(slice@, offset as int, N as int, 0, n as int);
        }
        let x = read_bits(slice, offset, n);
        if n == 0 {
            return I(0);
        }
        proof {
            lemma_nat_of_bound(crate::bit_ops::window(slice@, offset as int, n as int));
            lemma_u64_pow2_no_overflow((n - 1) as nat);
            lemma_u64_pow2_le(n as nat);
            lemma_pow2_unfold(n as nat);
        }
        let half = max_with_bits(n - 1);
        let m = max_with_bits(n);
        if x > half {
            I(-((m - x) as i64) - 1)
        } else {
            I(x as i64)
        }
    }
}

/// A decoded signed integer of `N` bits fits in `N` bits.
proof fn lemma_decoded_fits<const N: usize>(bits: Seq<bool>)
    requires
        1 <= N <= 64,
        bits.len() == N,
    ensures
        I::<N>::spec_fits(I::<N>::spec_decode(bits).0 as int),
{
    lemma_nat_of_bound(bits.subrange(0, N as int));
    lemma_pow2_unfold(N as nat);
    lemma_i64_pow2_le((N - 1) as nat);
}

impl BitType for i8 {
    open spec fn spec_bits() -> nat {
        8
    }

    open spec fn spec_decode(bits: Seq<bool>) -> Self {
        I::<8>::spec_decode(bits).0 as i8
    }

    open spec fn spec_valid(&self) -> bool {
        true
    }

    fn bits() -> (r: usize) {
        8
    }

    fn from_aligned(aligned: &Self, slice: &mut [u8], offset: usize) {
        proof {
            lemma2_to64();
            lemma2_to64_rest();
        }
        I::<8>::from_aligned(&I(*aligned as i64), slice, offset);
    }

    fn to_aligned(slice: &[u8], offset: usize) -> (r: Self) {
        let v = I::<8>::to_aligned(slice, offset);
        proof {
            lemma2_to64();
            lemma2_to64_rest();
            lemma_decoded_fits::<8>(crate::bit_ops::window(slice@, offset as int, 8));
        }
        v.0 as i8
    }
}

impl BitType for i16 {
    open spec fn spec_bits() -> nat {
        16
    }

    open spec fn spec_decode(bits: Seq<bool>) -> Self {
        I::<16>::spec_decode(bits).0 as i16
    }

    open spec fn spec_valid(&self) -> bool {
        true
    }

    fn bits() -> (r: usize) {
        16
    }

    fn from_aligned(aligned: &Self, slice: &mut [u8], offset: usize) {
        proof {
            lemma2_to64();
            lemma2_to64_rest();
        }
        I::<16>::from_aligned(&I(*aligned as i64), slice, offset);
    }

    fn to_aligned(slice: &[u8], offset: usize) -> (r: Self) {
        let v = I::<16>::to_aligned(slice, offset);
        proof {
            lemma2_to64();
            lemma2_to64_rest();
            lemma_decoded_fits::<16>(crate::bit_ops::window(slice@, offset as int, 16));
        }
        v.0 as i16
    }
}

impl BitType for i32 {
    open spec fn spec_bits() -> nat {
        32
    }

    open spec fn spec_decode(bits: Seq<bool>) -> Self {
        I::<32>::spec_decode(bits).0 as i32
    }

    open spec fn spec_valid(&self) -> bool {
        true
    }

    fn bits() -> (r: usize) {
        32
    }

    fn from_aligned(aligned: &Self, slice: &mut [u8], offset: usize) {
        proof {
            lemma2_to64();
            lemma2_to64_rest();
        }
        I::<32>::from_aligned(&I(*aligned as i64), slice, offset);
    }

    fn to_aligned(slice: &[u8], offset: usize) -> (r: Self) {
        let v = I::<32>::to_aligned(slice, offset);
        proof {
            lemma2_to64();
            lemma2_to64_rest();
            lemma_decoded_fits::<32>(crate::bit_ops::window(slice@, offset as int, 32));
        }
        v.0 as i32
    }
}

impl BitType for i64 {
    open spec fn spec_bits() -> nat {
        64
    }

    open spec fn spec_decode(bits: Seq<bool>) -> Self {
        I::<64>::spec_decode(bits).0 as i64
    }

    open spec fn spec_valid(&self) -> bool {
        true
    }

    fn bits() -> (r: usize) {
        64
    }

    fn from_aligned(aligned: &Self, slice: &mut [u8], offset: usize) {
        proof {
            lemma2_to64();
            lemma2_to64_rest();
        }
        I::<64>::from_aligned(&I(*aligned as i64), slice, offset);
    }

    fn to_aligned(slice: &[u8], offset: usize) -> (r: Self) {
        let v = I::<64>::to_aligned(slice, offset);
        proof {
            lemma2_to64();
            lemma2_to64_rest();
            lemma_decoded_fits::<64>(crate::bit_ops::window(slice@, offset as int, 64));
        }
        v.0 as i64
    }
}

} // verus!
