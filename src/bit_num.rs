//! Narrow integers of any width from 1 to 64 bits, and the width arithmetic
//! that goes with them.
//!
//! Arithmetic on narrow integers is always checked: each operation requires
//! that its result fit the width, and then returns it exactly.
use crate::bit_ops::{lemma_window_split, nat_of, read_bits, write_bits};
use crate::bit_type::BitType;
use crate::magic::{bits_to_bytes, spec_bits_to_bytes};
use vstd::arithmetic::power2::*;
use vstd::bits::{lemma_u64_pow2_no_overflow, lemma_u64_shl_is_mul};
use vstd::prelude::*;

pub mod signed;

pub use self::signed::{ibits, I};

verus! {

/// The number of binary digits of `n` (zero for zero).
pub open spec fn spec_log2(n: nat) -> nat
    decreases n,
{
    if n == 0 {
        0
    } else {
        1 + spec_log2(n / 2)
    }
}

/// `n` needs exactly `spec_log2(n)` binary digits.
pub proof fn lemma_log2_bounds(n: nat)
    ensures
        n < pow2(spec_log2(n)),
        n > 0 ==> pow2((spec_log2(n) - 1) as nat) <= n,
    decreases n,
{
    if n == 0 {
        lemma2_to64();
    } else {
        lemma_log2_bounds(n / 2);
        lemma_pow2_unfold(spec_log2(n));
        if n / 2 == 0 {
            lemma2_to64();
        } else {
            lemma_pow2_unfold((spec_log2(n) - 1) as nat);
        }
    }
}

/// The number of binary digits of `n`.
pub fn log2(n: usize) -> (r: usize)
    ensures
        r == spec_log2(n as nat),
        n < pow2(r as nat),
        n > 0 ==> pow2((r - 1) as nat) <= n,
{
    let mut m = n;
    let mut k: usize = 0;
    proof {
        lemma_log2_bounds(n as nat);
        lemma2_to64_rest();
        if spec_log2(n as nat) > 64 {
            lemma_pow2_strictly_increases(64, (spec_log2(n as nat) - 1) as nat);
        }
    }
    while m > 0
        invariant
            k + spec_log2(m as nat) == spec_log2(n as nat),
            spec_log2(n as nat) <= 64,
        decreases m,
    {
        m = m / 2;
        k = k + 1;
    }
    proof {
        lemma_log2_bounds(n as nat);
    }
    k
}

/// `n`, or one in place of zero.
pub open spec fn at_least_one(n: nat) -> nat {
    if n == 0 {
        1
    } else {
        n
    }
}

/// The smallest power of two that is at least `n` (one for zero).
pub fn closest_pow_2(n: usize) -> (r: usize)
    requires
        n <= usize::MAX / 2,
    ensures
        r == pow2(spec_log2((at_least_one(n as nat) - 1) as nat)),
        r >= n,
        r >= 1,
        n > 1 ==> r < 2 * n,
{
    let m = if n == 0 {
        1
    } else {
        n
    };
    let k = log2(m - 1);
    let mut p: usize = 1;
    let mut i: usize = 0;
    proof {
        lemma2_to64();
        lemma_log2_bounds((m - 1) as nat);
    }
    while i < k
        invariant
            i <= k,
            k == spec_log2((m - 1) as nat),
            p == pow2(i as nat),
            m - 1 < pow2(k as nat),
            k > 0 ==> pow2((k - 1) as nat) <= m - 1,
            m <= usize::MAX / 2,
        decreases k - i,
    {
        proof {
            lemma_pow2_unfold((i + 1) as nat);
            lemma_pow2_unfold(k as nat);
            if i + 1 < k {
                lemma_pow2_strictly_increases((i + 1) as nat, k as nat);
            }
        }
        p = p * 2;
        i = i + 1;
    }
    proof {
        if k > 0 {
            lemma_pow2_unfold(k as nat);
        }
    }
    p
}

/// The largest value of `n` bits (all bits of a `u64` for `n >= 64`).
pub fn max_with_bits(num_bits: usize) -> (r: u64)
    ensures
        r == pow2(if num_bits >= 64 { 64 } else { num_bits as nat }) - 1,
{
    if num_bits >= 64 {
        proof {
            lemma2_to64_rest();
        }
        u64::MAX
    } else {
        proof {
            lemma_u64_pow2_no_overflow(num_bits as nat);
            lemma_u64_shl_is_mul(1, num_bits as u64);
        }
        (1u64 << num_bits as u64) - 1
    }
}

/// The width that a narrow integer of `n` bits is read and written with: at
/// most the 64 bits of its holder.
pub open spec fn narrow(n: nat) -> nat {
    if n > 64 {
        64
    } else {
        n
    }
}

/// A native integer width, named by its size in bytes.
pub struct Bytes<const N: usize>;

/// A native integer width and the types that have it.
pub trait Type {
    /// The next wider native width.
    type Higher;

    /// The unsigned integer of this width.
    type U;

    /// The signed integer of this width.
    type I;

    /// The width in bits.
    spec fn spec_bits() -> nat;

    /// The width in bits.
    fn bits() -> (r: usize)
        ensures
            r == Self::spec_bits(),
    ;
}

impl Type for Bytes<1> {
    type Higher = Bytes<2>;

    type U = u8;

    type I = i8;

    open spec fn spec_bits() -> nat {
        8
    }

    fn bits() -> (r: usize) {
        8
    }
}

impl Type for Bytes<2> {
    type Higher = Bytes<4>;

    type U = u16;

    type I = i16;

    open spec fn spec_bits() -> nat {
        16
    }

    fn bits() -> (r: usize) {
        16
    }
}

impl Type for Bytes<4> {
    type Higher = Bytes<8>;

    type U = u32;

    type I = i32;

    open spec fn spec_bits() -> nat {
        32
    }

    fn bits() -> (r: usize) {
        32
    }
}

impl Type for Bytes<8> {
    type Higher = Bytes<16>;

    type U = u64;

    type I = i64;

    open spec fn spec_bits() -> nat {
        64
    }

    fn bits() -> (r: usize) {
        64
    }
}

impl Type for Bytes<16> {
    type Higher = Bytes<16>;

    type U = u128;

    type I = i128;

    open spec fn spec_bits() -> nat {
        128
    }

    fn bits() -> (r: usize) {
        128
    }
}

/// The smallest native integer that holds `N` bits.
pub struct Underlying<const N: usize>;

impl<const N: usize> Underlying<N> {
    /// Size in bytes of the smallest native integer that holds `N` bits: the
    /// byte count of `N` bits rounded up to a power of two.
    pub fn bytes() -> (r: usize)
        requires
            N + 7 <= usize::MAX,
        ensures
            r == pow2(spec_log2((at_least_one(spec_bits_to_bytes(N as nat)) - 1) as nat)),
            8 * r >= N,
    {
        closest_pow_2(bits_to_bytes(N))
    }
}

/// An unsigned integer of `N` bits, held in a `u64`.
#[derive(Clone, Copy, Debug, Default, PartialEq, Eq)]
pub struct U<const N: usize>(pub u64);

/// Builds an unsigned integer of `N` bits; the value must fit.
pub fn ubits<const N: usize>(value: u64) -> (r: U<N>)
    requires
        N <= 64,
        value < pow2(N as nat),
    ensures
        r.0 == value,
        r.spec_valid(),
{
    U::new(value)
}

impl<const N: usize> U<N> {
    /// Values that fit in `N` bits.
    pub open spec fn spec_fits(value: int) -> bool {
        N <= 64 && 0 <= value < pow2(N as nat)
    }

    /// Wraps `value` without checking its width.
    pub fn new(value: u64) -> (r: Self)
        ensures
            r.0 == value,
    {
        U(value)
    }

    /// The value held.
    pub fn value(self) -> (r: u64)
        ensures
            r == self.0,
    {
        self.0
    }

    /// Sum; it must fit in `N` bits.
    pub fn add(self, rhs: Self) -> (r: Self)
        requires
            Self::spec_fits(self.0 + rhs.0),
        ensures
            r.0 == self.0 + rhs.0,
    {
        proof {
            lemma_u64_pow2_le(N as nat);
        }
        U(self.0 + rhs.0)
    }

    /// Difference; it must not be negative.
    pub fn sub(self, rhs: Self) -> (r: Self)
        requires
            rhs.0 <= self.0,
        ensures
            r.0 == self.0 - rhs.0,
    {
        U(self.0 - rhs.0)
    }

    /// Product; it must fit in `N` bits.
    pub fn mul(self, rhs: Self) -> (r: Self)
        requires
            Self::spec_fits(self.0 * rhs.0),
        ensures
            r.0 == self.0 * rhs.0,
    {
        proof {
            lemma_u64_pow2_le(N as nat);
        }
        U(self.0 * rhs.0)
    }

    /// Quotient, rounded down; the divisor must not be zero.
    pub fn div(self, rhs: Self) -> (r: Self)
        requires
            rhs.0 != 0,
        ensures
            r.0 == self.0 / rhs.0,
    {
        U(self.0 / rhs.0)
    }

    /// Remainder; the divisor must not be zero.
    pub fn rem(self, rhs: Self) -> (r: Self)
        requires
            rhs.0 != 0,
        ensures
            r.0 == self.0 % rhs.0,
    {
        U(self.0 % rhs.0)
    }

    /// Bitwise and.
    pub fn bitand(self, rhs: Self) -> (r: Self)
        ensures
            r.0 == self.0 & rhs.0,
    {
        U(self.0 & rhs.0)
    }

    /// Bitwise or.
    pub fn bitor(self, rhs: Self) -> (r: Self)
        ensures
            r.0 == self.0 | rhs.0,
    {
        U(self.0 | rhs.0)
    }

    /// Bitwise exclusive or.
    pub fn bitxor(self, rhs: Self) -> (r: Self)
        ensures
            r.0 == self.0 ^ rhs.0,
    {
        U(self.0 ^ rhs.0)
    }

    /// Shift left by `rhs` places; the result must fit in `N` bits.
    pub fn shl(self, rhs: u32) -> (r: Self)
        requires
            rhs < 64,
            Self::spec_fits(self.0 * pow2(rhs as nat)),
        ensures
            r.0 == self.0 * pow2(rhs as nat),
    {
        proof {
            lemma_u64_pow2_le(N as nat);
            lemma_u64_shl_is_mul(self.0, rhs as u64);
        }
        U(self.0 << rhs)
    }

    /// Shift right by `rhs` places.
    pub fn shr(self, rhs: u32) -> (r: Self)
        requires
            rhs < 64,
        ensures
            r.0 == self.0 as nat / pow2(rhs as nat),
    {
        proof {
            vstd::bits::lemma_u64_shr_is_div(self.0, rhs as u64);
        }
        U(self.0 >> rhs)
    }
}

/// A power of two of at most 63 is at most one past the largest `i64`.
pub proof fn lemma_i64_pow2_le(n: nat)
    requires
        n <= 63,
    ensures
        pow2(n) <= i64::MAX + 1,
{
    lemma2_to64_rest();
    if n < 63 {
        lemma_pow2_strictly_increases(n, 63);
    }
}

/// A power of two of at most 64 is at most one past the largest `u64`.
pub proof fn lemma_u64_pow2_le(n: nat)
    requires
        n <= 64,
    ensures
        pow2(n) <= u64::MAX + 1,
{
    lemma2_to64_rest();
    if n < 64 {
        lemma_pow2_strictly_increases(n, 64);
    }
}

impl<const N: usize> BitType for U<N> {
    open spec fn spec_bits() -> nat {
        N as nat
    }

    /// Widths over 64 keep the low 64 bits, which is all a `u64` holds.
    open spec fn spec_decode(bits: Seq<bool>) -> Self {
        U(nat_of(bits.subrange(0, narrow(N as nat) as int)) as u64)
    }

    open spec fn spec_valid(&self) -> bool {
        Self::spec_fits(self.0 as int)
    }

    fn bits() -> (r: usize) {
        N
    }

    fn from_aligned(aligned: &Self, slice: &mut [u8], offset: usize) {
        write_bits(slice, offset, N, aligned.0);
        proof {
            lemma_window_split(slice@, offset as int, N as int, 0, N as int);
        }
    }

    fn to_aligned(slice: &[u8], offset: usize) -> (r: Self) {
        let n = if N > 64 {
            64
        } else {
            N
        };
        proof {
            lemma_window_split(slice@, offset as int, N as int, 0, n as int);
        }
        U(read_bits(slice, offset, n))
    }
}

} // verus!
