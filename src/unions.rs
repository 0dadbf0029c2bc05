//! Tagged unions of two to eight variants, packed as a discriminant followed
//! by an overlaid payload region.
use crate::bit_ops::{
    lemma_same_outside_trans, lemma_same_outside_widen, lemma_window_kept,
    lemma_window_split, nat_of, read_bits, same_outside, window, write_bits,
};
use crate::bit_type::BitType;
use crate::bit_wrapper::accessors::MaybeAccess;
use vstd::arithmetic::power2::lemma2_to64;
use vstd::prelude::*;

verus! {

/// The larger of two widths.
pub open spec fn max_nat(a: nat, b: nat) -> nat {
    if a >= b {
        a
    } else {
        b
    }
}

/// The larger of two widths.
pub fn max_usize(a: usize, b: usize) -> (r: usize)
    ensures
        r == max_nat(a as nat, b as nat),
{
    if a >= b {
        a
    } else {
        b
    }
}

/// The bits of the whole union hold the discriminant in their first `d`
/// bits and, after them, the payload of type `X`.
proof fn lemma_union_payload<X: BitType>(bytes: Seq<u8>, offset: int, d: int, total: int)
    requires
        0 <= d,
        d + X::spec_bits() <= total,
    ensures
        window(bytes, offset, total).subrange(0, d) == window(bytes, offset, d),
        window(bytes, offset, total).subrange(d, total).subrange(0, X::spec_bits() as int)
            == window(bytes, offset + d, X::spec_bits() as int),
{
    lemma_window_split(bytes, offset, total, 0, d);
    assert(window(bytes, offset, total).subrange(d, total).subrange(0, X::spec_bits() as int)
        =~= window(bytes, offset + d, X::spec_bits() as int));
}

/// Writing the discriminant `k` and then a payload of type `X` leaves bits
/// that decode to that discriminant and that payload, and changes nothing
/// outside the union.
proof fn lemma_union_arm<X: BitType>(
    s0: Seq<u8>,
    s1: Seq<u8>,
    s2: Seq<u8>,
    offset: int,
    d: int,
    total: int,
    k: nat,
)
    requires
        0 <= offset,
        0 <= d,
        d + X::spec_bits() <= total,
        offset + total <= 8 * s0.len(),
        same_outside(s0, s1, offset, d),
        nat_of(window(s1, offset, d)) == k,
        same_outside(s1, s2, offset + d, X::spec_bits() as int),
    ensures
        nat_of(window(s2, offset, total).subrange(0, d)) == k,
        window(s2, offset, total).subrange(d, total).subrange(0, X::spec_bits() as int)
            == window(s2, offset + d, X::spec_bits() as int),
        same_outside(s0, s2, offset, total),
{
    lemma_window_kept(s1, s2, offset + d, X::spec_bits() as int, offset, d);
    lemma_union_payload::<X>(s2, offset, d, total);
    lemma_same_outside_widen(s0, s1, offset, d, offset, total);
    lemma_same_outside_widen(s1, s2, offset + d, X::spec_bits() as int, offset, total);
    lemma_same_outside_trans(s0, s1, s2, offset, total);
}

/// A tagged union of 2 variants: a discriminant of 1 bits holding the
/// index of the variant, followed by a payload region as wide as the widest
/// payload, which every variant's payload starts at. Discriminant values
/// past the last variant read as the last variant.
#[derive(Clone, Copy, Debug, PartialEq, Eq)]
pub enum Union2<A, B> {
    V0(A),
    V1(B),
}

impl<A: BitType, B: BitType> BitType for Union2<A, B> {
    open spec fn spec_bits() -> nat {
        1 + max_nat(A::spec_bits(), B::spec_bits())
    }

    open spec fn spec_decode(bits: Seq<bool>) -> Self {
        let d = nat_of(bits.subrange(0, 1));
        let p = bits.subrange(1, bits.len() as int);
        if d == 0 {
            Union2::V0(A::spec_decode(p.subrange(0, A::spec_bits() as int)))
        } else {
            Union2::V1(B::spec_decode(p.subrange(0, B::spec_bits() as int)))
        }
    }

    open spec fn spec_valid(&self) -> bool {
        match self {
            Union2::V0(x) => x.spec_valid(),
            Union2::V1(x) => x.spec_valid(),
        }
    }

    fn bits() -> (r: usize) {
        1 + max_usize(A::bits(), B::bits())
    }

    fn from_aligned(aligned: &Self, slice: &mut [u8], offset: usize) {
        let ghost s0 = slice@;
        let ghost total = Self::spec_bits() as int;
        proof {
            lemma2_to64();
        }
        match aligned {
            Union2::V0(x) => {
                write_bits(slice, offset, 1, 0);
                let ghost s1 = slice@;
                A::from_aligned(x, slice, offset + 1);
                proof {
                    lemma_union_arm::<A>(s0, s1, slice@, offset as int, 1, total, 0);
                }
            },
            Union2::V1(x) => {
                write_bits(slice, offset, 1, 1);
                let ghost s1 = slice@;
                B::from_aligned(x, slice, offset + 1);
                proof {
                    lemma_union_arm::<B>(s0, s1, slice@, offset as int, 1, total, 1);
                }
            },
        }
    }

    fn to_aligned(slice: &[u8], offset: usize) -> (r: Self) {
        let ghost w = window(slice@, offset as int, Self::spec_bits() as int);
        proof {
            lemma_window_split(slice@, offset as int, Self::spec_bits() as int, 0, 1);
        }
        let d = read_bits(slice, offset, 1);
        if d == 0 {
            proof {
                lemma_union_payload::<A>(slice@, offset as int, 1, Self::spec_bits() as int);
            }
            Union2::V0(A::to_aligned(slice, offset + 1))
        } else {
            proof {
                lemma_union_payload::<B>(slice@, offset as int, 1, Self::spec_bits() as int);
            }
            Union2::V1(B::to_aligned(slice, offset + 1))
        }
    }
}

impl<A: BitType, B: BitType> MaybeAccess<0> for Union2<A, B> {
    type Element = A;

    open spec fn spec_bit_offset() -> nat {
        1
    }

    open spec fn spec_expected() -> nat {
        0
    }

    open spec fn spec_payload(v: Self) -> Option<A> {
        match v {
            Union2::V0(x) => Some(x),
            _ => None,
        }
    }

    open spec fn spec_canonical(bits: Seq<bool>) -> bool {
        nat_of(bits.subrange(0, 1)) < 2
    }

    fn bit_offset() -> (r: usize) {
        1
    }

    fn expected() -> (r: u32) {
        0
    }

    proof fn lemma_variant(bits: Seq<bool>) {
        let p = bits.subrange(1, bits.len() as int);
        assert(p.subrange(0, A::spec_bits() as int) =~= bits.subrange(1, (1 + A::spec_bits()) as int));
    }
}

impl<A: BitType, B: BitType> MaybeAccess<1> for Union2<A, B> {
    type Element = B;

    open spec fn spec_bit_offset() -> nat {
        1
    }

    open spec fn spec_expected() -> nat {
        1
    }

    open spec fn spec_payload(v: Self) -> Option<B> {
        match v {
            Union2::V1(x) => Some(x),
            _ => None,
        }
    }

    open spec fn spec_canonical(bits: Seq<bool>) -> bool {
        nat_of(bits.subrange(0, 1)) < 2
    }

    fn bit_offset() -> (r: usize) {
        1
    }

    fn expected() -> (r: u32) {
        1
    }

    proof fn lemma_variant(bits: Seq<bool>) {
        let p = bits.subrange(1, bits.len() as int);
        assert(p.subrange(0, B::spec_bits() as int) =~= bits.subrange(1, (1 + B::spec_bits()) as int));
    }
}

/// A tagged union of 3 variants: a discriminant of 2 bits holding the
/// index of the variant, followed by a payload region as wide as the widest
/// payload, which every variant's payload starts at. Discriminant values
/// past the last variant read as the last variant.
#[derive(Clone, Copy, Debug, PartialEq, Eq)]
pub enum Union3<A, B, C> {
    V0(A),
    V1(B),
    V2(C),
}

impl<A: BitType, B: BitType, C: BitType> BitType for Union3<A, B, C> {
    open spec fn spec_bits() -> nat {
        2 + max_nat(A::spec_bits(), max_nat(B::spec_bits(), C::spec_bits()))
    }

    open spec fn spec_decode(bits: Seq<bool>) -> Self {
        let d = nat_of(bits.subrange(0, 2));
        let p = bits.subrange(2, bits.len() as int);
        if d == 0 {
            Union3::V0(A::spec_decode(p.subrange(0, A::spec_bits() as int)))
        } else if d == 1 {
            Union3::V1(B::spec_decode(p.subrange(0, B::spec_bits() as int)))
        } else {
            Union3::V2(C::spec_decode(p.subrange(0, C::spec_bits() as int)))
        }
    }

    open spec fn spec_valid(&self) -> bool {
        match self {
            Union3::V0(x) => x.spec_valid(),
            Union3::V1(x) => x.spec_valid(),
            Union3::V2(x) => x.spec_valid(),
        }
    }

    fn bits() -> (r: usize) {
        2 + max_usize(A::bits(), max_usize(B::bits(), C::bits()))
    }

    fn from_aligned(aligned: &Self, slice: &mut [u8], offset: usize) {
        let ghost s0 = slice@;
        let ghost total = Self::spec_bits() as int;
        proof {
            lemma2_to64();
        }
        match aligned {
            Union3::V0(x) => {
                write_bits(slice, offset, 2, 0);
                let ghost s1 = slice@;
                A::from_aligned(x, slice, offset + 2);
                proof {
                    lemma_union_arm::<A>(s0, s1, slice@, offset as int, 2, total, 0);
                }
            },
            Union3::V1(x) => {
                write_bits(slice, offset, 2, 1);
                let ghost s1 = slice@;
                B::from_aligned(x, slice, offset + 2);
                proof {
                    lemma_union_arm::<B>(s0, s1, slice@, offset as int, 2, total, 1);
                }
            },
            Union3::V2(x) => {
                write_bits(slice, offset, 2, 2);
                let ghost s1 = slice@;
                C::from_aligned(x, slice, offset + 2);
                proof {
                    lemma_union_arm::<C>(s0, s1, slice@, offset as int, 2, total, 2);
                }
            },
        }
    }

    fn to_aligned(slice: &[u8], offset: usize) -> (r: Self) {
        let ghost w = window(slice@, offset as int, Self::spec_bits() as int);
        proof {
            lemma_window_split(slice@, offset as int, Self::spec_bits() as int, 0, 2);
        }
        let d = read_bits(slice, offset, 2);
        if d == 0 {
            proof {
                lemma_union_payload::<A>(slice@, offset as int, 2, Self::spec_bits() as int);
            }
            Union3::V0(A::to_aligned(slice, offset + 2))
        } else if d == 1 {
            proof {
                lemma_union_payload::<B>(slice@, offset as int, 2, Self::spec_bits() as int);
            }
            Union3::V1(B::to_aligned(slice, offset + 2))
        } else {
            proof {
                lemma_union_payload::<C>(slice@, offset as int, 2, Self::spec_bits() as int);
            }
            Union3::V2(C::to_aligned(slice, offset + 2))
        }
    }
}

impl<A: BitType, B: BitType, C: BitType> MaybeAccess<0> for Union3<A, B, C> {
    type Element = A;

    open spec fn spec_bit_offset() -> nat {
        2
    }

    open spec fn spec_expected() -> nat {
        0
    }

    open spec fn spec_payload(v: Self) -> Option<A> {
        match v {
            Union3::V0(x) => Some(x),
            _ => None,
        }
    }

    open spec fn spec_canonical(bits: Seq<bool>) -> bool {
        nat_of(bits.subrange(0, 2)) < 3
    }

    fn bit_offset() -> (r: usize) {
        2
    }

    fn expected() -> (r: u32) {
        0
    }

    proof fn lemma_variant(bits: Seq<bool>) {
        let p = bits.subrange(2, bits.len() as int);
        assert(p.subrange(0, A::spec_bits() as int) =~= bits.subrange(2, (2 + A::spec_bits()) as int));
    }
}

impl<A: BitType, B: BitType, C: BitType> MaybeAccess<1> for Union3<A, B, C> {
    type Element = B;

    open spec fn spec_bit_offset() -> nat {
        2
    }

    open spec fn spec_expected() -> nat {
        1
    }

    open spec fn spec_payload(v: Self) -> Option<B> {
        match v {
            Union3::V1(x) => Some(x),
            _ => None,
        }
    }

    open spec fn spec_canonical(bits: Seq<bool>) -> bool {
        nat_of(bits.subrange(0, 2)) < 3
    }

    fn bit_offset() -> (r: usize) {
        2
    }

    fn expected() -> (r: u32) {
        1
    }

    proof fn lemma_variant(bits: Seq<bool>) {
        let p = bits.subrange(2, bits.len() as int);
        assert(p.subrange(0, B::spec_bits() as int) =~= bits.subrange(2, (2 + B::spec_bits()) as int));
    }
}

impl<A: BitType, B: BitType, C: BitType> MaybeAccess<2> for Union3<A, B, C> {
    type Element = C;

    open spec fn spec_bit_offset() -> nat {
        2
    }

    open spec fn spec_expected() -> nat {
        2
    }

    open spec fn spec_payload(v: Self) -> Option<C> {
        match v {
            Union3::V2(x) => Some(x),
            _ => None,
        }
    }

    open spec fn spec_canonical(bits: Seq<bool>) -> bool {
        nat_of(bits.subrange(0, 2)) < 3
    }

    fn bit_offset() -> (r: usize) {
        2
    }

    fn expected() -> (r: u32) {
        2
    }

    proof fn lemma_variant(bits: Seq<bool>) {
        let p = bits.subrange(2, bits.len() as int);
        assert(p.subrange(0, C::spec_bits() as int) =~= bits.subrange(2, (2 + C::spec_bits()) as int));
    }
}

/// A tagged union of 4 variants: a discriminant of 2 bits holding the
/// index of the variant, followed by a payload region as wide as the widest
/// payload, which every variant's payload starts at. Discriminant values
/// past the last variant read as the last variant.
#[derive(Clone, Copy, Debug, PartialEq, Eq)]
pub enum Union4<A, B, C, D> {
    V0(A),
    V1(B),
    V2(C),
    V3(D),
}

impl<A: BitType, B: BitType, C: BitType, D: BitType> BitType for Union4<A, B, C, D> {
    open spec fn spec_bits() -> nat {
        2 + max_nat(A::spec_bits(), max_nat(B::spec_bits(), max_nat(C::spec_bits(), D::spec_bits())))
    }

    open spec fn spec_decode(bits: Seq<bool>) -> Self {
        let d = nat_of(bits.subrange(0, 2));
        let p = bits.subrange(2, bits.len() as int);
        if d == 0 {
            Union4::V0(A::spec_decode(p.subrange(0, A::spec_bits() as int)))
        } else if d == 1 {
            Union4::V1(B::spec_decode(p.subrange(0, B::spec_bits() as int)))
        } else if d == 2 {
            Union4::V2(C::spec_decode(p.subrange(0, C::spec_bits() as int)))
        } else {
            Union4::V3(D::spec_decode(p.subrange(0, D::spec_bits() as int)))
        }
    }

    open spec fn spec_valid(&self) -> bool {
        match self {
            Union4::V0(x) => x.spec_valid(),
            Union4::V1(x) => x.spec_valid(),
            Union4::V2(x) => x.spec_valid(),
            Union4::V3(x) => x.spec_valid(),
        }
    }

    fn bits() -> (r: usize) {
        2 + max_usize(A::bits(), max_usize(B::bits(), max_usize(C::bits(), D::bits())))
    }

    fn from_aligned(aligned: &Self, slice: &mut [u8], offset: usize) {
        let ghost s0 = slice@;
        let ghost total = Self::spec_bits() as int;
        proof {
            lemma2_to64();
        }
        match aligned {
            Union4::V0(x) => {
                write_bits(slice, offset, 2, 0);
                let ghost s1 = slice@;
                A::from_aligned(x, slice, offset + 2);
                proof {
                    lemma_union_arm::<A>(s0, s1, slice@, offset as int, 2, total, 0);
                }
            },
            Union4::V1(x) => {
                write_bits(slice, offset, 2, 1);
                let ghost s1 = slice@;
                B::from_aligned(x, slice, offset + 2);
                proof {
                    lemma_union_arm::<B>(s0, s1, slice@, offset as int, 2, total, 1);
                }
            },
            Union4::V2(x) => {
                write_bits(slice, offset, 2, 2);
                let ghost s1 = slice@;
                C::from_aligned(x, slice, offset + 2);
                proof {
                    lemma_union_arm::<C>(s0, s1, slice@, offset as int, 2, total, 2);
                }
            },
            Union4::V3(x) => {
                write_bits(slice, offset, 2, 3);
                let ghost s1 = slice@;
                D::from_aligned(x, slice, offset + 2);
                proof {
                    lemma_union_arm::<D>(s0, s1, slice@, offset as int, 2, total, 3);
                }
            },
        }
    }

    fn to_aligned(slice: &[u8], offset: usize) -> (r: Self) {
        let ghost w = window(slice@, offset as int, Self::spec_bits() as int);
        proof {
            lemma_window_split(slice@, offset as int, Self::spec_bits() as int, 0, 2);
        }
        let d = read_bits(slice, offset, 2);
        if d == 0 {
            proof {
                lemma_union_payload::<A>(slice@, offset as int, 2, Self::spec_bits() as int);
            }
            Union4::V0(A::to_aligned(slice, offset + 2))
        } else if d == 1 {
            proof {
                lemma_union_payload::<B>(slice@, offset as int, 2, Self::spec_bits() as int);
            }
            Union4::V1(B::to_aligned(slice, offset + 2))
        } else if d == 2 {
            proof {
                lemma_union_payload::<C>(slice@, offset as int, 2, Self::spec_bits() as int);
            }
            Union4::V2(C::to_aligned(slice, offset + 2))
        } else {
            proof {
                lemma_union_payload::<D>(slice@, offset as int, 2, Self::spec_bits() as int);
            }
            Union4::V3(D::to_aligned(slice, offset + 2))
        }
    }
}

impl<A: BitType, B: BitType, C: BitType, D: BitType> MaybeAccess<0> for Union4<A, B, C, D> {
    type Element = A;

    open spec fn spec_bit_offset() -> nat {
        2
    }

    open spec fn spec_expected() -> nat {
        0
    }

    open spec fn spec_payload(v: Self) -> Option<A> {
        match v {
            Union4::V0(x) => Some(x),
            _ => None,
        }
    }

    open spec fn spec_canonical(bits: Seq<bool>) -> bool {
        nat_of(bits.subrange(0, 2)) < 4
    }

    fn bit_offset() -> (r: usize) {
        2
    }

    fn expected() -> (r: u32) {
        0
    }

    proof fn lemma_variant(bits: Seq<bool>) {
        let p = bits.subrange(2, bits.len() as int);
        assert(p.subrange(0, A::spec_bits() as int) =~= bits.subrange(2, (2 + A::spec_bits()) as int));
    }
}

impl<A: BitType, B: BitType, C: BitType, D: BitType> MaybeAccess<1> for Union4<A, B, C, D> {
    type Element = B;

    open spec fn spec_bit_offset() -> nat {
        2
    }

    open spec fn spec_expected() -> nat {
        1
    }

    open spec fn spec_payload(v: Self) -> Option<B> {
        match v {
            Union4::V1(x) => Some(x),
            _ => None,
        }
    }

    open spec fn spec_canonical(bits: Seq<bool>) -> bool {
        nat_of(bits.subrange(0, 2)) < 4
    }

    fn bit_offset() -> (r: usize) {
        2
    }

    fn expected() -> (r: u32) {
        1
    }

    proof fn lemma_variant(bits: Seq<bool>) {
        let p = bits.subrange(2, bits.len() as int);
        assert(p.subrange(0, B::spec_bits() as int) =~= bits.subrange(2, (2 + B::spec_bits()) as int));
    }
}

impl<A: BitType, B: BitType, C: BitType, D: BitType> MaybeAccess<2> for Union4<A, B, C, D> {
    type Element = C;

    open spec fn spec_bit_offset() -> nat {
        2
    }

    open spec fn spec_expected() -> nat {
        2
    }

    open spec fn spec_payload(v: Self) -> Option<C> {
        match v {
            Union4::V2(x) => Some(x),
            _ => None,
        }
    }

    open spec fn spec_canonical(bits: Seq<bool>) -> bool {
        nat_of(bits.subrange(0, 2)) < 4
    }

    fn bit_offset() -> (r: usize) {
        2
    }

    fn expected() -> (r: u32) {
        2
    }

    proof fn lemma_variant(bits: Seq<bool>) {
        let p = bits.subrange(2, bits.len() as int);
        assert(p.subrange(0, C::spec_bits() as int) =~= bits.subrange(2, (2 + C::spec_bits()) as int));
    }
}

impl<A: BitType, B: BitType, C: BitType, D: BitType> MaybeAccess<3> for Union4<A, B, C, D> {
    type Element = D;

    open spec fn spec_bit_offset() -> nat {
        2
    }

    open spec fn spec_expected() -> nat {
        3
    }

    open spec fn spec_payload(v: Self) -> Option<D> {
        match v {
            Union4::V3(x) => Some(x),
            _ => None,
        }
    }

    open spec fn spec_canonical(bits: Seq<bool>) -> bool {
        nat_of(bits.subrange(0, 2)) < 4
    }

    fn bit_offset() -> (r: usize) {
        2
    }

    fn expected() -> (r: u32) {
        3
    }

    proof fn lemma_variant(bits: Seq<bool>) {
        let p = bits.subrange(2, bits.len() as int);
        assert(p.subrange(0, D::spec_bits() as int) =~= bits.subrange(2, (2 + D::spec_bits()) as int));
    }
}

/// A tagged union of 5 variants: a discriminant of 3 bits holding the
/// index of the variant, followed by a payload region as wide as the widest
/// payload, which every variant's payload starts at. Discriminant values
/// past the last variant read as the last variant.
#[derive(Clone, Copy, Debug, PartialEq, Eq)]
pub enum Union5<A, B, C, D, E> {
    V0(A),
    V1(B),
    V2(C),
    V3(D),
    V4(E),
}

impl<A: BitType, B: BitType, C: BitType, D: BitType, E: BitType> BitType for Union5<A, B, C, D, E> {
    open spec fn spec_bits() -> nat {
        3 + max_nat(A::spec_bits(), max_nat(B::spec_bits(), max_nat(C::spec_bits(), max_nat(D::spec_bits(), E::spec_bits()))))
    }

    open spec fn spec_decode(bits: Seq<bool>) -> Self {
        let d = nat_of(bits.subrange(0, 3));
        let p = bits.subrange(3, bits.len() as int);
        if d == 0 {
            Union5::V0(A::spec_decode(p.subrange(0, A::spec_bits() as int)))
        } else if d == 1 {
            Union5::V1(B::spec_decode(p.subrange(0, B::spec_bits() as int)))
        } else if d == 2 {
            Union5::V2(C::spec_decode(p.subrange(0, C::spec_bits() as int)))
        } else if d == 3 {
            Union5::V3(D::spec_decode(p.subrange(0, D::spec_bits() as int)))
        } else {
            Union5::V4(E::spec_decode(p.subrange(0, E::spec_bits() as int)))
        }
    }

    open spec fn spec_valid(&self) -> bool {
        match self {
            Union5::V0(x) => x.spec_valid(),
            Union5::V1(x) => x.spec_valid(),
            Union5::V2(x) => x.spec_valid(),
            Union5::V3(x) => x.spec_valid(),
            Union5::V4(x) => x.spec_valid(),
        }
    }

    fn bits() -> (r: usize) {
        3 + max_usize(A::bits(), max_usize(B::bits(), max_usize(C::bits(), max_usize(D::bits(), E::bits()))))
    }

    fn from_aligned(aligned: &Self, slice: &mut [u8], offset: usize) {
        let ghost s0 = slice@;
        let ghost total = Self::spec_bits() as int;
        proof {
            lemma2_to64();
        }
        match aligned {
            Union5::V0(x) => {
                write_bits(slice, offset, 3, 0);
                let ghost s1 = slice@;
                A::from_aligned(x, slice, offset + 3);
                proof {
                    lemma_union_arm::<A>(s0, s1, slice@, offset as int, 3, total, 0);
                }
            },
            Union5::V1(x) => {
                write_bits(slice, offset, 3, 1);
                let ghost s1 = slice@;
                B::from_aligned(x, slice, offset + 3);
                proof {
                    lemma_union_arm::<B>(s0, s1, slice@, offset as int, 3, total, 1);
                }
            },
            Union5::V2(x) => {
                write_bits(slice, offset, 3, 2);
                let ghost s1 = slice@;
                C::from_aligned(x, slice, offset + 3);
                proof {
                    lemma_union_arm::<C>(s0, s1, slice@, offset as int, 3, total, 2);
                }
            },
            Union5::V3(x) => {
                write_bits(slice, offset, 3, 3);
                let ghost s1 = slice@;
                D::from_aligned(x, slice, offset + 3);
                proof {
                    lemma_union_arm::<D>(s0, s1, slice@, offset as int, 3, total, 3);
                }
            },
            Union5::V4(x) => {
                write_bits(slice, offset, 3, 4);
                let ghost s1 = slice@;
                E::from_aligned(x, slice, offset + 3);
                proof {
                    lemma_union_arm::<E>(s0, s1, slice@, offset as int, 3, total, 4);
                }
            },
        }
    }

    fn to_aligned(slice: &[u8], offset: usize) -> (r: Self) {
        let ghost w = window(slice@, offset as int, Self::spec_bits() as int);
        proof {
            lemma_window_split(slice@, offset as int, Self::spec_bits() as int, 0, 3);
        }
        let d = read_bits(slice, offset, 3);
        if d == 0 {
            proof {
                lemma_union_payload::<A>(slice@, offset as int, 3, Self::spec_bits() as int);
            }
            Union5::V0(A::to_aligned(slice, offset + 3))
        } else if d == 1 {
            proof {
                lemma_union_payload::<B>(slice@, offset as int, 3, Self::spec_bits() as int);
            }
            Union5::V1(B::to_aligned(slice, offset + 3))
        } else if d == 2 {
            proof {
                lemma_union_payload::<C>(slice@, offset as int, 3, Self::spec_bits() as int);
            }
            Union5::V2(C::to_aligned(slice, offset + 3))
        } else if d == 3 {
            proof {
                lemma_union_payload::<D>(slice@, offset as int, 3, Self::spec_bits() as int);
            }
            Union5::V3(D::to_aligned(slice, offset + 3))
        } else {
            proof {
                lemma_union_payload::<E>(slice@, offset as int, 3, Self::spec_bits() as int);
            }
            Union5::V4(E::to_aligned(slice, offset + 3))
        }
    }
}

impl<A: BitType, B: BitType, C: BitType, D: BitType, E: BitType> MaybeAccess<0> for Union5<A, B, C, D, E> {
    type Element = A;

    open spec fn spec_bit_offset() -> nat {
        3
    }

    open spec fn spec_expected() -> nat {
        0
    }

    open spec fn spec_payload(v: Self) -> Option<A> {
        match v {
            Union5::V0(x) => Some(x),
            _ => None,
        }
    }

    open spec fn spec_canonical(bits: Seq<bool>) -> bool {
        nat_of(bits.subrange(0, 3)) < 5
    }

    fn bit_offset() -> (r: usize) {
        3
    }

    fn expected() -> (r: u32) {
        0
    }

    proof fn lemma_variant(bits: Seq<bool>) {
        let p = bits.subrange(3, bits.len() as int);
        assert(p.subrange(0, A::spec_bits() as int) =~= bits.subrange(3, (3 + A::spec_bits()) as int));
    }
}

impl<A: BitType, B: BitType, C: BitType, D: BitType, E: BitType> MaybeAccess<1> for Union5<A, B, C, D, E> {
    type Element = B;

    open spec fn spec_bit_offset() -> nat {
        3
    }

    open spec fn spec_expected() -> nat {
        1
    }

    open spec fn spec_payload(v: Self) -> Option<B> {
        match v {
            Union5::V1(x) => Some(x),
            _ => None,
        }
    }

    open spec fn spec_canonical(bits: Seq<bool>) -> bool {
        nat_of(bits.subrange(0, 3)) < 5
    }

    fn bit_offset() -> (r: usize) {
        3
    }

    fn expected() -> (r: u32) {
        1
    }

    proof fn lemma_variant(bits: Seq<bool>) {
        let p = bits.subrange(3, bits.len() as int);
        assert(p.subrange(0, B::spec_bits() as int) =~= bits.subrange(3, (3 + B::spec_bits()) as int));
    }
}

impl<A: BitType, B: BitType, C: BitType, D: BitType, E: BitType> MaybeAccess<2> for Union5<A, B, C, D, E> {
    type Element = C;

    open spec fn spec_bit_offset() -> nat {
        3
    }

    open spec fn spec_expected() -> nat {
        2
    }

    open spec fn spec_payload(v: Self) -> Option<C> {
        match v {
            Union5::V2(x) => Some(x),
            _ => None,
        }
    }

    open spec fn spec_canonical(bits: Seq<bool>) -> bool {
        nat_of(bits.subrange(0, 3)) < 5
    }

    fn bit_offset() -> (r: usize) {
        3
    }

    fn expected() -> (r: u32) {
        2
    }

    proof fn lemma_variant(bits: Seq<bool>) {
        let p = bits.subrange(3, bits.len() as int);
        assert(p.subrange(0, C::spec_bits() as int) =~= bits.subrange(3, (3 + C::spec_bits()) as int));
    }
}

impl<A: BitType, B: BitType, C: BitType, D: BitType, E: BitType> MaybeAccess<3> for Union5<A, B, C, D, E> {
    type Element = D;

    open spec fn spec_bit_offset() -> nat {
        3
    }

    open spec fn spec_expected() -> nat {
        3
    }

    open spec fn spec_payload(v: Self) -> Option<D> {
        match v {
            Union5::V3(x) => Some(x),
            _ => None,
        }
    }

    open spec fn spec_canonical(bits: Seq<bool>) -> bool {
        nat_of(bits.subrange(0, 3)) < 5
    }

    fn bit_offset() -> (r: usize) {
        3
    }

    fn expected() -> (r: u32) {
        3
    }

    proof fn lemma_variant(bits: Seq<bool>) {
        let p = bits.subrange(3, bits.len() as int);
        assert(p.subrange(0, D::spec_bits() as int) =~= bits.subrange(3, (3 + D::spec_bits()) as int));
    }
}

impl<A: BitType, B: BitType, C: BitType, D: BitType, E: BitType> MaybeAccess<4> for Union5<A, B, C, D, E> {
    type Element = E;

    open spec fn spec_bit_offset() -> nat {
        3
    }

    open spec fn spec_expected() -> nat {
        4
    }

    open spec fn spec_payload(v: Self) -> Option<E> {
        match v {
            Union5::V4(x) => Some(x),
            _ => None,
        }
    }

    open spec fn spec_canonical(bits: Seq<bool>) -> bool {
        nat_of(bits.subrange(0, 3)) < 5
    }

    fn bit_offset() -> (r: usize) {
        3
    }

    fn expected() -> (r: u32) {
        4
    }

    proof fn lemma_variant(bits: Seq<bool>) {
        let p = bits.subrange(3, bits.len() as int);
        assert(p.subrange(0, E::spec_bits() as int) =~= bits.subrange(3, (3 + E::spec_bits()) as int));
    }
}

/// A tagged union of 6 variants: a discriminant of 3 bits holding the
/// index of the variant, followed by a payload region as wide as the widest
/// payload, which every variant's payload starts at. Discriminant values
/// past the last variant read as the last variant.
#[derive(Clone, Copy, Debug, PartialEq, Eq)]
pub enum Union6<A, B, C, D, E, F> {
    V0(A),
    V1(B),
    V2(C),
    V3(D),
    V4(E),
    V5(F),
}

impl<A: BitType, B: BitType, C: BitType, D: BitType, E: BitType, F: BitType> BitType for Union6<A, B, C, D, E, F> {
    open spec fn spec_bits() -> nat {
        3 + max_nat(A::spec_bits(), max_nat(B::spec_bits(), max_nat(C::spec_bits(), max_nat(D::spec_bits(), max_nat(E::spec_bits(), F::spec_bits())))))
    }

    open spec fn spec_decode(bits: Seq<bool>) -> Self {
        let d = nat_of(bits.subrange(0, 3));
        let p = bits.subrange(3, bits.len() as int);
        if d == 0 {
            Union6::V0(A::spec_decode(p.subrange(0, A::spec_bits() as int)))
        } else if d == 1 {
            Union6::V1(B::spec_decode(p.subrange(0, B::spec_bits() as int)))
        } else if d == 2 {
            Union6::V2(C::spec_decode(p.subrange(0, C::spec_bits() as int)))
        } else if d == 3 {
            Union6::V3(D::spec_decode(p.subrange(0, D::spec_bits() as int)))
        } else if d == 4 {
            Union6::V4(E::spec_decode(p.subrange(0, E::spec_bits() as int)))
        } else {
            Union6::V5(F::spec_decode(p.subrange(0, F::spec_bits() as int)))
        }
    }

    open spec fn spec_valid(&self) -> bool {
        match self {
            Union6::V0(x) => x.spec_valid(),
            Union6::V1(x) => x.spec_valid(),
            Union6::V2(x) => x.spec_valid(),
            Union6::V3(x) => x.spec_valid(),
            Union6::V4(x) => x.spec_valid(),
            Union6::V5(x) => x.spec_valid(),
        }
    }

    fn bits() -> (r: usize) {
        3 + max_usize(A::bits(), max_usize(B::bits(), max_usize(C::bits(), max_usize(D::bits(), max_usize(E::bits(), F::bits())))))
    }

    fn from_aligned(aligned: &Self, slice: &mut [u8], offset: usize) {
        let ghost s0 = slice@;
        let ghost total = Self::spec_bits() as int;
        proof {
            lemma2_to64();
        }
        match aligned {
            Union6::V0(x) => {
                write_bits(slice, offset, 3, 0);
                let ghost s1 = slice@;
                A::from_aligned(x, slice, offset + 3);
                proof {
                    lemma_union_arm::<A>(s0, s1, slice@, offset as int, 3, total, 0);
                }
            },
            Union6::V1(x) => {
                write_bits(slice, offset, 3, 1);
                let ghost s1 = slice@;
                B::from_aligned(x, slice, offset + 3);
                proof {
                    lemma_union_arm::<B>(s0, s1, slice@, offset as int, 3, total, 1);
                }
            },
            Union6::V2(x) => {
                write_bits(slice, offset, 3, 2);
                let ghost s1 = slice@;
                C::from_aligned(x, slice, offset + 3);
                proof {
                    lemma_union_arm::<C>(s0, s1, slice@, offset as int, 3, total, 2);
                }
            },
            Union6::V3(x) => {
                write_bits(slice, offset, 3, 3);
                let ghost s1 = slice@;
                D::from_aligned(x, slice, offset + 3);
                proof {
                    lemma_union_arm::<D>(s0, s1, slice@, offset as int, 3, total, 3);
                }
            },
            Union6::V4(x) => {
                write_bits(slice, offset, 3, 4);
                let ghost s1 = slice@;
                E::from_aligned(x, slice, offset + 3);
                proof {
                    lemma_union_arm::<E>(s0, s1, slice@, offset as int, 3, total, 4);
                }
            },
            Union6::V5(x) => {
                write_bits(slice, offset, 3, 5);
                let ghost s1 = slice@;
                F::from_aligned(x, slice, offset + 3);
                proof {
                    lemma_union_arm::<F>(s0, s1, slice@, offset as int, 3, total, 5);
                }
            },
        }
    }

    fn to_aligned(slice: &[u8], offset: usize) -> (r: Self) {
        let ghost w = window(slice@, offset as int, Self::spec_bits() as int);
        proof {
            lemma_window_split(slice@, offset as int, Self::spec_bits() as int, 0, 3);
        }
        let d = read_bits(slice, offset, 3);
        if d == 0 {
            proof {
                lemma_union_payload::<A>(slice@, offset as int, 3, Self::spec_bits() as int);
            }
            Union6::V0(A::to_aligned(slice, offset + 3))
        } else if d == 1 {
            proof {
                lemma_union_payload::<B>(slice@, offset as int, 3, Self::spec_bits() as int);
            }
            Union6::V1(B::to_aligned(slice, offset + 3))
        } else if d == 2 {
            proof {
                lemma_union_payload::<C>(slice@, offset as int, 3, Self::spec_bits() as int);
            }
            Union6::V2(C::to_aligned(slice, offset + 3))
        } else if d == 3 {
            proof {
                lemma_union_payload::<D>(slice@, offset as int, 3, Self::spec_bits() as int);
            }
            Union6::V3(D::to_aligned(slice, offset + 3))
        } else if d == 4 {
            proof {
                lemma_union_payload::<E>(slice@, offset as int, 3, Self::spec_bits() as int);
            }
            Union6::V4(E::to_aligned(slice, offset + 3))
        } else {
            proof {
                lemma_union_payload::<F>(slice@, offset as int, 3, Self::spec_bits() as int);
            }
            Union6::V5(F::to_aligned(slice, offset + 3))
        }
    }
}

impl<A: BitType, B: BitType, C: BitType, D: BitType, E: BitType, F: BitType> MaybeAccess<0> for Union6<A, B, C, D, E, F> {
    type Element = A;

    open spec fn spec_bit_offset() -> nat {
        3
    }

    open spec fn spec_expected() -> nat {
        0
    }

    open spec fn spec_payload(v: Self) -> Option<A> {
        match v {
            Union6::V0(x) => Some(x),
            _ => None,
        }
    }

    open spec fn spec_canonical(bits: Seq<bool>) -> bool {
        nat_of(bits.subrange(0, 3)) < 6
    }

    fn bit_offset() -> (r: usize) {
        3
    }

    fn expected() -> (r: u32) {
        0
    }

    proof fn lemma_variant(bits: Seq<bool>) {
        let p = bits.subrange(3, bits.len() as int);
        assert(p.subrange(0, A::spec_bits() as int) =~= bits.subrange(3, (3 + A::spec_bits()) as int));
    }
}

impl<A: BitType, B: BitType, C: BitType, D: BitType, E: BitType, F: BitType> MaybeAccess<1> for Union6<A, B, C, D, E, F> {
    type Element = B;

    open spec fn spec_bit_offset() -> nat {
        3
    }

    open spec fn spec_expected() -> nat {
        1
    }

    open spec fn spec_payload(v: Self) -> Option<B> {
        match v {
            Union6::V1(x) => Some(x),
            _ => None,
        }
    }

    open spec fn spec_canonical(bits: Seq<bool>) -> bool {
        nat_of(bits.subrange(0, 3)) < 6
    }

    fn bit_offset() -> (r: usize) {
        3
    }

    fn expected() -> (r: u32) {
        1
    }

    proof fn lemma_variant(bits: Seq<bool>) {
        let p = bits.subrange(3, bits.len() as int);
        assert(p.subrange(0, B::spec_bits() as int) =~= bits.subrange(3, (3 + B::spec_bits()) as int));
    }
}

impl<A: BitType, B: BitType, C: BitType, D: BitType, E: BitType, F: BitType> MaybeAccess<2> for Union6<A, B, C, D, E, F> {
    type Element = C;

    open spec fn spec_bit_offset() -> nat {
        3
    }

    open spec fn spec_expected() -> nat {
        2
    }

    open spec fn spec_payload(v: Self) -> Option<C> {
        match v {
            Union6::V2(x) => Some(x),
            _ => None,
        }
    }

    open spec fn spec_canonical(bits: Seq<bool>) -> bool {
        nat_of(bits.subrange(0, 3)) < 6
    }

    fn bit_offset() -> (r: usize) {
        3
    }

    fn expected() -> (r: u32) {
        2
    }

    proof fn lemma_variant(bits: Seq<bool>) {
        let p = bits.subrange(3, bits.len() as int);
        assert(p.subrange(0, C::spec_bits() as int) =~= bits.subrange(3, (3 + C::spec_bits()) as int));
    }
}

impl<A: BitType, B: BitType, C: BitType, D: BitType, E: BitType, F: BitType> MaybeAccess<3> for Union6<A, B, C, D, E, F> {
    type Element = D;

    open spec fn spec_bit_offset() -> nat {
        3
    }

    open spec fn spec_expected() -> nat {
        3
    }

    open spec fn spec_payload(v: Self) -> Option<D> {
        match v {
            Union6::V3(x) => Some(x),
            _ => None,
        }
    }

    open spec fn spec_canonical(bits: Seq<bool>) -> bool {
        nat_of(bits.subrange(0, 3)) < 6
    }

    fn bit_offset() -> (r: usize) {
        3
    }

    fn expected() -> (r: u32) {
        3
    }

    proof fn lemma_variant(bits: Seq<bool>) {
        let p = bits.subrange(3, bits.len() as int);
        assert(p.subrange(0, D::spec_bits() as int) =~= bits.subrange(3, (3 + D::spec_bits()) as int));
    }
}

impl<A: BitType, B: BitType, C: BitType, D: BitType, E: BitType, F: BitType> MaybeAccess<4> for Union6<A, B, C, D, E, F> {
    type Element = E;

    open spec fn spec_bit_offset() -> nat {
        3
    }

    open spec fn spec_expected() -> nat {
        4
    }

    open spec fn spec_payload(v: Self) -> Option<E> {
        match v {
            Union6::V4(x) => Some(x),
            _ => None,
        }
    }

    open spec fn spec_canonical(bits: Seq<bool>) -> bool {
        nat_of(bits.subrange(0, 3)) < 6
    }

    fn bit_offset() -> (r: usize) {
        3
    }

    fn expected() -> (r: u32) {
        4
    }

    proof fn lemma_variant(bits: Seq<bool>) {
        let p = bits.subrange(3, bits.len() as int);
        assert(p.subrange(0, E::spec_bits() as int) =~= bits.subrange(3, (3 + E::spec_bits()) as int));
    }
}

impl<A: BitType, B: BitType, C: BitType, D: BitType, E: BitType, F: BitType> MaybeAccess<5> for Union6<A, B, C, D, E, F> {
    type Element = F;

    open spec fn spec_bit_offset() -> nat {
        3
    }

    open spec fn spec_expected() -> nat {
        5
    }

    open spec fn spec_payload(v: Self) -> Option<F> {
        match v {
            Union6::V5(x) => Some(x),
            _ => None,
        }
    }

    open spec fn spec_canonical(bits: Seq<bool>) -> bool {
        nat_of(bits.subrange(0, 3)) < 6
    }

    fn bit_offset() -> (r: usize) {
        3
    }

    fn expected() -> (r: u32) {
        5
    }

    proof fn lemma_variant(bits: Seq<bool>) {
        let p = bits.subrange(3, bits.len() as int);
        assert(p.subrange(0, F::spec_bits() as int) =~= bits.subrange(3, (3 + F::spec_bits()) as int));
    }
}

/// A tagged union of 7 variants: a discriminant of 3 bits holding the
/// index of the variant, followed by a payload region as wide as the widest
/// payload, which every variant's payload starts at. Discriminant values
/// past the last variant read as the last variant.
#[derive(Clone, Copy, Debug, PartialEq, Eq)]
pub enum Union7<A, B, C, D, E, F, G> {
    V0(A),
    V1(B),
    V2(C),
    V3(D),
    V4(E),
    V5(F),
    V6(G),
}

impl<A: BitType, B: BitType, C: BitType, D: BitType, E: BitType, F: BitType, G: BitType> BitType for Union7<A, B, C, D, E, F, G> {
    open spec fn spec_bits() -> nat {
        3 + max_nat(A::spec_bits(), max_nat(B::spec_bits(), max_nat(C::spec_bits(), max_nat(D::spec_bits(), max_nat(E::spec_bits(), max_nat(F::spec_bits(), G::spec_bits()))))))
    }

    open spec fn spec_decode(bits: Seq<bool>) -> Self {
        let d = nat_of(bits.subrange(0, 3));
        let p = bits.subrange(3, bits.len() as int);
        if d == 0 {
            Union7::V0(A::spec_decode(p.subrange(0, A::spec_bits() as int)))
        } else if d == 1 {
            Union7::V1(B::spec_decode(p.subrange(0, B::spec_bits() as int)))
        } else if d == 2 {
            Union7::V2(C::spec_decode(p.subrange(0, C::spec_bits() as int)))
        } else if d == 3 {
            Union7::V3(D::spec_decode(p.subrange(0, D::spec_bits() as int)))
        } else if d == 4 {
            Union7::V4(E::spec_decode(p.subrange(0, E::spec_bits() as int)))
        } else if d == 5 {
            Union7::V5(F::spec_decode(p.subrange(0, F::spec_bits() as int)))
        } else {
            Union7::V6(G::spec_decode(p.subrange(0, G::spec_bits() as int)))
        }
    }

    open spec fn spec_valid(&self) -> bool {
        match self {
            Union7::V0(x) => x.spec_valid(),
            Union7::V1(x) => x.spec_valid(),
            Union7::V2(x) => x.spec_valid(),
            Union7::V3(x) => x.spec_valid(),
            Union7::V4(x) => x.spec_valid(),
            Union7::V5(x) => x.spec_valid(),
            Union7::V6(x) => x.spec_valid(),
        }
    }

    fn bits() -> (r: usize) {
        3 + max_usize(A::bits(), max_usize(B::bits(), max_usize(C::bits(), max_usize(D::bits(), max_usize(E::bits(), max_usize(F::bits(), G::bits()))))))
    }

    fn from_aligned(aligned: &Self, slice: &mut [u8], offset: usize) {
        let ghost s0 = slice@;
        let ghost total = Self::spec_bits() as int;
        proof {
            lemma2_to64();
        }
        match aligned {
            Union7::V0(x) => {
                write_bits(slice, offset, 3, 0);
                let ghost s1 = slice@;
                A::from_aligned(x, slice, offset + 3);
                proof {
                    lemma_union_arm::<A>(s0, s1, slice@, offset as int, 3, total, 0);
                }
            },
            Union7::V1(x) => {
                write_bits(slice, offset, 3, 1);
                let ghost s1 = slice@;
                B::from_aligned(x, slice, offset + 3);
                proof {
                    lemma_union_arm::<B>(s0, s1, slice@, offset as int, 3, total, 1);
                }
            },
            Union7::V2(x) => {
                write_bits(slice, offset, 3, 2);
                let ghost s1 = slice@;
                C::from_aligned(x, slice, offset + 3);
                proof {
                    lemma_union_arm::<C>(s0, s1, slice@, offset as int, 3, total, 2);
                }
            },
            Union7::V3(x) => {
                write_bits(slice, offset, 3, 3);
                let ghost s1 = slice@;
                D::from_aligned(x, slice, offset + 3);
                proof {
                    lemma_union_arm::<D>(s0, s1, slice@, offset as int, 3, total, 3);
                }
            },
            Union7::V4(x) => {
                write_bits(slice, offset, 3, 4);
                let ghost s1 = slice@;
                E::from_aligned(x, slice, offset + 3);
                proof {
                    lemma_union_arm::<E>(s0, s1, slice@, offset as int, 3, total, 4);
                }
            },
            Union7::V5(x) => {
                write_bits(slice, offset, 3, 5);
                let ghost s1 = slice@;
                F::from_aligned(x, slice, offset + 3);
                proof {
                    lemma_union_arm::<F>(s0, s1, slice@, offset as int, 3, total, 5);
                }
            },
            Union7::V6(x) => {
                write_bits(slice, offset, 3, 6);
                let ghost s1 = slice@;
                G::from_aligned(x, slice, offset + 3);
                proof {
                    lemma_union_arm::<G>(s0, s1, slice@, offset as int, 3, total, 6);
                }
            },
        }
    }

    fn to_aligned(slice: &[u8], offset: usize) -> (r: Self) {
        let ghost w = window(slice@, offset as int, Self::spec_bits() as int);
        proof {
            lemma_window_split(slice@, offset as int, Self::spec_bits() as int, 0, 3);
        }
        let d = read_bits(slice, offset, 3);
        if d == 0 {
            proof {
                lemma_union_payload::<A>(slice@, offset as int, 3, Self::spec_bits() as int);
            }
            Union7::V0(A::to_aligned(slice, offset + 3))
        } else if d == 1 {
            proof {
                lemma_union_payload::<B>(slice@, offset as int, 3, Self::spec_bits() as int);
            }
            Union7::V1(B::to_aligned(slice, offset + 3))
        } else if d == 2 {
            proof {
                lemma_union_payload::<C>(slice@, offset as int, 3, Self::spec_bits() as int);
            }
            Union7::V2(C::to_aligned(slice, offset + 3))
        } else if d == 3 {
            proof {
                lemma_union_payload::<D>(slice@, offset as int, 3, Self::spec_bits() as int);
            }
            Union7::V3(D::to_aligned(slice, offset + 3))
        } else if d == 4 {
            proof {
                lemma_union_payload::<E>(slice@, offset as int, 3, Self::spec_bits() as int);
            }
            Union7::V4(E::to_aligned(slice, offset + 3))
        } else if d == 5 {
            proof {
                lemma_union_payload::<F>(slice@, offset as int, 3, Self::spec_bits() as int);
            }
            Union7::V5(F::to_aligned(slice, offset + 3))
        } else {
            proof {
                lemma_union_payload::<G>(slice@, offset as int, 3, Self::spec_bits() as int);
            }
            Union7::V6(G::to_aligned(slice, offset + 3))
        }
    }
}

impl<A: BitType, B: BitType, C: BitType, D: BitType, E: BitType, F: BitType, G: BitType> MaybeAccess<0> for Union7<A, B, C, D, E, F, G> {
    type Element = A;

    open spec fn spec_bit_offset() -> nat {
        3
    }

    open spec fn spec_expected() -> nat {
        0
    }

    open spec fn spec_payload(v: Self) -> Option<A> {
        match v {
            Union7::V0(x) => Some(x),
            _ => None,
        }
    }

    open spec fn spec_canonical(bits: Seq<bool>) -> bool {
        nat_of(bits.subrange(0, 3)) < 7
    }

    fn bit_offset() -> (r: usize) {
        3
    }

    fn expected() -> (r: u32) {
        0
    }

    proof fn lemma_variant(bits: Seq<bool>) {
        let p = bits.subrange(3, bits.len() as int);
        assert(p.subrange(0, A::spec_bits() as int) =~= bits.subrange(3, (3 + A::spec_bits()) as int));
    }
}

impl<A: BitType, B: BitType, C: BitType, D: BitType, E: BitType, F: BitType, G: BitType> MaybeAccess<1> for Union7<A, B, C, D, E, F, G> {
    type Element = B;

    open spec fn spec_bit_offset() -> nat {
        3
    }

    open spec fn spec_expected() -> nat {
        1
    }

    open spec fn spec_payload(v: Self) -> Option<B> {
        match v {
            Union7::V1(x) => Some(x),
            _ => None,
        }
    }

    open spec fn spec_canonical(bits: Seq<bool>) -> bool {
        nat_of(bits.subrange(0, 3)) < 7
    }

    fn bit_offset() -> (r: usize) {
        3
    }

    fn expected() -> (r: u32) {
        1
    }

    proof fn lemma_variant(bits: Seq<bool>) {
        let p = bits.subrange(3, bits.len() as int);
        assert(p.subrange(0, B::spec_bits() as int) =~= bits.subrange(3, (3 + B::spec_bits()) as int));
    }
}

impl<A: BitType, B: BitType, C: BitType, D: BitType, E: BitType, F: BitType, G: BitType> MaybeAccess<2> for Union7<A, B, C, D, E, F, G> {
    type Element = C;

    open spec fn spec_bit_offset() -> nat {
        3
    }

    open spec fn spec_expected() -> nat {
        2
    }

    open spec fn spec_payload(v: Self) -> Option<C> {
        match v {
            Union7::V2(x) => Some(x),
            _ => None,
        }
    }

    open spec fn spec_canonical(bits: Seq<bool>) -> bool {
        nat_of(bits.subrange(0, 3)) < 7
    }

    fn bit_offset() -> (r: usize) {
        3
    }

    fn expected() -> (r: u32) {
        2
    }

    proof fn lemma_variant(bits: Seq<bool>) {
        let p = bits.subrange(3, bits.len() as int);
        assert(p.subrange(0, C::spec_bits() as int) =~= bits.subrange(3, (3 + C::spec_bits()) as int));
    }
}

impl<A: BitType, B: BitType, C: BitType, D: BitType, E: BitType, F: BitType, G: BitType> MaybeAccess<3> for Union7<A, B, C, D, E, F, G> {
    type Element = D;

    open spec fn spec_bit_offset() -> nat {
        3
    }

    open spec fn spec_expected() -> nat {
        3
    }

    open spec fn spec_payload(v: Self) -> Option<D> {
        match v {
            Union7::V3(x) => Some(x),
            _ => None,
        }
    }

    open spec fn spec_canonical(bits: Seq<bool>) -> bool {
        nat_of(bits.subrange(0, 3)) < 7
    }

    fn bit_offset() -> (r: usize) {
        3
    }

    fn expected() -> (r: u32) {
        3
    }

    proof fn lemma_variant(bits: Seq<bool>) {
        let p = bits.subrange(3, bits.len() as int);
        assert(p.subrange(0, D::spec_bits() as int) =~= bits.subrange(3, (3 + D::spec_bits()) as int));
    }
}

impl<A: BitType, B: BitType, C: BitType, D: BitType, E: BitType, F: BitType, G: BitType> MaybeAccess<4> for Union7<A, B, C, D, E, F, G> {
    type Element = E;

    open spec fn spec_bit_offset() -> nat {
        3
    }

    open spec fn spec_expected() -> nat {
        4
    }

    open spec fn spec_payload(v: Self) -> Option<E> {
        match v {
            Union7::V4(x) => Some(x),
            _ => None,
        }
    }

    open spec fn spec_canonical(bits: Seq<bool>) -> bool {
        nat_of(bits.subrange(0, 3)) < 7
    }

    fn bit_offset() -> (r: usize) {
        3
    }

    fn expected() -> (r: u32) {
        4
    }

    proof fn lemma_variant(bits: Seq<bool>) {
        let p = bits.subrange(3, bits.len() as int);
        assert(p.subrange(0, E::spec_bits() as int) =~= bits.subrange(3, (3 + E::spec_bits()) as int));
    }
}

impl<A: BitType, B: BitType, C: BitType, D: BitType, E: BitType, F: BitType, G: BitType> MaybeAccess<5> for Union7<A, B, C, D, E, F, G> {
    type Element = F;

    open spec fn spec_bit_offset() -> nat {
        3
    }

    open spec fn spec_expected() -> nat {
        5
    }

    open spec fn spec_payload(v: Self) -> Option<F> {
        match v {
            Union7::V5(x) => Some(x),
            _ => None,
        }
    }

    open spec fn spec_canonical(bits: Seq<bool>) -> bool {
        nat_of(bits.subrange(0, 3)) < 7
    }

    fn bit_offset() -> (r: usize) {
        3
    }

    fn expected() -> (r: u32) {
        5
    }

    proof fn lemma_variant(bits: Seq<bool>) {
        let p = bits.subrange(3, bits.len() as int);
        assert(p.subrange(0, F::spec_bits() as int) =~= bits.subrange(3, (3 + F::spec_bits()) as int));
    }
}

impl<A: BitType, B: BitType, C: BitType, D: BitType, E: BitType, F: BitType, G: BitType> MaybeAccess<6> for Union7<A, B, C, D, E, F, G> {
    type Element = G;

    open spec fn spec_bit_offset() -> nat {
        3
    }

    open spec fn spec_expected() -> nat {
        6
    }

    open spec fn spec_payload(v: Self) -> Option<G> {
        match v {
            Union7::V6(x) => Some(x),
            _ => None,
        }
    }

    open spec fn spec_canonical(bits: Seq<bool>) -> bool {
        nat_of(bits.subrange(0, 3)) < 7
    }

    fn bit_offset() -> (r: usize) {
        3
    }

    fn expected() -> (r: u32) {
        6
    }

    proof fn lemma_variant(bits: Seq<bool>) {
        let p = bits.subrange(3, bits.len() as int);
        assert(p.subrange(0, G::spec_bits() as int) =~= bits.subrange(3, (3 + G::spec_bits()) as int));
    }
}

/// A tagged union of 8 variants: a discriminant of 3 bits holding the
/// index of the variant, followed by a payload region as wide as the widest
/// payload, which every variant's payload starts at. Discriminant values
/// past the last variant read as the last variant.
#[derive(Clone, Copy, Debug, PartialEq, Eq)]
pub enum Union8<A, B, C, D, E, F, G, H> {
    V0(A),
    V1(B),
    V2(C),
    V3(D),
    V4(E),
    V5(F),
    V6(G),
    V7(H),
}

impl<A: BitType, B: BitType, C: BitType, D: BitType, E: BitType, F: BitType, G: BitType, H: BitType> BitType for Union8<A, B, C, D, E, F, G, H> {
    open spec fn spec_bits() -> nat {
        3 + max_nat(A::spec_bits(), max_nat(B::spec_bits(), max_nat(C::spec_bits(), max_nat(D::spec_bits(), max_nat(E::spec_bits(), max_nat(F::spec_bits(), max_nat(G::spec_bits(), H::spec_bits())))))))
    }

    open spec fn spec_decode(bits: Seq<bool>) -> Self {
        let d = nat_of(bits.subrange(0, 3));
        let p = bits.subrange(3, bits.len() as int);
        if d == 0 {
            Union8::V0(A::spec_decode(p.subrange(0, A::spec_bits() as int)))
        } else if d == 1 {
            Union8::V1(B::spec_decode(p.subrange(0, B::spec_bits() as int)))
        } else if d == 2 {
            Union8::V2(C::spec_decode(p.subrange(0, C::spec_bits() as int)))
        } else if d == 3 {
            Union8::V3(D::spec_decode(p.subrange(0, D::spec_bits() as int)))
        } else if d == 4 {
            Union8::V4(E::spec_decode(p.subrange(0, E::spec_bits() as int)))
        } else if d == 5 {
            Union8::V5(F::spec_decode(p.subrange(0, F::spec_bits() as int)))
        } else if d == 6 {
            Union8::V6(G::spec_decode(p.subrange(0, G::spec_bits() as int)))
        } else {
            Union8::V7(H::spec_decode(p.subrange(0, H::spec_bits() as int)))
        }
    }

    open spec fn spec_valid(&self) -> bool {
        match self {
            Union8::V0(x) => x.spec_valid(),
            Union8::V1(x) => x.spec_valid(),
            Union8::V2(x) => x.spec_valid(),
            Union8::V3(x) => x.spec_valid(),
            Union8::V4(x) => x.spec_valid(),
            Union8::V5(x) => x.spec_valid(),
            Union8::V6(x) => x.spec_valid(),
            Union8::V7(x) => x.spec_valid(),
        }
    }

    fn bits() -> (r: usize) {
        3 + max_usize(A::bits(), max_usize(B::bits(), max_usize(C::bits(), max_usize(D::bits(), max_usize(E::bits(), max_usize(F::bits(), max_usize(G::bits(), H::bits())))))))
    }

    fn from_aligned(aligned: &Self, slice: &mut [u8], offset: usize) {
        let ghost s0 = slice@;
        let ghost total = Self::spec_bits() as int;
        proof {
            lemma2_to64();
        }
        match aligned {
            Union8::V0(x) => {
                write_bits(slice, offset, 3, 0);
                let ghost s1 = slice@;
                A::from_aligned(x, slice, offset + 3);
                proof {
                    lemma_union_arm::<A>(s0, s1, slice@, offset as int, 3, total, 0);
                }
            },
            Union8::V1(x) => {
                write_bits(slice, offset, 3, 1);
                let ghost s1 = slice@;
                B::from_aligned(x, slice, offset + 3);
                proof {
                    lemma_union_arm::<B>(s0, s1, slice@, offset as int, 3, total, 1);
                }
            },
            Union8::V2(x) => {
                write_bits(slice, offset, 3, 2);
                let ghost s1 = slice@;
                C::from_aligned(x, slice, offset + 3);
                proof {
                    lemma_union_arm::<C>(s0, s1, slice@, offset as int, 3, total, 2);
                }
            },
            Union8::V3(x) => {
                write_bits(slice, offset, 3, 3);
                let ghost s1 = slice@;
                D::from_aligned(x, slice, offset + 3);
                proof {
                    lemma_union_arm::<D>(s0, s1, slice@, offset as int, 3, total, 3);
                }
            },
            Union8::V4(x) => {
                write_bits(slice, offset, 3, 4);
                let ghost s1 = slice@;
                E::from_aligned(x, slice, offset + 3);
                proof {
                    lemma_union_arm::<E>(s0, s1, slice@, offset as int, 3, total, 4);
                }
            },
            Union8::V5(x) => {
                write_bits(slice, offset, 3, 5);
                let ghost s1 = slice@;
                F::from_aligned(x, slice, offset + 3);
                proof {
                    lemma_union_arm::<F>(s0, s1, slice@, offset as int, 3, total, 5);
                }
            },
            Union8::V6(x) => {
                write_bits(slice, offset, 3, 6);
                let ghost s1 = slice@;
                G::from_aligned(x, slice, offset + 3);
                proof {
                    lemma_union_arm::<G>(s0, s1, slice@, offset as int, 3, total, 6);
                }
            },
            Union8::V7(x) => {
                write_bits(slice, offset, 3, 7);
                let ghost s1 = slice@;
                H::from_aligned(x, slice, offset + 3);
                proof {
                    lemma_union_arm::<H>(s0, s1, slice@, offset as int, 3, total, 7);
                }
            },
        }
    }

    fn to_aligned(slice: &[u8], offset: usize) -> (r: Self) {
        let ghost w = window(slice@, offset as int, Self::spec_bits() as int);
        proof {
            lemma_window_split(slice@, offset as int, Self::spec_bits() as int, 0, 3);
        }
        let d = read_bits(slice, offset, 3);
        if d == 0 {
            proof {
                lemma_union_payload::<A>(slice@, offset as int, 3, Self::spec_bits() as int);
            }
            Union8::V0(A::to_aligned(slice, offset + 3))
        } else if d == 1 {
            proof {
                lemma_union_payload::<B>(slice@, offset as int, 3, Self::spec_bits() as int);
            }
            Union8::V1(B::to_aligned(slice, offset + 3))
        } else if d == 2 {
            proof {
                lemma_union_payload::<C>(slice@, offset as int, 3, Self::spec_bits() as int);
            }
            Union8::V2(C::to_aligned(slice, offset + 3))
        } else if d == 3 {
            proof {
                lemma_union_payload::<D>(slice@, offset as int, 3, Self::spec_bits() as int);
            }
            Union8::V3(D::to_aligned(slice, offset + 3))
        } else if d == 4 {
            proof {
                lemma_union_payload::<E>(slice@, offset as int, 3, Self::spec_bits() as int);
            }
            Union8::V4(E::to_aligned(slice, offset + 3))
        } else if d == 5 {
            proof {
                lemma_union_payload::<F>(slice@, offset as int, 3, Self::spec_bits() as int);
            }
            Union8::V5(F::to_aligned(slice, offset + 3))
        } else if d == 6 {
            proof {
                lemma_union_payload::<G>(slice@, offset as int, 3, Self::spec_bits() as int);
            }
            Union8::V6(G::to_aligned(slice, offset + 3))
        } else {
            proof {
                lemma_union_payload::<H>(slice@, offset as int, 3, Self::spec_bits() as int);
            }
            Union8::V7(H::to_aligned(slice, offset + 3))
        }
    }
}

impl<A: BitType, B: BitType, C: BitType, D: BitType, E: BitType, F: BitType, G: BitType, H: BitType> MaybeAccess<0> for Union8<A, B, C, D, E, F, G, H> {
    type Element = A;

    open spec fn spec_bit_offset() -> nat {
        3
    }

    open spec fn spec_expected() -> nat {
        0
    }

    open spec fn spec_payload(v: Self) -> Option<A> {
        match v {
            Union8::V0(x) => Some(x),
            _ => None,
        }
    }

    open spec fn spec_canonical(bits: Seq<bool>) -> bool {
        nat_of(bits.subrange(0, 3)) < 8
    }

    fn bit_offset() -> (r: usize) {
        3
    }

    fn expected() -> (r: u32) {
        0
    }

    proof fn lemma_variant(bits: Seq<bool>) {
        let p = bits.subrange(3, bits.len() as int);
        assert(p.subrange(0, A::spec_bits() as int) =~= bits.subrange(3, (3 + A::spec_bits()) as int));
    }
}

impl<A: BitType, B: BitType, C: BitType, D: BitType, E: BitType, F: BitType, G: BitType, H: BitType> MaybeAccess<1> for Union8<A, B, C, D, E, F, G, H> {
    type Element = B;

    open spec fn spec_bit_offset() -> nat {
        3
    }

    open spec fn spec_expected() -> nat {
        1
    }

    open spec fn spec_payload(v: Self) -> Option<B> {
        match v {
            Union8::V1(x) => Some(x),
            _ => None,
        }
    }

    open spec fn spec_canonical(bits: Seq<bool>) -> bool {
        nat_of(bits.subrange(0, 3)) < 8
    }

    fn bit_offset() -> (r: usize) {
        3
    }

    fn expected() -> (r: u32) {
        1
    }

    proof fn lemma_variant(bits: Seq<bool>) {
        let p = bits.subrange(3, bits.len() as int);
        assert(p.subrange(0, B::spec_bits() as int) =~= bits.subrange(3, (3 + B::spec_bits()) as int));
    }
}

impl<A: BitType, B: BitType, C: BitType, D: BitType, E: BitType, F: BitType, G: BitType, H: BitType> MaybeAccess<2> for Union8<A, B, C, D, E, F, G, H> {
    type Element = C;

    open spec fn spec_bit_offset() -> nat {
        3
    }

    open spec fn spec_expected() -> nat {
        2
    }

    open spec fn spec_payload(v: Self) -> Option<C> {
        match v {
            Union8::V2(x) => Some(x),
            _ => None,
        }
    }

    open spec fn spec_canonical(bits: Seq<bool>) -> bool {
        nat_of(bits.subrange(0, 3)) < 8
    }

    fn bit_offset() -> (r: usize) {
        3
    }

    fn expected() -> (r: u32) {
        2
    }

    proof fn lemma_variant(bits: Seq<bool>) {
        let p = bits.subrange(3, bits.len() as int);
        assert(p.subrange(0, C::spec_bits() as int) =~= bits.subrange(3, (3 + C::spec_bits()) as int));
    }
}

impl<A: BitType, B: BitType, C: BitType, D: BitType, E: BitType, F: BitType, G: BitType, H: BitType> MaybeAccess<3> for Union8<A, B, C, D, E, F, G, H> {
    type Element = D;

    open spec fn spec_bit_offset() -> nat {
        3
    }

    open spec fn spec_expected() -> nat {
        3
    }

    open spec fn spec_payload(v: Self) -> Option<D> {
        match v {
            Union8::V3(x) => Some(x),
            _ => None,
        }
    }

    open spec fn spec_canonical(bits: Seq<bool>) -> bool {
        nat_of(bits.subrange(0, 3)) < 8
    }

    fn bit_offset() -> (r: usize) {
        3
    }

    fn expected() -> (r: u32) {
        3
    }

    proof fn lemma_variant(bits: Seq<bool>) {
        let p = bits.subrange(3, bits.len() as int);
        assert(p.subrange(0, D::spec_bits() as int) =~= bits.subrange(3, (3 + D::spec_bits()) as int));
    }
}

impl<A: BitType, B: BitType, C: BitType, D: BitType, E: BitType, F: BitType, G: BitType, H: BitType> MaybeAccess<4> for Union8<A, B, C, D, E, F, G, H> {
    type Element = E;

    open spec fn spec_bit_offset() -> nat {
        3
    }

    open spec fn spec_expected() -> nat {
        4
    }

    open spec fn spec_payload(v: Self) -> Option<E> {
        match v {
            Union8::V4(x) => Some(x),
            _ => None,
        }
    }

    open spec fn spec_canonical(bits: Seq<bool>) -> bool {
        nat_of(bits.subrange(0, 3)) < 8
    }

    fn bit_offset() -> (r: usize) {
        3
    }

    fn expected() -> (r: u32) {
        4
    }

    proof fn lemma_variant(bits: Seq<bool>) {
        let p = bits.subrange(3, bits.len() as int);
        assert(p.subrange(0, E::spec_bits() as int) =~= bits.subrange(3, (3 + E::spec_bits()) as int));
    }
}

impl<A: BitType, B: BitType, C: BitType, D: BitType, E: BitType, F: BitType, G: BitType, H: BitType> MaybeAccess<5> for Union8<A, B, C, D, E, F, G, H> {
    type Element = F;

    open spec fn spec_bit_offset() -> nat {
        3
    }

    open spec fn spec_expected() -> nat {
        5
    }

    open spec fn spec_payload(v: Self) -> Option<F> {
        match v {
            Union8::V5(x) => Some(x),
            _ => None,
        }
    }

    open spec fn spec_canonical(bits: Seq<bool>) -> bool {
        nat_of(bits.subrange(0, 3)) < 8
    }

    fn bit_offset() -> (r: usize) {
        3
    }

    fn expected() -> (r: u32) {
        5
    }

    proof fn lemma_variant(bits: Seq<bool>) {
        let p = bits.subrange(3, bits.len() as int);
        assert(p.subrange(0, F::spec_bits() as int) =~= bits.subrange(3, (3 + F::spec_bits()) as int));
    }
}

impl<A: BitType, B: BitType, C: BitType, D: BitType, E: BitType, F: BitType, G: BitType, H: BitType> MaybeAccess<6> for Union8<A, B, C, D, E, F, G, H> {
    type Element = G;

    open spec fn spec_bit_offset() -> nat {
        3
    }

    open spec fn spec_expected() -> nat {
        6
    }

    open spec fn spec_payload(v: Self) -> Option<G> {
        match v {
            Union8::V6(x) => Some(x),
            _ => None,
        }
    }

    open spec fn spec_canonical(bits: Seq<bool>) -> bool {
        nat_of(bits.subrange(0, 3)) < 8
    }

    fn bit_offset() -> (r: usize) {
        3
    }

    fn expected() -> (r: u32) {
        6
    }

    proof fn lemma_variant(bits: Seq<bool>) {
        let p = bits.subrange(3, bits.len() as int);
        assert(p.subrange(0, G::spec_bits() as int) =~= bits.subrange(3, (3 + G::spec_bits()) as int));
    }
}

impl<A: BitType, B: BitType, C: BitType, D: BitType, E: BitType, F: BitType, G: BitType, H: BitType> MaybeAccess<7> for Union8<A, B, C, D, E, F, G, H> {
    type Element = H;

    open spec fn spec_bit_offset() -> nat {
        3
    }

    open spec fn spec_expected() -> nat {
        7
    }

    open spec fn spec_payload(v: Self) -> Option<H> {
        match v {
            Union8::V7(x) => Some(x),
            _ => None,
        }
    }

    open spec fn spec_canonical(bits: Seq<bool>) -> bool {
        nat_of(bits.subrange(0, 3)) < 8
    }

    fn bit_offset() -> (r: usize) {
        3
    }

    fn expected() -> (r: u32) {
        7
    }

    proof fn lemma_variant(bits: Seq<bool>) {
        let p = bits.subrange(3, bits.len() as int);
        assert(p.subrange(0, H::spec_bits() as int) =~= bits.subrange(3, (3 + H::spec_bits()) as int));
    }
}

} // verus!
