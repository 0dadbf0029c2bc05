//! What a cursor needs to know to step into a field, an element or a variant
//! of a packed value.
use crate::bit_num::{lemma_log2_bounds, log2, spec_log2};
use crate::bit_ops::nat_of;
use vstd::arithmetic::power2::{lemma2_to64, pow2};
use crate::bit_type::{array_elements, lemma_array_exists, lemma_element_fits, BitType};
use vstd::prelude::*;

verus! {

/// Field `I` of a tuple, or element `I` of an array, chosen at compile time.
pub trait TupleAccess<const I: usize>: BitType {
    /// The type of the field.
    type Element: BitType;

    /// Whether the field exists (an array has elements below its length only).
    spec fn spec_has_field() -> bool;

    /// Bit offset of the field within the packed value.
    spec fn spec_bit_offset() -> nat;

    /// The field of a value.
    spec fn spec_field(v: Self) -> Self::Element;

    /// Bit offset of the field within the packed value.
    fn bit_offset() -> (r: usize)
        requires
            Self::spec_has_field(),
            Self::spec_bits() <= usize::MAX,
        ensures
            r == Self::spec_bit_offset(),
    ;

    /// The field lies inside the value, and the bits of the field decode to
    /// the field of the decoded value.
    proof fn lemma_field(bits: Seq<bool>)
        requires
            Self::spec_has_field(),
            bits.len() == Self::spec_bits(),
        ensures
            Self::spec_bit_offset() + Self::Element::spec_bits() <= Self::spec_bits(),
            Self::spec_field(Self::spec_decode(bits)) == Self::Element::spec_decode(
                bits.subrange(
                    Self::spec_bit_offset() as int,
                    (Self::spec_bit_offset() + Self::Element::spec_bits()) as int,
                ),
            ),
    ;
}

/// Elements chosen by an index known at run time.
pub trait DynAccess: BitType {
    /// The type of the elements.
    type Element: BitType;

    /// Number of elements.
    spec fn spec_max() -> nat;

    /// Element `i` of a value.
    spec fn spec_element(v: Self, i: int) -> Self::Element;

    /// Number of elements.
    fn max() -> (r: usize)
        ensures
            r == Self::spec_max(),
    ;

    /// Bit offset of element `i` within the packed value.
    fn offset(i: usize) -> (r: usize)
        requires
            i < Self::spec_max(),
            Self::spec_bits() <= usize::MAX,
        ensures
            r == i * Self::Element::spec_bits(),
            r + Self::Element::spec_bits() <= Self::spec_bits(),
    ;

    /// Element `i` lies inside the value, and its bits decode to element `i`
    /// of the decoded value.
    proof fn lemma_element(bits: Seq<bool>, i: int)
        requires
            bits.len() == Self::spec_bits(),
            0 <= i < Self::spec_max(),
        ensures
            0 <= i * Self::Element::spec_bits(),
            i * Self::Element::spec_bits() + Self::Element::spec_bits() <= Self::spec_bits(),
            Self::spec_element(Self::spec_decode(bits), i) == Self::Element::spec_decode(
                bits.subrange(
                    i * Self::Element::spec_bits(),
                    i * Self::Element::spec_bits() + Self::Element::spec_bits(),
                ),
            ),
    ;
}

/// Variant `I` of a tagged union: a discriminant of `spec_bit_offset()` bits
/// at the start of the value, and the payload right after it.
pub trait MaybeAccess<const I: u64>: BitType {
    /// The type of the payload.
    type Element: BitType;

    /// Width of the discriminant, where the payload starts.
    spec fn spec_bit_offset() -> nat;

    /// Discriminant value that selects this variant.
    spec fn spec_expected() -> nat;

    /// The payload of `v` if `v` is this variant.
    spec fn spec_payload(v: Self) -> Option<Self::Element>;

    /// Whether the discriminant in `bits` names a variant of the union;
    /// every value written leaves such a discriminant.
    spec fn spec_canonical(bits: Seq<bool>) -> bool;

    /// Width of the discriminant.
    fn bit_offset() -> (r: usize)
        ensures
            r == Self::spec_bit_offset(),
    ;

    /// Discriminant value that selects this variant.
    fn expected() -> (r: u32)
        ensures
            r == Self::spec_expected(),
    ;

    /// When the discriminant bits hold the expected value, the value is this
    /// variant and its payload is what the bits after them hold; when the
    /// discriminant names a variant, the value is this variant only if the
    /// discriminant bits hold the expected value.
    proof fn lemma_variant(bits: Seq<bool>)
        requires
            bits.len() == Self::spec_bits(),
        ensures
            Self::spec_bit_offset() <= 64,
            Self::spec_expected() <= u32::MAX,
            Self::spec_bit_offset() + Self::Element::spec_bits() <= Self::spec_bits(),
            discriminant_matches(bits, Self::spec_bit_offset(), Self::spec_expected())
                ==> Self::spec_payload(Self::spec_decode(bits)) == Some(
                Self::Element::spec_decode(
                    bits.subrange(
                        Self::spec_bit_offset() as int,
                        (Self::spec_bit_offset() + Self::Element::spec_bits()) as int,
                    ),
                ),
            ),
            Self::spec_canonical(bits) && Self::spec_payload(Self::spec_decode(bits)) is Some
                ==> discriminant_matches(bits, Self::spec_bit_offset(), Self::spec_expected()),
    ;
}

/// The first `width` bits of `bits` hold `expected` (always, for no bits).
pub open spec fn discriminant_matches(bits: Seq<bool>, width: nat, expected: nat) -> bool {
    width == 0 || nat_of(bits.subrange(0, width as int)) == expected
}

/// Number of discriminant bits of a union of `variants` variants: the
/// fewest bits that can number them all, none for a single variant.
pub fn discriminant_bits(variants: usize) -> (r: usize)
    ensures
        variants <= pow2(r as nat),
        r > 0 ==> pow2((r - 1) as nat) < variants,
        r == if variants <= 1 {
            0
        } else {
            spec_log2((variants - 1) as nat)
        },
{
    if variants <= 1 {
        proof {
            lemma2_to64();
        }
        0
    } else {
        proof {
            lemma_log2_bounds((variants - 1) as nat);
        }
        log2(variants - 1)
    }
}

/// Tag of the variant `None` of `Option`: the 64-bit FNV-1a hash of "None".
pub const NONE_TAG: u64 = 7393530455478880603;

/// Tag of the variant `Some` of `Option`: the 64-bit FNV-1a hash of "Some".
pub const SOME_TAG: u64 = 9998797273467360689;

impl<T: BitType> MaybeAccess<NONE_TAG> for Option<T> {
    type Element = ();

    open spec fn spec_bit_offset() -> nat {
        1
    }

    open spec fn spec_expected() -> nat {
        0
    }

    open spec fn spec_payload(v: Self) -> Option<()> {
        match v {
            None => Some(()),
            Some(_) => None,
        }
    }

    open spec fn spec_canonical(bits: Seq<bool>) -> bool {
        true
    }

    fn bit_offset() -> (r: usize) {
        1
    }

    fn expected() -> (r: u32) {
        0
    }

    proof fn lemma_variant(bits: Seq<bool>) {
        let d = bits.subrange(0, 1);
        assert(d.subrange(1, 1).len() == 0);
        assert(nat_of(d.subrange(1, 1)) == 0);
    }
}

impl<T: BitType> MaybeAccess<SOME_TAG> for Option<T> {
    type Element = T;

    open spec fn spec_bit_offset() -> nat {
        1
    }

    open spec fn spec_expected() -> nat {
        1
    }

    open spec fn spec_payload(v: Self) -> Option<T> {
        v
    }

    open spec fn spec_canonical(bits: Seq<bool>) -> bool {
        true
    }

    fn bit_offset() -> (r: usize) {
        1
    }

    fn expected() -> (r: u32) {
        1
    }

    proof fn lemma_variant(bits: Seq<bool>) {
        let d = bits.subrange(0, 1);
        assert(d.subrange(1, 1).len() == 0);
        assert(nat_of(d.subrange(1, 1)) == 0);
    }
}

impl<T: BitType + Copy + Default, const N: usize> DynAccess for [T; N] {
    type Element = T;

    open spec fn spec_max() -> nat {
        N as nat
    }

    open spec fn spec_element(v: Self, i: int) -> T {
        v@[i]
    }

    fn max() -> (r: usize) {
        N
    }

    fn offset(i: usize) -> (r: usize) {
        proof {
            lemma_element_fits(i as int, N as int, T::spec_bits() as int);
        }
        i * T::bits()
    }

    proof fn lemma_element(bits: Seq<bool>, i: int) {
        lemma_element_fits(i, N as int, T::spec_bits() as int);
        lemma_array_exists::<T, N>(array_elements::<T>(bits, N as nat));
    }
}

impl<T: BitType + Copy + Default, const I: usize, const N: usize> TupleAccess<I> for [T; N] {
    type Element = T;

    open spec fn spec_has_field() -> bool {
        I < N
    }

    open spec fn spec_bit_offset() -> nat {
        I as nat * T::spec_bits()
    }

    open spec fn spec_field(v: Self) -> T {
        v@[I as int]
    }

    fn bit_offset() -> (r: usize) {
        proof {
            lemma_element_fits(I as int, N as int, T::spec_bits() as int);
        }
        I * T::bits()
    }

    proof fn lemma_field(bits: Seq<bool>) {
        lemma_element_fits(I as int, N as int, T::spec_bits() as int);
        lemma_array_exists::<T, N>(array_elements::<T>(bits, N as nat));
    }
}

impl<T0: BitType> TupleAccess<0> for (T0,) {
    type Element = T0;

    open spec fn spec_has_field() -> bool {
        true
    }

    open spec fn spec_bit_offset() -> nat {
        0
    }

    open spec fn spec_field(v: Self) -> T0 {
        v.0
    }

    fn bit_offset() -> (r: usize) {
        0
    }

    proof fn lemma_field(bits: Seq<bool>) {
    }
}

impl<T0: BitType, T1: BitType> TupleAccess<0> for (T0, T1) {
    type Element = T0;

    open spec fn spec_has_field() -> bool {
        true
    }

    open spec fn spec_bit_offset() -> nat {
        0
    }

    open spec fn spec_field(v: Self) -> T0 {
        v.0
    }

    fn bit_offset() -> (r: usize) {
        0
    }

    proof fn lemma_field(bits: Seq<bool>) {
    }
}

impl<T0: BitType, T1: BitType> TupleAccess<1> for (T0, T1) {
    type Element = T1;

    open spec fn spec_has_field() -> bool {
        true
    }

    open spec fn spec_bit_offset() -> nat {
        T0::spec_bits()
    }

    open spec fn spec_field(v: Self) -> T1 {
        v.1
    }

    fn bit_offset() -> (r: usize) {
        T0::bits()
    }

    proof fn lemma_field(bits: Seq<bool>) {
    }
}

impl<T0: BitType, T1: BitType, T2: BitType> TupleAccess<0> for (T0, T1, T2) {
    type Element = T0;

    open spec fn spec_has_field() -> bool {
        true
    }

    open spec fn spec_bit_offset() -> nat {
        0
    }

    open spec fn spec_field(v: Self) -> T0 {
        v.0
    }

    fn bit_offset() -> (r: usize) {
        0
    }

    proof fn lemma_field(bits: Seq<bool>) {
    }
}

impl<T0: BitType, T1: BitType, T2: BitType> TupleAccess<1> for (T0, T1, T2) {
    type Element = T1;

    open spec fn spec_has_field() -> bool {
        true
    }

    open spec fn spec_bit_offset() -> nat {
        T0::spec_bits()
    }

    open spec fn spec_field(v: Self) -> T1 {
        v.1
    }

    fn bit_offset() -> (r: usize) {
        T0::bits()
    }

    proof fn lemma_field(bits: Seq<bool>) {
    }
}

impl<T0: BitType, T1: BitType, T2: BitType> TupleAccess<2> for (T0, T1, T2) {
    type Element = T2;

    open spec fn spec_has_field() -> bool {
        true
    }

    open spec fn spec_bit_offset() -> nat {
        T0::spec_bits() + T1::spec_bits()
    }

    open spec fn spec_field(v: Self) -> T2 {
        v.2
    }

    fn bit_offset() -> (r: usize) {
        T0::bits() + T1::bits()
    }

    proof fn lemma_field(bits: Seq<bool>) {
    }
}

impl<T0: BitType, T1: BitType, T2: BitType, T3: BitType> TupleAccess<0> for (T0, T1, T2, T3) {
    type Element = T0;

    open spec fn spec_has_field() -> bool {
        true
    }

    open spec fn spec_bit_offset() -> nat {
        0
    }

    open spec fn spec_field(v: Self) -> T0 {
        v.0
    }

    fn bit_offset() -> (r: usize) {
        0
    }

    proof fn lemma_field(bits: Seq<bool>) {
    }
}

impl<T0: BitType, T1: BitType, T2: BitType, T3: BitType> TupleAccess<1> for (T0, T1, T2, T3) {
    type Element = T1;

    open spec fn spec_has_field() -> bool {
        true
    }

    open spec fn spec_bit_offset() -> nat {
        T0::spec_bits()
    }

    open spec fn spec_field(v: Self) -> T1 {
        v.1
    }

    fn bit_offset() -> (r: usize) {
        T0::bits()
    }

    proof fn lemma_field(bits: Seq<bool>) {
    }
}

impl<T0: BitType, T1: BitType, T2: BitType, T3: BitType> TupleAccess<2> for (T0, T1, T2, T3) {
    type Element = T2;

    open spec fn spec_has_field() -> bool {
        true
    }

    open spec fn spec_bit_offset() -> nat {
        T0::spec_bits() + T1::spec_bits()
    }

    open spec fn spec_field(v: Self) -> T2 {
        v.2
    }

    fn bit_offset() -> (r: usize) {
        T0::bits() + T1::bits()
    }

    proof fn lemma_field(bits: Seq<bool>) {
    }
}

impl<T0: BitType, T1: BitType, T2: BitType, T3: BitType> TupleAccess<3> for (T0, T1, T2, T3) {
    type Element = T3;

    open spec fn spec_has_field() -> bool {
        true
    }

    open spec fn spec_bit_offset() -> nat {
        T0::spec_bits() + T1::spec_bits() + T2::spec_bits()
    }

    open spec fn spec_field(v: Self) -> T3 {
        v.3
    }

    fn bit_offset() -> (r: usize) {
        T0::bits() + T1::bits() + T2::bits()
    }

    proof fn lemma_field(bits: Seq<bool>) {
    }
}

impl<T0: BitType, T1: BitType, T2: BitType, T3: BitType, T4: BitType> TupleAccess<0> for (T0, T1, T2, T3, T4) {
    type Element = T0;

    open spec fn spec_has_field() -> bool {
        true
    }

    open spec fn spec_bit_offset() -> nat {
        0
    }

    open spec fn spec_field(v: Self) -> T0 {
        v.0
    }

    fn bit_offset() -> (r: usize) {
        0
    }

    proof fn lemma_field(bits: Seq<bool>) {
    }
}

impl<T0: BitType, T1: BitType, T2: BitType, T3: BitType, T4: BitType> TupleAccess<1> for (T0, T1, T2, T3, T4) {
    type Element = T1;

    open spec fn spec_has_field() -> bool {
        true
    }

    open spec fn spec_bit_offset() -> nat {
        T0::spec_bits()
    }

    open spec fn spec_field(v: Self) -> T1 {
        v.1
    }

    fn bit_offset() -> (r: usize) {
        T0::bits()
    }

    proof fn lemma_field(bits: Seq<bool>) {
    }
}

impl<T0: BitType, T1: BitType, T2: BitType, T3: BitType, T4: BitType> TupleAccess<2> for (T0, T1, T2, T3, T4) {
    type Element = T2;

    open spec fn spec_has_field() -> bool {
        true
    }

    open spec fn spec_bit_offset() -> nat {
        T0::spec_bits() + T1::spec_bits()
    }

    open spec fn spec_field(v: Self) -> T2 {
        v.2
    }

    fn bit_offset() -> (r: usize) {
        T0::bits() + T1::bits()
    }

    proof fn lemma_field(bits: Seq<bool>) {
    }
}

impl<T0: BitType, T1: BitType, T2: BitType, T3: BitType, T4: BitType> TupleAccess<3> for (T0, T1, T2, T3, T4) {
    type Element = T3;

    open spec fn spec_has_field() -> bool {
        true
    }

    open spec fn spec_bit_offset() -> nat {
        T0::spec_bits() + T1::spec_bits() + T2::spec_bits()
    }

    open spec fn spec_field(v: Self) -> T3 {
        v.3
    }

    fn bit_offset() -> (r: usize) {
        T0::bits() + T1::bits() + T2::bits()
    }

    proof fn lemma_field(bits: Seq<bool>) {
    }
}

impl<T0: BitType, T1: BitType, T2: BitType, T3: BitType, T4: BitType> TupleAccess<4> for (T0, T1, T2, T3, T4) {
    type Element = T4;

    open spec fn spec_has_field() -> bool {
        true
    }

    open spec fn spec_bit_offset() -> nat {
        T0::spec_bits() + T1::spec_bits() + T2::spec_bits() + T3::spec_bits()
    }

    open spec fn spec_field(v: Self) -> T4 {
        v.4
    }

    fn bit_offset() -> (r: usize) {
        T0::bits() + T1::bits() + T2::bits() + T3::bits()
    }

    proof fn lemma_field(bits: Seq<bool>) {
    }
}

impl<T0: BitType, T1: BitType, T2: BitType, T3: BitType, T4: BitType, T5: BitType> TupleAccess<0> for (T0, T1, T2, T3, T4, T5) {
    type Element = T0;

    open spec fn spec_has_field() -> bool {
        true
    }

    open spec fn spec_bit_offset() -> nat {
        0
    }

    open spec fn spec_field(v: Self) -> T0 {
        v.0
    }

    fn bit_offset() -> (r: usize) {
        0
    }

    proof fn lemma_field(bits: Seq<bool>) {
    }
}

impl<T0: BitType, T1: BitType, T2: BitType, T3: BitType, T4: BitType, T5: BitType> TupleAccess<1> for (T0, T1, T2, T3, T4, T5) {
    type Element = T1;

    open spec fn spec_has_field() -> bool {
        true
    }

    open spec fn spec_bit_offset() -> nat {
        T0::spec_bits()
    }

    open spec fn spec_field(v: Self) -> T1 {
        v.1
    }

    fn bit_offset() -> (r: usize) {
        T0::bits()
    }

    proof fn lemma_field(bits: Seq<bool>) {
    }
}

impl<T0: BitType, T1: BitType, T2: BitType, T3: BitType, T4: BitType, T5: BitType> TupleAccess<2> for (T0, T1, T2, T3, T4, T5) {
    type Element = T2;

    open spec fn spec_has_field() -> bool {
        true
    }

    open spec fn spec_bit_offset() -> nat {
        T0::spec_bits() + T1::spec_bits()
    }

    open spec fn spec_field(v: Self) -> T2 {
        v.2
    }

    fn bit_offset() -> (r: usize) {
        T0::bits() + T1::bits()
    }

    proof fn lemma_field(bits: Seq<bool>) {
    }
}

impl<T0: BitType, T1: BitType, T2: BitType, T3: BitType, T4: BitType, T5: BitType> TupleAccess<3> for (T0, T1, T2, T3, T4, T5) {
    type Element = T3;

    open spec fn spec_has_field() -> bool {
        true
    }

    open spec fn spec_bit_offset() -> nat {
        T0::spec_bits() + T1::spec_bits() + T2::spec_bits()
    }

    open spec fn spec_field(v: Self) -> T3 {
        v.3
    }

    fn bit_offset() -> (r: usize) {
        T0::bits() + T1::bits() + T2::bits()
    }

    proof fn lemma_field(bits: Seq<bool>) {
    }
}

impl<T0: BitType, T1: BitType, T2: BitType, T3: BitType, T4: BitType, T5: BitType> TupleAccess<4> for (T0, T1, T2, T3, T4, T5) {
    type Element = T4;

    open spec fn spec_has_field() -> bool {
        true
    }

    open spec fn spec_bit_offset() -> nat {
        T0::spec_bits() + T1::spec_bits() + T2::spec_bits() + T3::spec_bits()
    }

    open spec fn spec_field(v: Self) -> T4 {
        v.4
    }

    fn bit_offset() -> (r: usize) {
        T0::bits() + T1::bits() + T2::bits() + T3::bits()
    }

    proof fn lemma_field(bits: Seq<bool>) {
    }
}

impl<T0: BitType, T1: BitType, T2: BitType, T3: BitType, T4: BitType, T5: BitType> TupleAccess<5> for (T0, T1, T2, T3, T4, T5) {
    type Element = T5;

    open spec fn spec_has_field() -> bool {
        true
    }

    open spec fn spec_bit_offset() -> nat {
        T0::spec_bits() + T1::spec_bits() + T2::spec_bits() + T3::spec_bits() + T4::spec_bits()
    }

    open spec fn spec_field(v: Self) -> T5 {
        v.5
    }

    fn bit_offset() -> (r: usize) {
        T0::bits() + T1::bits() + T2::bits() + T3::bits() + T4::bits()
    }

    proof fn lemma_field(bits: Seq<bool>) {
    }
}

impl<T0: BitType, T1: BitType, T2: BitType, T3: BitType, T4: BitType, T5: BitType, T6: BitType> TupleAccess<0> for (T0, T1, T2, T3, T4, T5, T6) {
    type Element = T0;

    open spec fn spec_has_field() -> bool {
        true
    }

    open spec fn spec_bit_offset() -> nat {
        0
    }

    open spec fn spec_field(v: Self) -> T0 {
        v.0
    }

    fn bit_offset() -> (r: usize) {
        0
    }

    proof fn lemma_field(bits: Seq<bool>) {
    }
}

impl<T0: BitType, T1: BitType, T2: BitType, T3: BitType, T4: BitType, T5: BitType, T6: BitType> TupleAccess<1> for (T0, T1, T2, T3, T4, T5, T6) {
    type Element = T1;

    open spec fn spec_has_field() -> bool {
        true
    }

    open spec fn spec_bit_offset() -> nat {
        T0::spec_bits()
    }

    open spec fn spec_field(v: Self) -> T1 {
        v.1
    }

    fn bit_offset() -> (r: usize) {
        T0::bits()
    }

    proof fn lemma_field(bits: Seq<bool>) {
    }
}

impl<T0: BitType, T1: BitType, T2: BitType, T3: BitType, T4: BitType, T5: BitType, T6: BitType> TupleAccess<2> for (T0, T1, T2, T3, T4, T5, T6) {
    type Element = T2;

    open spec fn spec_has_field() -> bool {
        true
    }

    open spec fn spec_bit_offset() -> nat {
        T0::spec_bits() + T1::spec_bits()
    }

    open spec fn spec_field(v: Self) -> T2 {
        v.2
    }

    fn bit_offset() -> (r: usize) {
        T0::bits() + T1::bits()
    }

    proof fn lemma_field(bits: Seq<bool>) {
    }
}

impl<T0: BitType, T1: BitType, T2: BitType, T3: BitType, T4: BitType, T5: BitType, T6: BitType> TupleAccess<3> for (T0, T1, T2, T3, T4, T5, T6) {
    type Element = T3;

    open spec fn spec_has_field() -> bool {
        true
    }

    open spec fn spec_bit_offset() -> nat {
        T0::spec_bits() + T1::spec_bits() + T2::spec_bits()
    }

    open spec fn spec_field(v: Self) -> T3 {
        v.3
    }

    fn bit_offset() -> (r: usize) {
        T0::bits() + T1::bits() + T2::bits()
    }

    proof fn lemma_field(bits: Seq<bool>) {
    }
}

impl<T0: BitType, T1: BitType, T2: BitType, T3: BitType, T4: BitType, T5: BitType, T6: BitType> TupleAccess<4> for (T0, T1, T2, T3, T4, T5, T6) {
    type Element = T4;

    open spec fn spec_has_field() -> bool {
        true
    }

    open spec fn spec_bit_offset() -> nat {
        T0::spec_bits() + T1::spec_bits() + T2::spec_bits() + T3::spec_bits()
    }

    open spec fn spec_field(v: Self) -> T4 {
        v.4
    }

    fn bit_offset() -> (r: usize) {
        T0::bits() + T1::bits() + T2::bits() + T3::bits()
    }

    proof fn lemma_field(bits: Seq<bool>) {
    }
}

impl<T0: BitType, T1: BitType, T2: BitType, T3: BitType, T4: BitType, T5: BitType, T6: BitType> TupleAccess<5> for (T0, T1, T2, T3, T4, T5, T6) {
    type Element = T5;

    open spec fn spec_has_field() -> bool {
        true
    }

    open spec fn spec_bit_offset() -> nat {
        T0::spec_bits() + T1::spec_bits() + T2::spec_bits() + T3::spec_bits() + T4::spec_bits()
    }

    open spec fn spec_field(v: Self) -> T5 {
        v.5
    }

    fn bit_offset() -> (r: usize) {
        T0::bits() + T1::bits() + T2::bits() + T3::bits() + T4::bits()
    }

    proof fn lemma_field(bits: Seq<bool>) {
    }
}

impl<T0: BitType, T1: BitType, T2: BitType, T3: BitType, T4: BitType, T5: BitType, T6: BitType> TupleAccess<6> for (T0, T1, T2, T3, T4, T5, T6) {
    type Element = T6;

    open spec fn spec_has_field() -> bool {
        true
    }

    open spec fn spec_bit_offset() -> nat {
        T0::spec_bits() + T1::spec_bits() + T2::spec_bits() + T3::spec_bits() + T4::spec_bits() + T5::spec_bits()
    }

    open spec fn spec_field(v: Self) -> T6 {
        v.6
    }

    fn bit_offset() -> (r: usize) {
        T0::bits() + T1::bits() + T2::bits() + T3::bits() + T4::bits() + T5::bits()
    }

    proof fn lemma_field(bits: Seq<bool>) {
    }
}

impl<T0: BitType, T1: BitType, T2: BitType, T3: BitType, T4: BitType, T5: BitType, T6: BitType, T7: BitType> TupleAccess<0> for (T0, T1, T2, T3, T4, T5, T6, T7) {
    type Element = T0;

    open spec fn spec_has_field() -> bool {
        true
    }

    open spec fn spec_bit_offset() -> nat {
        0
    }

    open spec fn spec_field(v: Self) -> T0 {
        v.0
    }

    fn bit_offset() -> (r: usize) {
        0
    }

    proof fn lemma_field(bits: Seq<bool>) {
    }
}

impl<T0: BitType, T1: BitType, T2: BitType, T3: BitType, T4: BitType, T5: BitType, T6: BitType, T7: BitType> TupleAccess<1> for (T0, T1, T2, T3, T4, T5, T6, T7) {
    type Element = T1;

    open spec fn spec_has_field() -> bool {
        true
    }

    open spec fn spec_bit_offset() -> nat {
        T0::spec_bits()
    }

    open spec fn spec_field(v: Self) -> T1 {
        v.1
    }

    fn bit_offset() -> (r: usize) {
        T0::bits()
    }

    proof fn lemma_field(bits: Seq<bool>) {
    }
}

impl<T0: BitType, T1: BitType, T2: BitType, T3: BitType, T4: BitType, T5: BitType, T6: BitType, T7: BitType> TupleAccess<2> for (T0, T1, T2, T3, T4, T5, T6, T7) {
    type Element = T2;

    open spec fn spec_has_field() -> bool {
        true
    }

    open spec fn spec_bit_offset() -> nat {
        T0::spec_bits() + T1::spec_bits()
    }

    open spec fn spec_field(v: Self) -> T2 {
        v.2
    }

    fn bit_offset() -> (r: usize) {
        T0::bits() + T1::bits()
    }

    proof fn lemma_field(bits: Seq<bool>) {
    }
}

impl<T0: BitType, T1: BitType, T2: BitType, T3: BitType, T4: BitType, T5: BitType, T6: BitType, T7: BitType> TupleAccess<3> for (T0, T1, T2, T3, T4, T5, T6, T7) {
    type Element = T3;

    open spec fn spec_has_field() -> bool {
        true
    }

    open spec fn spec_bit_offset() -> nat {
        T0::spec_bits() + T1::spec_bits() + T2::spec_bits()
    }

    open spec fn spec_field(v: Self) -> T3 {
        v.3
    }

    fn bit_offset() -> (r: usize) {
        T0::bits() + T1::bits() + T2::bits()
    }

    proof fn lemma_field(bits: Seq<bool>) {
    }
}

impl<T0: BitType, T1: BitType, T2: BitType, T3: BitType, T4: BitType, T5: BitType, T6: BitType, T7: BitType> TupleAccess<4> for (T0, T1, T2, T3, T4, T5, T6, T7) {
    type Element = T4;

    open spec fn spec_has_field() -> bool {
        true
    }

    open spec fn spec_bit_offset() -> nat {
        T0::spec_bits() + T1::spec_bits() + T2::spec_bits() + T3::spec_bits()
    }

    open spec fn spec_field(v: Self) -> T4 {
        v.4
    }

    fn bit_offset() -> (r: usize) {
        T0::bits() + T1::bits() + T2::bits() + T3::bits()
    }

    proof fn lemma_field(bits: Seq<bool>) {
    }
}

impl<T0: BitType, T1: BitType, T2: BitType, T3: BitType, T4: BitType, T5: BitType, T6: BitType, T7: BitType> TupleAccess<5> for (T0, T1, T2, T3, T4, T5, T6, T7) {
    type Element = T5;

    open spec fn spec_has_field() -> bool {
        true
    }

    open spec fn spec_bit_offset() -> nat {
        T0::spec_bits() + T1::spec_bits() + T2::spec_bits() + T3::spec_bits() + T4::spec_bits()
    }

    open spec fn spec_field(v: Self) -> T5 {
        v.5
    }

    fn bit_offset() -> (r: usize) {
        T0::bits() + T1::bits() + T2::bits() + T3::bits() + T4::bits()
    }

    proof fn lemma_field(bits: Seq<bool>) {
    }
}

impl<T0: BitType, T1: BitType, T2: BitType, T3: BitType, T4: BitType, T5: BitType, T6: BitType, T7: BitType> TupleAccess<6> for (T0, T1, T2, T3, T4, T5, T6, T7) {
    type Element = T6;

    open spec fn spec_has_field() -> bool {
        true
    }

    open spec fn spec_bit_offset() -> nat {
        T0::spec_bits() + T1::spec_bits() + T2::spec_bits() + T3::spec_bits() + T4::spec_bits() + T5::spec_bits()
    }

    open spec fn spec_field(v: Self) -> T6 {
        v.6
    }

    fn bit_offset() -> (r: usize) {
        T0::bits() + T1::bits() + T2::bits() + T3::bits() + T4::bits() + T5::bits()
    }

    proof fn lemma_field(bits: Seq<bool>) {
    }
}

impl<T0: BitType, T1: BitType, T2: BitType, T3: BitType, T4: BitType, T5: BitType, T6: BitType, T7: BitType> TupleAccess<7> for (T0, T1, T2, T3, T4, T5, T6, T7) {
    type Element = T7;

    open spec fn spec_has_field() -> bool {
        true
    }

    open spec fn spec_bit_offset() -> nat {
        T0::spec_bits() + T1::spec_bits() + T2::spec_bits() + T3::spec_bits() + T4::spec_bits() + T5::spec_bits() + T6::spec_bits()
    }

    open spec fn spec_field(v: Self) -> T7 {
        v.7
    }

    fn bit_offset() -> (r: usize) {
        T0::bits() + T1::bits() + T2::bits() + T3::bits() + T4::bits() + T5::bits() + T6::bits()
    }

    proof fn lemma_field(bits: Seq<bool>) {
    }
}

} // verus!
