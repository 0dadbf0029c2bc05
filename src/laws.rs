//! Properties that hold of the codec as a whole, stated over the contracts
//! of its parts.
use crate::bit_ops::{
    in_buffer, lemma_bytes_kept, lemma_window_kept, lemma_window_split, same_outside, window,
};
use crate::bit_type::{packed_at, BitType};
use crate::bit_wrapper::accessors::{DynAccess, MaybeAccess, TupleAccess};
use crate::bit_wrapper::predicate::{BitCheck, BitPredicate};
use vstd::prelude::*;

verus! {

/// Round trip: once `from_aligned` has written `value` at `offset`, leaving
/// `after`, what `to_aligned` reads at that offset is `value`, whatever the
/// offset and whatever the bytes held before.
pub proof fn lemma_round_trip<T: BitType>(value: T, before: Seq<u8>, after: Seq<u8>, offset: nat)
    requires
        value.spec_valid(),
        in_buffer(before.len(), offset, T::spec_bits()),
        T::spec_decode(window(after, offset as int, T::spec_bits() as int)) == value,
        same_outside(before, after, offset as int, T::spec_bits() as int),
    ensures
        packed_at::<T>(after, offset as int) == value,
        after.len() == before.len(),
{
}

/// Minimal window: writing a value of `n > 0` bits at bit `offset` changes
/// no byte outside the bytes from the one holding its first bit to the one
/// holding its last (the range `get_byte_range` gives).
pub proof fn lemma_minimal_window<T: BitType>(before: Seq<u8>, after: Seq<u8>, offset: nat)
    requires
        T::spec_bits() > 0,
        same_outside(before, after, offset as int, T::spec_bits() as int),
    ensures
        forall|j: int|
            0 <= j < before.len() && !(offset / 8 <= j <= (offset + T::spec_bits() - 1) / 8)
                ==> #[trigger] after[j] == before[j],
{
    lemma_bytes_kept(before, after, offset as int, T::spec_bits() as int);
}

/// Field independence: a write confined to the bits of one field leaves the
/// value of every field whose bits lie apart from them unchanged.
pub proof fn lemma_field_independence<A: BitType, B: BitType>(
    before: Seq<u8>,
    after: Seq<u8>,
    offset_a: int,
    offset_b: int,
)
    requires
        same_outside(before, after, offset_a, A::spec_bits() as int),
        0 <= offset_b,
        offset_b + B::spec_bits() <= 8 * before.len(),
        offset_b + B::spec_bits() <= offset_a || offset_a + A::spec_bits() <= offset_b,
    ensures
        packed_at::<B>(after, offset_b) == packed_at::<B>(before, offset_b),
{
    lemma_window_kept(before, after, offset_a, A::spec_bits() as int, offset_b, B::spec_bits() as int);
}

/// The two fields of a pair lie apart: writing either one leaves the other
/// as it was.
pub proof fn lemma_pair_fields_independent<A: BitType, B: BitType>(
    before: Seq<u8>,
    after: Seq<u8>,
    offset: int,
)
    requires
        0 <= offset,
        offset + A::spec_bits() + B::spec_bits() <= 8 * before.len(),
    ensures
        same_outside(before, after, offset, A::spec_bits() as int) ==> packed_at::<B>(
            after,
            offset + <(A, B) as TupleAccess<1>>::spec_bit_offset(),
        ) == packed_at::<B>(before, offset + <(A, B) as TupleAccess<1>>::spec_bit_offset()),
        same_outside(before, after, offset + A::spec_bits(), B::spec_bits() as int)
            ==> packed_at::<A>(after, offset + <(A, B) as TupleAccess<0>>::spec_bit_offset())
            == packed_at::<A>(before, offset + <(A, B) as TupleAccess<0>>::spec_bit_offset()),
{
    if same_outside(before, after, offset, A::spec_bits() as int) {
        lemma_field_independence::<A, B>(before, after, offset, offset + A::spec_bits());
    }
    if same_outside(before, after, offset + A::spec_bits(), B::spec_bits() as int) {
        lemma_field_independence::<B, A>(before, after, offset + A::spec_bits(), offset);
    }
}

/// Array indexing consistency: element `I` of an array reached by the
/// compile-time index starts where the run-time index `I` reaches it, and
/// both name the same element of the array's value.
pub proof fn lemma_index_consistency<T: BitType + Copy + Default, const N: usize, const I: usize>(
    v: [T; N],
)
    requires
        I < N,
    ensures
        <[T; N] as TupleAccess<I>>::spec_bit_offset() == I * T::spec_bits(),
        <[T; N] as TupleAccess<I>>::spec_field(v) == <[T; N] as DynAccess>::spec_element(
            v,
            I as int,
        ),
{
}

/// Variant gating: when the discriminant of a union packed at `offset`
/// names a variant (as it does once a value has been written), the check
/// that guards variant `I` holds exactly when the union's value is that
/// variant, and then the bits after the discriminant hold its payload.
pub proof fn lemma_variant_gating<T: MaybeAccess<I>, const I: u64>(bytes: Seq<u8>, offset: nat)
    requires
        in_buffer(bytes.len(), offset, T::spec_bits()),
        T::spec_canonical(window(bytes, offset as int, T::spec_bits() as int)),
    ensures
        ({
            let check = BitCheck {
                offset: offset as usize,
                num_bits: T::spec_bit_offset() as usize,
                expected: T::spec_expected() as u32,
            };
            let payload = T::spec_payload(packed_at::<T>(bytes, offset as int));
            &&& check.spec_holds(bytes) <==> payload is Some
            &&& check.spec_holds(bytes) ==> payload == Some(
                packed_at::<T::Element>(bytes, (offset + T::spec_bit_offset()) as int),
            )
        }),
{
    let w = window(bytes, offset as int, T::spec_bits() as int);
    T::lemma_variant(w);
    lemma_window_split(bytes, offset as int, T::spec_bits() as int, 0, T::spec_bit_offset() as int);
    lemma_window_split(
        bytes,
        offset as int,
        T::spec_bits() as int,
        T::spec_bit_offset() as int,
        (T::spec_bit_offset() + T::Element::spec_bits()) as int,
    );
}

} // verus!
