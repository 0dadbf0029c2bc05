//! The gated cursor: a field inside the payload of one or more tagged
//! unions, reachable only while every enclosing discriminant selects it.
use crate::bit_ops::{in_buffer, lemma_window_split, same_outside, window};
use crate::bit_type::{packed_at, BitType};
use crate::bit_wrapper::access::ByteRef;
use crate::bit_wrapper::accessors::{DynAccess, MaybeAccess, TupleAccess};
use crate::bit_wrapper::predicate::{BitCheck, BitPredicate, PredicateAnd};
use vstd::prelude::*;

verus! {

/// A cursor on the value of type `T` at bit `offset` of `bits`, valid only
/// while `predicate` holds of the whole of `bits`.
pub struct AccessMaybe<B, P, T> {
    pub bits: B,
    pub offset: usize,
    pub predicate: P,
    pub marker: core::marker::PhantomData<T>,
}

/// The gated cursor reached by indexing with a run-time index. Its offset
/// is a run-time value, as every cursor's is, so it is the gated cursor.
pub type AccessMaybeDyn<B, P, T> = AccessMaybe<B, P, T>;

impl<B: ByteRef, P: BitPredicate, T: BitType> AccessMaybe<B, P, T> {
    /// The field and the bits the predicate reads lie inside the bytes.
    pub open spec fn wf(&self) -> bool {
        &&& in_buffer(self.bits.spec_bytes().len(), self.offset as nat, T::spec_bits())
        &&& self.predicate.spec_in_bounds(self.bits.spec_bytes().len())
    }

    /// Whether the predicate holds now.
    pub open spec fn spec_holds(&self) -> bool {
        self.predicate.spec_holds(self.bits.spec_bytes())
    }

    /// The value the field holds, whether or not it is reachable.
    pub open spec fn spec_value(&self) -> T {
        packed_at::<T>(self.bits.spec_bytes(), self.offset as int)
    }

    /// What `extract` returns: the value while the predicate holds.
    pub open spec fn spec_extract(&self) -> Option<T> {
        if self.spec_holds() {
            Some(self.spec_value())
        } else {
            None
        }
    }

    /// Makes a gated cursor.
    pub(crate) fn new(bits: B, offset: usize, predicate: P) -> (r: Self)
        ensures
            r.bits == bits,
            r.offset == offset,
            r.predicate == predicate,
    {
        AccessMaybe { bits, offset, predicate, marker: core::marker::PhantomData }
    }

    /// Reads the field if the predicate holds, and returns `None` otherwise.
    pub fn extract(&self) -> (r: Option<T>)
        requires
            self.wf(),
        ensures
            r == self.spec_extract(),
    {
        let bytes = self.bits.bytes();
        if self.predicate.is_true(bytes) {
            Some(T::to_aligned(bytes, self.offset))
        } else {
            None
        }
    }

    /// Gated cursor on field `I` of a tuple, or element `I` of an array.
    pub fn get<const I: usize>(self) -> (r: AccessMaybe<B, P, <T as TupleAccess<I>>::Element>) where
        T: TupleAccess<I>,

        requires
            self.wf(),
            T::spec_has_field(),
        ensures
            r.bits == self.bits,
            r.offset == self.offset + T::spec_bit_offset(),
            r.predicate == self.predicate,
            r.wf(),
            r.spec_value() == T::spec_field(self.spec_value()),
            r.spec_holds() == self.spec_holds(),
    {
        proof {
            let w = window(self.bits.spec_bytes(), self.offset as int, T::spec_bits() as int);
            T::lemma_field(w);
            lemma_window_split(
                self.bits.spec_bytes(),
                self.offset as int,
                T::spec_bits() as int,
                T::spec_bit_offset() as int,
                (T::spec_bit_offset() + <T as TupleAccess<I>>::Element::spec_bits()) as int,
            );
        }
        let o = T::bit_offset();
        AccessMaybe::new(self.bits, self.offset + o, self.predicate)
    }

    /// Gated cursor on element `index` of an array; the index must be below
    /// the array's length.
    pub fn get_dyn(self, index: usize) -> (r: AccessMaybeDyn<B, P, <T as DynAccess>::Element>) where
        T: DynAccess,

        requires
            self.wf(),
            index < T::spec_max(),
        ensures
            r.bits == self.bits,
            r.offset == self.offset + index * <T as DynAccess>::Element::spec_bits(),
            r.predicate == self.predicate,
            r.wf(),
            r.spec_value() == T::spec_element(self.spec_value(), index as int),
            r.spec_holds() == self.spec_holds(),
    {
        proof {
            let w = window(self.bits.spec_bytes(), self.offset as int, T::spec_bits() as int);
            let eb = <T as DynAccess>::Element::spec_bits();
            T::lemma_element(w, index as int);
            lemma_window_split(
                self.bits.spec_bytes(),
                self.offset as int,
                T::spec_bits() as int,
                index * eb,
                index * eb + eb,
            );
        }
        let o = T::offset(index);
        AccessMaybe::new(self.bits, self.offset + o, self.predicate)
    }

    /// Number of elements of an array.
    pub fn len(&self) -> (r: usize) where T: DynAccess
        ensures
            r == T::spec_max(),
    {
        T::max()
    }

    /// Whether an array has no elements.
    pub fn is_empty(&self) -> (r: bool) where T: DynAccess
        ensures
            r == (T::spec_max() == 0),
    {
        T::max() == 0
    }

    /// Gated cursor on the payload of variant `I` of a nested tagged union:
    /// the union's discriminant check is added to the conditions already
    /// carried.
    pub fn get_maybe<const I: u64>(self) -> (r: AccessMaybe<
        B,
        PredicateAnd<BitCheck, P>,
        <T as MaybeAccess<I>>::Element,
    >) where T: MaybeAccess<I>
        requires
            self.wf(),
        ensures
            r.bits == self.bits,
            r.offset == self.offset + T::spec_bit_offset(),
            r.predicate == PredicateAnd(
                BitCheck {
                    offset: self.offset,
                    num_bits: T::spec_bit_offset() as usize,
                    expected: T::spec_expected() as u32,
                },
                self.predicate,
            ),
            r.wf(),
            r.spec_extract() is Some ==> self.spec_extract() is Some && r.spec_extract()
                == T::spec_payload(self.spec_extract()->0),
            T::spec_canonical(window(self.bits.spec_bytes(), self.offset as int, T::spec_bits() as int))
                ==> r.spec_extract() == match self.spec_extract() {
                Some(v) => T::spec_payload(v),
                None => None,
            },
    {
        let ghost bytes = self.bits.spec_bytes();
        proof {
            let w = window(bytes, self.offset as int, T::spec_bits() as int);
            T::lemma_variant(w);
            lemma_window_split(bytes, self.offset as int, T::spec_bits() as int, 0, T::spec_bit_offset() as int);
            lemma_window_split(
                bytes,
                self.offset as int,
                T::spec_bits() as int,
                T::spec_bit_offset() as int,
                (T::spec_bit_offset() + <T as MaybeAccess<I>>::Element::spec_bits()) as int,
            );
        }
        let d = T::bit_offset();
        let check = BitCheck { offset: self.offset, num_bits: d, expected: T::expected() };
        AccessMaybe::new(self.bits, self.offset + d, PredicateAnd(check, self.predicate))
    }
}

impl<'a, P: BitPredicate, T: BitType> AccessMaybe<&'a mut [u8], P, T> {
    /// Writes `aligned` into the field if the predicate holds; otherwise
    /// writes nothing and reports the mismatch.
    pub fn insert(&mut self, aligned: T) -> (r: Result<(), ()>)
        requires
            old(self).wf(),
            aligned.spec_valid(),
        ensures
            final(self).offset == old(self).offset,
            final(self).predicate == old(self).predicate,
            r is Ok <==> old(self).spec_holds(),
            r is Ok ==> final(self).spec_value() == aligned && same_outside(
                old(self).bits.spec_bytes(),
                final(self).bits.spec_bytes(),
                old(self).offset as int,
                T::spec_bits() as int,
            ),
            r is Err ==> final(self).bits@ == old(self).bits@,
    {
        if self.predicate.is_true(self.bits) {
            T::from_aligned(&aligned, self.bits, self.offset);
            Ok(())
        } else {
            Err(())
        }
    }

    /// Reads the field, applies `f`, and writes the result back, if the
    /// predicate holds; otherwise does nothing and reports the mismatch.
    pub fn map<F: Fn(T) -> T>(&mut self, f: F) -> (r: Result<(), ()>)
        requires
            old(self).wf(),
            f.requires((old(self).spec_value(),)),
            forall|y: T| #[trigger] f.ensures((old(self).spec_value(),), y) ==> y.spec_valid(),
        ensures
            final(self).offset == old(self).offset,
            final(self).predicate == old(self).predicate,
            r is Ok <==> old(self).spec_holds(),
            r is Ok ==> f.ensures((old(self).spec_value(),), final(self).spec_value())
                && same_outside(
                old(self).bits.spec_bytes(),
                final(self).bits.spec_bytes(),
                old(self).offset as int,
                T::spec_bits() as int,
            ),
            r is Err ==> final(self).bits@ == old(self).bits@,
    {
        if self.predicate.is_true(self.bits) {
            let v = T::to_aligned(self.bits, self.offset);
            let mapped = f(v);
            T::from_aligned(&mapped, self.bits, self.offset);
            Ok(())
        } else {
            Err(())
        }
    }

    /// Gives up the right to write.
    pub fn access(self) -> (r: AccessMaybe<&'a [u8], P, T>)
        ensures
            r.bits@ == old(self.bits)@,
            r.offset == self.offset,
            r.predicate == self.predicate,
    {
        let bits: &'a [u8] = self.bits;
        AccessMaybe::new(bits, self.offset, self.predicate)
    }

    /// Keeps the right to write.
    pub fn access_mut(self) -> (r: Self)
        ensures
            r == self,
    {
        self
    }

    /// Reads the same bits as a value of another type of the same width.
    pub fn access_as<U: BitType>(self) -> (r: AccessMaybe<&'a [u8], P, U>)
        requires
            U::spec_bits() == T::spec_bits(),
        ensures
            r.bits@ == old(self.bits)@,
            r.offset == self.offset,
            r.predicate == self.predicate,
    {
        let bits: &'a [u8] = self.bits;
        AccessMaybe::new(bits, self.offset, self.predicate)
    }

    /// Reads and writes the same bits as a value of another type of the
    /// same width.
    pub fn access_as_mut<U: BitType>(self) -> (r: AccessMaybe<&'a mut [u8], P, U>)
        requires
            U::spec_bits() == T::spec_bits(),
        ensures
            r.bits@ == old(self.bits)@,
            r.offset == self.offset,
            r.predicate == self.predicate,
    {
        AccessMaybe::new(self.bits, self.offset, self.predicate)
    }
}

impl<'a, P: BitPredicate, T: BitType> AccessMaybe<&'a [u8], P, T> {
    /// Already read-only.
    pub fn access(self) -> (r: Self)
        ensures
            r == self,
    {
        self
    }

    /// Reads the same bits as a value of another type of the same width.
    pub fn access_as<U: BitType>(self) -> (r: AccessMaybe<&'a [u8], P, U>)
        requires
            U::spec_bits() == T::spec_bits(),
        ensures
            r.bits == self.bits,
            r.offset == self.offset,
            r.predicate == self.predicate,
    {
        AccessMaybe::new(self.bits, self.offset, self.predicate)
    }
}

} // verus!
