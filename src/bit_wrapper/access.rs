//! The plain cursor: a field of a packed value at a known bit offset.
use crate::bit_ops::{in_buffer, lemma_window_split, same_outside, window};
use crate::bit_type::{packed_at, BitType};
use crate::bit_wrapper::accessors::{DynAccess, MaybeAccess, TupleAccess};
use crate::bit_wrapper::maybe::AccessMaybe;
use crate::bit_wrapper::predicate::{BitCheck, BitPredicate};
use vstd::prelude::*;

verus! {

/// A reference to the bytes of a container: shared (`&[u8]`), through which
/// a cursor only reads, or exclusive (`&mut [u8]`), through which it also
/// writes.
pub trait ByteRef {
    /// The bytes referred to.
    spec fn spec_bytes(&self) -> Seq<u8>;

    /// The bytes referred to, for reading.
    fn bytes(&self) -> (r: &[u8])
        ensures
            r@ == self.spec_bytes(),
    ;
}

impl<'a> ByteRef for &'a [u8] {
    open spec fn spec_bytes(&self) -> Seq<u8> {
        (**self)@
    }

    fn bytes(&self) -> (r: &[u8]) {
        *self
    }
}

impl<'a> ByteRef for &'a mut [u8] {
    open spec fn spec_bytes(&self) -> Seq<u8> {
        (**self)@
    }

    fn bytes(&self) -> (r: &[u8]) {
        &**self
    }
}

/// A cursor on the value of type `T` packed at bit `offset` of the bytes
/// `bits` of a container.
pub struct Access<B, T> {
    pub bits: B,
    pub offset: usize,
    pub marker: core::marker::PhantomData<T>,
}

/// The cursor reached by indexing with a run-time index. Its offset is a
/// run-time value, as every cursor's is, so it is the plain cursor.
pub type AccessDyn<B, T> = Access<B, T>;

impl<B: ByteRef, T: BitType> Access<B, T> {
    /// The field lies inside the bytes.
    pub open spec fn wf(&self) -> bool {
        in_buffer(self.bits.spec_bytes().len(), self.offset as nat, T::spec_bits())
    }

    /// The value the field holds.
    pub open spec fn spec_value(&self) -> T {
        packed_at::<T>(self.bits.spec_bytes(), self.offset as int)
    }

    /// Makes a cursor on the value at bit `offset` of `bits`.
    pub(crate) fn new(bits: B, offset: usize) -> (r: Self)
        ensures
            r.bits == bits,
            r.offset == offset,
    {
        Access { bits, offset, marker: core::marker::PhantomData }
    }

    /// Reads the field.
    pub fn extract(&self) -> (r: T)
        requires
            self.wf(),
        ensures
            r == self.spec_value(),
    {
        T::to_aligned(self.bits.bytes(), self.offset)
    }

    /// Cursor on field `I` of a tuple, or on element `I` of an array.
    pub fn get<const I: usize>(self) -> (r: Access<B, <T as TupleAccess<I>>::Element>) where
        T: TupleAccess<I>,

        requires
            self.wf(),
            T::spec_has_field(),
        ensures
            r.bits == self.bits,
            r.offset == self.offset + T::spec_bit_offset(),
            r.wf(),
            r.spec_value() == T::spec_field(self.spec_value()),
    {
        proof {
            let w = window(self.bits.spec_bytes(), self.offset as int, T::spec_bits() as int);
            T::lemma_field(w);
            lemma_window_split(
                self.bits.spec_bytes(),
                self.offset as int,
                T::spec_bits() as int,
                T::spec_bit_offset() as int,
                (T::spec_bit_offset() + <T as TupleAccess<I>>::Element::spec_bits()) as int,
            );
        }
        let o = T::bit_offset();
        Access::new(self.bits, self.offset + o)
    }

    /// Cursor on element `index` of an array; the index must be below the
    /// array's length.
    pub fn get_dyn(self, index: usize) -> (r: AccessDyn<B, <T as DynAccess>::Element>) where
        T: DynAccess,

        requires
            self.wf(),
            index < T::spec_max(),
        ensures
            r.bits == self.bits,
            r.offset == self.offset + index * <T as DynAccess>::Element::spec_bits(),
            r.wf(),
            r.spec_value() == T::spec_element(self.spec_value(), index as int),
    {
        proof {
            let w = window(self.bits.spec_bytes(), self.offset as int, T::spec_bits() as int);
            let eb = <T as DynAccess>::Element::spec_bits();
            T::lemma_element(w, index as int);
            lemma_window_split(
                self.bits.spec_bytes(),
                self.offset as int,
                T::spec_bits() as int,
                index * eb,
                index * eb + eb,
            );
        }
        let o = T::offset(index);
        Access::new(self.bits, self.offset + o)
    }

    /// Number of elements of an array.
    pub fn len(&self) -> (r: usize) where T: DynAccess
        ensures
            r == T::spec_max(),
    {
        T::max()
    }

    /// Whether an array has no elements.
    pub fn is_empty(&self) -> (r: bool) where T: DynAccess
        ensures
            r == (T::spec_max() == 0),
    {
        T::max() == 0
    }

    /// Cursor on the payload of variant `I` of a tagged union, gated by a
    /// check of the union's discriminant.
    pub fn get_maybe<const I: u64>(self) -> (r: AccessMaybe<
        B,
        BitCheck,
        <T as MaybeAccess<I>>::Element,
    >) where T: MaybeAccess<I>
        requires
            self.wf(),
        ensures
            r.bits == self.bits,
            r.offset == self.offset + T::spec_bit_offset(),
            r.predicate == (BitCheck {
                offset: self.offset,
                num_bits: T::spec_bit_offset() as usize,
                expected: T::spec_expected() as u32,
            }),
            r.wf(),
            r.spec_extract() is Some ==> r.spec_extract() == T::spec_payload(self.spec_value()),
            T::spec_canonical(window(self.bits.spec_bytes(), self.offset as int, T::spec_bits() as int))
                ==> r.spec_extract() == T::spec_payload(self.spec_value()),
    {
        let ghost bytes = self.bits.spec_bytes();
        proof {
            let w = window(bytes, self.offset as int, T::spec_bits() as int);
            T::lemma_variant(w);
            lemma_window_split(bytes, self.offset as int, T::spec_bits() as int, 0, T::spec_bit_offset() as int);
            lemma_window_split(
                bytes,
                self.offset as int,
                T::spec_bits() as int,
                T::spec_bit_offset() as int,
                (T::spec_bit_offset() + <T as MaybeAccess<I>>::Element::spec_bits()) as int,
            );
        }
        let d = T::bit_offset();
        let check = BitCheck { offset: self.offset, num_bits: d, expected: T::expected() };
        AccessMaybe::new(self.bits, self.offset + d, check)
    }
}

impl<'a, T: BitType> Access<&'a mut [u8], T> {
    /// Writes `aligned` into the field, leaving every other bit as it was.
    pub fn insert(&mut self, aligned: T)
        requires
            old(self).wf(),
            aligned.spec_valid(),
        ensures
            final(self).offset == old(self).offset,
            final(self).wf(),
            final(self).spec_value() == aligned,
            same_outside(
                old(self).bits.spec_bytes(),
                final(self).bits.spec_bytes(),
                old(self).offset as int,
                T::spec_bits() as int,
            ),
    {
        T::from_aligned(&aligned, self.bits, self.offset);
    }

    /// Reads the field, applies `f`, and writes the result back.
    pub fn map<F: Fn(T) -> T>(&mut self, f: F)
        requires
            old(self).wf(),
            f.requires((old(self).spec_value(),)),
            forall|y: T| #[trigger] f.ensures((old(self).spec_value(),), y) ==> y.spec_valid(),
        ensures
            final(self).offset == old(self).offset,
            final(self).wf(),
            f.ensures((old(self).spec_value(),), final(self).spec_value()),
            same_outside(
                old(self).bits.spec_bytes(),
                final(self).bits.spec_bytes(),
                old(self).offset as int,
                T::spec_bits() as int,
            ),
    {
        let v = T::to_aligned(self.bits, self.offset);
        let mapped = f(v);
        T::from_aligned(&mapped, self.bits, self.offset);
    }

    /// Gives up the right to write.
    pub fn access(self) -> (r: Access<&'a [u8], T>)
        ensures
            r.bits@ == old(self.bits)@,
            r.offset == self.offset,
    {
        let bits: &'a [u8] = self.bits;
        Access::new(bits, self.offset)
    }

    /// Keeps the right to write.
    pub fn access_mut(self) -> (r: Self)
        ensures
            r == self,
    {
        self
    }

    /// Reads the same bits as a value of another type of the same width.
    pub fn access_as<U: BitType>(self) -> (r: Access<&'a [u8], U>)
        requires
            U::spec_bits() == T::spec_bits(),
        ensures
            r.bits@ == old(self.bits)@,
            r.offset == self.offset,
    {
        let bits: &'a [u8] = self.bits;
        Access::new(bits, self.offset)
    }

    /// Reads and writes the same bits as a value of another type of the
    /// same width.
    pub fn access_as_mut<U: BitType>(self) -> (r: Access<&'a mut [u8], U>)
        requires
            U::spec_bits() == T::spec_bits(),
        ensures
            r.bits@ == old(self.bits)@,
            r.offset == self.offset,
    {
        Access::new(self.bits, self.offset)
    }

    /// A writing cursor on element `index` of an array, borrowed from this
    /// one for as long as it is used.
    pub fn get_dyn_mut(&mut self, index: usize) -> (r: AccessDyn<
        &mut [u8],
        <T as DynAccess>::Element,
    >) where T: DynAccess
        requires
            old(self).wf(),
            index < T::spec_max(),
        ensures
            r.bits@ == old(self).bits@,
            r.offset == old(self).offset + index * <T as DynAccess>::Element::spec_bits(),
            r.wf(),
            r.spec_value() == T::spec_element(old(self).spec_value(), index as int),
            final(self).offset == old(self).offset,
            final(self).bits@ == final(r.bits)@,
    {
        proof {
            let w = window(self.bits.spec_bytes(), self.offset as int, T::spec_bits() as int);
            let eb = <T as DynAccess>::Element::spec_bits();
            T::lemma_element(w, index as int);
            lemma_window_split(
                self.bits.spec_bytes(),
                self.offset as int,
                T::spec_bits() as int,
                index * eb,
                index * eb + eb,
            );
        }
        let o = T::offset(index);
        Access::new(&mut *self.bits, self.offset + o)
    }
}

impl<'a, T: BitType> Access<&'a [u8], T> {
    /// Already read-only.
    pub fn access(self) -> (r: Self)
        ensures
            r == self,
    {
        self
    }

    /// Reads the same bits as a value of another type of the same width.
    pub fn access_as<U: BitType>(self) -> (r: Access<&'a [u8], U>)
        requires
            U::spec_bits() == T::spec_bits(),
        ensures
            r.bits == self.bits,
            r.offset == self.offset,
    {
        Access::new(self.bits, self.offset)
    }

    /// The elements of an array, one cursor per step.
    pub fn iter(&self) -> (r: BitIter<'a, T>) where T: DynAccess
        ensures
            r.accessor == *self,
            r.elem == 0,
    {
        BitIter { accessor: Access::new(self.bits, self.offset), elem: 0 }
    }
}

/// Walks the elements of an array, handing out a read-only cursor on each.
pub struct BitIter<'a, T> {
    pub accessor: Access<&'a [u8], T>,
    pub elem: usize,
}

impl<'a, T: BitType + DynAccess> BitIter<'a, T> {
    /// The cursor on the next element, or `None` after the last one.
    pub fn next(&mut self) -> (r: Option<AccessDyn<&'a [u8], <T as DynAccess>::Element>>)
        requires
            old(self).accessor.wf(),
        ensures
            final(self).accessor == old(self).accessor,
            old(self).elem < T::spec_max() ==> final(self).elem == old(self).elem + 1 && r
                is Some && r->0.bits == old(self).accessor.bits && r->0.offset
                == old(self).accessor.offset + old(self).elem
                * <T as DynAccess>::Element::spec_bits(),
            old(self).elem >= T::spec_max() ==> final(self).elem == old(self).elem && r is None,
    {
        if self.elem < T::max() {
            let acc: Access<&'a [u8], T> = Access::new(self.accessor.bits, self.accessor.offset);
            let child = acc.get_dyn(self.elem);
            self.elem = self.elem + 1;
            Some(child)
        } else {
            None
        }
    }
}

} // verus!
