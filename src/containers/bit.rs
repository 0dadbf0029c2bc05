//! A container that owns the packed bytes of one value.
use crate::bit_ops::{nat_of, read_bits, window};
use crate::bit_type::{packed_at, BitType};
use crate::bit_wrapper::access::Access;
use crate::magic::{bits_to_bytes, spec_bits_to_bytes};
use vstd::prelude::*;

verus! {

/// Something that owns packed bytes.
pub trait BitContainer {
    /// The bytes owned.
    spec fn spec_bytes(&self) -> Seq<u8>;

    /// All the bytes owned.
    fn get_full(&self) -> (r: &[u8])
        ensures
            r@ == self.spec_bytes(),
    ;

    /// The bytes in `range`, which must lie inside the bytes owned.
    fn get_range(&self, range: core::ops::Range<usize>) -> (r: &[u8])
        requires
            range.start <= range.end <= self.spec_bytes().len(),
        ensures
            r@ == self.spec_bytes().subrange(range.start as int, range.end as int),
    ;
}

/// The packed bytes of one value of type `T`: as many bytes as its width
/// needs, and no more.
pub struct Bit<T> {
    pub mem: Vec<u8>,
    pub marker: core::marker::PhantomData<T>,
}

impl<T> BitContainer for Bit<T> {
    open spec fn spec_bytes(&self) -> Seq<u8> {
        self.mem@
    }

    fn get_full(&self) -> (r: &[u8]) {
        self.mem.as_slice()
    }

    fn get_range(&self, range: core::ops::Range<usize>) -> (r: &[u8]) {
        vstd::slice::slice_subrange(self.mem.as_slice(), range.start, range.end)
    }
}

impl<T: BitType> Bit<T> {
    /// The buffer has the size that the width of `T` asks for.
    pub open spec fn wf(&self) -> bool {
        &&& self.mem@.len() == spec_bits_to_bytes(T::spec_bits())
        &&& T::spec_bits() + 7 <= usize::MAX
    }

    /// The value held.
    pub open spec fn spec_value(&self) -> T {
        packed_at::<T>(self.mem@, 0)
    }

    /// Packs `value` into a zero-filled buffer of just enough bytes.
    pub fn from(value: T) -> (r: Self)
        requires
            value.spec_valid(),
            T::spec_bits() + 7 <= usize::MAX,
        ensures
            r.wf(),
            r.spec_value() == value,
    {
        let n = bits_to_bytes(T::bits());
        let mut mem: Vec<u8> = vec![0u8; n];
        T::from_aligned(&value, mem.as_mut_slice(), 0);
        Bit { mem, marker: core::marker::PhantomData }
    }

    /// A container of just enough bytes, all zero.
    pub fn default() -> (r: Self)
        requires
            T::spec_bits() + 7 <= usize::MAX,
        ensures
            r.wf(),
            forall|i: int| 0 <= i < r.mem@.len() ==> r.mem@[i] == 0,
    {
        let n = bits_to_bytes(T::bits());
        let mem: Vec<u8> = vec![0u8; n];
        Bit { mem, marker: core::marker::PhantomData }
    }

    /// Number of bytes held.
    pub fn byte_len(&self) -> (r: usize)
        requires
            self.wf(),
        ensures
            r == spec_bits_to_bytes(T::spec_bits()),
    {
        self.mem.len()
    }

    /// The packed bytes.
    pub fn as_bytes(&self) -> (r: &[u8])
        ensures
            r@ == self.mem@,
    {
        self.mem.as_slice()
    }

    /// A read-only cursor on the whole value.
    pub fn access(&self) -> (r: Access<&[u8], T>)
        requires
            self.wf(),
        ensures
            r.bits@ == self.mem@,
            r.offset == 0,
            r.wf(),
            r.spec_value() == self.spec_value(),
    {
        Access::new(self.mem.as_slice(), 0)
    }

    /// A writing cursor on the whole value; what it writes ends up here.
    pub fn access_mut(&mut self) -> (r: Access<&mut [u8], T>)
        requires
            old(self).wf(),
        ensures
            r.bits@ == old(self).mem@,
            r.offset == 0,
            r.wf(),
            r.spec_value() == old(self).spec_value(),
            final(self).mem@ == final(r.bits)@,
    {
        Access::new(self.mem.as_mut_slice(), 0)
    }

    /// A read-only cursor that reads the bytes as a value of another type of
    /// the same width.
    pub fn access_as<U: BitType>(&self) -> (r: Access<&[u8], U>)
        requires
            self.wf(),
            U::spec_bits() == T::spec_bits(),
        ensures
            r.bits@ == self.mem@,
            r.offset == 0,
            r.wf(),
    {
        Access::new(self.mem.as_slice(), 0)
    }

    /// A writing cursor that reads and writes the bytes as a value of another
    /// type of the same width.
    pub fn access_as_mut<U: BitType>(&mut self) -> (r: Access<&mut [u8], U>)
        requires
            old(self).wf(),
            U::spec_bits() == T::spec_bits(),
        ensures
            r.bits@ == old(self).mem@,
            r.offset == 0,
            r.wf(),
            final(self).mem@ == final(r.bits)@,
    {
        Access::new(self.mem.as_mut_slice(), 0)
    }

    /// The byte of a value eight bits wide.
    pub fn as_u8(&self) -> (r: u8)
        requires
            self.wf(),
            T::spec_bits() == 8,
        ensures
            r == self.mem@[0],
    {
        self.mem[0]
    }

    /// The bytes of a value 16 bits wide, read as a little-endian number.
    pub fn as_u16(&self) -> (r: u16)
        requires
            self.wf(),
            T::spec_bits() == 16,
        ensures
            r == nat_of(window(self.mem@, 0, 16)),
    {
        proof {
            crate::bit_ops::lemma_nat_of_bound(window(self.mem@, 0, 16));
            vstd::arithmetic::power2::lemma2_to64();
        }
        read_bits(self.mem.as_slice(), 0, 16) as u16
    }

    /// The bytes of a value 32 bits wide, read as a little-endian number.
    pub fn as_u32(&self) -> (r: u32)
        requires
            self.wf(),
            T::spec_bits() == 32,
        ensures
            r == nat_of(window(self.mem@, 0, 32)),
    {
        proof {
            crate::bit_ops::lemma_nat_of_bound(window(self.mem@, 0, 32));
            vstd::arithmetic::power2::lemma2_to64();
        }
        read_bits(self.mem.as_slice(), 0, 32) as u32
    }

    /// The bytes of a value 64 bits wide, read as a little-endian number.
    pub fn as_u64(&self) -> (r: u64)
        requires
            self.wf(),
            T::spec_bits() == 64,
        ensures
            r == nat_of(window(self.mem@, 0, 64)),
    {
        read_bits(self.mem.as_slice(), 0, 64)
    }

    /// The bytes of a value 128 bits wide, read as a little-endian number:
    /// the low 64 bits, then the high 64 bits.
    pub fn as_u128(&self) -> (r: u128)
        requires
            self.wf(),
            T::spec_bits() == 128,
        ensures
            r == nat_of(window(self.mem@, 0, 64)) + 0x1_0000_0000_0000_0000 * nat_of(
                window(self.mem@, 64, 64),
            ),
    {
        let low = read_bits(self.mem.as_slice(), 0, 64);
        let high = read_bits(self.mem.as_slice(), 64, 64);
        (low as u128) + (high as u128) * 0x1_0000_0000_0000_0000u128
    }
}

} // verus!
