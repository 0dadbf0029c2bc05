//! Checks on the bits of a whole buffer that gate access to the payload of
//! a tagged union.
use crate::bit_ops::{in_buffer, nat_of, read_bits, window};
use vstd::prelude::*;

verus! {

/// A condition on the bytes of a container.
pub trait BitPredicate: Sized {
    /// Whether the condition holds of `bytes`.
    spec fn spec_holds(&self, bytes: Seq<u8>) -> bool;

    /// Whether the bits that the condition reads lie in a buffer of `len` bytes.
    spec fn spec_in_bounds(&self, len: nat) -> bool;

    /// Evaluates the condition on `slice`.
    fn is_true(&self, slice: &[u8]) -> (r: bool)
        requires
            self.spec_in_bounds(slice@.len()),
        ensures
            r == self.spec_holds(slice@),
    ;
}

/// Holds when both conditions hold.
#[derive(Clone, Copy)]
pub struct PredicateAnd<A, B>(pub A, pub B);

impl<A: BitPredicate, B: BitPredicate> BitPredicate for PredicateAnd<A, B> {
    open spec fn spec_holds(&self, bytes: Seq<u8>) -> bool {
        self.0.spec_holds(bytes) && self.1.spec_holds(bytes)
    }

    open spec fn spec_in_bounds(&self, len: nat) -> bool {
        self.0.spec_in_bounds(len) && self.1.spec_in_bounds(len)
    }

    fn is_true(&self, slice: &[u8]) -> (r: bool) {
        self.0.is_true(slice) && self.1.is_true(slice)
    }
}

/// Holds when the `num_bits` bits at bit `offset`, read as an unsigned
/// number, equal `expected`. A check of zero bits always holds.
#[derive(Clone, Copy, Debug, PartialEq, Eq)]
pub struct BitCheck {
    pub offset: usize,
    pub num_bits: usize,
    pub expected: u32,
}

/// The check built when navigating from a cursor whose offset is known only
/// at run time; it is the same check.
pub type BitCheckDyn = BitCheck;

impl BitPredicate for BitCheck {
    open spec fn spec_holds(&self, bytes: Seq<u8>) -> bool {
        self.num_bits == 0 || nat_of(window(bytes, self.offset as int, self.num_bits as int))
            == self.expected
    }

    open spec fn spec_in_bounds(&self, len: nat) -> bool {
        self.num_bits <= 64 && in_buffer(len, self.offset as nat, self.num_bits as nat)
    }

    fn is_true(&self, slice: &[u8]) -> (r: bool) {
        if self.num_bits == 0 {
            true
        } else {
            read_bits(slice, self.offset, self.num_bits) == self.expected as u64
        }
    }
}

} // verus!
