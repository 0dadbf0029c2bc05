//! Cursors into packed values, and what they navigate with.
use vstd::prelude::*;

pub mod access;
pub mod accessors;
pub mod maybe;
pub mod predicate;

verus! {

/// The bytes that `size` bits starting at bit `offset` touch: from the
/// byte holding the first bit to the one holding the last; none for zero
/// bits.
pub fn get_byte_range(offset: usize, size: usize) -> (r: core::ops::Range<usize>)
    requires
        offset + size <= usize::MAX,
    ensures
        size == 0 ==> r.start == 0 && r.end == 0,
        size > 0 ==> r.start == offset / 8 && r.end == (offset + size - 1) / 8 + 1,
        size > 0 ==> 8 * r.start <= offset && offset + size <= 8 * r.end,
{
    if size == 0 {
        0..0
    } else {
        (offset / 8)..((offset + size - 1) / 8 + 1)
    }
}

} // verus!
