//! A growable container of packed values of one type.
use crate::bit_ops::{lemma_window_kept, lemma_window_prefix};
use crate::bit_type::{lemma_element_fits, packed_at, BitType};
use crate::bit_wrapper::access::{Access, AccessDyn};
use crate::containers::bit::BitContainer;
use vstd::arithmetic::mul::lemma_mul_inequality;
use vstd::prelude::*;

verus! {

/// Values of type `T` packed one after another, element `i` at bit
/// `i * width`. `len` counts the elements; `buf` may hold more bytes than
/// they need.
pub struct BitVec<T> {
    pub buf: Vec<u8>,
    pub len: usize,
    pub marker: core::marker::PhantomData<T>,
}

impl<T: BitType> View for BitVec<T> {
    type V = Seq<T>;

    open spec fn view(&self) -> Seq<T> {
        Seq::new(self.len as nat, |i: int| packed_at::<T>(self.buf@, i * T::spec_bits()))
    }
}

impl<T> BitContainer for BitVec<T> {
    open spec fn spec_bytes(&self) -> Seq<u8> {
        self.buf@
    }

    fn get_full(&self) -> (r: &[u8]) {
        self.buf.as_slice()
    }

    fn get_range(&self, range: core::ops::Range<usize>) -> (r: &[u8]) {
        vstd::slice::slice_subrange(self.buf.as_slice(), range.start, range.end)
    }
}

impl<T: BitType> BitVec<T> {
    /// The elements fit in the buffer, whose bit count is a `usize`.
    pub open spec fn wf(&self) -> bool {
        &&& self.len * T::spec_bits() <= 8 * self.buf@.len()
        &&& 8 * self.buf@.len() <= usize::MAX
    }

    /// An empty vector with no bytes.
    pub fn new() -> (r: Self)
        ensures
            r.wf(),
            r.len == 0,
            r@ == Seq::<T>::empty(),
    {
        let r = BitVec { buf: Vec::new(), len: 0, marker: core::marker::PhantomData };
        proof {
            assert(r@ =~= Seq::<T>::empty());
        }
        r
    }

    /// Number of elements.
    pub fn len(&self) -> (r: usize)
        ensures
            r == self@.len(),
    {
        self.len
    }

    /// Whether there are no elements.
    pub fn is_empty(&self) -> (r: bool)
        ensures
            r == (self@.len() == 0),
    {
        self.len == 0
    }

    /// Number of bits the buffer holds.
    fn allocated_bits(&self) -> (r: usize)
        requires
            self.wf(),
        ensures
            r == 8 * self.buf@.len(),
    {
        self.buf.len() * 8
    }

    /// Appends `t`, growing the buffer to twice its size (or to what the new
    /// element needs, if that is more) when the element does not fit.
    pub fn push(&mut self, t: T)
        requires
            old(self).wf(),
            t.spec_valid(),
            old(self).len < usize::MAX,
            (old(self).len + 1) * T::spec_bits() + 16 <= usize::MAX,
        ensures
            final(self).wf(),
            final(self).len == old(self).len + 1,
            final(self)@ == old(self)@.push(t),
    {
        let ghost old_view = self@;
        let ghost b = T::spec_bits() as int;
        proof {
            lemma_mul_inequality(1, self.len + 1, b);
            vstd::arithmetic::mul::lemma_mul_is_distributive_add_other_way(b, self.len as int, 1);
        }
        let width = T::bits();
        let needed = (self.len + 1) * width;
        if needed > self.allocated_bits() {
            let ghost before = self.buf@;
            let needed_bytes = (needed + 7) / 8;
            let cur = self.buf.len();
            let target = if cur <= usize::MAX / 16 && 2 * cur > needed_bytes {
                2 * cur
            } else {
                needed_bytes
            };
            while self.buf.len() < target
                invariant
                    self.len == old(self).len,
                    before == old(self).buf@,
                    old(self).wf(),
                    target <= usize::MAX / 8,
                    before.len() <= self.buf@.len() <= target,
                    forall|j: int| 0 <= j < before.len() ==> self.buf@[j] == before[j],
                decreases target - self.buf@.len(),
            {
                self.buf.push(0u8);
            }
            proof {
                assert forall|i: int| 0 <= i < self.len implies #[trigger] self@[i] == old_view[i] by {
                    lemma_element_fits(i, self.len as int, b);
                    lemma_window_prefix(before, self.buf@, i * b, b);
                }
                assert(self@ =~= old_view);
            }
        }
        let ghost grown = self.buf@;
        assert(self@ =~= old_view);
        let bit_offset = self.len * width;
        T::from_aligned(&t, self.buf.as_mut_slice(), bit_offset);
        proof {
            assert forall|i: int| 0 <= i < self.len implies #[trigger] self@[i] == old_view[i] by {
                lemma_element_fits(i, self.len as int, b);
                lemma_window_kept(grown, self.buf@, bit_offset as int, b, i * b, b);
            }
        }
        let ghost pre = self@;
        self.len = self.len + 1;
        proof {
            assert forall|i: int| 0 <= i < self.len implies #[trigger] self@[i] == old_view.push(t)[i] by {
                if i < pre.len() {
                    assert(self@[i] == pre[i]);
                } else {
                    assert(i * b == bit_offset);
                }
            }
            assert(self@ =~= old_view.push(t));
        }
    }

    /// Removes the last element, if any, without reading it.
    pub fn pop(&mut self)
        requires
            old(self).wf(),
        ensures
            final(self).wf(),
            final(self)@ == if old(self)@.len() == 0 {
                old(self)@
            } else {
                old(self)@.drop_last()
            },
    {
        if self.len == 0 {
            return ;
        }
        let ghost old_view = self@;
        proof {
            lemma_mul_inequality((self.len - 1) as int, self.len as int, T::spec_bits() as int);
        }
        self.len = self.len - 1;
        proof {
            assert(self@ =~= old_view.drop_last());
        }
    }

    /// Removes the last element and returns it, or returns `None` when
    /// there is none.
    pub fn pop_back(&mut self) -> (r: Option<T>)
        requires
            old(self).wf(),
        ensures
            final(self).wf(),
            old(self)@.len() == 0 ==> r is None && final(self)@ == old(self)@,
            old(self)@.len() > 0 ==> r == Some(old(self)@.last()) && final(self)@ == old(
                self,
            )@.drop_last(),
    {
        if self.len == 0 {
            return None;
        }
        let ghost old_view = self@;
        proof {
            lemma_element_fits((self.len - 1) as int, self.len as int, T::spec_bits() as int);
            lemma_mul_inequality(1, self.len as int, T::spec_bits() as int);
        }
        self.len = self.len - 1;
        let bit_offset = self.len * T::bits();
        let v = T::to_aligned(self.buf.as_slice(), bit_offset);
        proof {
            assert(self@ =~= old_view.drop_last());
        }
        Some(v)
    }

    /// Element `index`, or `None` past the end.
    pub fn get(&self, index: usize) -> (r: Option<T>)
        requires
            self.wf(),
        ensures
            r == if index < self@.len() {
                Some(self@[index as int])
            } else {
                None
            },
    {
        if index >= self.len {
            return None;
        }
        proof {
            lemma_element_fits(index as int, self.len as int, T::spec_bits() as int);
            lemma_mul_inequality(1, self.len as int, T::spec_bits() as int);
        }
        let bit_offset = index * T::bits();
        Some(T::to_aligned(self.buf.as_slice(), bit_offset))
    }

    /// A read-only cursor on element `index`, which must exist.
    pub fn access(&self, index: usize) -> (r: AccessDyn<&[u8], T>)
        requires
            self.wf(),
            index < self@.len(),
        ensures
            r.bits@ == self.buf@,
            r.wf(),
            r.spec_value() == self@[index as int],
    {
        proof {
            lemma_element_fits(index as int, self.len as int, T::spec_bits() as int);
            lemma_mul_inequality(1, self.len as int, T::spec_bits() as int);
        }
        Access::new(self.buf.as_slice(), index * T::bits())
    }

    /// A writing cursor on element `index`, which must exist; what it writes
    /// ends up here.
    pub fn access_mut(&mut self, index: usize) -> (r: AccessDyn<&mut [u8], T>)
        requires
            old(self).wf(),
            index < old(self)@.len(),
        ensures
            r.bits@ == old(self).buf@,
            r.offset == index * T::spec_bits(),
            r.wf(),
            r.spec_value() == old(self)@[index as int],
            final(self).buf@ == final(r.bits)@,
            final(self).len == old(self).len,
    {
        proof {
            lemma_element_fits(index as int, self.len as int, T::spec_bits() as int);
            lemma_mul_inequality(1, self.len as int, T::spec_bits() as int);
        }
        let offset = index * T::bits();
        Access::new(self.buf.as_mut_slice(), offset)
    }
}

} // verus!
