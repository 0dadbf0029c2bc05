//! The transcoding contract between a value and its packed bits, and its
//! implementations for the built-in types.
use crate::bit_ops::{
    get_bit, in_buffer, lemma_same_outside_trans, lemma_same_outside_widen, lemma_window_kept,
    lemma_window_split, nat_of, read_bits, same_outside, set_bit, window, write_bits,
};
use vstd::arithmetic::mul::{lemma_mul_inequality, lemma_mul_is_distributive_add_other_way};
use vstd::arithmetic::power2::*;
use vstd::prelude::*;

verus! {

/// The value of type `T` packed at bit `offset` of `bytes`.
pub open spec fn packed_at<T: BitType>(bytes: Seq<u8>, offset: int) -> T {
    T::spec_decode(window(bytes, offset, T::spec_bits() as int))
}

/// A type with a fixed packed width that can be written to and read from
/// any bit offset of a byte buffer.
///
/// `spec_decode` says which value a window of `spec_bits()` bits holds;
/// `from_aligned` leaves a window that decodes to the value written and does
/// not touch any bit outside it, and `to_aligned` returns what the window
/// decodes to.
pub trait BitType: Sized {
    /// Width of the packed form, in bits.
    spec fn spec_bits() -> nat;

    /// The value held by a window of `spec_bits()` bits.
    spec fn spec_decode(bits: Seq<bool>) -> Self;

    /// Whether the value can be packed (a narrow integer must fit its width).
    spec fn spec_valid(&self) -> bool;

    /// Width of the packed form, in bits.
    fn bits() -> (r: usize)
        requires
            Self::spec_bits() <= usize::MAX,
        ensures
            r == Self::spec_bits(),
    ;

    /// Writes the packed form of `aligned` at bit `offset` of `slice`.
    fn from_aligned(aligned: &Self, slice: &mut [u8], offset: usize)
        requires
            aligned.spec_valid(),
            in_buffer(old(slice)@.len(), offset as nat, Self::spec_bits()),
        ensures
            Self::spec_decode(window(final(slice)@, offset as int, Self::spec_bits() as int))
                == *aligned,
            same_outside(old(slice)@, final(slice)@, offset as int, Self::spec_bits() as int),
    ;

    /// Reads the value packed at bit `offset` of `slice`.
    fn to_aligned(slice: &[u8], offset: usize) -> (r: Self)
        requires
            in_buffer(slice@.len(), offset as nat, Self::spec_bits()),
        ensures
            r == Self::spec_decode(window(slice@, offset as int, Self::spec_bits() as int)),
    ;
}

impl BitType for () {
    open spec fn spec_bits() -> nat {
        0
    }

    open spec fn spec_decode(bits: Seq<bool>) -> Self {
        ()
    }

    open spec fn spec_valid(&self) -> bool {
        true
    }

    fn bits() -> (r: usize) {
        0
    }

    fn from_aligned(aligned: &Self, slice: &mut [u8], offset: usize) {
    }

    fn to_aligned(slice: &[u8], offset: usize) -> (r: Self) {
        ()
    }
}

impl BitType for bool {
    open spec fn spec_bits() -> nat {
        1
    }

    open spec fn spec_decode(bits: Seq<bool>) -> Self {
        bits[0]
    }

    open spec fn spec_valid(&self) -> bool {
        true
    }

    fn bits() -> (r: usize) {
        1
    }

    fn from_aligned(aligned: &Self, slice: &mut [u8], offset: usize) {
        set_bit(slice, offset, *aligned);
    }

    fn to_aligned(slice: &[u8], offset: usize) -> (r: Self) {
        get_bit(slice, offset)
    }
}

impl BitType for u8 {
    open spec fn spec_bits() -> nat {
        8
    }

    open spec fn spec_decode(bits: Seq<bool>) -> Self {
        nat_of(bits) as u8
    }

    open spec fn spec_valid(&self) -> bool {
        true
    }

    fn bits() -> (r: usize) {
        8
    }

    fn from_aligned(aligned: &Self, slice: &mut [u8], offset: usize) {
        proof {
            lemma2_to64();
        }
        write_bits(slice, offset, 8, *aligned as u64);
    }

    fn to_aligned(slice: &[u8], offset: usize) -> (r: Self) {
        read_bits(slice, offset, 8) as u8
    }
}

impl BitType for u16 {
    open spec fn spec_bits() -> nat {
        16
    }

    open spec fn spec_decode(bits: Seq<bool>) -> Self {
        nat_of(bits) as u16
    }

    open spec fn spec_valid(&self) -> bool {
        true
    }

    fn bits() -> (r: usize) {
        16
    }

    fn from_aligned(aligned: &Self, slice: &mut [u8], offset: usize) {
        proof {
            lemma2_to64();
        }
        write_bits(slice, offset, 16, *aligned as u64);
    }

    fn to_aligned(slice: &[u8], offset: usize) -> (r: Self) {
        read_bits(slice, offset, 16) as u16
    }
}

impl BitType for u32 {
    open spec fn spec_bits() -> nat {
        32
    }

    open spec fn spec_decode(bits: Seq<bool>) -> Self {
        nat_of(bits) as u32
    }

    open spec fn spec_valid(&self) -> bool {
        true
    }

    fn bits() -> (r: usize) {
        32
    }

    fn from_aligned(aligned: &Self, slice: &mut [u8], offset: usize) {
        proof {
            lemma2_to64();
        }
        write_bits(slice, offset, 32, *aligned as u64);
    }

    fn to_aligned(slice: &[u8], offset: usize) -> (r: Self) {
        read_bits(slice, offset, 32) as u32
    }
}

impl BitType for u64 {
    open spec fn spec_bits() -> nat {
        64
    }

    open spec fn spec_decode(bits: Seq<bool>) -> Self {
        nat_of(bits) as u64
    }

    open spec fn spec_valid(&self) -> bool {
        true
    }

    fn bits() -> (r: usize) {
        64
    }

    fn from_aligned(aligned: &Self, slice: &mut [u8], offset: usize) {
        proof {
            lemma2_to64_rest();
        }
        write_bits(slice, offset, 64, *aligned);
    }

    fn to_aligned(slice: &[u8], offset: usize) -> (r: Self) {
        read_bits(slice, offset, 64)
    }
}

impl<T: BitType> BitType for Option<T> {
    open spec fn spec_bits() -> nat {
        1 + T::spec_bits()
    }

    /// The first bit tells whether a payload is present; the payload bits
    /// that follow mean nothing when it is not.
    open spec fn spec_decode(bits: Seq<bool>) -> Self {
        if bits[0] {
            Some(T::spec_decode(bits.subrange(1, bits.len() as int)))
        } else {
            None
        }
    }

    open spec fn spec_valid(&self) -> bool {
        match self {
            Some(v) => v.spec_valid(),
            None => true,
        }
    }

    fn bits() -> (r: usize) {
        1 + T::bits()
    }

    fn from_aligned(aligned: &Self, slice: &mut [u8], offset: usize) {
        let ghost s0 = slice@;
        let ghost total = 1 + T::spec_bits() as int;
        match aligned {
            Some(value) => {
                set_bit(slice, offset, true);
                let ghost s1 = slice@;
                T::from_aligned(value, slice, offset + 1);
                proof {
                    lemma_window_kept(s1, slice@, offset + 1, T::spec_bits() as int, offset as int, 1);
                    lemma_window_split(slice@, offset as int, total, 0, 1);
                    lemma_window_split(slice@, offset as int, total, 1, total);
                    lemma_same_outside_widen(s0, s1, offset as int, 1, offset as int, total);
                    lemma_same_outside_widen(s1, slice@, offset + 1, T::spec_bits() as int, offset as int, total);
                    lemma_same_outside_trans(s0, s1, slice@, offset as int, total);
                }
            },
            None => {
                set_bit(slice, offset, false);
                proof {
                    lemma_same_outside_widen(s0, slice@, offset as int, 1, offset as int, total);
                }
            },
        }
    }

    fn to_aligned(slice: &[u8], offset: usize) -> (r: Self) {
        proof {
            lemma_window_split(slice@, offset as int, 1 + T::spec_bits() as int, 1, 1 + T::spec_bits() as int);
        }
        if get_bit(slice, offset) {
            Some(T::to_aligned(slice, offset + 1))
        } else {
            None
        }
    }
}

/// The elements of an array of `n` values of `T` packed one after another.
pub open spec fn array_elements<T: BitType>(bits: Seq<bool>, n: nat) -> Seq<T> {
    Seq::new(
        n,
        |i: int| T::spec_decode(bits.subrange(i * T::spec_bits(), (i + 1) * T::spec_bits())),
    )
}

pub proof fn lemma_element_fits(i: int, n: int, b: int)
    requires
        0 <= i < n,
        0 <= b,
    ensures
        0 <= i * b,
        i * b + b == (i + 1) * b,
        (i + 1) * b <= n * b,
{
    lemma_mul_inequality(i + 1, n, b);
    lemma_mul_inequality(0, i, b);
    lemma_mul_is_distributive_add_other_way(b, i, 1);
}

/// An array whose first `k` elements are those of `s`.
pub open spec fn array_prefix<T, const N: usize>(s: Seq<T>, k: nat) -> [T; N]
    decreases k,
{
    if k == 0 {
        vstd::pervasive::arbitrary()
    } else {
        vstd::array::spec_array_update(array_prefix::<T, N>(s, (k - 1) as nat), k - 1, s[k - 1])
    }
}

proof fn lemma_array_prefix<T, const N: usize>(s: Seq<T>, k: nat)
    requires
        k <= N,
        s.len() == N,
    ensures
        forall|j: int| 0 <= j < k ==> #[trigger] array_prefix::<T, N>(s, k)@[j] == s[j],
    decreases k,
{
    broadcast use vstd::array::group_array_axioms;

    if k > 0 {
        lemma_array_prefix::<T, N>(s, (k - 1) as nat);
        let prev = array_prefix::<T, N>(s, (k - 1) as nat);
        assert(array_prefix::<T, N>(s, k)@ == prev@.update(k - 1, s[k - 1]));
    }
}

/// Every sequence of `N` values is the view of some array.
pub proof fn lemma_array_exists<T, const N: usize>(s: Seq<T>)
    requires
        s.len() == N,
    ensures
        exists|a: [T; N]| a@ == s,
{
    lemma_array_prefix::<T, N>(s, N as nat);
    assert(array_prefix::<T, N>(s, N as nat)@ =~= s);
}

impl<T: BitType + Copy + Default, const N: usize> BitType for [T; N] {
    open spec fn spec_bits() -> nat {
        N as nat * T::spec_bits()
    }

    open spec fn spec_decode(bits: Seq<bool>) -> Self {
        choose|a: [T; N]| a@ == array_elements::<T>(bits, N as nat)
    }

    open spec fn spec_valid(&self) -> bool {
        forall|i: int| 0 <= i < N ==> #[trigger] self@[i].spec_valid()
    }

    fn bits() -> (r: usize) {
        if N == 0 {
            0
        } else {
            proof {
                lemma_mul_inequality(1, N as int, T::spec_bits() as int);
            }
            N * T::bits()
        }
    }

    fn from_aligned(aligned: &Self, slice: &mut [u8], offset: usize) {
        broadcast use vstd::array::group_array_axioms;

        if N == 0 {
            proof {
                let w = window(slice@, offset as int, 0);
                assert(array_elements::<T>(w, 0) =~= aligned@);
                let c = Self::spec_decode(w);
                assert(c@ == array_elements::<T>(w, N as nat));
                assert(c =~= *aligned);
            }
            return ;
        }
        proof {
            lemma_mul_inequality(1, N as int, T::spec_bits() as int);
        }
        let b = T::bits();
        let ghost s0 = slice@;
        let mut i: usize = 0;
        let mut at = offset;
        proof {
            assert(same_outside(s0, slice@, offset as int, 0));
        }
        while i < N
            invariant
                i <= N,
                b == T::spec_bits(),
                at == offset + i * b,
                in_buffer(s0.len(), offset as nat, N as nat * T::spec_bits()),
                slice@.len() == s0.len(),
                aligned.spec_valid(),
                forall|j: int|
                    0 <= j < i ==> T::spec_decode(window(slice@, offset + j * b, b as int))
                        == #[trigger] aligned@[j],
                same_outside(s0, slice@, offset as int, i * b),
            decreases N - i,
        {
            let ghost before = slice@;
            proof {
                lemma_element_fits(i as int, N as int, b as int);
                assert(aligned@[i as int].spec_valid());
            }
            T::from_aligned(&aligned[i], slice, at);
            proof {
                assert forall|j: int| 0 <= j < i + 1 implies T::spec_decode(
                    window(slice@, offset + j * b, b as int),
                ) == #[trigger] aligned@[j] by {
                    if j < i {
                        lemma_element_fits(j, i as int, b as int);
                        lemma_window_kept(before, slice@, at as int, b as int, offset + j * b, b as int);
                    }
                }
                lemma_same_outside_widen(before, slice@, at as int, b as int, offset as int, (i + 1) * b);
                lemma_same_outside_widen(s0, before, offset as int, i * b, offset as int, (i + 1) * b);
                lemma_same_outside_trans(s0, before, slice@, offset as int, (i + 1) * b);
            }
            at = at + b;
            i = i + 1;
        }
        proof {
            let w = window(slice@, offset as int, N * b);
            assert forall|j: int| 0 <= j < N implies array_elements::<T>(w, N as nat)[j] == aligned@[j] by {
                lemma_element_fits(j, N as int, b as int);
                lemma_window_split(slice@, offset as int, N * b, j * b, (j + 1) * b);
            }
            assert(array_elements::<T>(w, N as nat) =~= aligned@);
            let c = Self::spec_decode(w);
            assert(c@ == array_elements::<T>(w, N as nat));
            assert(c =~= *aligned);
        }
    }

    fn to_aligned(slice: &[u8], offset: usize) -> (r: Self) {
        broadcast use vstd::array::group_array_axioms;

        let mut result: [T; N] = [T::default(); N];
        if N == 0 {
            proof {
                let w = window(slice@, offset as int, 0);
                assert(result@ =~= array_elements::<T>(w, 0));
                let c = Self::spec_decode(w);
                assert(c@ == array_elements::<T>(w, N as nat));
                assert(c =~= result);
            }
            return result;
        }
        proof {
            lemma_mul_inequality(1, N as int, T::spec_bits() as int);
        }
        let b = T::bits();
        let ghost w = window(slice@, offset as int, N * b);
        let mut i: usize = 0;
        let mut at = offset;
        while i < N
            invariant
                i <= N,
                b == T::spec_bits(),
                at == offset + i * b,
                in_buffer(slice@.len(), offset as nat, N as nat * T::spec_bits()),
                w == window(slice@, offset as int, N * b),
                forall|j: int|
                    0 <= j < i ==> #[trigger] result@[j] == array_elements::<T>(w, N as nat)[j],
            decreases N - i,
        {
            proof {
                lemma_element_fits(i as int, N as int, b as int);
                lemma_window_split(slice@, offset as int, N * b, i * b, (i + 1) * b);
            }
            let v = T::to_aligned(slice, at);
            result[i] = v;
            at = at + b;
            i = i + 1;
        }
        proof {
            assert(result@ =~= array_elements::<T>(w, N as nat));
            let c = Self::spec_decode(w);
            assert(c@ == array_elements::<T>(w, N as nat));
            assert(c =~= result);
        }
        result
    }
}

impl<T0: BitType> BitType for (T0,) {
    open spec fn spec_bits() -> nat {
        T0::spec_bits()
    }

    open spec fn spec_decode(bits: Seq<bool>) -> Self {
        (
            T0::spec_decode(bits.subrange(0, T0::spec_bits() as int)),
        )
    }

    open spec fn spec_valid(&self) -> bool {
        self.0.spec_valid()
    }

    fn bits() -> (r: usize) {
        T0::bits()
    }

    fn from_aligned(aligned: &Self, slice: &mut [u8], offset: usize) {
        let ghost s0 = slice@;
        let at = offset;
        T0::from_aligned(&aligned.0, slice, at);
        let ghost s1 = slice@;
        proof {
            let total = T0::spec_bits() as int;
            let o0 = offset as int;
            lemma_window_split(s1, offset as int, total, 0, T0::spec_bits() as int);
            lemma_same_outside_widen(s0, s1, o0, T0::spec_bits() as int, offset as int, total);
        }
    }

    fn to_aligned(slice: &[u8], offset: usize) -> (r: Self) {
        let at = offset;
        let v0 = T0::to_aligned(slice, at);
        proof {
            let total = T0::spec_bits() as int;
            lemma_window_split(slice@, offset as int, total, 0, T0::spec_bits() as int);
        }
        (v0,)
    }
}

impl<T0: BitType, T1: BitType> BitType for (T0, T1) {
    open spec fn spec_bits() -> nat {
        T0::spec_bits() + T1::spec_bits()
    }

    open spec fn spec_decode(bits: Seq<bool>) -> Self {
        (
            T0::spec_decode(bits.subrange(0, T0::spec_bits() as int)),
            T1::spec_decode(bits.subrange(T0::spec_bits() as int, (T0::spec_bits() + T1::spec_bits()) as int)),
        )
    }

    open spec fn spec_valid(&self) -> bool {
        self.0.spec_valid() && self.1.spec_valid()
    }

    fn bits() -> (r: usize) {
        T0::bits() + T1::bits()
    }

    fn from_aligned(aligned: &Self, slice: &mut [u8], offset: usize) {
        let ghost s0 = slice@;
        let mut at = offset;
        T0::from_aligned(&aligned.0, slice, at);
        let ghost s1 = slice@;
        at = at + T0::bits();
        T1::from_aligned(&aligned.1, slice, at);
        let ghost s2 = slice@;
        proof {
            let total = (T0::spec_bits() + T1::spec_bits()) as int;
            let o0 = offset as int;
            let o1 = offset + T0::spec_bits() as int;
            lemma_window_kept(s1, s2, o1, T1::spec_bits() as int, o0, T0::spec_bits() as int);
            lemma_window_split(s2, offset as int, total, 0, T0::spec_bits() as int);
            lemma_same_outside_widen(s0, s1, o0, T0::spec_bits() as int, offset as int, total);
            lemma_window_split(s2, offset as int, total, T0::spec_bits() as int, (T0::spec_bits() + T1::spec_bits()) as int);
            lemma_same_outside_widen(s1, s2, o1, T1::spec_bits() as int, offset as int, total);
            lemma_same_outside_trans(s0, s1, s2, offset as int, total);
        }
    }

    fn to_aligned(slice: &[u8], offset: usize) -> (r: Self) {
        let mut at = offset;
        let v0 = T0::to_aligned(slice, at);
        at = at + T0::bits();
        let v1 = T1::to_aligned(slice, at);
        proof {
            let total = (T0::spec_bits() + T1::spec_bits()) as int;
            lemma_window_split(slice@, offset as int, total, 0, T0::spec_bits() as int);
            lemma_window_split(slice@, offset as int, total, T0::spec_bits() as int, (T0::spec_bits() + T1::spec_bits()) as int);
        }
        (v0, v1)
    }
}

impl<T0: BitType, T1: BitType, T2: BitType> BitType for (T0, T1, T2) {
    open spec fn spec_bits() -> nat {
        T0::spec_bits() + T1::spec_bits() + T2::spec_bits()
    }

    open spec fn spec_decode(bits: Seq<bool>) -> Self {
        (
            T0::spec_decode(bits.subrange(0, T0::spec_bits() as int)),
            T1::spec_decode(bits.subrange(T0::spec_bits() as int, (T0::spec_bits() + T1::spec_bits()) as int)),
            T2::spec_decode(bits.subrange((T0::spec_bits() + T1::spec_bits()) as int, (T0::spec_bits() + T1::spec_bits() + T2::spec_bits()) as int)),
        )
    }

    open spec fn spec_valid(&self) -> bool {
        self.0.spec_valid() && self.1.spec_valid() && self.2.spec_valid()
    }

    fn bits() -> (r: usize) {
        T0::bits() + T1::bits() + T2::bits()
    }

    fn from_aligned(aligned: &Self, slice: &mut [u8], offset: usize) {
        let ghost s0 = slice@;
        let mut at = offset;
        T0::from_aligned(&aligned.0, slice, at);
        let ghost s1 = slice@;
        at = at + T0::bits();
        T1::from_aligned(&aligned.1, slice, at);
        let ghost s2 = slice@;
        at = at + T1::bits();
        T2::from_aligned(&aligned.2, slice, at);
        let ghost s3 = slice@;
        proof {
            let total = (T0::spec_bits() + T1::spec_bits() + T2::spec_bits()) as int;
            let o0 = offset as int;
            let o1 = offset + T0::spec_bits() as int;
            let o2 = offset + (T0::spec_bits() + T1::spec_bits()) as int;
            lemma_window_kept(s1, s2, o1, T1::spec_bits() as int, o0, T0::spec_bits() as int);
            lemma_window_kept(s2, s3, o2, T2::spec_bits() as int, o0, T0::spec_bits() as int);
            lemma_window_split(s3, offset as int, total, 0, T0::spec_bits() as int);
            lemma_same_outside_widen(s0, s1, o0, T0::spec_bits() as int, offset as int, total);
            lemma_window_kept(s2, s3, o2, T2::spec_bits() as int, o1, T1::spec_bits() as int);
            lemma_window_split(s3, offset as int, total, T0::spec_bits() as int, (T0::spec_bits() + T1::spec_bits()) as int);
            lemma_same_outside_widen(s1, s2, o1, T1::spec_bits() as int, offset as int, total);
            lemma_same_outside_trans(s0, s1, s2, offset as int, total);
            lemma_window_split(s3, offset as int, total, (T0::spec_bits() + T1::spec_bits()) as int, (T0::spec_bits() + T1::spec_bits() + T2::spec_bits()) as int);
            lemma_same_outside_widen(s2, s3, o2, T2::spec_bits() as int, offset as int, total);
            lemma_same_outside_trans(s0, s2, s3, offset as int, total);
        }
    }

    fn to_aligned(slice: &[u8], offset: usize) -> (r: Self) {
        let mut at = offset;
        let v0 = T0::to_aligned(slice, at);
        at = at + T0::bits();
        let v1 = T1::to_aligned(slice, at);
        at = at + T1::bits();
        let v2 = T2::to_aligned(slice, at);
        proof {
            let total = (T0::spec_bits() + T1::spec_bits() + T2::spec_bits()) as int;
            lemma_window_split(slice@, offset as int, total, 0, T0::spec_bits() as int);
            lemma_window_split(slice@, offset as int, total, T0::spec_bits() as int, (T0::spec_bits() + T1::spec_bits()) as int);
            lemma_window_split(slice@, offset as int, total, (T0::spec_bits() + T1::spec_bits()) as int, (T0::spec_bits() + T1::spec_bits() + T2::spec_bits()) as int);
        }
        (v0, v1, v2)
    }
}

impl<T0: BitType, T1: BitType, T2: BitType, T3: BitType> BitType for (T0, T1, T2, T3) {
    open spec fn spec_bits() -> nat {
        T0::spec_bits() + T1::spec_bits() + T2::spec_bits() + T3::spec_bits()
    }

    open spec fn spec_decode(bits: Seq<bool>) -> Self {
        (
            T0::spec_decode(bits.subrange(0, T0::spec_bits() as int)),
            T1::spec_decode(bits.subrange(T0::spec_bits() as int, (T0::spec_bits() + T1::spec_bits()) as int)),
            T2::spec_decode(bits.subrange((T0::spec_bits() + T1::spec_bits()) as int, (T0::spec_bits() + T1::spec_bits() + T2::spec_bits()) as int)),
            T3::spec_decode(bits.subrange((T0::spec_bits() + T1::spec_bits() + T2::spec_bits()) as int, (T0::spec_bits() + T1::spec_bits() + T2::spec_bits() + T3::spec_bits()) as int)),
        )
    }

    open spec fn spec_valid(&self) -> bool {
        self.0.spec_valid() && self.1.spec_valid() && self.2.spec_valid() && self.3.spec_valid()
    }

    fn bits() -> (r: usize) {
        T0::bits() + T1::bits() + T2::bits() + T3::bits()
    }

    fn from_aligned(aligned: &Self, slice: &mut [u8], offset: usize) {
        let ghost s0 = slice@;
        let mut at = offset;
        T0::from_aligned(&aligned.0, slice, at);
        let ghost s1 = slice@;
        at = at + T0::bits();
        T1::from_aligned(&aligned.1, slice, at);
        let ghost s2 = slice@;
        at = at + T1::bits();
        T2::from_aligned(&aligned.2, slice, at);
        let ghost s3 = slice@;
        at = at + T2::bits();
        T3::from_aligned(&aligned.3, slice, at);
        let ghost s4 = slice@;
        proof {
            let total = (T0::spec_bits() + T1::spec_bits() + T2::spec_bits() + T3::spec_bits()) as int;
            let o0 = offset as int;
            let o1 = offset + T0::spec_bits() as int;
            let o2 = offset + (T0::spec_bits() + T1::spec_bits()) as int;
            let o3 = offset + (T0::spec_bits() + T1::spec_bits() + T2::spec_bits()) as int;
            lemma_window_kept(s1, s2, o1, T1::spec_bits() as int, o0, T0::spec_bits() as int);
            lemma_window_kept(s2, s3, o2, T2::spec_bits() as int, o0, T0::spec_bits() as int);
            lemma_window_kept(s3, s4, o3, T3::spec_bits() as int, o0, T0::spec_bits() as int);
            lemma_window_split(s4, offset as int, total, 0, T0::spec_bits() as int);
            lemma_same_outside_widen(s0, s1, o0, T0::spec_bits() as int, offset as int, total);
            lemma_window_kept(s2, s3, o2, T2::spec_bits() as int, o1, T1::spec_bits() as int);
            lemma_window_kept(s3, s4, o3, T3::spec_bits() as int, o1, T1::spec_bits() as int);
            lemma_window_split(s4, offset as int, total, T0::spec_bits() as int, (T0::spec_bits() + T1::spec_bits()) as int);
            lemma_same_outside_widen(s1, s2, o1, T1::spec_bits() as int, offset as int, total);
            lemma_same_outside_trans(s0, s1, s2, offset as int, total);
            lemma_window_kept(s3, s4, o3, T3::spec_bits() as int, o2, T2::spec_bits() as int);
            lemma_window_split(s4, offset as int, total, (T0::spec_bits() + T1::spec_bits()) as int, (T0::spec_bits() + T1::spec_bits() + T2::spec_bits()) as int);
            lemma_same_outside_widen(s2, s3, o2, T2::spec_bits() as int, offset as int, total);
            lemma_same_outside_trans(s0, s2, s3, offset as int, total);
            lemma_window_split(s4, offset as int, total, (T0::spec_bits() + T1::spec_bits() + T2::spec_bits()) as int, (T0::spec_bits() + T1::spec_bits() + T2::spec_bits() + T3::spec_bits()) as int);
            lemma_same_outside_widen(s3, s4, o3, T3::spec_bits() as int, offset as int, total);
            lemma_same_outside_trans(s0, s3, s4, offset as int, total);
        }
    }

    fn to_aligned(slice: &[u8], offset: usize) -> (r: Self) {
        let mut at = offset;
        let v0 = T0::to_aligned(slice, at);
        at = at + T0::bits();
        let v1 = T1::to_aligned(slice, at);
        at = at + T1::bits();
        let v2 = T2::to_aligned(slice, at);
        at = at + T2::bits();
        let v3 = T3::to_aligned(slice, at);
        proof {
            let total = (T0::spec_bits() + T1::spec_bits() + T2::spec_bits() + T3::spec_bits()) as int;
            lemma_window_split(slice@, offset as int, total, 0, T0::spec_bits() as int);
            lemma_window_split(slice@, offset as int, total, T0::spec_bits() as int, (T0::spec_bits() + T1::spec_bits()) as int);
            lemma_window_split(slice@, offset as int, total, (T0::spec_bits() + T1::spec_bits()) as int, (T0::spec_bits() + T1::spec_bits() + T2::spec_bits()) as int);
            lemma_window_split(slice@, offset as int, total, (T0::spec_bits() + T1::spec_bits() + T2::spec_bits()) as int, (T0::spec_bits() + T1::spec_bits() + T2::spec_bits() + T3::spec_bits()) as int);
        }
        (v0, v1, v2, v3)
    }
}

impl<T0: BitType, T1: BitType, T2: BitType, T3: BitType, T4: BitType> BitType for (T0, T1, T2, T3, T4) {
    open spec fn spec_bits() -> nat {
        T0::spec_bits() + T1::spec_bits() + T2::spec_bits() + T3::spec_bits() + T4::spec_bits()
    }

    open spec fn spec_decode(bits: Seq<bool>) -> Self {
        (
            T0::spec_decode(bits.subrange(0, T0::spec_bits() as int)),
            T1::spec_decode(bits.subrange(T0::spec_bits() as int, (T0::spec_bits() + T1::spec_bits()) as int)),
            T2::spec_decode(bits.subrange((T0::spec_bits() + T1::spec_bits()) as int, (T0::spec_bits() + T1::spec_bits() + T2::spec_bits()) as int)),
            T3::spec_decode(bits.subrange((T0::spec_bits() + T1::spec_bits() + T2::spec_bits()) as int, (T0::spec_bits() + T1::spec_bits() + T2::spec_bits() + T3::spec_bits()) as int)),
            T4::spec_decode(bits.subrange((T0::spec_bits() + T1::spec_bits() + T2::spec_bits() + T3::spec_bits()) as int, (T0::spec_bits() + T1::spec_bits() + T2::spec_bits() + T3::spec_bits() + T4::spec_bits()) as int)),
        )
    }

    open spec fn spec_valid(&self) -> bool {
        self.0.spec_valid() && self.1.spec_valid() && self.2.spec_valid() && self.3.spec_valid() && self.4.spec_valid()
    }

    fn bits() -> (r: usize) {
        T0::bits() + T1::bits() + T2::bits() + T3::bits() + T4::bits()
    }

    fn from_aligned(aligned: &Self, slice: &mut [u8], offset: usize) {
        let ghost s0 = slice@;
        let mut at = offset;
        T0::from_aligned(&aligned.0, slice, at);
        let ghost s1 = slice@;
        at = at + T0::bits();
        T1::from_aligned(&aligned.1, slice, at);
        let ghost s2 = slice@;
        at = at + T1::bits();
        T2::from_aligned(&aligned.2, slice, at);
        let ghost s3 = slice@;
        at = at + T2::bits();
        T3::from_aligned(&aligned.3, slice, at);
        let ghost s4 = slice@;
        at = at + T3::bits();
        T4::from_aligned(&aligned.4, slice, at);
        let ghost s5 = slice@;
        proof {
            let total = (T0::spec_bits() + T1::spec_bits() + T2::spec_bits() + T3::spec_bits() + T4::spec_bits()) as int;
            let o0 = offset as int;
            let o1 = offset + T0::spec_bits() as int;
            let o2 = offset + (T0::spec_bits() + T1::spec_bits()) as int;
            let o3 = offset + (T0::spec_bits() + T1::spec_bits() + T2::spec_bits()) as int;
            let o4 = offset + (T0::spec_bits() + T1::spec_bits() + T2::spec_bits() + T3::spec_bits()) as int;
            lemma_window_kept(s1, s2, o1, T1::spec_bits() as int, o0, T0::spec_bits() as int);
            lemma_window_kept(s2, s3, o2, T2::spec_bits() as int, o0, T0::spec_bits() as int);
            lemma_window_kept(s3, s4, o3, T3::spec_bits() as int, o0, T0::spec_bits() as int);
            lemma_window_kept(s4, s5, o4, T4::spec_bits() as int, o0, T0::spec_bits() as int);
            lemma_window_split(s5, offset as int, total, 0, T0::spec_bits() as int);
            lemma_same_outside_widen(s0, s1, o0, T0::spec_bits() as int, offset as int, total);
            lemma_window_kept(s2, s3, o2, T2::spec_bits() as int, o1, T1::spec_bits() as int);
            lemma_window_kept(s3, s4, o3, T3::spec_bits() as int, o1, T1::spec_bits() as int);
            lemma_window_kept(s4, s5, o4, T4::spec_bits() as int, o1, T1::spec_bits() as int);
            lemma_window_split(s5, offset as int, total, T0::spec_bits() as int, (T0::spec_bits() + T1::spec_bits()) as int);
            lemma_same_outside_widen(s1, s2, o1, T1::spec_bits() as int, offset as int, total);
            lemma_same_outside_trans(s0, s1, s2, offset as int, total);
            lemma_window_kept(s3, s4, o3, T3::spec_bits() as int, o2, T2::spec_bits() as int);
            lemma_window_kept(s4, s5, o4, T4::spec_bits() as int, o2, T2::spec_bits() as int);
            lemma_window_split(s5, offset as int, total, (T0::spec_bits() + T1::spec_bits()) as int, (T0::spec_bits() + T1::spec_bits() + T2::spec_bits()) as int);
            lemma_same_outside_widen(s2, s3, o2, T2::spec_bits() as int, offset as int, total);
            lemma_same_outside_trans(s0, s2, s3, offset as int, total);
            lemma_window_kept(s4, s5, o4, T4::spec_bits() as int, o3, T3::spec_bits() as int);
            lemma_window_split(s5, offset as int, total, (T0::spec_bits() + T1::spec_bits() + T2::spec_bits()) as int, (T0::spec_bits() + T1::spec_bits() + T2::spec_bits() + T3::spec_bits()) as int);
            lemma_same_outside_widen(s3, s4, o3, T3::spec_bits() as int, offset as int, total);
            lemma_same_outside_trans(s0, s3, s4, offset as int, total);
            lemma_window_split(s5, offset as int, total, (T0::spec_bits() + T1::spec_bits() + T2::spec_bits() + T3::spec_bits()) as int, (T0::spec_bits() + T1::spec_bits() + T2::spec_bits() + T3::spec_bits() + T4::spec_bits()) as int);
            lemma_same_outside_widen(s4, s5, o4, T4::spec_bits() as int, offset as int, total);
            lemma_same_outside_trans(s0, s4, s5, offset as int, total);
        }
    }

    fn to_aligned(slice: &[u8], offset: usize) -> (r: Self) {
        let mut at = offset;
        let v0 = T0::to_aligned(slice, at);
        at = at + T0::bits();
        let v1 = T1::to_aligned(slice, at);
        at = at + T1::bits();
        let v2 = T2::to_aligned(slice, at);
        at = at + T2::bits();
        let v3 = T3::to_aligned(slice, at);
        at = at + T3::bits();
        let v4 = T4::to_aligned(slice, at);
        proof {
            let total = (T0::spec_bits() + T1::spec_bits() + T2::spec_bits() + T3::spec_bits() + T4::spec_bits()) as int;
            lemma_window_split(slice@, offset as int, total, 0, T0::spec_bits() as int);
            lemma_window_split(slice@, offset as int, total, T0::spec_bits() as int, (T0::spec_bits() + T1::spec_bits()) as int);
            lemma_window_split(slice@, offset as int, total, (T0::spec_bits() + T1::spec_bits()) as int, (T0::spec_bits() + T1::spec_bits() + T2::spec_bits()) as int);
            lemma_window_split(slice@, offset as int, total, (T0::spec_bits() + T1::spec_bits() + T2::spec_bits()) as int, (T0::spec_bits() + T1::spec_bits() + T2::spec_bits() + T3::spec_bits()) as int);
            lemma_window_split(slice@, offset as int, total, (T0::spec_bits() + T1::spec_bits() + T2::spec_bits() + T3::spec_bits()) as int, (T0::spec_bits() + T1::spec_bits() + T2::spec_bits() + T3::spec_bits() + T4::spec_bits()) as int);
        }
        (v0, v1, v2, v3, v4)
    }
}

impl<T0: BitType, T1: BitType, T2: BitType, T3: BitType, T4: BitType, T5: BitType> BitType for (T0, T1, T2, T3, T4, T5) {
    open spec fn spec_bits() -> nat {
        T0::spec_bits() + T1::spec_bits() + T2::spec_bits() + T3::spec_bits() + T4::spec_bits() + T5::spec_bits()
    }

    open spec fn spec_decode(bits: Seq<bool>) -> Self {
        (
            T0::spec_decode(bits.subrange(0, T0::spec_bits() as int)),
            T1::spec_decode(bits.subrange(T0::spec_bits() as int, (T0::spec_bits() + T1::spec_bits()) as int)),
            T2::spec_decode(bits.subrange((T0::spec_bits() + T1::spec_bits()) as int, (T0::spec_bits() + T1::spec_bits() + T2::spec_bits()) as int)),
            T3::spec_decode(bits.subrange((T0::spec_bits() + T1::spec_bits() + T2::spec_bits()) as int, (T0::spec_bits() + T1::spec_bits() + T2::spec_bits() + T3::spec_bits()) as int)),
            T4::spec_decode(bits.subrange((T0::spec_bits() + T1::spec_bits() + T2::spec_bits() + T3::spec_bits()) as int, (T0::spec_bits() + T1::spec_bits() + T2::spec_bits() + T3::spec_bits() + T4::spec_bits()) as int)),
            T5::spec_decode(bits.subrange((T0::spec_bits() + T1::spec_bits() + T2::spec_bits() + T3::spec_bits() + T4::spec_bits()) as int, (T0::spec_bits() + T1::spec_bits() + T2::spec_bits() + T3::spec_bits() + T4::spec_bits() + T5::spec_bits()) as int)),
        )
    }

    open spec fn spec_valid(&self) -> bool {
        self.0.spec_valid() && self.1.spec_valid() && self.2.spec_valid() && self.3.spec_valid() && self.4.spec_valid() && self.5.spec_valid()
    }

    fn bits() -> (r: usize) {
        T0::bits() + T1::bits() + T2::bits() + T3::bits() + T4::bits() + T5::bits()
    }

    fn from_aligned(aligned: &Self, slice: &mut [u8], offset: usize) {
        let ghost s0 = slice@;
        let mut at = offset;
        T0::from_aligned(&aligned.0, slice, at);
        let ghost s1 = slice@;
        at = at + T0::bits();
        T1::from_aligned(&aligned.1, slice, at);
        let ghost s2 = slice@;
        at = at + T1::bits();
        T2::from_aligned(&aligned.2, slice, at);
        let ghost s3 = slice@;
        at = at + T2::bits();
        T3::from_aligned(&aligned.3, slice, at);
        let ghost s4 = slice@;
        at = at + T3::bits();
        T4::from_aligned(&aligned.4, slice, at);
        let ghost s5 = slice@;
        at = at + T4::bits();
        T5::from_aligned(&aligned.5, slice, at);
        let ghost s6 = slice@;
        proof {
            let total = (T0::spec_bits() + T1::spec_bits() + T2::spec_bits() + T3::spec_bits() + T4::spec_bits() + T5::spec_bits()) as int;
            let o0 = offset as int;
            let o1 = offset + T0::spec_bits() as int;
            let o2 = offset + (T0::spec_bits() + T1::spec_bits()) as int;
            let o3 = offset + (T0::spec_bits() + T1::spec_bits() + T2::spec_bits()) as int;
            let o4 = offset + (T0::spec_bits() + T1::spec_bits() + T2::spec_bits() + T3::spec_bits()) as int;
            let o5 = offset + (T0::spec_bits() + T1::spec_bits() + T2::spec_bits() + T3::spec_bits() + T4::spec_bits()) as int;
            lemma_window_kept(s1, s2, o1, T1::spec_bits() as int, o0, T0::spec_bits() as int);
            lemma_window_kept(s2, s3, o2, T2::spec_bits() as int, o0, T0::spec_bits() as int);
            lemma_window_kept(s3, s4, o3, T3::spec_bits() as int, o0, T0::spec_bits() as int);
            lemma_window_kept(s4, s5, o4, T4::spec_bits() as int, o0, T0::spec_bits() as int);
            lemma_window_kept(s5, s6, o5, T5::spec_bits() as int, o0, T0::spec_bits() as int);
            lemma_window_split(s6, offset as int, total, 0, T0::spec_bits() as int);
            lemma_same_outside_widen(s0, s1, o0, T0::spec_bits() as int, offset as int, total);
            lemma_window_kept(s2, s3, o2, T2::spec_bits() as int, o1, T1::spec_bits() as int);
            lemma_window_kept(s3, s4, o3, T3::spec_bits() as int, o1, T1::spec_bits() as int);
            lemma_window_kept(s4, s5, o4, T4::spec_bits() as int, o1, T1::spec_bits() as int);
            lemma_window_kept(s5, s6, o5, T5::spec_bits() as int, o1, T1::spec_bits() as int);
            lemma_window_split(s6, offset as int, total, T0::spec_bits() as int, (T0::spec_bits() + T1::spec_bits()) as int);
            lemma_same_outside_widen(s1, s2, o1, T1::spec_bits() as int, offset as int, total);
            lemma_same_outside_trans(s0, s1, s2, offset as int, total);
            lemma_window_kept(s3, s4, o3, T3::spec_bits() as int, o2, T2::spec_bits() as int);
            lemma_window_kept(s4, s5, o4, T4::spec_bits() as int, o2, T2::spec_bits() as int);
            lemma_window_kept(s5, s6, o5, T5::spec_bits() as int, o2, T2::spec_bits() as int);
            lemma_window_split(s6, offset as int, total, (T0::spec_bits() + T1::spec_bits()) as int, (T0::spec_bits() + T1::spec_bits() + T2::spec_bits()) as int);
            lemma_same_outside_widen(s2, s3, o2, T2::spec_bits() as int, offset as int, total);
            lemma_same_outside_trans(s0, s2, s3, offset as int, total);
            lemma_window_kept(s4, s5, o4, T4::spec_bits() as int, o3, T3::spec_bits() as int);
            lemma_window_kept(s5, s6, o5, T5::spec_bits() as int, o3, T3::spec_bits() as int);
            lemma_window_split(s6, offset as int, total, (T0::spec_bits() + T1::spec_bits() + T2::spec_bits()) as int, (T0::spec_bits() + T1::spec_bits() + T2::spec_bits() + T3::spec_bits()) as int);
            lemma_same_outside_widen(s3, s4, o3, T3::spec_bits() as int, offset as int, total);
            lemma_same_outside_trans(s0, s3, s4, offset as int, total);
            lemma_window_kept(s5, s6, o5, T5::spec_bits() as int, o4, T4::spec_bits() as int);
            lemma_window_split(s6, offset as int, total, (T0::spec_bits() + T1::spec_bits() + T2::spec_bits() + T3::spec_bits()) as int, (T0::spec_bits() + T1::spec_bits() + T2::spec_bits() + T3::spec_bits() + T4::spec_bits()) as int);
            lemma_same_outside_widen(s4, s5, o4, T4::spec_bits() as int, offset as int, total);
            lemma_same_outside_trans(s0, s4, s5, offset as int, total);
            lemma_window_split(s6, offset as int, total, (T0::spec_bits() + T1::spec_bits() + T2::spec_bits() + T3::spec_bits() + T4::spec_bits()) as int, (T0::spec_bits() + T1::spec_bits() + T2::spec_bits() + T3::spec_bits() + T4::spec_bits() + T5::spec_bits()) as int);
            lemma_same_outside_widen(s5, s6, o5, T5::spec_bits() as int, offset as int, total);
            lemma_same_outside_trans(s0, s5, s6, offset as int, total);
        }
    }

    fn to_aligned(slice: &[u8], offset: usize) -> (r: Self) {
        let mut at = offset;
        let v0 = T0::to_aligned(slice, at);
        at = at + T0::bits();
        let v1 = T1::to_aligned(slice, at);
        at = at + T1::bits();
        let v2 = T2::to_aligned(slice, at);
        at = at + T2::bits();
        let v3 = T3::to_aligned(slice, at);
        at = at + T3::bits();
        let v4 = T4::to_aligned(slice, at);
        at = at + T4::bits();
        let v5 = T5::to_aligned(slice, at);
        proof {
            let total = (T0::spec_bits() + T1::spec_bits() + T2::spec_bits() + T3::spec_bits() + T4::spec_bits() + T5::spec_bits()) as int;
            lemma_window_split(slice@, offset as int, total, 0, T0::spec_bits() as int);
            lemma_window_split(slice@, offset as int, total, T0::spec_bits() as int, (T0::spec_bits() + T1::spec_bits()) as int);
            lemma_window_split(slice@, offset as int, total, (T0::spec_bits() + T1::spec_bits()) as int, (T0::spec_bits() + T1::spec_bits() + T2::spec_bits()) as int);
            lemma_window_split(slice@, offset as int, total, (T0::spec_bits() + T1::spec_bits() + T2::spec_bits()) as int, (T0::spec_bits() + T1::spec_bits() + T2::spec_bits() + T3::spec_bits()) as int);
            lemma_window_split(slice@, offset as int, total, (T0::spec_bits() + T1::spec_bits() + T2::spec_bits() + T3::spec_bits()) as int, (T0::spec_bits() + T1::spec_bits() + T2::spec_bits() + T3::spec_bits() + T4::spec_bits()) as int);
            lemma_window_split(slice@, offset as int, total, (T0::spec_bits() + T1::spec_bits() + T2::spec_bits() + T3::spec_bits() + T4::spec_bits()) as int, (T0::spec_bits() + T1::spec_bits() + T2::spec_bits() + T3::spec_bits() + T4::spec_bits() + T5::spec_bits()) as int);
        }
        (v0, v1, v2, v3, v4, v5)
    }
}

impl<T0: BitType, T1: BitType, T2: BitType, T3: BitType, T4: BitType, T5: BitType, T6: BitType> BitType for (T0, T1, T2, T3, T4, T5, T6) {
    open spec fn spec_bits() -> nat {
        T0::spec_bits() + T1::spec_bits() + T2::spec_bits() + T3::spec_bits() + T4::spec_bits() + T5::spec_bits() + T6::spec_bits()
    }

    open spec fn spec_decode(bits: Seq<bool>) -> Self {
        (
            T0::spec_decode(bits.subrange(0, T0::spec_bits() as int)),
            T1::spec_decode(bits.subrange(T0::spec_bits() as int, (T0::spec_bits() + T1::spec_bits()) as int)),
            T2::spec_decode(bits.subrange((T0::spec_bits() + T1::spec_bits()) as int, (T0::spec_bits() + T1::spec_bits() + T2::spec_bits()) as int)),
            T3::spec_decode(bits.subrange((T0::spec_bits() + T1::spec_bits() + T2::spec_bits()) as int, (T0::spec_bits() + T1::spec_bits() + T2::spec_bits() + T3::spec_bits()) as int)),
            T4::spec_decode(bits.subrange((T0::spec_bits() + T1::spec_bits() + T2::spec_bits() + T3::spec_bits()) as int, (T0::spec_bits() + T1::spec_bits() + T2::spec_bits() + T3::spec_bits() + T4::spec_bits()) as int)),
            T5::spec_decode(bits.subrange((T0::spec_bits() + T1::spec_bits() + T2::spec_bits() + T3::spec_bits() + T4::spec_bits()) as int, (T0::spec_bits() + T1::spec_bits() + T2::spec_bits() + T3::spec_bits() + T4::spec_bits() + T5::spec_bits()) as int)),
            T6::spec_decode(bits.subrange((T0::spec_bits() + T1::spec_bits() + T2::spec_bits() + T3::spec_bits() + T4::spec_bits() + T5::spec_bits()) as int, (T0::spec_bits() + T1::spec_bits() + T2::spec_bits() + T3::spec_bits() + T4::spec_bits() + T5::spec_bits() + T6::spec_bits()) as int)),
        )
    }

    open spec fn spec_valid(&self) -> bool {
        self.0.spec_valid() && self.1.spec_valid() && self.2.spec_valid() && self.3.spec_valid() && self.4.spec_valid() && self.5.spec_valid() && self.6.spec_valid()
    }

    fn bits() -> (r: usize) {
        T0::bits() + T1::bits() + T2::bits() + T3::bits() + T4::bits() + T5::bits() + T6::bits()
    }

    fn from_aligned(aligned: &Self, slice: &mut [u8], offset: usize) {
        let ghost s0 = slice@;
        let mut at = offset;
        T0::from_aligned(&aligned.0, slice, at);
        let ghost s1 = slice@;
        at = at + T0::bits();
        T1::from_aligned(&aligned.1, slice, at);
        let ghost s2 = slice@;
        at = at + T1::bits();
        T2::from_aligned(&aligned.2, slice, at);
        let ghost s3 = slice@;
        at = at + T2::bits();
        T3::from_aligned(&aligned.3, slice, at);
        let ghost s4 = slice@;
        at = at + T3::bits();
        T4::from_aligned(&aligned.4, slice, at);
        let ghost s5 = slice@;
        at = at + T4::bits();
        T5::from_aligned(&aligned.5, slice, at);
        let ghost s6 = slice@;
        at = at + T5::bits();
        T6::from_aligned(&aligned.6, slice, at);
        let ghost s7 = slice@;
        proof {
            let total = (T0::spec_bits() + T1::spec_bits() + T2::spec_bits() + T3::spec_bits() + T4::spec_bits() + T5::spec_bits() + T6::spec_bits()) as int;
            let o0 = offset as int;
            let o1 = offset + T0::spec_bits() as int;
            let o2 = offset + (T0::spec_bits() + T1::spec_bits()) as int;
            let o3 = offset + (T0::spec_bits() + T1::spec_bits() + T2::spec_bits()) as int;
            let o4 = offset + (T0::spec_bits() + T1::spec_bits() + T2::spec_bits() + T3::spec_bits()) as int;
            let o5 = offset + (T0::spec_bits() + T1::spec_bits() + T2::spec_bits() + T3::spec_bits() + T4::spec_bits()) as int;
            let o6 = offset + (T0::spec_bits() + T1::spec_bits() + T2::spec_bits() + T3::spec_bits() + T4::spec_bits() + T5::spec_bits()) as int;
            lemma_window_kept(s1, s2, o1, T1::spec_bits() as int, o0, T0::spec_bits() as int);
            lemma_window_kept(s2, s3, o2, T2::spec_bits() as int, o0, T0::spec_bits() as int);
            lemma_window_kept(s3, s4, o3, T3::spec_bits() as int, o0, T0::spec_bits() as int);
            lemma_window_kept(s4, s5, o4, T4::spec_bits() as int, o0, T0::spec_bits() as int);
            lemma_window_kept(s5, s6, o5, T5::spec_bits() as int, o0, T0::spec_bits() as int);
            lemma_window_kept(s6, s7, o6, T6::spec_bits() as int, o0, T0::spec_bits() as int);
            lemma_window_split(s7, offset as int, total, 0, T0::spec_bits() as int);
            lemma_same_outside_widen(s0, s1, o0, T0::spec_bits() as int, offset as int, total);
            lemma_window_kept(s2, s3, o2, T2::spec_bits() as int, o1, T1::spec_bits() as int);
            lemma_window_kept(s3, s4, o3, T3::spec_bits() as int, o1, T1::spec_bits() as int);
            lemma_window_kept(s4, s5, o4, T4::spec_bits() as int, o1, T1::spec_bits() as int);
            lemma_window_kept(s5, s6, o5, T5::spec_bits() as int, o1, T1::spec_bits() as int);
            lemma_window_kept(s6, s7, o6, T6::spec_bits() as int, o1, T1::spec_bits() as int);
            lemma_window_split(s7, offset as int, total, T0::spec_bits() as int, (T0::spec_bits() + T1::spec_bits()) as int);
            lemma_same_outside_widen(s1, s2, o1, T1::spec_bits() as int, offset as int, total);
            lemma_same_outside_trans(s0, s1, s2, offset as int, total);
            lemma_window_kept(s3, s4, o3, T3::spec_bits() as int, o2, T2::spec_bits() as int);
            lemma_window_kept(s4, s5, o4, T4::spec_bits() as int, o2, T2::spec_bits() as int);
            lemma_window_kept(s5, s6, o5, T5::spec_bits() as int, o2, T2::spec_bits() as int);
            lemma_window_kept(s6, s7, o6, T6::spec_bits() as int, o2, T2::spec_bits() as int);
            lemma_window_split(s7, offset as int, total, (T0::spec_bits() + T1::spec_bits()) as int, (T0::spec_bits() + T1::spec_bits() + T2::spec_bits()) as int);
            lemma_same_outside_widen(s2, s3, o2, T2::spec_bits() as int, offset as int, total);
            lemma_same_outside_trans(s0, s2, s3, offset as int, total);
            lemma_window_kept(s4, s5, o4, T4::spec_bits() as int, o3, T3::spec_bits() as int);
            lemma_window_kept(s5, s6, o5, T5::spec_bits() as int, o3, T3::spec_bits() as int);
            lemma_window_kept(s6, s7, o6, T6::spec_bits() as int, o3, T3::spec_bits() as int);
            lemma_window_split(s7, offset as int, total, (T0::spec_bits() + T1::spec_bits() + T2::spec_bits()) as int, (T0::spec_bits() + T1::spec_bits() + T2::spec_bits() + T3::spec_bits()) as int);
            lemma_same_outside_widen(s3, s4, o3, T3::spec_bits() as int, offset as int, total);
            lemma_same_outside_trans(s0, s3, s4, offset as int, total);
            lemma_window_kept(s5, s6, o5, T5::spec_bits() as int, o4, T4::spec_bits() as int);
            lemma_window_kept(s6, s7, o6, T6::spec_bits() as int, o4, T4::spec_bits() as int);
            lemma_window_split(s7, offset as int, total, (T0::spec_bits() + T1::spec_bits() + T2::spec_bits() + T3::spec_bits()) as int, (T0::spec_bits() + T1::spec_bits() + T2::spec_bits() + T3::spec_bits() + T4::spec_bits()) as int);
            lemma_same_outside_widen(s4, s5, o4, T4::spec_bits() as int, offset as int, total);
            lemma_same_outside_trans(s0, s4, s5, offset as int, total);
            lemma_window_kept(s6, s7, o6, T6::spec_bits() as int, o5, T5::spec_bits() as int);
            lemma_window_split(s7, offset as int, total, (T0::spec_bits() + T1::spec_bits() + T2::spec_bits() + T3::spec_bits() + T4::spec_bits()) as int, (T0::spec_bits() + T1::spec_bits() + T2::spec_bits() + T3::spec_bits() + T4::spec_bits() + T5::spec_bits()) as int);
            lemma_same_outside_widen(s5, s6, o5, T5::spec_bits() as int, offset as int, total);
            lemma_same_outside_trans(s0, s5, s6, offset as int, total);
            lemma_window_split(s7, offset as int, total, (T0::spec_bits() + T1::spec_bits() + T2::spec_bits() + T3::spec_bits() + T4::spec_bits() + T5::spec_bits()) as int, (T0::spec_bits() + T1::spec_bits() + T2::spec_bits() + T3::spec_bits() + T4::spec_bits() + T5::spec_bits() + T6::spec_bits()) as int);
            lemma_same_outside_widen(s6, s7, o6, T6::spec_bits() as int, offset as int, total);
            lemma_same_outside_trans(s0, s6, s7, offset as int, total);
        }
    }

    fn to_aligned(slice: &[u8], offset: usize) -> (r: Self) {
        let mut at = offset;
        let v0 = T0::to_aligned(slice, at);
        at = at + T0::bits();
        let v1 = T1::to_aligned(slice, at);
        at = at + T1::bits();
        let v2 = T2::to_aligned(slice, at);
        at = at + T2::bits();
        let v3 = T3::to_aligned(slice, at);
        at = at + T3::bits();
        let v4 = T4::to_aligned(slice, at);
        at = at + T4::bits();
        let v5 = T5::to_aligned(slice, at);
        at = at + T5::bits();
        let v6 = T6::to_aligned(slice, at);
        proof {
            let total = (T0::spec_bits() + T1::spec_bits() + T2::spec_bits() + T3::spec_bits() + T4::spec_bits() + T5::spec_bits() + T6::spec_bits()) as int;
            lemma_window_split(slice@, offset as int, total, 0, T0::spec_bits() as int);
            lemma_window_split(slice@, offset as int, total, T0::spec_bits() as int, (T0::spec_bits() + T1::spec_bits()) as int);
            lemma_window_split(slice@, offset as int, total, (T0::spec_bits() + T1::spec_bits()) as int, (T0::spec_bits() + T1::spec_bits() + T2::spec_bits()) as int);
            lemma_window_split(slice@, offset as int, total, (T0::spec_bits() + T1::spec_bits() + T2::spec_bits()) as int, (T0::spec_bits() + T1::spec_bits() + T2::spec_bits() + T3::spec_bits()) as int);
            lemma_window_split(slice@, offset as int, total, (T0::spec_bits() + T1::spec_bits() + T2::spec_bits() + T3::spec_bits()) as int, (T0::spec_bits() + T1::spec_bits() + T2::spec_bits() + T3::spec_bits() + T4::spec_bits()) as int);
            lemma_window_split(slice@, offset as int, total, (T0::spec_bits() + T1::spec_bits() + T2::spec_bits() + T3::spec_bits() + T4::spec_bits()) as int, (T0::spec_bits() + T1::spec_bits() + T2::spec_bits() + T3::spec_bits() + T4::spec_bits() + T5::spec_bits()) as int);
            lemma_window_split(slice@, offset as int, total, (T0::spec_bits() + T1::spec_bits() + T2::spec_bits() + T3::spec_bits() + T4::spec_bits() + T5::spec_bits()) as int, (T0::spec_bits() + T1::spec_bits() + T2::spec_bits() + T3::spec_bits() + T4::spec_bits() + T5::spec_bits() + T6::spec_bits()) as int);
        }
        (v0, v1, v2, v3, v4, v5, v6)
    }
}

impl<T0: BitType, T1: BitType, T2: BitType, T3: BitType, T4: BitType, T5: BitType, T6: BitType, T7: BitType> BitType for (T0, T1, T2, T3, T4, T5, T6, T7) {
    open spec fn spec_bits() -> nat {
        T0::spec_bits() + T1::spec_bits() + T2::spec_bits() + T3::spec_bits() + T4::spec_bits() + T5::spec_bits() + T6::spec_bits() + T7::spec_bits()
    }

    open spec fn spec_decode(bits: Seq<bool>) -> Self {
        (
            T0::spec_decode(bits.subrange(0, T0::spec_bits() as int)),
            T1::spec_decode(bits.subrange(T0::spec_bits() as int, (T0::spec_bits() + T1::spec_bits()) as int)),
            T2::spec_decode(bits.subrange((T0::spec_bits() + T1::spec_bits()) as int, (T0::spec_bits() + T1::spec_bits() + T2::spec_bits()) as int)),
            T3::spec_decode(bits.subrange((T0::spec_bits() + T1::spec_bits() + T2::spec_bits()) as int, (T0::spec_bits() + T1::spec_bits() + T2::spec_bits() + T3::spec_bits()) as int)),
            T4::spec_decode(bits.subrange((T0::spec_bits() + T1::spec_bits() + T2::spec_bits() + T3::spec_bits()) as int, (T0::spec_bits() + T1::spec_bits() + T2::spec_bits() + T3::spec_bits() + T4::spec_bits()) as int)),
            T5::spec_decode(bits.subrange((T0::spec_bits() + T1::spec_bits() + T2::spec_bits() + T3::spec_bits() + T4::spec_bits()) as int, (T0::spec_bits() + T1::spec_bits() + T2::spec_bits() + T3::spec_bits() + T4::spec_bits() + T5::spec_bits()) as int)),
            T6::spec_decode(bits.subrange((T0::spec_bits() + T1::spec_bits() + T2::spec_bits() + T3::spec_bits() + T4::spec_bits() + T5::spec_bits()) as int, (T0::spec_bits() + T1::spec_bits() + T2::spec_bits() + T3::spec_bits() + T4::spec_bits() + T5::spec_bits() + T6::spec_bits()) as int)),
            T7::spec_decode(bits.subrange((T0::spec_bits() + T1::spec_bits() + T2::spec_bits() + T3::spec_bits() + T4::spec_bits() + T5::spec_bits() + T6::spec_bits()) as int, (T0::spec_bits() + T1::spec_bits() + T2::spec_bits() + T3::spec_bits() + T4::spec_bits() + T5::spec_bits() + T6::spec_bits() + T7::spec_bits()) as int)),
        )
    }

    open spec fn spec_valid(&self) -> bool {
        self.0.spec_valid() && self.1.spec_valid() && self.2.spec_valid() && self.3.spec_valid() && self.4.spec_valid() && self.5.spec_valid() && self.6.spec_valid() && self.7.spec_valid()
    }

    fn bits() -> (r: usize) {
        T0::bits() + T1::bits() + T2::bits() + T3::bits() + T4::bits() + T5::bits() + T6::bits() + T7::bits()
    }

    fn from_aligned(aligned: &Self, slice: &mut [u8], offset: usize) {
        let ghost s0 = slice@;
        let mut at = offset;
        T0::from_aligned(&aligned.0, slice, at);
        let ghost s1 = slice@;
        at = at + T0::bits();
        T1::from_aligned(&aligned.1, slice, at);
        let ghost s2 = slice@;
        at = at + T1::bits();
        T2::from_aligned(&aligned.2, slice, at);
        let ghost s3 = slice@;
        at = at + T2::bits();
        T3::from_aligned(&aligned.3, slice, at);
        let ghost s4 = slice@;
        at = at + T3::bits();
        T4::from_aligned(&aligned.4, slice, at);
        let ghost s5 = slice@;
        at = at + T4::bits();
        T5::from_aligned(&aligned.5, slice, at);
        let ghost s6 = slice@;
        at = at + T5::bits();
        T6::from_aligned(&aligned.6, slice, at);
        let ghost s7 = slice@;
        at = at + T6::bits();
        T7::from_aligned(&aligned.7, slice, at);
        let ghost s8 = slice@;
        proof {
            let total = (T0::spec_bits() + T1::spec_bits() + T2::spec_bits() + T3::spec_bits() + T4::spec_bits() + T5::spec_bits() + T6::spec_bits() + T7::spec_bits()) as int;
            let o0 = offset as int;
            let o1 = offset + T0::spec_bits() as int;
            let o2 = offset + (T0::spec_bits() + T1::spec_bits()) as int;
            let o3 = offset + (T0::spec_bits() + T1::spec_bits() + T2::spec_bits()) as int;
            let o4 = offset + (T0::spec_bits() + T1::spec_bits() + T2::spec_bits() + T3::spec_bits()) as int;
            let o5 = offset + (T0::spec_bits() + T1::spec_bits() + T2::spec_bits() + T3::spec_bits() + T4::spec_bits()) as int;
            let o6 = offset + (T0::spec_bits() + T1::spec_bits() + T2::spec_bits() + T3::spec_bits() + T4::spec_bits() + T5::spec_bits()) as int;
            let o7 = offset + (T0::spec_bits() + T1::spec_bits() + T2::spec_bits() + T3::spec_bits() + T4::spec_bits() + T5::spec_bits() + T6::spec_bits()) as int;
            lemma_window_kept(s1, s2, o1, T1::spec_bits() as int, o0, T0::spec_bits() as int);
            lemma_window_kept(s2, s3, o2, T2::spec_bits() as int, o0, T0::spec_bits() as int);
            lemma_window_kept(s3, s4, o3, T3::spec_bits() as int, o0, T0::spec_bits() as int);
            lemma_window_kept(s4, s5, o4, T4::spec_bits() as int, o0, T0::spec_bits() as int);
            lemma_window_kept(s5, s6, o5, T5::spec_bits() as int, o0, T0::spec_bits() as int);
            lemma_window_kept(s6, s7, o6, T6::spec_bits() as int, o0, T0::spec_bits() as int);
            lemma_window_kept(s7, s8, o7, T7::spec_bits() as int, o0, T0::spec_bits() as int);
            lemma_window_split(s8, offset as int, total, 0, T0::spec_bits() as int);
            lemma_same_outside_widen(s0, s1, o0, T0::spec_bits() as int, offset as int, total);
            lemma_window_kept(s2, s3, o2, T2::spec_bits() as int, o1, T1::spec_bits() as int);
            lemma_window_kept(s3, s4, o3, T3::spec_bits() as int, o1, T1::spec_bits() as int);
            lemma_window_kept(s4, s5, o4, T4::spec_bits() as int, o1, T1::spec_bits() as int);
            lemma_window_kept(s5, s6, o5, T5::spec_bits() as int, o1, T1::spec_bits() as int);
            lemma_window_kept(s6, s7, o6, T6::spec_bits() as int, o1, T1::spec_bits() as int);
            lemma_window_kept(s7, s8, o7, T7::spec_bits() as int, o1, T1::spec_bits() as int);
            lemma_window_split(s8, offset as int, total, T0::spec_bits() as int, (T0::spec_bits() + T1::spec_bits()) as int);
            lemma_same_outside_widen(s1, s2, o1, T1::spec_bits() as int, offset as int, total);
            lemma_same_outside_trans(s0, s1, s2, offset as int, total);
            lemma_window_kept(s3, s4, o3, T3::spec_bits() as int, o2, T2::spec_bits() as int);
            lemma_window_kept(s4, s5, o4, T4::spec_bits() as int, o2, T2::spec_bits() as int);
            lemma_window_kept(s5, s6, o5, T5::spec_bits() as int, o2, T2::spec_bits() as int);
            lemma_window_kept(s6, s7, o6, T6::spec_bits() as int, o2, T2::spec_bits() as int);
            lemma_window_kept(s7, s8, o7, T7::spec_bits() as int, o2, T2::spec_bits() as int);
            lemma_window_split(s8, offset as int, total, (T0::spec_bits() + T1::spec_bits()) as int, (T0::spec_bits() + T1::spec_bits() + T2::spec_bits()) as int);
            lemma_same_outside_widen(s2, s3, o2, T2::spec_bits() as int, offset as int, total);
            lemma_same_outside_trans(s0, s2, s3, offset as int, total);
            lemma_window_kept(s4, s5, o4, T4::spec_bits() as int, o3, T3::spec_bits() as int);
            lemma_window_kept(s5, s6, o5, T5::spec_bits() as int, o3, T3::spec_bits() as int);
            lemma_window_kept(s6, s7, o6, T6::spec_bits() as int, o3, T3::spec_bits() as int);
            lemma_window_kept(s7, s8, o7, T7::spec_bits() as int, o3, T3::spec_bits() as int);
            lemma_window_split(s8, offset as int, total, (T0::spec_bits() + T1::spec_bits() + T2::spec_bits()) as int, (T0::spec_bits() + T1::spec_bits() + T2::spec_bits() + T3::spec_bits()) as int);
            lemma_same_outside_widen(s3, s4, o3, T3::spec_bits() as int, offset as int, total);
            lemma_same_outside_trans(s0, s3, s4, offset as int, total);
            lemma_window_kept(s5, s6, o5, T5::spec_bits() as int, o4, T4::spec_bits() as int);
            lemma_window_kept(s6, s7, o6, T6::spec_bits() as int, o4, T4::spec_bits() as int);
            lemma_window_kept(s7, s8, o7, T7::spec_bits() as int, o4, T4::spec_bits() as int);
            lemma_window_split(s8, offset as int, total, (T0::spec_bits() + T1::spec_bits() + T2::spec_bits() + T3::spec_bits()) as int, (T0::spec_bits() + T1::spec_bits() + T2::spec_bits() + T3::spec_bits() + T4::spec_bits()) as int);
            lemma_same_outside_widen(s4, s5, o4, T4::spec_bits() as int, offset as int, total);
            lemma_same_outside_trans(s0, s4, s5, offset as int, total);
            lemma_window_kept(s6, s7, o6, T6::spec_bits() as int, o5, T5::spec_bits() as int);
            lemma_window_kept(s7, s8, o7, T7::spec_bits() as int, o5, T5::spec_bits() as int);
            lemma_window_split(s8, offset as int, total, (T0::spec_bits() + T1::spec_bits() + T2::spec_bits() + T3::spec_bits() + T4::spec_bits()) as int, (T0::spec_bits() + T1::spec_bits() + T2::spec_bits() + T3::spec_bits() + T4::spec_bits() + T5::spec_bits()) as int);
            lemma_same_outside_widen(s5, s6, o5, T5::spec_bits() as int, offset as int, total);
            lemma_same_outside_trans(s0, s5, s6, offset as int, total);
            lemma_window_kept(s7, s8, o7, T7::spec_bits() as int, o6, T6::spec_bits() as int);
            lemma_window_split(s8, offset as int, total, (T0::spec_bits() + T1::spec_bits() + T2::spec_bits() + T3::spec_bits() + T4::spec_bits() + T5::spec_bits()) as int, (T0::spec_bits() + T1::spec_bits() + T2::spec_bits() + T3::spec_bits() + T4::spec_bits() + T5::spec_bits() + T6::spec_bits()) as int);
            lemma_same_outside_widen(s6, s7, o6, T6::spec_bits() as int, offset as int, total);
            lemma_same_outside_trans(s0, s6, s7, offset as int, total);
            lemma_window_split(s8, offset as int, total, (T0::spec_bits() + T1::spec_bits() + T2::spec_bits() + T3::spec_bits() + T4::spec_bits() + T5::spec_bits() + T6::spec_bits()) as int, (T0::spec_bits() + T1::spec_bits() + T2::spec_bits() + T3::spec_bits() + T4::spec_bits() + T5::spec_bits() + T6::spec_bits() + T7::spec_bits()) as int);
            lemma_same_outside_widen(s7, s8, o7, T7::spec_bits() as int, offset as int, total);
            lemma_same_outside_trans(s0, s7, s8, offset as int, total);
        }
    }

    fn to_aligned(slice: &[u8], offset: usize) -> (r: Self) {
        let mut at = offset;
        let v0 = T0::to_aligned(slice, at);
        at = at + T0::bits();
        let v1 = T1::to_aligned(slice, at);
        at = at + T1::bits();
        let v2 = T2::to_aligned(slice, at);
        at = at + T2::bits();
        let v3 = T3::to_aligned(slice, at);
        at = at + T3::bits();
        let v4 = T4::to_aligned(slice, at);
        at = at + T4::bits();
        let v5 = T5::to_aligned(slice, at);
        at = at + T5::bits();
        let v6 = T6::to_aligned(slice, at);
        at = at + T6::bits();
        let v7 = T7::to_aligned(slice, at);
        proof {
            let total = (T0::spec_bits() + T1::spec_bits() + T2::spec_bits() + T3::spec_bits() + T4::spec_bits() + T5::spec_bits() + T6::spec_bits() + T7::spec_bits()) as int;
            lemma_window_split(slice@, offset as int, total, 0, T0::spec_bits() as int);
            lemma_window_split(slice@, offset as int, total, T0::spec_bits() as int, (T0::spec_bits() + T1::spec_bits()) as int);
            lemma_window_split(slice@, offset as int, total, (T0::spec_bits() + T1::spec_bits()) as int, (T0::spec_bits() + T1::spec_bits() + T2::spec_bits()) as int);
            lemma_window_split(slice@, offset as int, total, (T0::spec_bits() + T1::spec_bits() + T2::spec_bits()) as int, (T0::spec_bits() + T1::spec_bits() + T2::spec_bits() + T3::spec_bits()) as int);
            lemma_window_split(slice@, offset as int, total, (T0::spec_bits() + T1::spec_bits() + T2::spec_bits() + T3::spec_bits()) as int, (T0::spec_bits() + T1::spec_bits() + T2::spec_bits() + T3::spec_bits() + T4::spec_bits()) as int);
            lemma_window_split(slice@, offset as int, total, (T0::spec_bits() + T1::spec_bits() + T2::spec_bits() + T3::spec_bits() + T4::spec_bits()) as int, (T0::spec_bits() + T1::spec_bits() + T2::spec_bits() + T3::spec_bits() + T4::spec_bits() + T5::spec_bits()) as int);
            lemma_window_split(slice@, offset as int, total, (T0::spec_bits() + T1::spec_bits() + T2::spec_bits() + T3::spec_bits() + T4::spec_bits() + T5::spec_bits()) as int, (T0::spec_bits() + T1::spec_bits() + T2::spec_bits() + T3::spec_bits() + T4::spec_bits() + T5::spec_bits() + T6::spec_bits()) as int);
            lemma_window_split(slice@, offset as int, total, (T0::spec_bits() + T1::spec_bits() + T2::spec_bits() + T3::spec_bits() + T4::spec_bits() + T5::spec_bits() + T6::spec_bits()) as int, (T0::spec_bits() + T1::spec_bits() + T2::spec_bits() + T3::spec_bits() + T4::spec_bits() + T5::spec_bits() + T6::spec_bits() + T7::spec_bits()) as int);
        }
        (v0, v1, v2, v3, v4, v5, v6, v7)
    }
}

} // verus!
