use vstd::prelude::*;

verus! {

/// Marker carrying a boolean as a type, used for type-level conditions.
pub struct If<const B: bool>;

/// Implemented by type-level conditions that hold.
pub trait True {}

impl True for If<true> {}

/// Implemented by type-level conditions that do not hold.
pub trait False {}

impl False for If<false> {}

/// Type-level disjunction of two `If` conditions.
pub struct Or<A, B> {
    _marker: core::marker::PhantomData<(A, B)>,
}

impl True for Or<If<true>, If<false>> {}

impl True for Or<If<false>, If<true>> {}

impl True for Or<If<true>, If<true>> {}

impl False for Or<If<false>, If<false>> {}

/// A pair of constants, compared for equality by `InferEq`.
pub struct CTuple<const A: usize, const B: usize>;

/// The inclusive range condition `A <= N <= B`.
pub struct InRange<const N: usize, const A: usize, const B: usize>;

impl<const N: usize, const A: usize, const B: usize> InRange<N, A, B> {
    /// Whether `N` lies in `[A, B]`.
    pub open spec fn spec_holds() -> bool {
        A <= N && N <= B
    }

    /// Tests at run time whether `N` lies in `[A, B]`.
    pub fn holds() -> (r: bool)
        ensures
            r == Self::spec_holds(),
    {
        A <= N && N <= B
    }
}

/// Implemented by pairs whose two components are the same.
pub trait InferEq {}

impl<const N: usize> InferEq for CTuple<N, N> {}

impl<T> InferEq for (T, T) {}

impl<T> InferEq for (T, T, T) {}

/// The number of bytes needed to hold `n` bits.
pub open spec fn spec_bits_to_bytes(n: nat) -> nat {
    (n + 7) / 8
}

/// Rounds a bit count up to whole bytes.
pub fn bits_to_bytes(n: usize) -> (r: usize)
    requires
        n + 7 <= usize::MAX,
    ensures
        r == spec_bits_to_bytes(n as nat),
        8 * r >= n,
        8 * r < n + 8,
{
    (n + 7) / 8
}

} // verus!
