//! Bit-level packing of fixed-width values into byte buffers, with typed
//! cursors that read and write single fields in place.
//!
//! A value of a type implementing [`BitType`] is packed into a [`Bit`] (one
//! value) or a [`BitVec`] (many), with no padding between fields. Cursors
//! ([`Access`], [`AccessMaybe`]) step into tuple fields, array elements and
//! union variants, and read, write or map the field they reach; a cursor on
//! a union payload only reads or writes while the union's discriminant
//! selects that payload. Tagged unions ([`Union2`] to [`Union8`], and
//! `Option`) pack a discriminant followed by the payloads laid over one
//! another.
pub mod bit_num;
pub mod bit_ops;
pub mod bit_type;
pub mod bit_wrapper;
pub mod containers;
pub mod laws;
pub mod magic;
pub mod unions;

pub use crate::bit_num::{closest_pow_2, ibits, log2, max_with_bits, ubits, Bytes, Type, Underlying, I, U};
pub use crate::bit_type::BitType;
pub use crate::bit_wrapper::access::{Access, AccessDyn, BitIter, ByteRef};
pub use crate::bit_wrapper::accessors::{
    discriminant_bits, DynAccess, MaybeAccess, TupleAccess, NONE_TAG, SOME_TAG,
};
pub use crate::bit_wrapper::get_byte_range;
pub use crate::bit_wrapper::maybe::{AccessMaybe, AccessMaybeDyn};
pub use crate::bit_wrapper::predicate::{BitCheck, BitCheckDyn, BitPredicate, PredicateAnd};
pub use crate::containers::{Bit, BitContainer, BitVec};
pub use crate::magic::{bits_to_bytes, CTuple, False, If, InRange, InferEq, Or, True};
pub use crate::unions::{Union2, Union3, Union4, Union5, Union6, Union7, Union8};
