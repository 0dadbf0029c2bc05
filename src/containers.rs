//! Owners of packed bytes: one value, or a growable run of values.
pub mod bit;
pub mod bit_vec;

pub use self::bit::{Bit, BitContainer};
pub use self::bit_vec::BitVec;
