//! Primitive values, as far as memory needs them: as what a write stores.

use crate::codec::{encode_int, encode_uint, Endianness};
use crate::pointer::Pointer;
use vstd::prelude::*;

verus! {

/// A tagged primitive value.
#[derive(Copy, Clone, Debug, PartialEq, Eq, Structural)]
pub enum PrimVal {
    Bool(bool),
    I8(i8),
    I16(i16),
    I32(i32),
    I64(i64),
    U8(u8),
    U16(u16),
    U32(u32),
    U64(u64),
    /// A pointer that has not been resolved to an address. Memory cannot
    /// store one.
    AbstractPtr(Pointer),
    /// An integer that is used as an address.
    IntegerPtr(u64),
}

/// The byte that stands for a boolean.
pub open spec fn bool_byte(b: bool) -> u8 {
    if b {
        1
    } else {
        0
    }
}

impl PrimVal {
    /// The bytes that a write of the value stores, in the given byte order.
    /// An abstract pointer has none.
    pub open spec fn bytes(self, order: Endianness) -> Seq<u8> {
        match self {
            PrimVal::Bool(b) => seq![bool_byte(b)],
            PrimVal::I8(n) => encode_int(order, n as int, 1),
            PrimVal::I16(n) => encode_int(order, n as int, 2),
            PrimVal::I32(n) => encode_int(order, n as int, 4),
            PrimVal::I64(n) => encode_int(order, n as int, 8),
            PrimVal::U8(n) => encode_uint(order, n as nat, 1),
            PrimVal::U16(n) => encode_uint(order, n as nat, 2),
            PrimVal::U32(n) => encode_uint(order, n as nat, 4),
            PrimVal::U64(n) => encode_uint(order, n as nat, 8),
            PrimVal::IntegerPtr(n) => encode_uint(order, n as nat, 8),
            PrimVal::AbstractPtr(_) => Seq::empty(),
        }
    }
}

} // verus!
