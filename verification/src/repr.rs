//! Shape descriptors: how large a value is in memory.

use vstd::prelude::*;

verus! {

/// Where a field lies inside an aggregate.
#[derive(Copy, Clone, Debug, PartialEq, Eq, Structural)]
pub struct FieldRepr {
    pub offset: usize,
    pub size: usize,
}

/// The shape of a value in memory.
#[derive(Clone, Debug, PartialEq, Eq)]
pub enum Repr {
    /// A non-aggregate value such as a boolean, integer, character or pointer.
    Primitive { size: usize },
    /// A struct, enum or tuple.
    Aggregate {
        /// The size of the discriminant; 0 for structs and tuples.
        discr_size: usize,
        /// The size of the whole aggregate, discriminant included.
        size: usize,
        /// The fields of each variant.
        variants: Vec<Vec<FieldRepr>>,
    },
    /// `length` elements of `elem_size` bytes each.
    Array { elem_size: usize, length: usize },
}

impl Repr {
    /// The number of bytes the shape takes, as a mathematical integer.
    pub open spec fn spec_size(&self) -> int {
        match *self {
            Repr::Primitive { size } => size as int,
            Repr::Aggregate { size, .. } => size as int,
            Repr::Array { elem_size, length } => elem_size * length,
        }
    }

    /// The number of bytes the shape takes. An array's size must fit in `usize`.
    pub fn size(&self) -> (r: usize)
        requires
            self.spec_size() <= usize::MAX,
        ensures
            r == self.spec_size(),
    {
        match self {
            Repr::Primitive { size } => *size,
            Repr::Aggregate { size, .. } => *size,
            Repr::Array { elem_size, length } => *elem_size * *length,
        }
    }
}

} // verus!
