//! The errors that memory operations raise.

use vstd::prelude::*;

verus! {

/// Why a memory operation was refused.
#[derive(Copy, Clone, Debug, PartialEq, Eq, Structural)]
pub enum EvalError {
    /// The pointer names an allocation that is not in the table.
    DanglingPointerDeref,
    /// The accessed byte range reaches past the end of the allocation.
    PointerOutOfBounds,
    /// The accessed bytes belong to a stored pointer, or the range cuts one in two.
    ReadPointerAsBytes,
    /// A pointer was read where no pointer was ever stored.
    ReadBytesAsPointer,
    /// A boolean was read from a byte that is neither 0 nor 1.
    InvalidBool,
}

/// The result of a memory operation.
pub type EvalResult<T> = Result<T, EvalError>;

} // verus!
