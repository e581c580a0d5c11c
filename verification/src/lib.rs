//! A simulated, byte-addressable heap for an abstract-machine interpreter.
//!
//! Memory is a table of allocations. Each allocation is a byte buffer with a
//! side table of relocations, which record where pointers are stored. Every
//! load and store is checked: for bounds, against reading pointer bytes as
//! plain data, and against reading plain data as a pointer.

pub mod allocation;
pub mod codec;
pub mod error;
pub mod laws;
pub mod memory;
pub mod pointer;
pub mod primval;
pub mod repr;

pub use allocation::{Allocation, AllocationView};
pub use codec::Endianness;
pub use error::{EvalError, EvalResult};
pub use memory::{Memory, MemoryView};
pub use pointer::{AllocId, Pointer};
pub use primval::PrimVal;
pub use repr::{FieldRepr, Repr};
