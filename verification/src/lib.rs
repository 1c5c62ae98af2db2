//! Variable-length arrays whose storage lives on a foreign heap.
//!
//! A variable-length array is a record of two words, the element count and
//! the address of a buffer that the foreign runtime's allocator handed out.
//! [`VarLenArray`] owns its buffer: it is made by a deep copy, cloned by a
//! deep copy, and gives the buffer back exactly once. [`LeakyVarLenArray`]
//! is the same record without ownership: it is copied bit for bit, may be
//! nested in itself to any depth, and is torn down only by an explicit call.
//!
//! The heap is a value, [`ForeignAllocator`], that every operation which
//! reads, allocates or releases a buffer takes as an argument. Its state,
//! [`HeapState`], lists every block handed out and every release in order,
//! and the contracts of the arrays are stated over it.
pub mod array;
pub mod heap;
pub mod ints;
pub mod laws;
pub mod leaky;
pub mod plain;
pub mod teardown;

pub use array::VarLenArray;
pub use heap::{AllocError, ForeignAllocator, HeapState};
pub use leaky::LeakyVarLenArray;
pub use plain::PlainData;
pub use teardown::ForeignDrop;
