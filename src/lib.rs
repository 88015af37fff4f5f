//! A binary heap of `i32` with a fixed capacity, ordered as a min-heap or
//! as a max-heap, whose operations report a full or an empty heap as errors.

use vstd::prelude::*;

pub mod heap;
pub mod laws;
pub mod order;

pub use heap::Heap;
pub use order::HeapProperty;

verus! {

} // verus!
