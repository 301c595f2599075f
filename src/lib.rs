//! A simulated word-addressable heap with a tracing, copying garbage collector.
pub mod copying;
pub mod error;
pub mod heap;
pub mod laws;
pub mod pointer;
pub mod view;

pub use copying::CopyingHeap;
pub use error::HeapError;
pub use heap::{GarbageCollectingHeap, Tracer};
pub use pointer::{Pointer, PointerIter};
