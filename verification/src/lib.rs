//! A binary heap over any totally ordered element type, in minimum or maximum mode.

pub mod heap;
pub mod laws;
pub mod model;
pub mod order;
pub mod shape;
pub mod sift;

pub use heap::Heap;
pub use order::HeapOrder;
