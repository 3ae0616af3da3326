//! A mergeable priority queue implemented as a pairing heap: a multiway
//! heap-ordered tree encoded in left-child/next-sibling form, supporting
//! constant-time insertion and merge and amortized sub-logarithmic removal
//! of the extremal element.

pub mod heap;
pub mod laws;

pub use heap::Node;
pub use heap::PairingHeap;
