//! Sets of non-negative indices, possibly infinite, as used to describe
//! processor and memory-node sets of a hardware topology.
//!
//! The [`bitmap::Bitmap`] type is modelled by a `Set<nat>`: every operation
//! states what it does to that set.

pub mod index;
pub mod range;
pub mod bitmap;
pub mod iter;
pub mod laws;
pub mod text;
pub mod specialized;
pub mod export;
