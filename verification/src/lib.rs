//! A scoped bump allocator.
//!
//! A [`MemoryArena`] owns a growing list of fixed-capacity byte blocks. An
//! [`Allocator`] borrows the arena exclusively for the length of one scope and
//! hands out regions of those blocks by advancing a cursor per block. Ending
//! the scope puts every cursor back to zero, so that the next scope is served
//! from the same storage.

pub mod align;
pub mod allocator;
pub mod arena;
pub mod block;
pub mod laws;
pub mod region;

pub use align::align_address;
pub use allocator::Allocator;
pub use arena::MemoryArena;
pub use block::Block;
pub use region::Region;
