//! What a mutator thread has of the plan: which allocator serves which
//! kind of allocation, and its write barrier.

use crate::plan::barriers::ObjectRememberingBarrier;
use vstd::prelude::*;

verus! {

/// An allocator of a mutator: its kind and its number among those of the
/// kind.
#[derive(Debug, Clone, Copy, PartialEq, Eq, Hash, Structural)]
pub enum AllocatorSelector {
    BumpPointer(u8),
    LargeObject(u8),
}

/// The spaces that the allocators of a mutator can be bound to.
#[derive(Debug, Clone, Copy, PartialEq, Eq, Hash, Structural)]
pub enum SpaceSelector {
    Nursery,
    Immortal,
    Los,
}

/// A bump allocator of a mutator: the part of a space that it allocates
/// from, from `cursor` up to `limit`.
#[derive(Debug, Clone, Copy, PartialEq, Eq, Structural)]
pub struct BumpAllocator {
    pub cursor: usize,
    pub limit: usize,
}

impl BumpAllocator {
    /// An allocator that has no part of a space yet.
    pub fn new() -> (a: Self)
        ensures
            a.cursor == 0,
            a.limit == 0,
    {
        BumpAllocator { cursor: 0, limit: 0 }
    }

    /// Gives up the part of the space that the allocator has.
    pub fn reset(&mut self)
        ensures
            final(self).cursor == 0,
            final(self).limit == 0,
    {
        self.cursor = 0;
        self.limit = 0;
    }
}

/// How the allocators of a mutator are bound.
pub struct MutatorConfig {
    /// The space that each allocator allocates in.
    pub space_mapping: Vec<(AllocatorSelector, SpaceSelector)>,
}

/// What a mutator thread has of the plan.
pub struct Mutator {
    /// The bump allocator of the default allocations.
    pub bump_allocator: BumpAllocator,
    pub barrier: ObjectRememberingBarrier,
    pub mutator_tls: usize,
    pub config: MutatorConfig,
}

} // verus!
