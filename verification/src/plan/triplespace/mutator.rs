//! The mutators of the plan.

use crate::plan::barriers::LogBits;
use crate::plan::barriers::ObjectRememberingBarrier;
use crate::plan::global::AllocationSemantics;
use crate::plan::mutator_context::AllocatorSelector;
use crate::plan::mutator_context::BumpAllocator;
use crate::plan::mutator_context::Mutator;
use crate::plan::mutator_context::MutatorConfig;
use crate::plan::mutator_context::SpaceSelector;
use crate::util::address::ObjectReference;
use crate::util::heap::Heap;
use crate::util::heap::HeapEdge;
use vstd::prelude::*;

verus! {

/// The allocator that serves allocations of each kind: the first bump
/// allocator the default ones, the allocator of large objects those of
/// large objects, and the second bump allocator the others.
pub open spec fn spec_allocator_mapping(semantics: AllocationSemantics) -> AllocatorSelector {
    match semantics {
        AllocationSemantics::Default => AllocatorSelector::BumpPointer(0),
        AllocationSemantics::Los => AllocatorSelector::LargeObject(0),
        _ => AllocatorSelector::BumpPointer(1),
    }
}

/// The allocator that serves allocations with `semantics`.
pub fn allocator_mapping(semantics: AllocationSemantics) -> (selector: AllocatorSelector)
    ensures
        selector == spec_allocator_mapping(semantics),
{
    match semantics {
        AllocationSemantics::Default => AllocatorSelector::BumpPointer(0),
        AllocationSemantics::Los => AllocatorSelector::LargeObject(0),
        _ => AllocatorSelector::BumpPointer(1),
    }
}

/// The spaces that the allocators are bound to: the first bump allocator
/// to the nursery, the second to the immortal space, and the allocator of
/// large objects to their space.
pub open spec fn spec_space_mapping() -> Seq<(AllocatorSelector, SpaceSelector)> {
    seq![
        (AllocatorSelector::BumpPointer(0), SpaceSelector::Nursery),
        (AllocatorSelector::BumpPointer(1), SpaceSelector::Immortal),
        (AllocatorSelector::LargeObject(0), SpaceSelector::Los),
    ]
}

/// Prepares a mutator for a collection. There is nothing to do.
pub fn ts_mutator_prepare(_mutator: &mut Mutator, _tls: usize)
    ensures
        *final(_mutator) == *old(_mutator),
{
    // Do nothing
}

/// Readies a mutator for running on after a collection: its bump
/// allocator gives up the part of the nursery that it had, for the nursery
/// was given back.
pub fn ts_mutator_release(mutator: &mut Mutator, _tls: usize)
    ensures
        final(mutator).bump_allocator.cursor == 0,
        final(mutator).bump_allocator.limit == 0,
        final(mutator).barrier == old(mutator).barrier,
        final(mutator).mutator_tls == old(mutator).mutator_tls,
        final(mutator).config == old(mutator).config,
{
    mutator.bump_allocator.reset();
}

/// The mutator of the thread `mutator_tls`: its allocators are bound to
/// the nursery, the immortal space and the space of large objects, and its
/// barrier is the one that remembers objects.
pub fn create_ts_mutator(mutator_tls: usize) -> (mutator: Mutator)
    ensures
        mutator.mutator_tls == mutator_tls,
        mutator.config.space_mapping@ == spec_space_mapping(),
        mutator.barrier.modbuf() == Seq::<ObjectReference>::empty(),
        mutator.bump_allocator.cursor == 0,
        mutator.bump_allocator.limit == 0,
{
    let mut space_mapping: Vec<(AllocatorSelector, SpaceSelector)> = Vec::new();
    space_mapping.push((AllocatorSelector::BumpPointer(0), SpaceSelector::Nursery));
    space_mapping.push((AllocatorSelector::BumpPointer(1), SpaceSelector::Immortal));
    space_mapping.push((AllocatorSelector::LargeObject(0), SpaceSelector::Los));
    assert(space_mapping@ =~= spec_space_mapping());
    let config = MutatorConfig { space_mapping };
    Mutator {
        bump_allocator: BumpAllocator::new(),
        barrier: ObjectRememberingBarrier::new(),
        mutator_tls,
        config,
    }
}

/// The log bits after `object` was allocated with `semantics`: the bit of
/// an object outside the nursery is set.
pub open spec fn spec_unlogged_after_allocation(
    unlogged: Set<ObjectReference>,
    object: ObjectReference,
    semantics: AllocationSemantics,
) -> Set<ObjectReference> {
    match semantics {
        AllocationSemantics::Default => unlogged,
        _ => unlogged.insert(object),
    }
}

/// Finishes the allocation of `object`: an object outside the nursery
/// counts as not written to, so that the barrier remembers it at the first
/// write to it.
pub fn post_alloc(log_bits: &mut LogBits, object: ObjectReference, semantics: AllocationSemantics)
    ensures
        final(log_bits).unlogged() == spec_unlogged_after_allocation(
            old(log_bits).unlogged(),
            object,
            semantics,
        ),
{
    match semantics {
        AllocationSemantics::Default => {},
        _ => {
            log_bits.mark_as_unlogged(object);
        },
    }
}

/// Stores `value` into the field `k` of `src` for the mutator, and runs its
/// write barrier: at the first write to `src` since its log bit was set,
/// `src` is remembered.
pub fn write_field(
    heap: &mut Heap,
    mutator: &mut Mutator,
    log_bits: &mut LogBits,
    src: ObjectReference,
    k: usize,
    value: ObjectReference,
)
    requires
        old(heap).valid_edge(HeapEdge::Field(src, k)),
    ensures
        final(heap).roots() == old(heap).roots(),
        final(heap).objects() == old(heap).objects().insert(
            src,
            old(heap).objects()[src].update(k as int, value),
        ),
        final(log_bits).unlogged() == old(log_bits).unlogged().remove(src),
        final(mutator).barrier.modbuf() == (if old(log_bits).unlogged().contains(src) {
            old(mutator).barrier.modbuf().push(src)
        } else {
            old(mutator).barrier.modbuf()
        }),
        final(mutator).bump_allocator == old(mutator).bump_allocator,
        final(mutator).mutator_tls == old(mutator).mutator_tls,
        final(mutator).config == old(mutator).config,
{
    heap.store(HeapEdge::Field(src, k), value);
    mutator.barrier.post_write_barrier(log_bits, src);
}

} // verus!
