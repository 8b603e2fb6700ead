//! The plan: three spaces of objects that stay where they are.

use crate::plan::global::AllocationSemantics;
use crate::plan::global::BarrierSelector;
use crate::plan::global::BasePlan;
use crate::plan::global::GcStatus;
use crate::plan::global::Options;
use crate::plan::global::PlanConstraints;
use crate::plan::mutator_context::AllocatorSelector;
use crate::policy::immortalspace::ImmortalSpace;
use crate::policy::space::spec_object_size;
use crate::policy::space::CommonSpace;
use crate::util::address::Address;
use crate::util::address::ObjectReference;
use crate::util::constants::spec_bytes_to_pages_up;
use crate::util::constants::HEAP_START;
use crate::util::heap::Heap;
use vstd::prelude::*;

verus! {

/// What the plan asks of the runtime.
pub open spec fn spec_nogc_constraints() -> PlanConstraints {
    PlanConstraints {
        collects_garbage: false,
        moves_objects: false,
        gc_header_bits: 0,
        gc_header_words: 0,
        num_specialized_scans: 0,
        barrier: BarrierSelector::NoBarrier,
    }
}

/// The plan. Its spaces lie one behind the other: the default space, the
/// immortal space and the space of large objects.
pub struct NoGC {
    pub base: BasePlan,
    pub nogc_space: ImmortalSpace,
    pub immortal: ImmortalSpace,
    pub los: ImmortalSpace,
}

/// Whether the options leave room in the address space for the spaces of
/// the plan: three ranges as large as the heap.
pub open spec fn spec_nogc_layout_fits(options: Options) -> bool {
    HEAP_START + 3 * options.max_heap_size <= usize::MAX
}

/// The allocator that serves allocations of each kind in this plan.
pub open spec fn spec_nogc_allocator_mapping(semantics: AllocationSemantics) -> AllocatorSelector {
    match semantics {
        AllocationSemantics::Default => AllocatorSelector::BumpPointer(0),
        AllocationSemantics::Los => AllocatorSelector::BumpPointer(2),
        _ => AllocatorSelector::BumpPointer(1),
    }
}

impl NoGC {
    /// Whether `addr` lies in one of the spaces of the plan.
    pub open spec fn claims(&self, addr: int) -> bool {
        ||| self.nogc_space.common().contains(addr)
        ||| self.immortal.common().contains(addr)
        ||| self.los.common().contains(addr)
    }

    /// What holds of the plan and the heap at all times: the spaces lie
    /// one behind the other, each holds of the heap, and every object of the
    /// heap lies in one of them.
    pub open spec fn plan_inv(&self, heap: &Heap) -> bool {
        &&& self.nogc_space.common().start() == HEAP_START
        &&& self.immortal.common().start() == self.nogc_space.common().start()
            + self.nogc_space.common().extent()
        &&& self.los.common().start() == self.immortal.common().start()
            + self.immortal.common().extent()
        &&& self.nogc_space.holds(heap)
        &&& self.immortal.holds(heap)
        &&& self.los.holds(heap)
        &&& forall|o: ObjectReference| #[trigger] heap.objects().contains_key(o) ==> self.claims(o@)
    }

    /// The pages in use in the three spaces.
    pub open spec fn spec_used_pages(&self) -> int {
        spec_bytes_to_pages_up(self.nogc_space.common().used()) + spec_bytes_to_pages_up(
            self.immortal.common().used(),
        ) + spec_bytes_to_pages_up(self.los.common().used())
    }

    /// The plan with its spaces laid out for the given options, for a heap
    /// that has no objects yet.
    pub fn new(options: Options, heap: &Heap) -> (plan: Self)
        requires
            spec_nogc_layout_fits(options),
            heap.objects() == Map::<ObjectReference, Seq<ObjectReference>>::empty(),
        ensures
            plan.plan_inv(heap),
            plan.base.options == options,
            plan.base.gc_status == GcStatus::NotInGC,
            plan.nogc_space.common().used() == 0,
            plan.immortal.common().used() == 0,
            plan.los.common().used() == 0,
            plan.nogc_space.common().extent() == options.max_heap_size,
            plan.immortal.common().extent() == options.max_heap_size,
            plan.los.common().extent() == options.max_heap_size,
    {
        let nogc_start: usize = HEAP_START;
        let immortal_start: usize = nogc_start + options.max_heap_size;
        let los_start: usize = immortal_start + options.max_heap_size;
        // The spaces are laid out by the plan itself.
        let base = BasePlan::new(options);
        NoGC {
            nogc_space: ImmortalSpace::new(
                CommonSpace::new("nogc_space", Address(nogc_start), options.max_heap_size),
            ),
            immortal: ImmortalSpace::new(
                CommonSpace::new("immortal", Address(immortal_start), options.max_heap_size),
            ),
            los: ImmortalSpace::new(
                CommonSpace::new("los", Address(los_start), options.max_heap_size),
            ),
            base,
        }
    }

    /// What the plan asks of the runtime: it does not collect.
    pub fn constraints(&self) -> (c: PlanConstraints)
        ensures
            c == spec_nogc_constraints(),
    {
        PlanConstraints {
            collects_garbage: false,
            moves_objects: false,
            gc_header_bits: 0,
            gc_header_words: 0,
            num_specialized_scans: 0,
            barrier: BarrierSelector::NoBarrier,
        }
    }

    /// The state that every plan keeps.
    pub fn base(&self) -> (b: &BasePlan)
        ensures
            *b == self.base,
    {
        &self.base
    }

    /// The allocator that serves allocations with `semantics`.
    pub fn get_allocator_mapping(&self, semantics: AllocationSemantics) -> (selector:
        AllocatorSelector)
        ensures
            selector == spec_nogc_allocator_mapping(semantics),
    {
        match semantics {
            AllocationSemantics::Default => AllocatorSelector::BumpPointer(0),
            AllocationSemantics::Los => AllocatorSelector::BumpPointer(2),
            _ => AllocatorSelector::BumpPointer(1),
        }
    }

    /// The pages in use in the three spaces.
    pub fn get_used_pages(&self, heap: &Heap) -> (pages: usize)
        requires
            self.plan_inv(heap),
        ensures
            pages == self.spec_used_pages(),
    {
        self.nogc_space.reserved_pages() + self.immortal.reserved_pages()
            + self.los.reserved_pages()
    }

    /// Whether a collection would be required, given that a space said
    /// that it is full or not: when a space is full, or more pages are in
    /// use than the heap has.
    pub fn collection_required(&self, heap: &Heap, space_full: bool) -> (required: bool)
        requires
            self.plan_inv(heap),
        ensures
            required == (space_full || self.spec_used_pages() > self.base.spec_total_pages()),
    {
        let used = self.get_used_pages(heap);
        self.base.collection_required(space_full, used)
    }

    /// The space that allocations with `semantics` are served from: the
    /// default space by default, the space of large objects if `semantics`
    /// asks for that, else the immortal space.
    pub open spec fn spec_allocation_space(&self, semantics: AllocationSemantics) -> &CommonSpace {
        match semantics {
            AllocationSemantics::Default => self.nogc_space.common(),
            AllocationSemantics::Los => self.los.common(),
            _ => self.immortal.common(),
        }
    }

    /// Whether the space that allocations with `semantics` are served from
    /// has room for an object with `num_fields` fields.
    pub open spec fn spec_has_room(&self, num_fields: usize, semantics: AllocationSemantics) -> bool {
        self.spec_allocation_space(semantics).used() + spec_object_size(num_fields as nat)
            <= self.spec_allocation_space(semantics).extent()
    }

    /// Allocates an object with `num_fields` fields, all null: in the
    /// default space by default, in the space of large objects if
    /// `semantics` asks for that, else in the immortal space. Returns
    /// nothing if the space has no room for it.
    pub fn allocate(&mut self, heap: &mut Heap, num_fields: usize, semantics: AllocationSemantics) -> (object:
        Option<ObjectReference>)
        requires
            old(self).plan_inv(old(heap)),
        ensures
            final(self).plan_inv(final(heap)),
            final(self).base == old(self).base,
            final(heap).roots() == old(heap).roots(),
            object is Some <==> old(self).spec_has_room(num_fields, semantics),
            match object {
                Some(o) => {
                    &&& o@ == old(self).spec_allocation_space(semantics).start() + old(
                        self,
                    ).spec_allocation_space(semantics).used()
                    &&& final(self).spec_allocation_space(semantics).used() == old(
                        self,
                    ).spec_allocation_space(semantics).used() + spec_object_size(num_fields as nat)
                    &&& !old(heap).objects().contains_key(o)
                    &&& o@ != 0
                    &&& final(heap).objects() == old(heap).objects().insert(
                        o,
                        Seq::new(num_fields as nat, |k: int| ObjectReference(0)),
                    )
                    &&& match semantics {
                        AllocationSemantics::Default => old(self).nogc_space.common().contains(o@),
                        AllocationSemantics::Los => old(self).los.common().contains(o@),
                        _ => old(self).immortal.common().contains(o@),
                    }
                },
                None => final(heap).objects() == old(heap).objects(),
            },
    {
        let ghost before = *heap;
        match semantics {
            AllocationSemantics::Default => {
                let object = self.nogc_space.allocate(heap, num_fields);
                proof {
                    self.immortal.lemma_holds_without_new_object(&before, &*heap);
                    self.los.lemma_holds_without_new_object(&before, &*heap);
                }
                object
            },
            AllocationSemantics::Los => {
                let object = self.los.allocate(heap, num_fields);
                proof {
                    self.nogc_space.lemma_holds_without_new_object(&before, &*heap);
                    self.immortal.lemma_holds_without_new_object(&before, &*heap);
                }
                object
            },
            _ => {
                let object = self.immortal.allocate(heap, num_fields);
                proof {
                    self.nogc_space.lemma_holds_without_new_object(&before, &*heap);
                    self.los.lemma_holds_without_new_object(&before, &*heap);
                }
                object
            },
        }
    }
}

} // verus!
