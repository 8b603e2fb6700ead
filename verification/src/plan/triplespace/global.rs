//! The plan: its spaces, the state that decides between a collection of
//! the nursery and one of the whole heap, and what it does before and after
//! a collection.

use crate::plan::global::AllocationSemantics;
use crate::plan::global::BarrierSelector;
use crate::plan::global::CommonPlan;
use crate::plan::global::GcStatus;
use crate::plan::global::Options;
use crate::plan::global::PlanConstraints;
use crate::policy::copyspace::CopySpace;
use crate::policy::space::spec_object_size;
use crate::policy::space::CommonSpace;
use crate::util::address::Address;
use crate::util::address::ObjectReference;
use crate::util::constants::bytes_to_pages_up;
use crate::util::constants::spec_bytes_to_pages_up;
use crate::util::constants::HEAP_START;
use crate::scheduler::gc_work::GCWork;
use crate::scheduler::scheduler::GCWorkScheduler;
use crate::scheduler::work_bucket::WorkBucketStage;
use crate::scheduler::work_bucket::WORK_BUCKET_STAGES;
use crate::util::heap::Heap;
use vstd::prelude::*;

verus! {

/// The semantics of the allocations that go to the nursery.
pub fn alloc_ts() -> (s: AllocationSemantics)
    ensures
        s == AllocationSemantics::Default,
{
    AllocationSemantics::Default
}

/// What the plan asks of the runtime.
pub open spec fn spec_ts_constraints() -> PlanConstraints {
    PlanConstraints {
        collects_garbage: true,
        moves_objects: true,
        gc_header_bits: 2,
        gc_header_words: 0,
        num_specialized_scans: 1,
        barrier: BarrierSelector::ObjectBarrier,
    }
}

/// What the plan asks of the runtime: it moves objects, takes two bits of
/// the header, and needs the barrier that remembers objects.
pub fn ts_constraints() -> (c: PlanConstraints)
    ensures
        c == spec_ts_constraints(),
{
    PlanConstraints {
        collects_garbage: true,
        moves_objects: true,
        gc_header_bits: 2,
        gc_header_words: 0,
        num_specialized_scans: 1,
        barrier: BarrierSelector::ObjectBarrier,
    }
}

/// The plan.
///
/// New objects go to the nursery `youngspace`. A collection of the nursery
/// copies what survives into the semispace that is copied to; a collection
/// of the whole heap first swaps the roles of the two semispaces. `hi`
/// tells which semispace is copied to: `copyspace1` if it is set.
pub struct TripleSpace {
    pub hi: bool,
    pub gc_full_heap: bool,
    pub next_gc_full_heap: bool,
    pub copyspace0: CopySpace,
    pub copyspace1: CopySpace,
    pub youngspace: CopySpace,
    pub common: CommonPlan,
}

/// Whether the options leave room in the address space for the spaces of
/// the plan: the nursery, and four ranges as large as the heap.
pub open spec fn spec_layout_fits(options: Options) -> bool {
    HEAP_START + options.max_nursery + 4 * options.max_heap_size <= usize::MAX
}

impl TripleSpace {
    /// The semispace that is copied to.
    pub open spec fn spec_tospace(&self) -> &CopySpace {
        if self.hi {
            &self.copyspace1
        } else {
            &self.copyspace0
        }
    }

    /// The semispace that is copied from.
    pub open spec fn spec_fromspace(&self) -> &CopySpace {
        if self.hi {
            &self.copyspace0
        } else {
            &self.copyspace1
        }
    }

    /// The spaces lie one behind the other in the address space: the
    /// nursery, the two semispaces, the immortal space and the space of
    /// large objects.
    pub open spec fn layout(&self) -> bool {
        &&& self.youngspace.common().start() == HEAP_START
        &&& self.copyspace0.common().start() == self.youngspace.common().start()
            + self.youngspace.common().extent()
        &&& self.copyspace1.common().start() == self.copyspace0.common().start()
            + self.copyspace0.common().extent()
        &&& self.common.immortal.common().start() == self.copyspace1.common().start()
            + self.copyspace1.common().extent()
        &&& self.common.los.common().start() == self.common.immortal.common().start()
            + self.common.immortal.common().extent()
        &&& self.common.los.common().start() + self.common.los.common().extent() <= usize::MAX
    }

    /// Whether `addr` lies in one of the spaces of the plan.
    pub open spec fn claims(&self, addr: int) -> bool {
        ||| self.youngspace.common().contains(addr)
        ||| self.copyspace0.common().contains(addr)
        ||| self.copyspace1.common().contains(addr)
        ||| self.common.contains(addr)
    }

    /// What holds of the plan and the heap at all times: the spaces are
    /// laid out one behind the other, each holds of the heap, and every
    /// object of the heap lies in one of them.
    pub open spec fn plan_inv(&self, heap: &Heap) -> bool {
        &&& self.layout()
        &&& self.youngspace.holds(heap)
        &&& self.copyspace0.holds(heap)
        &&& self.copyspace1.holds(heap)
        &&& self.common.immortal.holds(heap)
        &&& self.common.los.holds(heap)
        &&& forall|o: ObjectReference| #[trigger] heap.objects().contains_key(o) ==> self.claims(o@)
    }

    /// The plan with its spaces laid out for the given options, for a heap
    /// that has no objects yet. The first semispace is the one copied to.
    pub fn new(options: Options, heap: &Heap) -> (plan: Self)
        requires
            spec_layout_fits(options),
            heap.objects() == Map::<ObjectReference, Seq<ObjectReference>>::empty(),
        ensures
            plan.plan_inv(heap),
            !plan.hi,
            !plan.gc_full_heap,
            !plan.next_gc_full_heap,
            plan.common.base.options == options,
            !plan.common.base.user_triggered_collection,
            plan.common.base.cur_collection_attempts == 0,
            plan.common.base.gc_status == GcStatus::NotInGC,
            plan.youngspace.common().extent() == options.max_nursery,
            plan.youngspace.common().used() == 0,
            plan.copyspace0.common().used() == 0,
            plan.copyspace1.common().used() == 0,
            plan.copyspace0.common().extent() == options.max_heap_size,
            plan.copyspace1.common().extent() == options.max_heap_size,
            !plan.copyspace0.is_from_space(),
            plan.copyspace1.is_from_space(),
            !plan.youngspace.is_from_space(),
            plan.spec_packed(heap),
    {
        let young_start: usize = HEAP_START;
        let cs0_start: usize = young_start + options.max_nursery;
        let cs1_start: usize = cs0_start + options.max_heap_size;
        let immortal_start: usize = cs1_start + options.max_heap_size;
        let los_start: usize = immortal_start + options.max_heap_size;
        let res = TripleSpace {
            hi: false,
            gc_full_heap: false,
            next_gc_full_heap: false,
            youngspace: CopySpace::new(
                "youngspace",
                false,
                CommonSpace::new("youngspace", Address(young_start), options.max_nursery),
            ),
            copyspace0: CopySpace::new(
                "copyspace0",
                false,
                CommonSpace::new("copyspace0", Address(cs0_start), options.max_heap_size),
            ),
            copyspace1: CopySpace::new(
                "copyspace1",
                true,
                CommonSpace::new("copyspace1", Address(cs1_start), options.max_heap_size),
            ),
            common: CommonPlan::new(
                options,
                CommonSpace::new("immortal", Address(immortal_start), options.max_heap_size),
                CommonSpace::new("los", Address(los_start), options.max_heap_size),
            ),
        };
        proof {
            res.youngspace.lemma_packed_when_empty(heap);
            res.copyspace0.lemma_packed_when_empty(heap);
            res.copyspace1.lemma_packed_when_empty(heap);
        }
        res
    }

    /// What the plan asks of the runtime.
    pub fn constraints(&self) -> (c: PlanConstraints)
        ensures
            c == spec_ts_constraints(),
    {
        ts_constraints()
    }

    /// The state that every plan keeps.
    pub fn base(&self) -> (b: &crate::plan::global::BasePlan)
        ensures
            *b == self.common.base,
    {
        &self.common().base
    }

    /// What the plans that collect share.
    pub fn common(&self) -> (c: &CommonPlan)
        ensures
            *c == self.common,
    {
        &self.common
    }

    /// The allocator that serves allocations with `semantics`.
    pub fn get_allocator_mapping(&self, semantics: AllocationSemantics) -> (selector:
        crate::plan::mutator_context::AllocatorSelector)
        ensures
            selector == crate::plan::triplespace::mutator::spec_allocator_mapping(semantics),
    {
        crate::plan::triplespace::mutator::allocator_mapping(semantics)
    }

    /// The semispace that is copied to.
    pub fn tospace(&self) -> (s: &CopySpace)
        ensures
            s == self.spec_tospace(),
    {
        if self.hi {
            &self.copyspace1
        } else {
            &self.copyspace0
        }
    }

    /// The semispace that is copied from.
    pub fn fromspace(&self) -> (s: &CopySpace)
        ensures
            s == self.spec_fromspace(),
    {
        if self.hi {
            &self.copyspace0
        } else {
            &self.copyspace1
        }
    }

    /// The pages set aside for copying: those in use in the semispace that
    /// is copied to and in the nursery.
    pub open spec fn spec_collection_reserve(&self) -> int {
        spec_bytes_to_pages_up(self.spec_tospace().common().used()) + spec_bytes_to_pages_up(
            self.youngspace.common().used(),
        )
    }

    /// The pages in use: those in use in the semispace that is copied to,
    /// in the nursery and in the common spaces.
    pub open spec fn spec_pages_used(&self) -> int {
        self.spec_collection_reserve() + spec_bytes_to_pages_up(
            self.common.immortal.common().used(),
        ) + spec_bytes_to_pages_up(self.common.los.common().used())
    }

    /// The pages reserved: those in use and those set aside for copying.
    pub open spec fn spec_pages_reserved(&self) -> int {
        self.spec_pages_used() + self.spec_collection_reserve()
    }

    /// The pages left for allocation, all of which is taken to go to the
    /// nursery: half of what the heap has beyond the reserved pages, and
    /// none if more are reserved than the heap has.
    pub open spec fn spec_pages_avail(&self) -> int {
        if self.common.base.spec_total_pages() >= self.spec_pages_reserved() {
            (self.common.base.spec_total_pages() - self.spec_pages_reserved()) / 2
        } else {
            0
        }
    }

    /// The ranges of the spaces are well formed and the pages in use add
    /// up within the machine's numbers.
    pub open spec fn accountable(&self) -> bool {
        &&& self.layout()
        &&& self.youngspace.common().wf()
        &&& self.copyspace0.common().wf()
        &&& self.copyspace1.common().wf()
        &&& self.common.immortal.common().wf()
        &&& self.common.los.common().wf()
    }

    /// The pages set aside for copying.
    pub fn get_collection_reserve(&self) -> (pages: usize)
        requires
            self.accountable(),
        ensures
            pages == self.spec_collection_reserve(),
    {
        self.tospace().reserved_pages() + self.youngspace.reserved_pages()
    }

    /// The pages in use.
    pub fn get_pages_used(&self) -> (pages: usize)
        requires
            self.accountable(),
        ensures
            pages == self.spec_pages_used(),
    {
        self.tospace().reserved_pages() + self.youngspace.reserved_pages()
            + self.common.get_pages_used()
    }

    /// The pages reserved.
    pub fn get_pages_reserved(&self) -> (pages: usize)
        requires
            self.accountable(),
            self.spec_pages_reserved() <= usize::MAX,
        ensures
            pages == self.spec_pages_reserved(),
    {
        self.get_pages_used() + self.get_collection_reserve()
    }

    /// The pages left for allocation.
    pub fn get_pages_avail(&self) -> (pages: usize)
        requires
            self.accountable(),
            self.spec_pages_reserved() <= usize::MAX,
        ensures
            pages == self.spec_pages_avail(),
    {
        let total = self.common.base.get_total_pages();
        let reserved = self.get_pages_reserved();
        if total >= reserved {
            (total - reserved) / 2
        } else {
            0
        }
    }

    /// Whether the collection that is going on, or was the last, takes in
    /// the nursery only.
    pub fn is_current_gc_nursery(&self) -> (b: bool)
        ensures
            b == !self.gc_full_heap,
    {
        !self.gc_full_heap
    }

    /// Whether the next collection is to take in the whole heap.
    pub open spec fn spec_request_full_heap_collection(&self) -> bool {
        ||| (self.common.base.user_triggered_collection
            && self.common.base.options.full_heap_system_gc)
        ||| self.next_gc_full_heap
        ||| self.common.base.cur_collection_attempts > 1
        ||| self.common.base.spec_total_pages() <= self.spec_pages_reserved()
    }

    /// Whether the next collection is to take in the whole heap: when the
    /// user asked for the collection and the options say that such
    /// collections are full; when the last collection or a full space asked
    /// for it; when this is not the first attempt; or when the heap has no
    /// page beyond those reserved.
    pub fn request_full_heap_collection(&self) -> (full: bool)
        requires
            self.accountable(),
            self.spec_pages_reserved() <= usize::MAX,
        ensures
            full == self.spec_request_full_heap_collection(),
    {
        if self.common.base.user_triggered_collection
            && self.common.base.options.full_heap_system_gc {
            return true;
        }
        if self.next_gc_full_heap || self.common.base.cur_collection_attempts > 1 {
            // Forces a collection of the whole heap.
            return true;
        }
        self.common.base.get_total_pages() <= self.get_pages_reserved()
    }

    /// Whether the nursery has reached its size.
    pub open spec fn spec_nursery_full(&self) -> bool {
        spec_bytes_to_pages_up(self.youngspace.common().used()) >= spec_bytes_to_pages_up(
            self.common.base.options.max_nursery as int,
        )
    }

    /// Whether a collection is required, given that a space said that
    /// it is full or not, and whether that space is the nursery.
    ///
    /// A full nursery requires one. Else, if a space other than the
    /// nursery is full, the next collection is to take in the whole heap;
    /// and a collection is required if a space is full or more pages are
    /// reserved than the heap has.
    pub fn collection_required(&mut self, space_full: bool, space_is_nursery: bool) -> (required:
        bool)
        requires
            old(self).accountable(),
            old(self).spec_pages_reserved() <= usize::MAX,
        ensures
            required == (old(self).spec_nursery_full() || space_full || old(
                self,
            ).spec_pages_reserved() > old(self).common.base.spec_total_pages()),
            final(self).next_gc_full_heap == (old(self).next_gc_full_heap || (!old(
                self,
            ).spec_nursery_full() && space_full && !space_is_nursery)),
            final(self).hi == old(self).hi,
            final(self).gc_full_heap == old(self).gc_full_heap,
            final(self).copyspace0 == old(self).copyspace0,
            final(self).copyspace1 == old(self).copyspace1,
            final(self).youngspace == old(self).youngspace,
            final(self).common == old(self).common,
    {
        let nursery_full = self.youngspace.reserved_pages() >= bytes_to_pages_up(
            self.common.base.options.max_nursery,
        );
        if nursery_full {
            return true;
        }
        if space_full && !space_is_nursery {
            self.next_gc_full_heap = true;
        }
        let reserved = self.get_pages_reserved();
        self.common.base.collection_required(space_full, reserved)
    }

    /// Whether the three copying spaces are packed.
    pub open spec fn spec_packed(&self, heap: &Heap) -> bool {
        &&& self.youngspace.packed(heap)
        &&& self.copyspace0.packed(heap)
        &&& self.copyspace1.packed(heap)
    }

    /// The two semispaces stay packed when they are left as they are and
    /// the heap has no object in them that it did not have, with as many
    /// fields.
    pub proof fn lemma_semispaces_stay_packed(
        &self,
        after: &TripleSpace,
        heap: &Heap,
        heap_after: &Heap,
    )
        requires
            self.copyspace0.packed(heap),
            self.copyspace1.packed(heap),
            self.copyspace0.holds(heap),
            self.copyspace1.holds(heap),
            after.copyspace0 == self.copyspace0,
            after.copyspace1 == self.copyspace1,
            forall|o: ObjectReference|
                #![trigger heap_after.objects().contains_key(o)]
                (self.copyspace0.common().contains(o@) || self.copyspace1.common().contains(o@))
                    && heap_after.objects().contains_key(o) ==> heap.objects().contains_key(o)
                    && heap_after.objects()[o].len() == heap.objects()[o].len(),
        ensures
            after.copyspace0.packed(heap_after),
            after.copyspace1.packed(heap_after),
    {
        self.copyspace0.lemma_packed_after(&after.copyspace0, heap, heap_after);
        self.copyspace1.lemma_packed_after(&after.copyspace1, heap, heap_after);
    }

    /// The nursery stays packed when it is left as it is and the heap has
    /// no object in it that it did not have, with as many fields.
    pub proof fn lemma_nursery_stays_packed(
        &self,
        after: &TripleSpace,
        heap: &Heap,
        heap_after: &Heap,
    )
        requires
            self.youngspace.packed(heap),
            self.youngspace.holds(heap),
            after.youngspace == self.youngspace,
            forall|o: ObjectReference|
                #![trigger heap_after.objects().contains_key(o)]
                self.youngspace.common().contains(o@) && heap_after.objects().contains_key(o)
                    ==> heap.objects().contains_key(o) && heap_after.objects()[o].len()
                    == heap.objects()[o].len(),
        ensures
            after.youngspace.packed(heap_after),
    {
        self.youngspace.lemma_packed_after(&after.youngspace, heap, heap_after);
    }

    /// The space that allocations with `semantics` are served from: the
    /// nursery by default, the space of large objects if `semantics` asks
    /// for that, else the immortal space.
    pub open spec fn spec_allocation_space(&self, semantics: AllocationSemantics) -> &CommonSpace {
        match semantics {
            AllocationSemantics::Default => self.youngspace.common(),
            AllocationSemantics::Los => self.common.los.common(),
            _ => self.common.immortal.common(),
        }
    }

    /// Whether the space that allocations with `semantics` are served from
    /// has room for an object with `num_fields` fields.
    pub open spec fn spec_has_room(&self, num_fields: usize, semantics: AllocationSemantics) -> bool {
        self.spec_allocation_space(semantics).used() + spec_object_size(num_fields as nat)
            <= self.spec_allocation_space(semantics).extent()
    }

    /// Allocates an object with `num_fields` fields, all null: in the
    /// nursery by default, in the space of large objects if `semantics` asks
    /// for that, else in the immortal space. Returns nothing if the space
    /// has no room for it.
    pub fn allocate(&mut self, heap: &mut Heap, num_fields: usize, semantics: AllocationSemantics) -> (object:
        Option<ObjectReference>)
        requires
            old(self).plan_inv(old(heap)),
        ensures
            final(self).plan_inv(final(heap)),
            final(self).hi == old(self).hi,
            final(self).gc_full_heap == old(self).gc_full_heap,
            final(self).next_gc_full_heap == old(self).next_gc_full_heap,
            final(self).common.base == old(self).common.base,
            final(heap).roots() == old(heap).roots(),
            final(self).copyspace0 == old(self).copyspace0,
            final(self).copyspace1 == old(self).copyspace1,
            final(self).youngspace.common().start() == old(self).youngspace.common().start(),
            final(self).youngspace.common().extent() == old(self).youngspace.common().extent(),
            object is Some <==> old(self).spec_has_room(num_fields, semantics),
            object is None ==> final(self).youngspace.common().used() == old(
                self,
            ).youngspace.common().used(),
            old(self).spec_packed(old(heap)) ==> final(self).spec_packed(final(heap)),
            final(self).common.immortal.common().start() == old(
                self,
            ).common.immortal.common().start(),
            final(self).common.immortal.common().extent() == old(
                self,
            ).common.immortal.common().extent(),
            final(self).common.los.common().start() == old(self).common.los.common().start(),
            final(self).common.los.common().extent() == old(self).common.los.common().extent(),
            object is None ==> final(self).common.immortal.common().used() == old(
                self,
            ).common.immortal.common().used() && final(self).common.los.common().used() == old(
                self,
            ).common.los.common().used(),
            match object {
                Some(o) => {
                    &&& o@ == old(self).spec_allocation_space(semantics).start() + old(
                        self,
                    ).spec_allocation_space(semantics).used()
                    &&& !old(heap).objects().contains_key(o)
                    &&& final(heap).objects() == old(heap).objects().insert(
                        o,
                        Seq::new(num_fields as nat, |k: int| ObjectReference(0)),
                    )
                    &&& match semantics {
                        AllocationSemantics::Default => old(self).youngspace.common().contains(o@),
                        AllocationSemantics::Los => old(self).common.los.common().contains(o@),
                        _ => old(self).common.immortal.common().contains(o@),
                    }
                },
                None => final(heap).objects() == old(heap).objects(),
            },
    {
        let ghost before = *heap;
        match semantics {
            AllocationSemantics::Default => {
                let object = self.youngspace.allocate(heap, num_fields);
                proof {
                    self.copyspace0.lemma_holds_without_new_object(&before, &*heap);
                    self.copyspace1.lemma_holds_without_new_object(&before, &*heap);
                    self.common.immortal.lemma_holds_without_new_object(&before, &*heap);
                    self.common.los.lemma_holds_without_new_object(&before, &*heap);
                    if old(self).spec_packed(&before) {
                        match object {
                            Some(o) => {
                                old(self).youngspace.lemma_packed_after_allocation(
                                    &self.youngspace,
                                    &before,
                                    &*heap,
                                    o,
                                    Seq::new(num_fields as nat, |k: int| ObjectReference(0)),
                                );
                            },
                            None => {
                                old(self).youngspace.lemma_packed_after(
                                    &self.youngspace,
                                    &before,
                                    &*heap,
                                );
                            },
                        }
                        old(self).lemma_semispaces_stay_packed(&*self, &before, &*heap);
                    }
                }
                object
            },
            AllocationSemantics::Los => {
                let object = self.common.los.allocate(heap, num_fields);
                proof {
                    self.youngspace.lemma_holds_without_new_object(&before, &*heap);
                    self.copyspace0.lemma_holds_without_new_object(&before, &*heap);
                    self.copyspace1.lemma_holds_without_new_object(&before, &*heap);
                    self.common.immortal.lemma_holds_without_new_object(&before, &*heap);
                    if old(self).spec_packed(&before) {
                        old(self).lemma_nursery_stays_packed(&*self, &before, &*heap);
                        old(self).lemma_semispaces_stay_packed(&*self, &before, &*heap);
                    }
                }
                object
            },
            _ => {
                let object = self.common.immortal.allocate(heap, num_fields);
                proof {
                    self.youngspace.lemma_holds_without_new_object(&before, &*heap);
                    self.copyspace0.lemma_holds_without_new_object(&before, &*heap);
                    self.copyspace1.lemma_holds_without_new_object(&before, &*heap);
                    self.common.los.lemma_holds_without_new_object(&before, &*heap);
                    if old(self).spec_packed(&before) {
                        old(self).lemma_nursery_stays_packed(&*self, &before, &*heap);
                        old(self).lemma_semispaces_stay_packed(&*self, &before, &*heap);
                    }
                }
                object
            },
        }
    }

    /// Prepares the plan for the collection that was scheduled: a
    /// collection of the whole heap swaps the roles of the two semispaces;
    /// the nursery is copied from in any case; no object counts as marked or
    /// copied.
    pub fn prepare(&mut self, heap: &Heap)
        requires
            old(self).plan_inv(heap),
        ensures
            final(self).plan_inv(heap),
            final(self).hi == (old(self).hi != old(self).gc_full_heap),
            final(self).gc_full_heap == old(self).gc_full_heap,
            final(self).next_gc_full_heap == old(self).next_gc_full_heap,
            final(self).common.base == old(self).common.base,
            final(self).youngspace.is_from_space(),
            final(self).copyspace0.is_from_space() == final(self).hi,
            final(self).copyspace1.is_from_space() == !final(self).hi,
            *final(self).youngspace.common() == *old(self).youngspace.common(),
            *final(self).copyspace0.common() == *old(self).copyspace0.common(),
            *final(self).copyspace1.common() == *old(self).copyspace1.common(),
            *final(self).common.immortal.common() == *old(self).common.immortal.common(),
            *final(self).common.los.common() == *old(self).common.los.common(),
            final(self).youngspace.forwarding() == Map::<ObjectReference, ObjectReference>::empty(),
            final(self).copyspace0.forwarding() == Map::<ObjectReference, ObjectReference>::empty(),
            final(self).copyspace1.forwarding() == Map::<ObjectReference, ObjectReference>::empty(),
            final(self).common.immortal.marked() == Set::<ObjectReference>::empty(),
            final(self).common.los.marked() == Set::<ObjectReference>::empty(),
            final(self).youngspace.allocated() == old(self).youngspace.allocated(),
            final(self).copyspace0.allocated() == old(self).copyspace0.allocated(),
            final(self).copyspace1.allocated() == old(self).copyspace1.allocated(),
    {
        self.common.prepare();
        self.youngspace.prepare(true);
        let hi = if self.gc_full_heap {
            let new_hi = !self.hi;
            // Swap the roles of the semispaces.
            self.hi = new_hi;
            new_hi
        } else {
            self.hi
        };
        self.copyspace0.prepare(hi);
        self.copyspace1.prepare(!hi);
    }

    /// Ends a collection: the nursery is given back; after a collection of
    /// the whole heap, so is the semispace that was copied from. The next
    /// collection is to take in the whole heap if fewer pages are left than
    /// the least that the nursery is to have.
    pub fn release(&mut self, heap: &mut Heap)
        requires
            old(self).plan_inv(old(heap)),
        ensures
            final(self).plan_inv(final(heap)),
            final(self).hi == old(self).hi,
            final(self).gc_full_heap == old(self).gc_full_heap,
            final(self).common == old(self).common,
            final(self).youngspace.common().used() == 0,
            old(self).gc_full_heap ==> final(self).spec_fromspace().common().used() == 0,
            *final(self).spec_tospace() == *old(self).spec_tospace(),
            !old(self).gc_full_heap ==> *final(self).spec_fromspace() == *old(self).spec_fromspace(),
            final(self).next_gc_full_heap == (final(self).spec_pages_avail()
                < spec_bytes_to_pages_up(old(self).common.base.options.min_nursery as int)),
            final(heap).roots() == old(heap).roots(),
            forall|o: ObjectReference|
                final(heap).objects().contains_key(o) <==> old(heap).objects().contains_key(o)
                    && !old(self).youngspace.common().contains(o@) && !(old(self).gc_full_heap
                    && old(self).spec_fromspace().common().contains(o@)),
            forall|o: ObjectReference|
                #[trigger] final(heap).objects().contains_key(o) ==> final(heap).objects()[o]
                    == old(heap).objects()[o],
            old(self).spec_packed(old(heap)) ==> final(self).spec_packed(final(heap)),
            final(self).youngspace.common().start() == old(self).youngspace.common().start(),
            final(self).youngspace.common().extent() == old(self).youngspace.common().extent(),
            final(self).spec_fromspace().common().start() == old(
                self,
            ).spec_fromspace().common().start(),
            final(self).spec_fromspace().common().extent() == old(
                self,
            ).spec_fromspace().common().extent(),
    {
        let ghost before = *heap;
        self.common.release();
        self.youngspace.release(heap);
        let ghost middle = *heap;
        let ghost plan_middle = *self;
        proof {
            self.copyspace0.lemma_holds_without_new_object(&before, &middle);
            self.copyspace1.lemma_holds_without_new_object(&before, &middle);
            self.common.immortal.lemma_holds_without_new_object(&before, &middle);
            self.common.los.lemma_holds_without_new_object(&before, &middle);
            self.youngspace.lemma_packed_when_empty(&middle);
            if old(self).spec_packed(&before) {
                old(self).lemma_semispaces_stay_packed(&*self, &before, &middle);
            }
        }
        if self.gc_full_heap {
            // Give back what was collected, after a collection of the
            // whole heap only.
            if self.hi {
                self.copyspace0.release(heap);
                proof {
                    self.copyspace1.lemma_holds_without_new_object(&middle, &*heap);
                    self.copyspace0.lemma_packed_when_empty(&*heap);
                    if old(self).spec_packed(&before) {
                        plan_middle.copyspace1.lemma_packed_after(&self.copyspace1, &middle, &*heap);
                    }
                }
            } else {
                self.copyspace1.release(heap);
                proof {
                    self.copyspace0.lemma_holds_without_new_object(&middle, &*heap);
                    self.copyspace1.lemma_packed_when_empty(&*heap);
                    if old(self).spec_packed(&before) {
                        plan_middle.copyspace0.lemma_packed_after(&self.copyspace0, &middle, &*heap);
                    }
                }
            }
            proof {
                self.youngspace.lemma_holds_without_new_object(&middle, &*heap);
                self.common.immortal.lemma_holds_without_new_object(&middle, &*heap);
                self.common.los.lemma_holds_without_new_object(&middle, &*heap);
                self.youngspace.lemma_packed_when_empty(&*heap);
            }
        }
        self.next_gc_full_heap = self.get_pages_avail() < bytes_to_pages_up(
            self.common.base.options.min_nursery,
        );
    }

    /// Schedules a collection: decides whether it takes in the whole heap,
    /// notes that it begins, and adds the packets that every collection is
    /// made of to their buckets.
    pub fn schedule_collection(&mut self, scheduler: &mut GCWorkScheduler<GCWork>)
        requires
            old(self).accountable(),
            old(self).spec_pages_reserved() <= usize::MAX,
            old(scheduler).wf(),
        ensures
            final(scheduler).wf(),
            final(scheduler).current() == old(scheduler).current(),
            final(scheduler).coordinator_work() == old(scheduler).coordinator_work(),
            final(self).gc_full_heap == old(self).spec_request_full_heap_collection(),
            final(self).hi == old(self).hi,
            final(self).next_gc_full_heap == old(self).next_gc_full_heap,
            final(self).copyspace0 == old(self).copyspace0,
            final(self).copyspace1 == old(self).copyspace1,
            final(self).youngspace == old(self).youngspace,
            final(self).common.immortal == old(self).common.immortal,
            final(self).common.los == old(self).common.los,
            final(self).common.base.gc_status == GcStatus::GcPrepare,
            final(self).common.base.options == old(self).common.base.options,
            final(self).common.base.cur_collection_attempts == old(
                self,
            ).common.base.spec_next_attempt(),
            final(scheduler).finalizer() == Some(GCWork::EndOfGC),
            final(scheduler).queue(WorkBucketStage::Unconstrained) == old(scheduler).queue(
                WorkBucketStage::Unconstrained,
            ).push(GCWork::StopMutators { full_heap: final(self).gc_full_heap }),
            final(scheduler).queue(WorkBucketStage::Prepare) == old(scheduler).queue(
                WorkBucketStage::Prepare,
            ).push(GCWork::Prepare),
            final(scheduler).queue(WorkBucketStage::Release) == old(scheduler).queue(
                WorkBucketStage::Release,
            ).push(GCWork::Release),
            forall|i: int|
                0 <= i < WORK_BUCKET_STAGES && i != 0 && i != 1 && i != 7 ==> (
                #[trigger] final(scheduler).buckets()[i]).queue() == old(
                    scheduler,
                ).buckets()[i].queue(),
            forall|i: int|
                0 <= i < WORK_BUCKET_STAGES ==> (#[trigger] final(scheduler).buckets()[i]).is_open()
                    == old(scheduler).buckets()[i].is_open() && final(scheduler).buckets()[i].open_packets() == old(scheduler).buckets()[i].open_packets(),
            final(self).common.base.user_triggered_collection == old(
                self,
            ).common.base.user_triggered_collection,
            !final(self).common.base.allocation_success,
    {
        let is_full_heap = self.request_full_heap_collection();
        self.gc_full_heap = is_full_heap;
        self.common.base.set_collection_kind();
        self.common.base.set_gc_status(GcStatus::GcPrepare);
        // Stop and scan the mutators.
        scheduler.add(WorkBucketStage::Unconstrained, GCWork::StopMutators { full_heap: is_full_heap });
        // Prepare the plan, the collectors and the mutators.
        scheduler.add(WorkBucketStage::Prepare, GCWork::Prepare);
        // Release the plan, the collectors and the mutators.
        scheduler.add(WorkBucketStage::Release, GCWork::Release);
        // Resume the mutators.
        scheduler.set_finalizer(Some(GCWork::EndOfGC));
    }
}

} // verus!
