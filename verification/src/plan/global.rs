//! What plans share: their constraints, their options, and the state that
//! every plan keeps.

use crate::plan::tracing::ObjectQueue;
use crate::policy::immortalspace::ImmortalSpace;
use crate::policy::space::CommonSpace;
use crate::util::address::ObjectReference;
use crate::util::constants::bytes_to_pages_up;
use crate::util::heap::Heap;
use crate::util::constants::spec_bytes_to_pages_up;
use vstd::prelude::*;

verus! {

/// What an allocation is for. It selects the space that is allocated in.
#[derive(Debug, Clone, Copy, PartialEq, Eq, Hash, Structural)]
pub enum AllocationSemantics {
    Default,
    Immortal,
    Los,
    Code,
    ReadOnly,
}

/// The barrier that mutators run on a write.
#[derive(Debug, Clone, Copy, PartialEq, Eq, Hash, Structural)]
pub enum BarrierSelector {
    NoBarrier,
    ObjectBarrier,
}

/// What a plan asks of the runtime and tells the rest of the toolkit.
#[derive(Debug, Clone, Copy, PartialEq, Eq, Structural)]
pub struct PlanConstraints {
    pub collects_garbage: bool,
    pub moves_objects: bool,
    pub gc_header_bits: usize,
    pub gc_header_words: usize,
    pub num_specialized_scans: usize,
    pub barrier: BarrierSelector,
}

impl PlanConstraints {
    /// The constraints of a plan that collects without moving, needs no
    /// header and no barrier.
    pub open spec fn spec_default() -> PlanConstraints {
        PlanConstraints {
            collects_garbage: true,
            moves_objects: false,
            gc_header_bits: 0,
            gc_header_words: 0,
            num_specialized_scans: 0,
            barrier: BarrierSelector::NoBarrier,
        }
    }
}

impl Default for PlanConstraints {
    fn default() -> (c: Self)
        ensures
            c == PlanConstraints::spec_default(),
    {
        PlanConstraints {
            collects_garbage: true,
            moves_objects: false,
            gc_header_bits: 0,
            gc_header_words: 0,
            num_specialized_scans: 0,
            barrier: BarrierSelector::NoBarrier,
        }
    }
}

/// Where the collector is in its cycle.
#[derive(Debug, Clone, Copy, PartialEq, Eq, Structural)]
pub enum GcStatus {
    NotInGC,
    GcPrepare,
    GcProper,
}

/// The options that the plans of this crate read.
#[derive(Debug, Clone, Copy, PartialEq, Eq, Structural)]
pub struct Options {
    /// The number of collector threads.
    pub threads: usize,
    /// The size of the heap in bytes.
    pub max_heap_size: usize,
    /// When fewer bytes than this are left for the nursery, the next
    /// collection takes in the whole heap.
    pub min_nursery: usize,
    /// The size of the nursery in bytes.
    pub max_nursery: usize,
    /// Whether a collection that the user asks for takes in the whole heap.
    pub full_heap_system_gc: bool,
    /// The number of bytes allocated between collections that are forced
    /// to stress the collector; zero for none.
    pub stress_factor: usize,
}

/// The options are rejected: the nursery is larger than the heap, smaller
/// than the least that may be left for it, or no collector thread is asked
/// for.
#[derive(Debug, Clone, Copy, PartialEq, Eq, Structural)]
pub enum ConfigurationError {
    NurseryTooSmall,
    NurseryLargerThanHeap,
    NoThreads,
}

impl Options {
    /// What is wrong with the options, if anything is.
    pub open spec fn spec_validate(self) -> Option<ConfigurationError> {
        if self.threads == 0 {
            Some(ConfigurationError::NoThreads)
        } else if self.max_nursery < self.min_nursery {
            Some(ConfigurationError::NurseryTooSmall)
        } else if self.max_nursery > self.max_heap_size {
            Some(ConfigurationError::NurseryLargerThanHeap)
        } else {
            None
        }
    }

    /// Checks the options against each other.
    pub fn validate(&self) -> (res: Result<(), ConfigurationError>)
        ensures
            match res {
                Ok(_) => self.spec_validate() is None,
                Err(e) => self.spec_validate() == Some(e),
            },
    {
        if self.threads == 0 {
            Err(ConfigurationError::NoThreads)
        } else if self.max_nursery < self.min_nursery {
            Err(ConfigurationError::NurseryTooSmall)
        } else if self.max_nursery > self.max_heap_size {
            Err(ConfigurationError::NurseryLargerThanHeap)
        } else {
            Ok(())
        }
    }
}

/// The state that every plan keeps.
pub struct BasePlan {
    pub options: Options,
    /// Whether the collection that is asked for was asked for by the user.
    pub user_triggered_collection: bool,
    /// Whether an allocation succeeded since the last collection began.
    pub allocation_success: bool,
    /// The number of collections in a row that did not lead to a
    /// successful allocation, this one counted.
    pub max_collection_attempts: usize,
    /// The number of the attempt that the current collection is.
    pub cur_collection_attempts: usize,
    pub gc_status: GcStatus,
    /// Whether the current collection is one after a collection that did
    /// not free enough.
    pub emergency_collection: bool,
}

impl BasePlan {
    /// The state of a plan before its first collection.
    pub fn new(options: Options) -> (b: Self)
        ensures
            b.options == options,
            !b.user_triggered_collection,
            !b.allocation_success,
            b.max_collection_attempts == 0,
            b.cur_collection_attempts == 0,
            b.gc_status == GcStatus::NotInGC,
            !b.emergency_collection,
    {
        BasePlan {
            options,
            user_triggered_collection: false,
            allocation_success: false,
            max_collection_attempts: 0,
            cur_collection_attempts: 0,
            gc_status: GcStatus::NotInGC,
            emergency_collection: false,
        }
    }

    /// The number of pages of the heap.
    pub open spec fn spec_total_pages(&self) -> int {
        spec_bytes_to_pages_up(self.options.max_heap_size as int)
    }

    /// The number of pages of the heap.
    pub fn get_total_pages(&self) -> (pages: usize)
        ensures
            pages == self.spec_total_pages(),
    {
        bytes_to_pages_up(self.options.max_heap_size)
    }

    /// Whether a collection is required, given that a space said that
    /// it is full or not, and the pages that the plan has reserved: when a
    /// space is full, or more pages are reserved than the heap has.
    pub fn collection_required(&self, space_full: bool, pages_reserved: usize) -> (required: bool)
        ensures
            required == (space_full || pages_reserved > self.spec_total_pages()),
    {
        let heap_full = pages_reserved > self.get_total_pages();
        space_full || heap_full
    }

    /// The number of the attempt that a collection is that begins now: the
    /// first if the user asked for it or an allocation succeeded since the
    /// last began, else one more than the last. The count wraps around at
    /// the largest number of the machine.
    pub open spec fn spec_next_attempt(&self) -> int {
        if self.user_triggered_collection || self.allocation_success {
            1
        } else if self.max_collection_attempts == usize::MAX {
            0
        } else {
            self.max_collection_attempts + 1
        }
    }

    /// Notes that a collection begins: its attempt is numbered, and it is
    /// an emergency if it is not the first attempt.
    pub fn set_collection_kind(&mut self)
        ensures
            final(self).options == old(self).options,
            final(self).user_triggered_collection == old(self).user_triggered_collection,
            final(self).gc_status == old(self).gc_status,
            !final(self).allocation_success,
            final(self).cur_collection_attempts == old(self).spec_next_attempt(),
            final(self).max_collection_attempts == (if old(self).user_triggered_collection
                && !old(self).allocation_success {
                old(self).max_collection_attempts as int
            } else {
                old(self).spec_next_attempt()
            }),
            final(self).emergency_collection == (final(self).cur_collection_attempts > 1),
    {
        if self.user_triggered_collection {
            self.cur_collection_attempts = 1;
            if self.allocation_success {
                self.max_collection_attempts = 1;
            }
        } else {
            if !self.allocation_success {
                self.max_collection_attempts = if self.max_collection_attempts == usize::MAX {
                    0
                } else {
                    self.max_collection_attempts + 1
                };
            } else {
                self.max_collection_attempts = 1;
            }
            self.cur_collection_attempts = self.max_collection_attempts;
        }
        self.allocation_success = false;
        self.emergency_collection = self.cur_collection_attempts > 1;
    }

    /// Sets where the collector is in its cycle.
    pub fn set_gc_status(&mut self, status: GcStatus)
        ensures
            final(self).gc_status == status,
            final(self).options == old(self).options,
            final(self).user_triggered_collection == old(self).user_triggered_collection,
            final(self).allocation_success == old(self).allocation_success,
            final(self).max_collection_attempts == old(self).max_collection_attempts,
            final(self).cur_collection_attempts == old(self).cur_collection_attempts,
            final(self).emergency_collection == old(self).emergency_collection,
    {
        self.gc_status = status;
    }

    /// Whether a collection is in its proper phase.
    pub fn gc_in_progress_proper(&self) -> (b: bool)
        ensures
            b == (self.gc_status == GcStatus::GcProper),
    {
        matches!(self.gc_status, GcStatus::GcProper)
    }
}

/// What the plans that collect share: the state of every plan, a space of
/// immortal objects and a space of large objects.
pub struct CommonPlan {
    pub base: BasePlan,
    pub immortal: ImmortalSpace,
    pub los: ImmortalSpace,
}

impl CommonPlan {
    /// Both spaces hold of the heap, and they have no address in common.
    pub open spec fn holds(&self, heap: &Heap) -> bool {
        &&& self.immortal.holds(heap)
        &&& self.los.holds(heap)
        &&& self.immortal.common().disjoint(self.los.common())
    }

    /// Whether `addr` lies in one of the two spaces.
    pub open spec fn contains(&self, addr: int) -> bool {
        self.immortal.common().contains(addr) || self.los.common().contains(addr)
    }

    /// The objects of the two spaces that are marked.
    pub open spec fn marked(&self) -> Set<ObjectReference> {
        self.immortal.marked().union(self.los.marked())
    }

    /// The common part of a plan with the given options and the given
    /// ranges for its two spaces.
    pub fn new(options: Options, immortal: CommonSpace, los: CommonSpace) -> (c: Self)
        ensures
            c.base.options == options,
            !c.base.user_triggered_collection,
            c.base.cur_collection_attempts == 0,
            c.base.gc_status == GcStatus::NotInGC,
            *c.immortal.common() == immortal,
            *c.los.common() == los,
            c.immortal.marked() == Set::<ObjectReference>::empty(),
            c.los.marked() == Set::<ObjectReference>::empty(),
    {
        CommonPlan {
            base: BasePlan::new(options),
            immortal: ImmortalSpace::new(immortal),
            los: ImmortalSpace::new(los),
        }
    }

    /// Whether tracing an object of the spaces that plans share may move
    /// it: it may not, whatever the kind of the trace.
    pub fn may_move_objects<const KIND: u8>() -> (b: bool)
        ensures
            !b,
    {
        ImmortalSpace::may_move_objects::<KIND>() || ImmortalSpace::may_move_objects::<KIND>()
    }

    /// The space of immortal objects.
    pub fn get_immortal(&self) -> (s: &ImmortalSpace)
        ensures
            *s == self.immortal,
    {
        &self.immortal
    }

    /// The space of large objects.
    pub fn get_los(&self) -> (s: &ImmortalSpace)
        ensures
            *s == self.los,
    {
        &self.los
    }

    /// The pages of the two spaces that are in use.
    pub fn get_pages_used(&self) -> (pages: usize)
        requires
            spec_bytes_to_pages_up(self.immortal.common().used()) + spec_bytes_to_pages_up(
                self.los.common().used(),
            ) <= usize::MAX,
        ensures
            pages == spec_bytes_to_pages_up(self.immortal.common().used())
                + spec_bytes_to_pages_up(self.los.common().used()),
    {
        self.immortal.reserved_pages() + self.los.reserved_pages()
    }

    /// Prepares the two spaces for a collection: no object is marked.
    pub fn prepare(&mut self)
        ensures
            final(self).base == old(self).base,
            *final(self).immortal.common() == *old(self).immortal.common(),
            *final(self).los.common() == *old(self).los.common(),
            final(self).immortal.marked() == Set::<ObjectReference>::empty(),
            final(self).los.marked() == Set::<ObjectReference>::empty(),
    {
        self.immortal.prepare();
        self.los.prepare();
    }

    /// Ends a collection in the two spaces.
    pub fn release(&mut self)
        ensures
            *final(self) == *old(self),
    {
        self.immortal.release();
        self.los.release();
    }

    /// Traces `object`, which lies in one of the two spaces, through the
    /// space that it lies in: the space of immortal objects is tried first.
    pub fn trace_object<Q: ObjectQueue>(&mut self, queue: &mut Q, object: ObjectReference) -> (res:
        ObjectReference)
        requires
            old(self).immortal.common().wf(),
            old(self).los.common().wf(),
            old(self).contains(object@),
        ensures
            res == object,
            final(self).base == old(self).base,
            *final(self).immortal.common() == *old(self).immortal.common(),
            *final(self).los.common() == *old(self).los.common(),
            old(self).immortal.common().contains(object@) ==> final(self).immortal.marked() == old(
                self,
            ).immortal.marked().insert(object) && final(self).los.marked() == old(
                self,
            ).los.marked() && (old(self).immortal.marked().contains(object) ==> final(queue).queued() == old(queue).queued()) && (!old(self).immortal.marked().contains(object)
                ==> final(queue).queued() == old(queue).queued().push(object)),
            !old(self).immortal.common().contains(object@) ==> final(self).los.marked() == old(
                self,
            ).los.marked().insert(object) && final(self).immortal.marked() == old(
                self,
            ).immortal.marked() && (old(self).los.marked().contains(object) ==> final(queue).queued() == old(queue).queued()) && (!old(self).los.marked().contains(object)
                ==> final(queue).queued() == old(queue).queued().push(object)),
    {
        if self.immortal.in_space(object) {
            self.immortal.trace_object(queue, object)
        } else {
            self.los.trace_object(queue, object)
        }
    }
}

} // verus!
