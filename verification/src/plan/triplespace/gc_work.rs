//! How the plan traces an object, and the packets of edges of its
//! collections.

use crate::plan::barriers::LogBits;
use crate::plan::closure::process_edge;
use crate::plan::closure::spec_objects_after_store;
use crate::plan::closure::spec_objects_after_trace;
use crate::plan::closure::spec_roots_after_store;
use crate::plan::global::CommonPlan;
use crate::plan::global::PlanConstraints;
use crate::plan::tracing::lemma_vector_queue_queued;
use crate::plan::triplespace::global::spec_ts_constraints;
use crate::plan::triplespace::global::ts_constraints;
use crate::util::address::Address;
use crate::plan::tracing::VectorObjectQueue;
use crate::plan::transitive_closure::spec_trace_step;
use crate::plan::transitive_closure::PlanTraceObject;
use crate::plan::triplespace::global::TripleSpace;
use crate::policy::copyspace::CopySpace;
use crate::policy::gc_work::DEFAULT_TRACE;
use crate::policy::space::GcError;
use crate::util::address::ObjectReference;
use crate::util::heap::Heap;
use crate::util::heap::HeapEdge;
use vstd::prelude::*;

verus! {

broadcast use lemma_vector_queue_queued;

impl TripleSpace {
    /// Where each object lies now that was copied out of the nursery or
    /// out of the semispace that is copied from, or was marked where it is.
    pub open spec fn spec_traced(&self) -> Map<ObjectReference, ObjectReference> {
        Map::new(
            |o: ObjectReference|
                self.youngspace.forwarding().contains_key(o)
                    || self.spec_fromspace().forwarding().contains_key(o)
                    || self.common.marked().contains(o),
            |o: ObjectReference|
                if self.youngspace.forwarding().contains_key(o) {
                    self.youngspace.forwarding()[o]
                } else if self.spec_fromspace().forwarding().contains_key(o) {
                    self.spec_fromspace().forwarding()[o]
                } else {
                    o
                },
        )
    }

    /// Whether the collection that is going on traces `object`: a
    /// collection of the nursery traces the objects of the nursery; one of
    /// the whole heap also those of the semispace that is copied from and of
    /// the common spaces.
    pub open spec fn spec_in_scope(&self, object: ObjectReference) -> bool {
        ||| self.youngspace.common().contains(object@)
        ||| (self.gc_full_heap && (self.spec_fromspace().common().contains(object@)
            || self.common.contains(object@)))
    }

    /// What holds while a collection traces: the plan holds of the heap;
    /// the nursery and one semispace are copied from, the other semispace is
    /// copied to; copies lie in the semispace that is copied to; and in a
    /// collection of the nursery nothing outside the nursery was traced.
    pub open spec fn spec_trace_inv(&self, heap: &Heap) -> bool {
        &&& self.plan_inv(heap)
        &&& self.youngspace.is_from_space()
        &&& self.spec_fromspace().is_from_space()
        &&& !self.spec_tospace().is_from_space()
        &&& forall|o: ObjectReference| #[trigger]
            self.youngspace.forwarding().contains_key(o) ==> self.spec_tospace().common().contains(
                self.youngspace.forwarding()[o]@,
            )
        &&& forall|o: ObjectReference| #[trigger]
            self.spec_fromspace().forwarding().contains_key(o)
                ==> self.spec_tospace().common().contains(self.spec_fromspace().forwarding()[o]@)
        &&& !self.gc_full_heap ==> self.spec_fromspace().forwarding() == Map::<
            ObjectReference,
            ObjectReference,
        >::empty() && self.common.immortal.marked() == Set::<ObjectReference>::empty()
            && self.common.los.marked() == Set::<ObjectReference>::empty()
    }

    /// A plan that was prepared is ready to trace.
    pub proof fn lemma_prepared_is_ready(&self, heap: &Heap)
        requires
            self.plan_inv(heap),
            self.youngspace.is_from_space(),
            self.copyspace0.is_from_space() == self.hi,
            self.copyspace1.is_from_space() == !self.hi,
            self.youngspace.forwarding() == Map::<ObjectReference, ObjectReference>::empty(),
            self.copyspace0.forwarding() == Map::<ObjectReference, ObjectReference>::empty(),
            self.copyspace1.forwarding() == Map::<ObjectReference, ObjectReference>::empty(),
            self.common.immortal.marked() == Set::<ObjectReference>::empty(),
            self.common.los.marked() == Set::<ObjectReference>::empty(),
        ensures
            self.spec_trace_inv(heap),
            self.spec_traced() == Map::<ObjectReference, ObjectReference>::empty(),
    {
        assert(self.spec_traced() =~= Map::<ObjectReference, ObjectReference>::empty());
    }
}

impl TripleSpace {
    /// Whether there is room for every copy that the collection may still
    /// make: the three copying spaces are packed, and the semispace that is
    /// copied to has room for the objects of the nursery that were not
    /// copied yet and, in a collection of the whole heap, for those of the
    /// other semispace.
    pub open spec fn spec_has_reserve(&self, heap: &Heap) -> bool {
        &&& self.youngspace.packed(heap)
        &&& self.copyspace0.packed(heap)
        &&& self.copyspace1.packed(heap)
        &&& self.spec_tospace().common().used() + self.youngspace.unforwarded_bytes(heap) + (
        if self.gc_full_heap {
            self.spec_fromspace().unforwarded_bytes(heap)
        } else {
            0
        }) <= self.spec_tospace().common().extent()
    }

    /// There is room for the copies as before when the same objects were
    /// copied as before, the spaces are in use as before, and there are
    /// the same objects as before in the copying spaces, with as many
    /// fields.
    pub proof fn lemma_reserve_after(&self, after: &TripleSpace, heap: &Heap, heap_after: &Heap)
        requires
            self.spec_has_reserve(heap),
            self.layout(),
            self.youngspace.holds(heap),
            self.copyspace0.holds(heap),
            self.copyspace1.holds(heap),
            after.hi == self.hi,
            after.gc_full_heap == self.gc_full_heap,
            after.youngspace.allocated() == self.youngspace.allocated(),
            after.copyspace0.allocated() == self.copyspace0.allocated(),
            after.copyspace1.allocated() == self.copyspace1.allocated(),
            after.youngspace.forwarding().dom() == self.youngspace.forwarding().dom(),
            after.copyspace0.forwarding().dom() == self.copyspace0.forwarding().dom(),
            after.copyspace1.forwarding().dom() == self.copyspace1.forwarding().dom(),
            *after.youngspace.common() == *self.youngspace.common(),
            *after.copyspace0.common() == *self.copyspace0.common(),
            *after.copyspace1.common() == *self.copyspace1.common(),
            forall|o: ObjectReference|
                #![trigger heap_after.objects().contains_key(o)]
                (self.youngspace.common().contains(o@) || self.copyspace0.common().contains(o@)
                    || self.copyspace1.common().contains(o@)) ==> heap_after.objects().contains_key(
                    o,
                ) == heap.objects().contains_key(o) && (heap.objects().contains_key(o)
                    ==> heap_after.objects()[o].len() == heap.objects()[o].len()),
        ensures
            after.spec_has_reserve(heap_after),
    {
        self.youngspace.lemma_packed_after(&after.youngspace, heap, heap_after);
        self.copyspace0.lemma_packed_after(&after.copyspace0, heap, heap_after);
        self.copyspace1.lemma_packed_after(&after.copyspace1, heap, heap_after);
        self.youngspace.lemma_unforwarded_after(&after.youngspace, heap, heap_after);
        self.copyspace0.lemma_unforwarded_after(&after.copyspace0, heap, heap_after);
        self.copyspace1.lemma_unforwarded_after(&after.copyspace1, heap, heap_after);
    }
}

/// One of the copying spaces of the plan, by its role in a collection.
#[derive(Debug, Clone, Copy, PartialEq, Eq, Hash, Structural)]
pub enum CopySpaceRole {
    /// The nursery.
    Young,
    /// The semispace that is copied to.
    ToSpace,
    /// The semispace that is copied from.
    FromSpace,
}

impl TripleSpace {
    /// The space that has the given role.
    pub open spec fn spec_space(&self, role: CopySpaceRole) -> &crate::policy::copyspace::CopySpace {
        match role {
            CopySpaceRole::Young => &self.youngspace,
            CopySpaceRole::ToSpace => self.spec_tospace(),
            CopySpaceRole::FromSpace => self.spec_fromspace(),
        }
    }

    /// With room for the copies, an object of the nursery or of the
    /// semispace that is copied from is traced without a failure, and there
    /// is room for the copies that may still be made.
    pub proof fn lemma_reserve_after_trace(
        &self,
        after: &TripleSpace,
        heap: &Heap,
        heap_after: &Heap,
        role: CopySpaceRole,
        object: ObjectReference,
        res: Result<ObjectReference, GcError>,
    )
        requires
            self.spec_trace_inv(heap),
            self.spec_has_reserve(heap),
            !(role is ToSpace),
            role is FromSpace ==> self.gc_full_heap,
            self.spec_space(role).common().contains(object@),
            heap.objects().contains_key(object),
            after.hi == self.hi,
            after.gc_full_heap == self.gc_full_heap,
            // the space that the object lies in
            *after.spec_space(role).common() == *self.spec_space(role).common(),
            after.spec_space(role).allocated() == self.spec_space(role).allocated(),
            // the other space that is copied from
            role is Young ==> *after.spec_fromspace() == *self.spec_fromspace(),
            role is FromSpace ==> after.youngspace == self.youngspace,
            // the space that is copied to
            after.spec_tospace().common().start() == self.spec_tospace().common().start(),
            after.spec_tospace().common().extent() == self.spec_tospace().common().extent(),
            after.spec_tospace().forwarding() == self.spec_tospace().forwarding(),
            self.spec_space(role).forwarding().contains_key(object) ==> {
                &&& res is Ok
                &&& after.spec_space(role).forwarding() == self.spec_space(role).forwarding()
                &&& heap_after.objects() == heap.objects()
                &&& after.spec_tospace().common().used() == self.spec_tospace().common().used()
                &&& after.spec_tospace().allocated() == self.spec_tospace().allocated()
            },
            !self.spec_space(role).forwarding().contains_key(object) ==> match res {
                Ok(copy) => {
                    &&& copy@ == self.spec_tospace().common().start()
                        + self.spec_tospace().common().used()
                    &&& self.spec_tospace().common().contains(copy@)
                    &&& !heap.objects().contains_key(copy)
                    &&& heap_after.objects() == heap.objects().insert(copy, heap.objects()[object])
                    &&& after.spec_space(role).forwarding() == self.spec_space(
                        role,
                    ).forwarding().insert(object, copy)
                    &&& after.spec_tospace().common().used() == self.spec_tospace().common().used()
                        + crate::policy::space::spec_object_size(heap.objects()[object].len())
                    &&& after.spec_tospace().allocated() == self.spec_tospace().allocated().push(
                        copy,
                    )
                },
                Err(e) => {
                    &&& self.spec_tospace().common().used() + crate::policy::space::spec_object_size(
                        heap.objects()[object].len(),
                    ) > self.spec_tospace().common().extent()
                },
            },
        ensures
            res is Ok,
            after.spec_has_reserve(heap_after),
    {
        let from = self.spec_space(role);
        let from_after = after.spec_space(role);
        let to = self.spec_tospace();
        let to_after = after.spec_tospace();
        let other = if role is Young {
            self.spec_fromspace()
        } else {
            &self.youngspace
        };
        let other_after = if role is Young {
            after.spec_fromspace()
        } else {
            &after.youngspace
        };
        from.lemma_unforwarded_in_use(heap);
        other.lemma_unforwarded_in_use(heap);
        if from.forwarding().contains_key(object) {
            from.lemma_packed_after(from_after, heap, heap_after);
            from.lemma_unforwarded_after(from_after, heap, heap_after);
            other.lemma_packed_after(other_after, heap, heap_after);
            other.lemma_unforwarded_after(other_after, heap, heap_after);
            to.lemma_packed_after(to_after, heap, heap_after);
        } else {
            // the object is one of those that were not copied yet
            let all = from.allocated();
            assert(all.contains(object));
            crate::policy::copyspace::lemma_bytes_without(
                all,
                heap.objects(),
                from.forwarding().dom(),
                object,
            );
            crate::policy::copyspace::lemma_bytes_pointwise(
                all,
                heap.objects(),
                from.forwarding().dom().insert(object),
                heap.objects(),
                from.forwarding().dom(),
            );
            match res {
                Ok(copy) => {
                    from.lemma_unforwarded_after_copy(from_after, heap, heap_after, object, copy);
                    assert forall|i: int|
                        0 <= i < from.allocated().len() && heap_after.objects().contains_key(
                            #[trigger] from.allocated()[i],
                        ) implies heap.objects().contains_key(from.allocated()[i])
                        && heap_after.objects()[from.allocated()[i]].len()
                        == heap.objects()[from.allocated()[i]].len() by {
                        assert(from.common().contains(from.allocated()[i]@));
                    }
                    from.lemma_packed_after(from_after, heap, heap_after);
                    assert forall|i: int| 0 <= i < other.allocated().len() implies heap_after.objects().contains_key(
                        #[trigger] other.allocated()[i],
                    ) == heap.objects().contains_key(other.allocated()[i]) && (
                    heap.objects().contains_key(other.allocated()[i])
                        ==> heap_after.objects()[other.allocated()[i]].len()
                        == heap.objects()[other.allocated()[i]].len()) by {
                        assert(other.common().contains(other.allocated()[i]@));
                    }
                    other.lemma_packed_after(other_after, heap, heap_after);
                    other.lemma_unforwarded_after(other_after, heap, heap_after);
                    to.lemma_packed_after_allocation(
                        to_after,
                        heap,
                        heap_after,
                        copy,
                        heap.objects()[object],
                    );
                },
                Err(e) => {},
            }
        }
    }

    /// Traces `object` in the space with the given role, if the object
    /// lies in that space; else returns nothing and changes nothing.
    ///
    /// An object of the nursery or of the semispace that is copied from is
    /// copied into the semispace that is copied to, unless it was copied
    /// before. An object of the semispace that is copied to stays where it
    /// is.
    pub fn try_trace_object_in(
        &mut self,
        heap: &mut Heap,
        queue: &mut VectorObjectQueue,
        role: CopySpaceRole,
        object: ObjectReference,
    ) -> (res: Option<Result<ObjectReference, GcError>>)
        requires
            old(self).spec_trace_inv(old(heap)),
            object@ != 0,
            old(heap).objects().contains_key(object),
            role is FromSpace ==> old(self).gc_full_heap,
        ensures
            res is None <==> !old(self).spec_space(role).common().contains(object@),
            res is None ==> *final(self) == *old(self) && *final(heap) == *old(heap) && final(queue)@ == old(queue)@,
            final(self).spec_trace_inv(final(heap)),
            old(self).unchanged_but_traced(final(self)),
            forall|o: ObjectReference| final(self).spec_in_scope(o) == old(self).spec_in_scope(o),
            final(heap).roots() == old(heap).roots(),
            final(self).hi == old(self).hi,
            final(self).gc_full_heap == old(self).gc_full_heap,
            final(self).next_gc_full_heap == old(self).next_gc_full_heap,
            final(self).common.base == old(self).common.base,
            res matches Some(r) ==> spec_trace_step(
                old(self).spec_traced(),
                old(self).spec_in_scope(object),
                old(heap).objects(),
                old(queue)@,
                object,
                r,
                final(self).spec_traced(),
                final(heap).objects(),
                final(queue)@,
            ),
            res matches Some(Ok(now)) ==> !final(self).youngspace.common().contains(now@),
            old(self).spec_has_reserve(old(heap)) ==> final(self).spec_has_reserve(final(heap)) && !(
            res matches Some(Err(_))),
    {
        let ghost before = *heap;
        match role {
            CopySpaceRole::Young => {
                if !self.youngspace.in_space(object) {
                    return None;
                }
                let res = if self.hi {
                    self.youngspace.trace_object(heap, queue, object, &mut self.copyspace1)
                } else {
                    self.youngspace.trace_object(heap, queue, object, &mut self.copyspace0)
                };
                proof {
                    self.spec_fromspace().lemma_holds_without_new_object(&before, &*heap);
                    self.common.immortal.lemma_holds_without_new_object(&before, &*heap);
                    self.common.los.lemma_holds_without_new_object(&before, &*heap);
                    assert(self.spec_fromspace().forwarding() == old(
                        self,
                    ).spec_fromspace().forwarding());
                    if old(self).spec_has_reserve(&before) {
                        old(self).lemma_reserve_after_trace(
                            &*self,
                            &before,
                            &*heap,
                            CopySpaceRole::Young,
                            object,
                            res,
                        );
                    }
                    match res {
                        Ok(now) => {
                            if old(self).youngspace.forwarding().contains_key(object) {
                                assert(self.spec_traced() =~= old(self).spec_traced());
                            } else {
                                assert(self.spec_traced() =~= old(self).spec_traced().insert(
                                    object,
                                    now,
                                ));
                            }
                        },
                        Err(_) => {
                            assert(self.spec_traced() =~= old(self).spec_traced());
                        },
                    }
                }
                Some(res)
            },
            CopySpaceRole::ToSpace => {
                if !self.tospace().in_space(object) {
                    return None;
                }
                // What lies in the space that is copied to is not moved.
                Some(Ok(object))
            },
            CopySpaceRole::FromSpace => {
                if !self.fromspace().in_space(object) {
                    return None;
                }
                let res = if self.hi {
                    self.copyspace0.trace_object(heap, queue, object, &mut self.copyspace1)
                } else {
                    self.copyspace1.trace_object(heap, queue, object, &mut self.copyspace0)
                };
                proof {
                    self.youngspace.lemma_holds_without_new_object(&before, &*heap);
                    self.common.immortal.lemma_holds_without_new_object(&before, &*heap);
                    self.common.los.lemma_holds_without_new_object(&before, &*heap);
                    if old(self).spec_has_reserve(&before) {
                        old(self).lemma_reserve_after_trace(
                            &*self,
                            &before,
                            &*heap,
                            CopySpaceRole::FromSpace,
                            object,
                            res,
                        );
                    }
                    match res {
                        Ok(now) => {
                            if old(self).spec_fromspace().forwarding().contains_key(object) {
                                assert(self.spec_traced() =~= old(self).spec_traced());
                            } else {
                                assert(self.spec_traced() =~= old(self).spec_traced().insert(
                                    object,
                                    now,
                                ));
                            }
                        },
                        Err(_) => {
                            assert(self.spec_traced() =~= old(self).spec_traced());
                        },
                    }
                }
                Some(res)
            },
        }
    }
}

impl PlanTraceObject for TripleSpace {
    open spec fn trace_inv(&self, heap: &Heap) -> bool {
        self.spec_trace_inv(heap)
    }

    open spec fn traced(&self) -> Map<ObjectReference, ObjectReference> {
        self.spec_traced()
    }

    open spec fn in_scope(&self, object: ObjectReference) -> bool {
        self.spec_in_scope(object)
    }

    open spec fn spec_may_move_objects(&self) -> bool {
        true
    }

    open spec fn unchanged_but_traced(&self, later: &Self) -> bool {
        &&& later.hi == self.hi
        &&& later.gc_full_heap == self.gc_full_heap
        &&& later.next_gc_full_heap == self.next_gc_full_heap
        &&& later.common.base == self.common.base
        &&& *later.youngspace.common() == *self.youngspace.common()
        &&& *later.spec_fromspace().common() == *self.spec_fromspace().common()
        &&& *later.common.immortal.common() == *self.common.immortal.common()
        &&& *later.common.los.common() == *self.common.los.common()
        &&& later.spec_tospace().common().start() == self.spec_tospace().common().start()
        &&& later.spec_tospace().common().extent() == self.spec_tospace().common().extent()
    }

    proof fn lemma_unchanged_reflexive(&self) {
    }

    proof fn lemma_unchanged_transitive(&self, middle: &Self, later: &Self) {
    }

    proof fn lemma_copies_are_out_of_scope(&self, heap: &Heap, object: ObjectReference) {
    }

    proof fn lemma_inv_of_objects(&self, heap: &Heap, other: &Heap) {
        assert forall|o: ObjectReference| #[trigger]
            other.objects().contains_key(o) implies self.claims(o@) by {
            assert(heap.objects().contains_key(o));
        }
        self.youngspace.lemma_holds_without_new_object(heap, other);
        self.copyspace0.lemma_holds_without_new_object(heap, other);
        self.copyspace1.lemma_holds_without_new_object(heap, other);
        self.common.immortal.lemma_holds_without_new_object(heap, other);
        self.common.los.lemma_holds_without_new_object(heap, other);
    }

    proof fn lemma_traced_in_scope(&self, heap: &Heap, object: ObjectReference) {
    }

    open spec fn has_reserve(&self, heap: &Heap) -> bool {
        self.spec_has_reserve(heap) && self.spec_trace_inv(heap)
    }

    proof fn lemma_reserve_of_objects(&self, heap: &Heap, other: &Heap) {
        self.lemma_inv_of_objects(heap, other);
        self.lemma_reserve_after(self, heap, other);
    }

    /// Traces `object`.
    ///
    /// An object of the nursery is copied into the semispace that is copied
    /// to, unless it was copied before. A collection of the nursery leaves
    /// every other object as it is. A collection of the whole heap leaves an
    /// object of the semispace that is copied to as it is, copies an object
    /// of the other semispace, and marks an object of the common spaces.
    fn trace_object(
        &mut self,
        heap: &mut Heap,
        queue: &mut VectorObjectQueue,
        object: ObjectReference,
    ) -> (res: Result<ObjectReference, GcError>)
        ensures
            final(self).hi == old(self).hi,
            final(self).gc_full_heap == old(self).gc_full_heap,
            final(self).next_gc_full_heap == old(self).next_gc_full_heap,
            final(self).common.base == old(self).common.base,
            res matches Ok(now) ==> !final(self).youngspace.common().contains(now@),
    {
        match self.try_trace_object_in(heap, queue, CopySpaceRole::Young, object) {
            Some(res) => {
                return res;
            },
            None => {},
        }
        if !self.gc_full_heap {
            // A collection of the nursery ends here: it does not trace
            // the objects of other spaces.
            return Ok(object);
        }
        // A collection of the whole heap.
        match self.try_trace_object_in(heap, queue, CopySpaceRole::ToSpace, object) {
            Some(res) => {
                return res;
            },
            None => {},
        }
        match self.try_trace_object_in(heap, queue, CopySpaceRole::FromSpace, object) {
            Some(res) => {
                return res;
            },
            None => {},
        }
        let res = self.common.trace_object(queue, object);
        proof {
            if old(self).common.marked().contains(object) {
                assert(self.common.marked() =~= old(self).common.marked());
                assert(self.spec_traced() =~= old(self).spec_traced());
            } else {
                assert(self.common.marked() =~= old(self).common.marked().insert(object));
                assert(self.spec_traced() =~= old(self).spec_traced().insert(object, object));
            }
        }
        Ok(res)
    }

    /// Tracing may move an object if it may in one of the spaces of the
    /// plan or in those that plans share.
    fn may_move_objects(&self) -> (b: bool) {
        CopySpace::may_move_objects::<DEFAULT_TRACE>() || CommonPlan::may_move_objects::<
            DEFAULT_TRACE,
        >()
    }
}

/// What a collector thread has for copying objects: it allocates the
/// copies in the semispace that it is bound to.
pub struct TSCopyContext {
    tls: Option<usize>,
    bound_hi: bool,
}

impl TSCopyContext {
    /// The collector thread that the context belongs to, once it is known.
    pub closed spec fn tls(&self) -> Option<usize> {
        self.tls
    }

    /// Whether the context is bound to the second semispace.
    pub closed spec fn bound_hi(&self) -> bool {
        self.bound_hi
    }

    /// The context of the collector thread `tls` for the plan.
    pub fn create_worker_local(plan: &TripleSpace, tls: usize) -> (c: Self)
        ensures
            c.tls() == Some(tls),
            c.bound_hi() == plan.hi,
    {
        let mut c = TSCopyContext::new(plan);
        c.init(tls);
        c
    }

    /// A context that belongs to no thread yet and is bound to the
    /// semispace that `plan` copies to.
    pub fn new(plan: &TripleSpace) -> (c: Self)
        ensures
            c.tls() is None,
            c.bound_hi() == plan.hi,
    {
        // The binding is renewed in `prepare`.
        TSCopyContext { tls: None, bound_hi: plan.hi }
    }

    /// What the plan asks of the runtime.
    pub fn constraints(&self) -> (c: PlanConstraints)
        ensures
            c == spec_ts_constraints(),
    {
        ts_constraints()
    }

    /// Notes the collector thread that the context belongs to.
    pub fn init(&mut self, tls: usize)
        ensures
            final(self).tls() == Some(tls),
            final(self).bound_hi() == old(self).bound_hi(),
    {
        self.tls = Some(tls);
    }

    /// Binds the context to the semispace that `plan` copies to in the
    /// collection that begins.
    pub fn prepare(&mut self, plan: &TripleSpace)
        ensures
            final(self).tls() == old(self).tls(),
            final(self).bound_hi() == plan.hi,
    {
        self.bound_hi = plan.hi;
    }

    /// Ends a collection. The binding stays.
    pub fn release(&mut self)
        ensures
            *final(self) == *old(self),
    {
    }

    /// Takes `bytes` bytes for a copy from the semispace that the context
    /// is bound to. Returns the address of the first, or address zero if so
    /// many are not left.
    pub fn alloc_copy(&mut self, plan: &mut TripleSpace, heap: &Heap, bytes: usize) -> (addr: Address)
        requires
            old(plan).plan_inv(heap),
        ensures
            *final(self) == *old(self),
            final(plan).plan_inv(heap),
            final(plan).hi == old(plan).hi,
            final(plan).gc_full_heap == old(plan).gc_full_heap,
            final(plan).next_gc_full_heap == old(plan).next_gc_full_heap,
            final(plan).common == old(plan).common,
            final(plan).youngspace == old(plan).youngspace,
            ({
                let to = if old(self).bound_hi() {
                    old(plan).copyspace1
                } else {
                    old(plan).copyspace0
                };
                let to_after = if old(self).bound_hi() {
                    final(plan).copyspace1
                } else {
                    final(plan).copyspace0
                };
                &&& to.common().used() + bytes <= to.common().extent() ==> addr@
                    == to.common().start() + to.common().used() && to_after.common().used()
                    == to.common().used() + bytes
                &&& to.common().used() + bytes > to.common().extent() ==> addr@ == 0
                    && to_after.common().used() == to.common().used()
            }),
            old(self).bound_hi() ==> final(plan).copyspace0 == old(plan).copyspace0,
            !old(self).bound_hi() ==> final(plan).copyspace1 == old(plan).copyspace1,
    {
        let acquired = if self.bound_hi {
            plan.copyspace1.acquire(heap, bytes)
        } else {
            plan.copyspace0.acquire(heap, bytes)
        };
        match acquired {
            Some(addr) => addr,
            None => Address::zero(),
        }
    }

    /// Finishes the copy at `obj`: the copy counts as not written to since
    /// the collection.
    pub fn post_copy(&mut self, log_bits: &mut LogBits, obj: ObjectReference)
        ensures
            *final(self) == *old(self),
            final(log_bits).unlogged() == old(log_bits).unlogged().insert(obj),
    {
        log_bits.mark_as_unlogged(obj);
    }
}

/// A packet of edges of a collection of the plan: of the whole heap if
/// `IS_FULL_HEAP`, else of the nursery.
pub struct TSProcessEdges<const IS_FULL_HEAP: bool> {
    edges: Vec<HeapEdge>,
    roots: bool,
    nodes: VectorObjectQueue,
}

impl<const IS_FULL_HEAP: bool> TSProcessEdges<IS_FULL_HEAP> {
    /// The edges of the packet.
    pub closed spec fn edges(&self) -> Seq<HeapEdge> {
        self.edges@
    }

    /// Whether the edges are roots.
    pub closed spec fn roots(&self) -> bool {
        self.roots
    }

    /// The objects that were traced for the first time while the packet
    /// was processed, and wait to be scanned.
    pub closed spec fn nodes(&self) -> Seq<ObjectReference> {
        self.nodes@
    }

    /// The packet of the given edges.
    pub fn new(edges: Vec<HeapEdge>, roots: bool) -> (packet: Self)
        ensures
            packet.edges() == edges@,
            packet.roots() == roots,
            packet.nodes() == Seq::<ObjectReference>::empty(),
    {
        TSProcessEdges { edges, roots, nodes: VectorObjectQueue::new() }
    }

    /// Traces `object` in the space of `plan` with the given role, if the
    /// object lies in that space; else returns nothing and changes nothing.
    pub fn try_trace_object_in(
        &mut self,
        plan: &mut TripleSpace,
        heap: &mut Heap,
        role: CopySpaceRole,
        object: ObjectReference,
    ) -> (res: Option<Result<ObjectReference, GcError>>)
        requires
            old(plan).trace_inv(old(heap)),
            old(plan).gc_full_heap == IS_FULL_HEAP,
            object@ != 0,
            old(heap).objects().contains_key(object),
            role is FromSpace ==> IS_FULL_HEAP,
        ensures
            res is None <==> !old(plan).spec_space(role).common().contains(object@),
            res is None ==> *final(plan) == *old(plan) && *final(heap) == *old(heap) && final(self).nodes() == old(self).nodes(),
            final(plan).trace_inv(final(heap)),
            old(plan).has_reserve(old(heap)) ==> final(plan).has_reserve(final(heap)) && !(
            res matches Some(Err(_))),
            final(plan).gc_full_heap == IS_FULL_HEAP,
            final(self).edges() == old(self).edges(),
            final(self).roots() == old(self).roots(),
            forall|o: ObjectReference| final(plan).in_scope(o) == old(plan).in_scope(o),
            final(heap).roots() == old(heap).roots(),
            res matches Some(r) ==> spec_trace_step(
                old(plan).traced(),
                old(plan).in_scope(object),
                old(heap).objects(),
                old(self).nodes(),
                object,
                r,
                final(plan).traced(),
                final(heap).objects(),
                final(self).nodes(),
            ),
    {
        plan.try_trace_object_in(heap, &mut self.nodes, role, object)
    }

    /// Traces `object` and returns where it lies now. Null is returned as
    /// it is.
    pub fn trace_object(&mut self, plan: &mut TripleSpace, heap: &mut Heap, object: ObjectReference) -> (res:
        Result<ObjectReference, GcError>)
        requires
            old(plan).trace_inv(old(heap)),
            old(plan).gc_full_heap == IS_FULL_HEAP,
            object@ != 0 ==> old(heap).objects().contains_key(object),
        ensures
            final(plan).trace_inv(final(heap)),
            old(plan).has_reserve(old(heap)) ==> res is Ok && final(plan).has_reserve(final(heap)),
            final(plan).gc_full_heap == IS_FULL_HEAP,
            final(self).edges() == old(self).edges(),
            final(self).roots() == old(self).roots(),
            forall|o: ObjectReference| final(plan).in_scope(o) == old(plan).in_scope(o),
            final(heap).roots() == old(heap).roots(),
            object@ == 0 ==> res == Ok::<ObjectReference, GcError>(object) && final(plan).traced()
                == old(plan).traced() && final(heap).objects() == old(heap).objects() && final(self).nodes() == old(self).nodes(),
            object@ != 0 ==> spec_trace_step(
                old(plan).traced(),
                old(plan).in_scope(object),
                old(heap).objects(),
                old(self).nodes(),
                object,
                res,
                final(plan).traced(),
                final(heap).objects(),
                final(self).nodes(),
            ),
            // a collection of the nursery leaves no object in the nursery
            res matches Ok(now) ==> object@ != 0 ==> !final(plan).youngspace.common().contains(now@),
    {
        if object.is_null() {
            return Ok(object);
        }
        plan.trace_object(heap, &mut self.nodes, object)
    }

    /// Processes one edge of the packet: the object that it holds is
    /// traced, and the edge is made to hold the place where the object lies
    /// now.
    pub fn process_edge(&mut self, plan: &mut TripleSpace, heap: &mut Heap, slot: HeapEdge) -> (res:
        Result<ObjectReference, GcError>)
        requires
            old(plan).trace_inv(old(heap)),
            old(plan).gc_full_heap == IS_FULL_HEAP,
            old(heap).valid_edge(slot),
            old(heap).edge_value(slot)@ != 0 ==> old(heap).objects().contains_key(
                old(heap).edge_value(slot),
            ),
        ensures
            final(plan).trace_inv(final(heap)),
            old(plan).has_reserve(old(heap)) ==> res is Ok && final(plan).has_reserve(final(heap)),
            final(self).edges() == old(self).edges(),
            final(self).roots() == old(self).roots(),
            forall|o: ObjectReference| final(plan).in_scope(o) == old(plan).in_scope(o),
            ({
                let v = old(heap).edge_value(slot);
                if v@ == 0 {
                    &&& res == Ok::<ObjectReference, GcError>(v)
                    &&& final(plan).traced() == old(plan).traced()
                    &&& final(heap).objects() == old(heap).objects()
                    &&& final(heap).roots() == old(heap).roots()
                    &&& final(self).nodes() == old(self).nodes()
                } else {
                    match res {
                        Ok(now) => {
                            let mid = spec_objects_after_trace(
                                old(plan).traced(),
                                old(plan).in_scope(v),
                                old(heap).objects(),
                                v,
                                now,
                            );
                            &&& spec_trace_step(
                                old(plan).traced(),
                                old(plan).in_scope(v),
                                old(heap).objects(),
                                old(self).nodes(),
                                v,
                                res,
                                final(plan).traced(),
                                mid,
                                final(self).nodes(),
                            )
                            &&& final(heap).objects() == spec_objects_after_store(mid, slot, now)
                            &&& final(heap).roots() == spec_roots_after_store(
                                old(heap).roots(),
                                slot,
                                now,
                            )
                        },
                        Err(_) => {
                            &&& spec_trace_step(
                                old(plan).traced(),
                                old(plan).in_scope(v),
                                old(heap).objects(),
                                old(self).nodes(),
                                v,
                                res,
                                final(plan).traced(),
                                final(heap).objects(),
                                final(self).nodes(),
                            )
                            &&& final(heap).roots() == old(heap).roots()
                        },
                    }
                }
            }),
    {
        process_edge(plan, heap, &mut self.nodes, slot)
    }

    /// Takes out the objects that were traced for the first time, to be
    /// scanned.
    pub fn take_nodes(&mut self) -> (nodes: Vec<ObjectReference>)
        ensures
            nodes@ == old(self).nodes(),
            final(self).nodes() == Seq::<ObjectReference>::empty(),
            final(self).edges() == old(self).edges(),
            final(self).roots() == old(self).roots(),
    {
        self.nodes.take()
    }
}

} // verus!
