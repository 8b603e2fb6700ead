//! The packets of edges of a collection of the nursery.

use crate::plan::closure::process_edge;
use crate::plan::closure::spec_objects_after_store;
use crate::plan::closure::spec_objects_after_trace;
use crate::plan::closure::spec_roots_after_store;
use crate::plan::tracing::VectorObjectQueue;
use crate::plan::transitive_closure::spec_trace_step;
use crate::plan::transitive_closure::PlanTraceObject;
use crate::policy::space::GcError;
use crate::util::address::ObjectReference;
use crate::util::heap::Heap;
use crate::util::heap::HeapEdge;
use vstd::prelude::*;

verus! {

/// A packet of edges of a collection of the nursery of a generational
/// plan.
pub struct GenNurseryProcessEdges {
    edges: Vec<HeapEdge>,
    roots: bool,
    nodes: VectorObjectQueue,
}

impl GenNurseryProcessEdges {
    /// The edges of the packet.
    pub closed spec fn edges(&self) -> Seq<HeapEdge> {
        self.edges@
    }

    /// Whether the edges are roots.
    pub closed spec fn roots(&self) -> bool {
        self.roots
    }

    /// The objects that were traced for the first time while the packet
    /// was processed, and wait to be scanned.
    pub closed spec fn nodes(&self) -> Seq<ObjectReference> {
        self.nodes@
    }

    /// The packet of the given edges.
    pub fn new(edges: Vec<HeapEdge>, roots: bool) -> (packet: Self)
        ensures
            packet.edges() == edges@,
            packet.roots() == roots,
            packet.nodes() == Seq::<ObjectReference>::empty(),
    {
        GenNurseryProcessEdges { edges, roots, nodes: VectorObjectQueue::new() }
    }

    /// Traces `object` through the plan `gen`, which traces the nursery,
    /// and returns where the object lies now. Null is returned as it is.
    pub fn trace_object<P: PlanTraceObject>(
        &mut self,
        gen: &mut P,
        heap: &mut Heap,
        object: ObjectReference,
    ) -> (res: Result<ObjectReference, GcError>)
        requires
            old(gen).trace_inv(old(heap)),
            object@ != 0 ==> old(heap).objects().contains_key(object),
        ensures
            final(gen).trace_inv(final(heap)),
            old(gen).has_reserve(old(heap)) ==> res is Ok && final(gen).has_reserve(final(heap)),
            final(self).edges() == old(self).edges(),
            final(self).roots() == old(self).roots(),
            forall|o: ObjectReference| final(gen).in_scope(o) == old(gen).in_scope(o),
            final(heap).roots() == old(heap).roots(),
            object@ == 0 ==> res == Ok::<ObjectReference, GcError>(object) && final(gen).traced()
                == old(gen).traced() && final(heap).objects() == old(heap).objects() && final(self).nodes() == old(self).nodes(),
            object@ != 0 ==> spec_trace_step(
                old(gen).traced(),
                old(gen).in_scope(object),
                old(heap).objects(),
                old(self).nodes(),
                object,
                res,
                final(gen).traced(),
                final(heap).objects(),
                final(self).nodes(),
            ),
            // an object that was moved does not lie in the nursery any more
            res matches Ok(now) ==> object@ != 0 && now != object ==> !final(gen).in_scope(now),
    {
        if object.is_null() {
            return Ok(object);
        }
        let res = gen.trace_object(heap, &mut self.nodes, object);
        proof {
            match res {
                Ok(now) => {
                    if now != object {
                        gen.lemma_copies_are_out_of_scope(&*heap, object);
                    }
                },
                Err(_) => {},
            }
        }
        res
    }

    /// Processes one edge of the packet: the object that it holds is
    /// traced, and the edge is made to hold the place where the object lies
    /// now.
    pub fn process_edge<P: PlanTraceObject>(
        &mut self,
        gen: &mut P,
        heap: &mut Heap,
        slot: HeapEdge,
    ) -> (res: Result<ObjectReference, GcError>)
        requires
            old(gen).trace_inv(old(heap)),
            old(heap).valid_edge(slot),
            old(heap).edge_value(slot)@ != 0 ==> old(heap).objects().contains_key(
                old(heap).edge_value(slot),
            ),
        ensures
            final(gen).trace_inv(final(heap)),
            old(gen).has_reserve(old(heap)) ==> res is Ok && final(gen).has_reserve(final(heap)),
            final(self).edges() == old(self).edges(),
            final(self).roots() == old(self).roots(),
            forall|o: ObjectReference| final(gen).in_scope(o) == old(gen).in_scope(o),
            ({
                let v = old(heap).edge_value(slot);
                if v@ == 0 {
                    &&& res == Ok::<ObjectReference, GcError>(v)
                    &&& final(gen).traced() == old(gen).traced()
                    &&& final(heap).objects() == old(heap).objects()
                    &&& final(heap).roots() == old(heap).roots()
                    &&& final(self).nodes() == old(self).nodes()
                } else {
                    match res {
                        Ok(now) => {
                            let mid = spec_objects_after_trace(
                                old(gen).traced(),
                                old(gen).in_scope(v),
                                old(heap).objects(),
                                v,
                                now,
                            );
                            &&& spec_trace_step(
                                old(gen).traced(),
                                old(gen).in_scope(v),
                                old(heap).objects(),
                                old(self).nodes(),
                                v,
                                res,
                                final(gen).traced(),
                                mid,
                                final(self).nodes(),
                            )
                            &&& final(heap).objects() == spec_objects_after_store(mid, slot, now)
                            &&& final(heap).roots() == spec_roots_after_store(
                                old(heap).roots(),
                                slot,
                                now,
                            )
                        },
                        Err(_) => {
                            &&& spec_trace_step(
                                old(gen).traced(),
                                old(gen).in_scope(v),
                                old(heap).objects(),
                                old(self).nodes(),
                                v,
                                res,
                                final(gen).traced(),
                                final(heap).objects(),
                                final(self).nodes(),
                            )
                            &&& final(heap).roots() == old(heap).roots()
                        },
                    }
                }
            }),
    {
        process_edge(gen, heap, &mut self.nodes, slot)
    }
}

} // verus!
