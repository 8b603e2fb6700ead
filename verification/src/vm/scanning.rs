//! What the toolkit asks of a runtime for scanning objects and roots.

use crate::util::address::ObjectReference;
use crate::util::heap::Heap;
use crate::util::heap::HeapEdge;
use vstd::prelude::*;

verus! {

/// What a scan reports the edges that it finds to.
pub trait EdgeVisitor<E> {
    /// What has to hold of the visitor for an edge to be handed to it.
    spec fn ready(&self) -> bool;

    /// The edges that were reported to the visitor, in the order in which
    /// they were.
    spec fn reported(&self) -> Seq<E>;

    /// Takes note of an edge.
    fn visit_edge(&mut self, edge: E)
        requires
            old(self).ready(),
        ensures
            final(self).ready(),
            final(self).reported() == old(self).reported().push(edge),
    ;
}

/// How a runtime scans its objects and roots.
pub trait Scanning {
    /// Whether the roots of the mutators are scanned after all mutators
    /// were stopped.
    fn scan_mutators_in_safepoint(&self) -> bool {
        true
    }

    /// Whether all mutators are scanned within one packet.
    fn single_thread_mutator_scanning(&self) -> bool {
        true
    }

    /// Scans `object`: reports each of its fields that holds a reference
    /// to `edge_visitor`.
    fn scan_object<EV: EdgeVisitor<HeapEdge>>(
        &self,
        heap: &Heap,
        edge_visitor: &mut EV,
        object: ObjectReference,
        tls: usize,
    )
        requires
            old(edge_visitor).ready(),
            heap.objects().contains_key(object),
        ensures
            final(edge_visitor).ready(),
    ;

    /// Tells the runtime that the stacks of the threads were scanned for
    /// the first time in this collection.
    fn notify_initial_thread_scan_complete(&self, partial_scan: bool, tls: usize);

    /// The roots of all mutators.
    fn scan_thread_roots(&self, heap: &Heap) -> (roots: Vec<HeapEdge>)
        ensures
            forall|i: int| 0 <= i < roots@.len() ==> heap.valid_edge(#[trigger] roots@[i]),
    ;

    /// The roots that are specific to the runtime.
    fn scan_vm_specific_roots(&self, heap: &Heap) -> (roots: Vec<HeapEdge>)
        ensures
            forall|i: int| 0 <= i < roots@.len() ==> heap.valid_edge(#[trigger] roots@[i]),
    ;

    /// Whether the runtime supports return barriers.
    fn supports_return_barrier(&self) -> bool;

    /// Prepares the runtime for its roots to be scanned once more.
    fn prepare_for_roots_re_scanning(&self);
}

} // verus!
