//! How the small runtime scans.

use crate::util::address::ObjectReference;
use crate::util::heap::spec_object_edges;
use crate::util::heap::Heap;
use crate::util::heap::HeapEdge;
use crate::vm::scanning::EdgeVisitor;
use crate::vm::scanning::Scanning;
use vstd::prelude::*;

verus! {

/// The small runtime. Its objects and roots are those of the heap.
pub struct DummyVM;

impl Scanning for DummyVM {
    /// Reports every field of `object`, in order.
    fn scan_object<EV: EdgeVisitor<HeapEdge>>(
        &self,
        heap: &Heap,
        edge_visitor: &mut EV,
        object: ObjectReference,
        tls: usize,
    )
        ensures
            final(edge_visitor).reported() == old(edge_visitor).reported() + spec_object_edges(
                object,
                heap.objects()[object].len(),
            ),
    {
        let edges = heap.scan_object(object);
        let mut k: usize = 0;
        assert(edges@.subrange(0, 0) =~= Seq::<HeapEdge>::empty());
        assert(old(edge_visitor).reported() + Seq::<HeapEdge>::empty() =~= old(
            edge_visitor,
        ).reported());
        while k < edges.len()
            invariant
                k <= edges@.len(),
                edge_visitor.ready(),
                edge_visitor.reported() == old(edge_visitor).reported() + edges@.subrange(
                    0,
                    k as int,
                ),
            decreases edges@.len() - k,
        {
            edge_visitor.visit_edge(edges[k]);
            assert(edges@.subrange(0, k + 1) =~= edges@.subrange(0, k as int).push(edges@[k as int]));
            assert((old(edge_visitor).reported() + edges@.subrange(0, k as int)).push(
                edges@[k as int],
            ) =~= old(edge_visitor).reported() + edges@.subrange(0, k + 1));
            k = k + 1;
        }
        assert(edges@.subrange(0, k as int) =~= edges@);
    }

    fn notify_initial_thread_scan_complete(&self, partial_scan: bool, tls: usize) {
    }

    /// Every root of the heap, in order.
    fn scan_thread_roots(&self, heap: &Heap) -> (roots: Vec<HeapEdge>)
        ensures
            roots@ == Seq::new(heap.roots().len(), |i: int| HeapEdge::Root(i as usize)),
    {
        let n = heap.num_roots();
        let mut roots: Vec<HeapEdge> = Vec::new();
        let mut i: usize = 0;
        while i < n
            invariant
                i <= n,
                n == heap.roots().len(),
                roots@ == Seq::new(i as nat, |j: int| HeapEdge::Root(j as usize)),
            decreases n - i,
        {
            roots.push(HeapEdge::Root(i));
            i = i + 1;
            assert(roots@ =~= Seq::new(i as nat, |j: int| HeapEdge::Root(j as usize)));
        }
        roots
    }

    /// The runtime has no roots of its own.
    fn scan_vm_specific_roots(&self, heap: &Heap) -> (roots: Vec<HeapEdge>)
        ensures
            roots@ == Seq::<HeapEdge>::empty(),
    {
        Vec::new()
    }

    /// The runtime has no return barriers.
    fn supports_return_barrier(&self) -> (b: bool)
        ensures
            !b,
    {
        false
    }

    fn prepare_for_roots_re_scanning(&self) {
    }
}

} // verus!
