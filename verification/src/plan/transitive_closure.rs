//! The transitive closure over the object graph: what a plan promises of
//! tracing an object, and the buffer in which the edges of scanned objects
//! gather into packets.

use crate::plan::tracing::VectorObjectQueue;
use crate::policy::space::GcError;
use crate::util::address::ObjectReference;
use crate::util::heap::Heap;
use crate::vm::scanning::EdgeVisitor;
use vstd::prelude::*;

verus! {

/// The number of edges in a packet of edges, unless told otherwise.
pub const PROCESS_EDGES_CAPACITY: usize = 4096;

/// What tracing `object` comes to, in terms of what was traced before
/// (`traced`, which gives for each object where it lies now), of whether the
/// plan traces the object at all in this collection (`in_scope`), of the
/// objects of the heap and of the queue of objects to scan.
///
/// An object that was traced before is where it was found to be then. An
/// object that the plan does not trace stays where it is. Tracing either
/// changes nothing. An object that is traced for the first time either
/// stays where it is or is copied to a place where no object was; its place
/// is noted and put into the queue. If a copy cannot be made, nothing is
/// changed.
pub open spec fn spec_trace_step(
    traced: Map<ObjectReference, ObjectReference>,
    in_scope: bool,
    objects: Map<ObjectReference, Seq<ObjectReference>>,
    queue: Seq<ObjectReference>,
    object: ObjectReference,
    res: Result<ObjectReference, GcError>,
    traced_after: Map<ObjectReference, ObjectReference>,
    objects_after: Map<ObjectReference, Seq<ObjectReference>>,
    queue_after: Seq<ObjectReference>,
) -> bool {
    match res {
        Err(_) => {
            &&& !traced.contains_key(object)
            &&& in_scope
            &&& traced_after == traced
            &&& objects_after == objects
            &&& queue_after == queue
        },
        Ok(now) => {
            if traced.contains_key(object) {
                &&& now == traced[object]
                &&& traced_after == traced
                &&& objects_after == objects
                &&& queue_after == queue
            } else if !in_scope {
                &&& now == object
                &&& traced_after == traced
                &&& objects_after == objects
                &&& queue_after == queue
            } else {
                &&& traced_after == traced.insert(object, now)
                &&& queue_after == queue.push(now)
                &&& if now == object {
                    objects_after == objects
                } else {
                    &&& !objects.contains_key(now)
                    &&& now@ != 0
                    &&& objects_after == objects.insert(now, objects[object])
                }
            }
        },
    }
}

/// A plan as the tracing engine sees it: it traces an object through the
/// space that the object lies in.
pub trait PlanTraceObject {
    /// What holds of the plan and the heap while objects are traced.
    spec fn trace_inv(&self, heap: &Heap) -> bool;

    /// The objects that were traced in this collection, each with the
    /// place where it lies now.
    spec fn traced(&self) -> Map<ObjectReference, ObjectReference>;

    /// Whether this collection traces `object`. An object that it does not
    /// trace is left as it is.
    spec fn in_scope(&self, object: ObjectReference) -> bool;

    /// Whether tracing may move an object.
    spec fn spec_may_move_objects(&self) -> bool;

    /// Whether `later` is this plan but for what tracing changes: what
    /// was traced, and what is in use of the spaces that are copied to.
    spec fn unchanged_but_traced(&self, later: &Self) -> bool;

    /// A plan is itself but for what tracing changes.
    proof fn lemma_unchanged_reflexive(&self)
        ensures
            self.unchanged_but_traced(self),
    ;

    /// What tracing leaves as it is stays so over any number of traces.
    proof fn lemma_unchanged_transitive(&self, middle: &Self, later: &Self)
        requires
            self.unchanged_but_traced(middle),
            middle.unchanged_but_traced(later),
        ensures
            self.unchanged_but_traced(later),
    ;

    /// Where an object was copied to is a place that this collection does
    /// not trace.
    proof fn lemma_copies_are_out_of_scope(&self, heap: &Heap, object: ObjectReference)
        requires
            self.trace_inv(heap),
            self.traced().contains_key(object),
            self.traced()[object] != object,
        ensures
            !self.in_scope(self.traced()[object]),
            !self.traced().contains_key(self.traced()[object]),
    ;

    /// What holds of the plan and the heap does not depend on what the
    /// fields and roots hold, only on which objects there are.
    proof fn lemma_inv_of_objects(&self, heap: &Heap, other: &Heap)
        requires
            self.trace_inv(heap),
            forall|o: ObjectReference|
                heap.objects().contains_key(o) == other.objects().contains_key(o),
        ensures
            self.trace_inv(other),
    ;

    /// Whether there is room for every copy that this collection may
    /// still make.
    spec fn has_reserve(&self, heap: &Heap) -> bool;

    /// Whether there is room for the copies does not depend on what the
    /// fields and roots hold, only on which objects there are and on how
    /// many fields each has.
    proof fn lemma_reserve_of_objects(&self, heap: &Heap, other: &Heap)
        requires
            self.has_reserve(heap),
            forall|o: ObjectReference|
                heap.objects().contains_key(o) == other.objects().contains_key(o),
            forall|o: ObjectReference| #[trigger]
                heap.objects().contains_key(o) ==> other.objects()[o].len()
                    == heap.objects()[o].len(),
        ensures
            self.has_reserve(other),
    ;

    /// Every object that was traced is one that this collection traces.
    proof fn lemma_traced_in_scope(&self, heap: &Heap, object: ObjectReference)
        requires
            self.trace_inv(heap),
            self.traced().contains_key(object),
        ensures
            self.in_scope(object),
    ;

    /// Traces `object`: returns where it lies now, after it was marked or
    /// copied if this is the first time that it is traced. With room for
    /// every copy that the collection may still make, tracing does not
    /// fail.
    fn trace_object(
        &mut self,
        heap: &mut Heap,
        queue: &mut VectorObjectQueue,
        object: ObjectReference,
    ) -> (res: Result<ObjectReference, GcError>)
        requires
            old(self).trace_inv(old(heap)),
            object@ != 0,
            old(heap).objects().contains_key(object),
        ensures
            final(self).trace_inv(final(heap)),
            old(self).unchanged_but_traced(final(self)),
            forall|o: ObjectReference| final(self).in_scope(o) == old(self).in_scope(o),
            final(self).spec_may_move_objects() == old(self).spec_may_move_objects(),
            final(heap).roots() == old(heap).roots(),
            !old(self).spec_may_move_objects() ==> res == Ok::<ObjectReference, GcError>(object),
            old(self).has_reserve(old(heap)) ==> res is Ok && final(self).has_reserve(final(heap)),
            spec_trace_step(
                old(self).traced(),
                old(self).in_scope(object),
                old(heap).objects(),
                old(queue)@,
                object,
                res,
                final(self).traced(),
                final(heap).objects(),
                final(queue)@,
            ),
    ;

    /// Whether tracing may move an object. If it may not, the references
    /// in the edges need not be written back.
    fn may_move_objects(&self) -> (b: bool)
        ensures
            b == self.spec_may_move_objects(),
    ;
}

/// A buffer that gathers the edges of the objects that are scanned and
/// gives them out in packets.
pub struct ObjectsClosure<E> {
    buffer: Vec<E>,
    capacity: usize,
    packets: Vec<Vec<E>>,
}

/// The items of all of `parts`, one part after the other.
pub open spec fn spec_flatten<T>(parts: Seq<Seq<T>>) -> Seq<T>
    decreases parts.len(),
{
    if parts.len() == 0 {
        Seq::empty()
    } else {
        spec_flatten(parts.drop_last()) + parts.last()
    }
}

impl<E> ObjectsClosure<E> {
    /// The edges that wait for their packet to fill.
    pub closed spec fn pending(&self) -> Seq<E> {
        self.buffer@
    }

    /// The number of edges in a full packet.
    pub closed spec fn capacity(&self) -> int {
        self.capacity as int
    }

    /// The packets that were filled, oldest first.
    pub closed spec fn packets(&self) -> Seq<Seq<E>> {
        crate::plan::tracing::views(self.packets@)
    }

    /// All the edges that were added, in the order in which they came.
    pub open spec fn visited(&self) -> Seq<E> {
        spec_flatten(self.packets()) + self.pending()
    }

    /// An empty buffer that makes packets of `PROCESS_EDGES_CAPACITY`
    /// edges.
    pub fn new() -> (c: Self)
        ensures
            c.pending() == Seq::<E>::empty(),
            c.packets() == Seq::<Seq<E>>::empty(),
            c.capacity() == PROCESS_EDGES_CAPACITY,
    {
        let c = Self { buffer: Vec::new(), capacity: PROCESS_EDGES_CAPACITY, packets: Vec::new() };
        assert(c.packets() =~= Seq::<Seq<E>>::empty());
        c
    }

    /// An empty buffer that makes packets of `capacity` edges.
    pub fn with_capacity(capacity: usize) -> (c: Self)
        requires
            capacity > 0,
        ensures
            c.pending() == Seq::<E>::empty(),
            c.packets() == Seq::<Seq<E>>::empty(),
            c.capacity() == capacity,
    {
        let c = Self { buffer: Vec::new(), capacity, packets: Vec::new() };
        assert(c.packets() =~= Seq::<Seq<E>>::empty());
        c
    }

    /// Adds an edge. When that gives as many edges as a packet holds, they
    /// become a packet.
    pub fn push_edge(&mut self, slot: E)
        ensures
            final(self).capacity() == old(self).capacity(),
            final(self).visited() == old(self).visited().push(slot),
            old(self).pending().len() + 1 >= old(self).capacity() ==> final(self).pending()
                == Seq::<E>::empty() && final(self).packets() == old(self).packets().push(
                old(self).pending().push(slot),
            ),
            old(self).pending().len() + 1 < old(self).capacity() ==> final(self).pending() == old(
                self,
            ).pending().push(slot) && final(self).packets() == old(self).packets(),
    {
        if self.buffer.len() == 0 {
            self.buffer.reserve(self.capacity);
        }
        self.buffer.push(slot);
        if self.buffer.len() >= self.capacity {
            let mut new_edges: Vec<E> = Vec::new();
            core::mem::swap(&mut new_edges, &mut self.buffer);
            self.packets.push(new_edges);
            proof {
                let full = old(self).pending().push(slot);
                assert(self.packets() =~= old(self).packets().push(full));
                assert(self.packets().drop_last() =~= old(self).packets());
                assert(self.visited() =~= old(self).visited().push(slot));
            }
        } else {
            proof {
                assert(self.packets() =~= old(self).packets());
                assert(self.visited() =~= old(self).visited().push(slot));
            }
        }
    }

    /// Makes a packet of the edges that wait, however few, even none.
    fn flush(&mut self)
        ensures
            final(self).capacity() == old(self).capacity(),
            final(self).pending() == Seq::<E>::empty(),
            final(self).packets() == old(self).packets().push(old(self).pending()),
    {
        let mut new_edges: Vec<E> = Vec::new();
        core::mem::swap(&mut new_edges, &mut self.buffer);
        self.packets.push(new_edges);
        assert(self.packets() =~= old(self).packets().push(old(self).pending()));
    }

    /// Ends the gathering: the edges that wait become a last packet, and
    /// all packets are handed out, oldest first, to be added to the closure
    /// bucket. Together they hold every edge that was added, in order.
    pub fn finish(self) -> (packets: Vec<Vec<E>>)
        ensures
            crate::plan::tracing::views(packets@) == self.packets().push(self.pending()),
            spec_flatten(crate::plan::tracing::views(packets@)) == self.visited(),
    {
        let mut this = self;
        this.flush();
        proof {
            assert(this.packets().drop_last() =~= self.packets());
        }
        this.packets
    }
}

impl<E> EdgeVisitor<E> for ObjectsClosure<E> {
    open spec fn ready(&self) -> bool {
        true
    }

    open spec fn reported(&self) -> Seq<E> {
        self.visited()
    }

    /// Adds the edge to those that were gathered.
    fn visit_edge(&mut self, edge: E)
        ensures
            final(self).capacity() == old(self).capacity(),
            final(self).visited() == old(self).visited().push(edge),
            old(self).pending().len() + 1 >= old(self).capacity() ==> final(self).pending()
                == Seq::<E>::empty() && final(self).packets() == old(self).packets().push(
                old(self).pending().push(edge),
            ),
            old(self).pending().len() + 1 < old(self).capacity() ==> final(self).pending() == old(
                self,
            ).pending().push(edge) && final(self).packets() == old(self).packets(),
    {
        self.push_edge(edge);
    }
}

} // verus!
