//! The tracing engine: packets of edges are processed, which traces the
//! objects that the edges hold; the objects that are traced for the first
//! time are scanned, which gives more edges; and so on until no packet is
//! left.

use crate::plan::tracing::VectorObjectQueue;
use crate::plan::transitive_closure::spec_flatten;
use crate::plan::transitive_closure::spec_trace_step;
use crate::plan::transitive_closure::ObjectsClosure;
use crate::plan::transitive_closure::PlanTraceObject;
use crate::policy::space::GcError;
use crate::scheduler::gc_work::GCWork;
use crate::scheduler::work_bucket::WorkBucket;
use crate::util::address::ObjectReference;
use crate::util::heap::spec_load_edge;
use crate::util::heap::spec_valid_edge;
use crate::util::heap::Heap;
use crate::util::heap::HeapEdge;
use vstd::prelude::*;

verus! {

/// Where the object `v` lies now, given what was traced: where it was
/// found to lie when it was traced, and where it was if it was not traced.
pub open spec fn spec_image(
    traced: Map<ObjectReference, ObjectReference>,
    v: ObjectReference,
) -> ObjectReference {
    if traced.contains_key(v) {
        traced[v]
    } else {
        v
    }
}

/// The objects of the heap after `object` was traced and found to lie at
/// `now`: a copy of the object at `now`, if it was copied just then.
pub open spec fn spec_objects_after_trace(
    traced: Map<ObjectReference, ObjectReference>,
    in_scope: bool,
    objects: Map<ObjectReference, Seq<ObjectReference>>,
    object: ObjectReference,
    now: ObjectReference,
) -> Map<ObjectReference, Seq<ObjectReference>> {
    if traced.contains_key(object) || !in_scope || now == object {
        objects
    } else {
        objects.insert(now, objects[object])
    }
}

/// The objects of a heap after `value` was stored into `edge`.
pub open spec fn spec_objects_after_store(
    objects: Map<ObjectReference, Seq<ObjectReference>>,
    edge: HeapEdge,
    value: ObjectReference,
) -> Map<ObjectReference, Seq<ObjectReference>> {
    match edge {
        HeapEdge::Root(i) => objects,
        HeapEdge::Field(o, k) => objects.insert(o, objects[o].update(k as int, value)),
    }
}

/// The roots of a heap after `value` was stored into `edge`.
pub open spec fn spec_roots_after_store(
    roots: Seq<ObjectReference>,
    edge: HeapEdge,
    value: ObjectReference,
) -> Seq<ObjectReference> {
    match edge {
        HeapEdge::Root(i) => roots.update(i as int, value),
        HeapEdge::Field(o, k) => roots,
    }
}

/// Processes one edge: the object that the edge holds is traced, and the
/// edge is made to hold the place where the object lies now. An edge that
/// holds null is left as it is. Returns what the edge holds in the end.
pub fn process_edge<P: PlanTraceObject>(
    plan: &mut P,
    heap: &mut Heap,
    queue: &mut VectorObjectQueue,
    slot: HeapEdge,
) -> (res: Result<ObjectReference, GcError>)
    requires
        old(plan).trace_inv(old(heap)),
        old(heap).valid_edge(slot),
        old(heap).edge_value(slot)@ != 0 ==> old(heap).objects().contains_key(
            old(heap).edge_value(slot),
        ),
    ensures
        final(plan).trace_inv(final(heap)),
        old(plan).unchanged_but_traced(final(plan)),
        forall|o: ObjectReference| final(plan).in_scope(o) == old(plan).in_scope(o),
        final(plan).spec_may_move_objects() == old(plan).spec_may_move_objects(),
        old(plan).has_reserve(old(heap)) ==> res is Ok && final(plan).has_reserve(final(heap)),
        ({
            let v = old(heap).edge_value(slot);
            if v@ == 0 {
                &&& res == Ok::<ObjectReference, GcError>(v)
                &&& final(plan).traced() == old(plan).traced()
                &&& final(heap).objects() == old(heap).objects()
                &&& final(heap).roots() == old(heap).roots()
                &&& final(queue)@ == old(queue)@
            } else {
                match res {
                    Ok(now) => {
                        let mid = spec_objects_after_trace(
                            old(plan).traced(),
                            old(plan).in_scope(v),
                            old(heap).objects(),
                            v,
                            now,
                        );
                        &&& spec_trace_step(
                            old(plan).traced(),
                            old(plan).in_scope(v),
                            old(heap).objects(),
                            old(queue)@,
                            v,
                            res,
                            final(plan).traced(),
                            mid,
                            final(queue)@,
                        )
                        &&& final(heap).objects() == spec_objects_after_store(mid, slot, now)
                        &&& final(heap).roots() == spec_roots_after_store(
                            old(heap).roots(),
                            slot,
                            now,
                        )
                    },
                    Err(_) => {
                        &&& spec_trace_step(
                            old(plan).traced(),
                            old(plan).in_scope(v),
                            old(heap).objects(),
                            old(queue)@,
                            v,
                            res,
                            final(plan).traced(),
                            final(heap).objects(),
                            final(queue)@,
                        )
                        &&& final(heap).roots() == old(heap).roots()
                    },
                }
            }
        }),
{
    let object = heap.load(slot);
    if object.is_null() {
        proof {
            plan.lemma_unchanged_reflexive();
        }
        return Ok(object);
    }
    let new_object = plan.trace_object(heap, queue, object)?;
    let ghost mid = *heap;
    if plan.may_move_objects() {
        proof {
            // the edge is still a place of the heap
            match slot {
                HeapEdge::Root(i) => {},
                HeapEdge::Field(o, k) => {
                    assert(heap.objects().contains_key(o));
                    assert(heap.objects()[o] == old(heap).objects()[o]);
                },
            }
        }
        heap.store(slot, new_object);
        proof {
            plan.lemma_inv_of_objects(&mid, &*heap);
            if plan.has_reserve(&mid) {
                plan.lemma_reserve_of_objects(&mid, &*heap);
            }
        }
    } else {
        proof {
            match slot {
                HeapEdge::Root(i) => {
                    assert(heap.roots() =~= heap.roots().update(i as int, new_object));
                },
                HeapEdge::Field(o, k) => {
                    assert(heap.objects()[o] =~= heap.objects()[o].update(k as int, new_object));
                    assert(heap.objects() =~= heap.objects().insert(
                        o,
                        heap.objects()[o].update(k as int, new_object),
                    ));
                },
            }
        }
    }
    Ok(new_object)
}

/// What the engine keeps track of while it computes a closure, beside the
/// plan and the heap.
pub struct ClosureState {
    /// The objects of the heap when the closure began.
    pub h0: Map<ObjectReference, Seq<ObjectReference>>,
    /// The roots of the heap when the closure began.
    pub r0: Seq<ObjectReference>,
    /// For each object of the heap, the object that it was when the
    /// closure began: itself, or the object that it is a copy of.
    pub origin: Map<ObjectReference, ObjectReference>,
    /// A set of objects that the closure stays within.
    pub live: Set<ObjectReference>,
    /// The edges that the closure began with.
    pub root_edges: Set<HeapEdge>,
    /// The edges that wait to be processed.
    pub pending_edges: Set<HeapEdge>,
    /// The objects that wait to be scanned.
    pub pending_nodes: Set<ObjectReference>,
    /// The number of objects that wait to be scanned.
    pub pending_node_count: int,
    /// The objects that were scanned, in order.
    pub scanned: Seq<ObjectReference>,
}

/// Every reference in a field or a root of the heap is null or refers to
/// an object of the heap, and no object lies at address zero.
pub open spec fn spec_heap_closed(
    objects: Map<ObjectReference, Seq<ObjectReference>>,
    roots: Seq<ObjectReference>,
) -> bool {
    &&& !objects.contains_key(ObjectReference(0))
    &&& forall|o: ObjectReference, k: int|
        objects.contains_key(o) && 0 <= k < objects[o].len() ==> (#[trigger] objects[o][k])@ == 0
            || objects.contains_key(objects[o][k])
    &&& forall|i: int|
        0 <= i < roots.len() ==> (#[trigger] roots[i])@ == 0 || objects.contains_key(roots[i])
}

/// Whether `live` is a set of objects of the heap that takes in what the
/// edges of `root_edges` hold and what the fields of its objects hold: a
/// set that the closure from those edges stays within. No object lies at
/// address zero.
pub open spec fn spec_live_closed(
    objects: Map<ObjectReference, Seq<ObjectReference>>,
    roots: Seq<ObjectReference>,
    root_edges: Seq<HeapEdge>,
    live: Set<ObjectReference>,
) -> bool {
    &&& !objects.contains_key(ObjectReference(0))
    &&& forall|x: ObjectReference| #[trigger] live.contains(x) ==> objects.contains_key(x)
    &&& forall|x: ObjectReference, k: int|
        live.contains(x) && 0 <= k < objects[x].len() ==> (#[trigger] objects[x][k])@ == 0
            || live.contains(objects[x][k])
    &&& forall|i: int|
        0 <= i < root_edges.len() ==> spec_valid_edge(objects, roots, #[trigger] root_edges[i])
            && (spec_load_edge(objects, roots, root_edges[i])@ == 0 || live.contains(
            spec_load_edge(objects, roots, root_edges[i]),
        ))
}

/// In a closed heap all objects together are such a set.
pub proof fn lemma_closed_heap_is_live_closed(
    objects: Map<ObjectReference, Seq<ObjectReference>>,
    roots: Seq<ObjectReference>,
    root_edges: Seq<HeapEdge>,
)
    requires
        spec_heap_closed(objects, roots),
        forall|i: int|
            0 <= i < root_edges.len() ==> spec_valid_edge(objects, roots, #[trigger] root_edges[i]),
    ensures
        spec_live_closed(objects, roots, root_edges, objects.dom()),
{
    assert forall|i: int| 0 <= i < root_edges.len() implies spec_load_edge(
        objects,
        roots,
        #[trigger] root_edges[i],
    )@ == 0 || objects.dom().contains(spec_load_edge(objects, roots, root_edges[i])) by {
        match root_edges[i] {
            HeapEdge::Root(r) => {
                assert(roots[r as int]@ == 0 || objects.contains_key(roots[r as int]));
            },
            HeapEdge::Field(o, k) => {
                assert(objects[o][k as int]@ == 0 || objects.contains_key(objects[o][k as int]));
            },
        }
    }
}

/// What the place that `edge` stands for held when the closure began.
pub open spec fn spec_origin_value(st: ClosureState, edge: HeapEdge) -> ObjectReference {
    match edge {
        HeapEdge::Root(i) => st.r0[i as int],
        HeapEdge::Field(y, k) => st.h0[st.origin[y]][k as int],
    }
}

/// An edge is sound if it holds what it held when the closure began, or
/// the place where that object lies now.
pub open spec fn spec_edge_sound(
    traced: Map<ObjectReference, ObjectReference>,
    objects: Map<ObjectReference, Seq<ObjectReference>>,
    roots: Seq<ObjectReference>,
    st: ClosureState,
    edge: HeapEdge,
) -> bool {
    let v = spec_origin_value(st, edge);
    let cur = spec_load_edge(objects, roots, edge);
    cur == v || cur == spec_image(traced, v)
}

/// An edge is done if it holds the place where the object lies now that it
/// held when the closure began, and that object was traced if the
/// collection traces it.
pub open spec fn spec_edge_done<P: PlanTraceObject>(
    plan: &P,
    objects: Map<ObjectReference, Seq<ObjectReference>>,
    roots: Seq<ObjectReference>,
    st: ClosureState,
    edge: HeapEdge,
) -> bool {
    let v = spec_origin_value(st, edge);
    &&& spec_load_edge(objects, roots, edge) == spec_image(plan.traced(), v)
    &&& v@ != 0 && plan.in_scope(v) ==> plan.traced().contains_key(v)
}

/// Whether `edge` has to be processed before the closure is complete: it
/// is one of the edges that the closure began with, or a field of an object
/// that was scanned.
pub open spec fn spec_edge_due(st: ClosureState, edge: HeapEdge) -> bool {
    st.root_edges.contains(edge) || match edge {
        HeapEdge::Root(i) => false,
        HeapEdge::Field(y, k) => st.scanned.contains(y),
    }
}

/// What holds between the packets of a closure.
///
/// The heap has the objects that it began with, and copies of some. An
/// object that was traced began in the heap, is one that the collection
/// traces, and lies now at a place that was scanned or waits to be scanned.
/// Every edge is sound. Every edge that is due either waits to be processed
/// or is done.
pub open spec fn closure_inv<P: PlanTraceObject>(plan: &P, heap: &Heap, st: ClosureState) -> bool {
    let traced = plan.traced();
    let objects = heap.objects();
    let roots = heap.roots();
    &&& plan.trace_inv(heap)
    &&& !st.h0.contains_key(ObjectReference(0))
    &&& forall|x: ObjectReference| #[trigger] st.live.contains(x) ==> st.h0.contains_key(x)
    &&& forall|x: ObjectReference, k: int|
        st.live.contains(x) && 0 <= k < st.h0[x].len() ==> (#[trigger] st.h0[x][k])@ == 0
            || st.live.contains(st.h0[x][k])
    &&& st.h0.dom().finite()
    &&& traced.dom().finite()
    &&& traced.dom().len() == st.scanned.len() + st.pending_node_count
    &&& st.pending_node_count >= 0
    &&& roots.len() == st.r0.len()
    &&& !objects.contains_key(ObjectReference(0))
    &&& forall|x: ObjectReference| #[trigger]
        traced.contains_key(x) ==> {
            &&& st.h0.contains_key(x)
            &&& st.live.contains(x)
            &&& plan.in_scope(x)
            &&& objects.contains_key(traced[x])
            &&& st.origin[traced[x]] == x
            &&& st.scanned.contains(traced[x]) || st.pending_nodes.contains(traced[x])
        }
    &&& forall|y: ObjectReference| #[trigger]
        objects.contains_key(y) ==> {
            &&& st.h0.contains_key(st.origin[y])
            &&& objects[y].len() == st.h0[st.origin[y]].len()
            &&& st.h0.contains_key(y) ==> st.origin[y] == y
            &&& !st.h0.contains_key(y) ==> traced.contains_key(st.origin[y])
                && traced[st.origin[y]] == y && st.origin[y] != y
        }
    &&& forall|y: ObjectReference| #[trigger] st.h0.contains_key(y) ==> objects.contains_key(y)
    &&& forall|e: HeapEdge| #[trigger]
        spec_valid_edge(objects, roots, e) ==> {
            &&& spec_edge_sound(traced, objects, roots, st, e)
            &&& spec_edge_due(st, e) ==> st.pending_edges.contains(e) || spec_edge_done(
                plan,
                objects,
                roots,
                st,
                e,
            )
        }
    &&& forall|e: HeapEdge| #[trigger]
        st.pending_edges.contains(e) ==> spec_valid_edge(objects, roots, e) && (spec_origin_value(
            st,
            e,
        )@ == 0 || st.live.contains(spec_origin_value(st, e)))
    &&& forall|e: HeapEdge| #[trigger]
        st.root_edges.contains(e) ==> spec_valid_edge(objects, roots, e) && spec_valid_edge(
            st.h0,
            st.r0,
            e,
        )
    &&& forall|n: ObjectReference| #[trigger]
        st.pending_nodes.contains(n) ==> objects.contains_key(n) && traced.contains_key(
            st.origin[n],
        ) && traced[st.origin[n]] == n
    &&& forall|i: int|
        0 <= i < st.scanned.len() ==> objects.contains_key(#[trigger] st.scanned[i])
}

/// Under the invariant, what an edge that waits holds is null or an
/// object of the heap, and so is what it held when the closure began.
pub proof fn lemma_edge_holds_object<P: PlanTraceObject>(
    plan: &P,
    heap: &Heap,
    st: ClosureState,
    e: HeapEdge,
)
    requires
        closure_inv(plan, heap, st),
        st.pending_edges.contains(e),
    ensures
        heap.valid_edge(e),
        heap.edge_value(e)@ != 0 ==> heap.objects().contains_key(heap.edge_value(e)),
        spec_origin_value(st, e)@ != 0 ==> st.h0.contains_key(spec_origin_value(st, e))
            && st.live.contains(spec_origin_value(st, e)),
{
    let objects = heap.objects();
    let roots = heap.roots();
    assert(spec_valid_edge(objects, roots, e));
    assert(spec_edge_sound(plan.traced(), objects, roots, st, e));
    let v = spec_origin_value(st, e);
    if v@ != 0 {
        assert(st.live.contains(v));
        assert(st.h0.contains_key(v));
        assert(objects.contains_key(v));
        if plan.traced().contains_key(v) {
            assert(objects.contains_key(plan.traced()[v]));
        }
    }
}

/// The invariant still holds after an edge that waited was processed. The
/// edge waits no longer; the object that it held waits to be scanned if it
/// was traced for the first time.
pub proof fn lemma_process_edge_preserves<P: PlanTraceObject>(
    before: &P,
    heap_before: &Heap,
    queue_before: Seq<ObjectReference>,
    after: &P,
    heap_after: &Heap,
    queue_after: Seq<ObjectReference>,
    st: ClosureState,
    slot: HeapEdge,
    now: ObjectReference,
    st_after: ClosureState,
)
    requires
        closure_inv(before, heap_before, st),
        st.pending_edges.contains(slot),
        after.trace_inv(heap_after),
        forall|o: ObjectReference| after.in_scope(o) == before.in_scope(o),
        ({
            let v = heap_before.edge_value(slot);
            if v@ == 0 {
                &&& now == v
                &&& after.traced() == before.traced()
                &&& heap_after.objects() == heap_before.objects()
                &&& heap_after.roots() == heap_before.roots()
                &&& queue_after == queue_before
            } else {
                let mid = spec_objects_after_trace(
                    before.traced(),
                    before.in_scope(v),
                    heap_before.objects(),
                    v,
                    now,
                );
                &&& spec_trace_step(
                    before.traced(),
                    before.in_scope(v),
                    heap_before.objects(),
                    queue_before,
                    v,
                    Ok(now),
                    after.traced(),
                    mid,
                    queue_after,
                )
                &&& heap_after.objects() == spec_objects_after_store(mid, slot, now)
                &&& heap_after.roots() == spec_roots_after_store(heap_before.roots(), slot, now)
            }
        }),
        ({
            let v = heap_before.edge_value(slot);
            let fresh = v@ != 0 && !before.traced().contains_key(v) && before.in_scope(v);
            &&& st_after.h0 == st.h0
            &&& st_after.r0 == st.r0
            &&& st_after.live == st.live
            &&& st_after.root_edges == st.root_edges
            &&& st_after.scanned == st.scanned
            &&& st_after.origin == (if fresh && now != v {
                st.origin.insert(now, v)
            } else {
                st.origin
            })
            &&& st_after.pending_node_count == (if fresh {
                st.pending_node_count + 1
            } else {
                st.pending_node_count
            })
            &&& forall|n: ObjectReference|
                st.pending_nodes.contains(n) || (fresh && n == now)
                    ==> st_after.pending_nodes.contains(n)
            &&& forall|n: ObjectReference|
                st_after.pending_nodes.contains(n) ==> st.pending_nodes.contains(n) || (fresh && n
                    == now)
            &&& forall|e: HeapEdge|
                st.pending_edges.contains(e) && e != slot ==> st_after.pending_edges.contains(e)
            &&& forall|e: HeapEdge|
                st_after.pending_edges.contains(e) ==> st.pending_edges.contains(e)
        }),
    ensures
        closure_inv(after, heap_after, st_after),
{
    let v = heap_before.edge_value(slot);
    let t0 = before.traced();
    let t1 = after.traced();
    let ob = heap_before.objects();
    let rb = heap_before.roots();
    let oa = heap_after.objects();
    let ra = heap_after.roots();
    lemma_edge_holds_object(before, heap_before, st, slot);
    let fresh = v@ != 0 && !t0.contains_key(v) && before.in_scope(v);
    let copied = fresh && now != v;
    assert(spec_valid_edge(ob, rb, slot));
    assert(spec_edge_sound(t0, ob, rb, st, slot));
    let w = spec_origin_value(st, slot);
    // the object that was traced is one that the heap began with
    if v@ != 0 {
        assert(ob.contains_key(v));
        if !st.h0.contains_key(v) {
            // then it is a copy, which the collection does not trace
            let x = st.origin[v];
            assert(t0.contains_key(x) && t0[x] == v && x != v);
            before.lemma_copies_are_out_of_scope(heap_before, x);
        }
    }
    if fresh {
        assert(st.h0.contains_key(v));
        assert(t1 =~= t0.insert(v, now));
        assert(t1.dom() =~= t0.dom().insert(v));
    } else {
        assert(t1 == t0);
    }
    let mid = if v@ == 0 {
        ob
    } else {
        spec_objects_after_trace(t0, before.in_scope(v), ob, v, now)
    };
    // which objects there are, and how long they are
    assert forall|y: ObjectReference| oa.contains_key(y) <==> ob.contains_key(y) || (copied && y
        == now) by {}
    assert forall|y: ObjectReference| #[trigger] oa.contains_key(y) implies oa[y].len() == (if copied
        && y == now {
        ob[v].len()
    } else {
        ob[y].len()
    }) by {}
    // the image of what the edge held at the beginning is what it holds now
    assert(now == spec_image(t1, w) && (w@ != 0 && after.in_scope(w) ==> t1.contains_key(w))) by {
        if v@ == 0 {
            if w@ != 0 {
                // the edge held the image of w, which is not null
                assert(t0.contains_key(w));
                assert(ob.contains_key(t0[w]));
            }
        } else if v == w {
        } else {
            // the edge held the image of w already
            assert(t0.contains_key(w) && t0[w] == v);
            before.lemma_copies_are_out_of_scope(heap_before, w);
        }
    }
    // an object that is traced for the first time is what the edge held
    // when the closure began
    if fresh {
        assert(v == w) by {
            if v != w {
                assert(t0.contains_key(w) && t0[w] == v);
                assert(st.origin[t0[w]] == w);
            }
        }
        assert(st.live.contains(v));
    }
    assert forall|x: ObjectReference| #[trigger] t1.contains_key(x) implies {
        &&& st_after.h0.contains_key(x)
        &&& st_after.live.contains(x)
        &&& after.in_scope(x)
        &&& oa.contains_key(t1[x])
        &&& st_after.origin[t1[x]] == x
        &&& st_after.scanned.contains(t1[x]) || st_after.pending_nodes.contains(t1[x])
    } by {
        if fresh && x == v {
            assert(t1[x] == now);
            if !copied {
                assert(st.origin[v] == v);
            }
        } else {
            assert(t0.contains_key(x));
            assert(t1[x] == t0[x]);
            assert(ob.contains_key(t0[x]));
        }
    }
    assert forall|y: ObjectReference| #[trigger] oa.contains_key(y) implies {
        &&& st_after.h0.contains_key(st_after.origin[y])
        &&& oa[y].len() == st_after.h0[st_after.origin[y]].len()
        &&& st_after.h0.contains_key(y) ==> st_after.origin[y] == y
        &&& !st_after.h0.contains_key(y) ==> t1.contains_key(st_after.origin[y])
            && t1[st_after.origin[y]] == y && st_after.origin[y] != y
    } by {
        if copied && y == now {
            assert(st.origin[v] == v);
        } else {
            assert(ob.contains_key(y));
            if !st.h0.contains_key(y) {
                assert(t0.contains_key(st.origin[y]));
            }
        }
    }
    assert forall|e: HeapEdge| #[trigger] spec_valid_edge(oa, ra, e) implies {
        &&& spec_edge_sound(t1, oa, ra, st_after, e)
        &&& spec_edge_due(st_after, e) ==> st_after.pending_edges.contains(e) || spec_edge_done(
            after,
            oa,
            ra,
            st_after,
            e,
        )
    } by {
        let cur = spec_load_edge(oa, ra, e);
        if e == slot {
            assert(spec_origin_value(st_after, e) == w);
            if v@ == 0 {
                assert(cur == v);
            } else {
                assert(cur == now);
            }
        } else {
            // the place that this edge stood for before
            let e0 = match e {
                HeapEdge::Root(i) => e,
                HeapEdge::Field(y, k) => if copied && y == now {
                    HeapEdge::Field(v, k)
                } else {
                    e
                },
            };
            assert(spec_valid_edge(ob, rb, e0));
            assert(spec_load_edge(ob, rb, e0) == cur);
            assert(spec_edge_sound(t0, ob, rb, st, e0));
            let u = spec_origin_value(st, e0);
            assert(spec_origin_value(st_after, e) == u) by {
                match e {
                    HeapEdge::Root(i) => {},
                    HeapEdge::Field(y, k) => {
                        if copied && y == now {
                            assert(st.origin[v] == v);
                        } else {
                            assert(ob.contains_key(y));
                        }
                    },
                }
            }
            // the image of u changes only if u is the object traced just now
            if fresh && u == v {
                assert(spec_image(t0, u) == u);
            } else {
                assert(spec_image(t1, u) == spec_image(t0, u));
            }
            if spec_edge_due(st_after, e) && !st_after.pending_edges.contains(e) {
                // a copy made just now was not scanned
                assert(e0 == e) by {
                    match e {
                        HeapEdge::Root(i) => {},
                        HeapEdge::Field(y, k) => {
                            if copied && y == now {
                                if st.scanned.contains(y) {
                                    let j = choose|j: int|
                                        0 <= j < st.scanned.len() && st.scanned[j] == y;
                                    assert(ob.contains_key(st.scanned[j]));
                                }
                                assert(spec_valid_edge(ob, rb, e) ==> ob.contains_key(y));
                                if st.root_edges.contains(e) {
                                    assert(spec_valid_edge(ob, rb, e));
                                }
                            }
                        },
                    }
                }
                assert(spec_edge_due(st, e));
                assert(!st.pending_edges.contains(e));
                assert(spec_edge_done(before, ob, rb, st, e));
            }
        }
    }
    assert forall|e: HeapEdge| #[trigger] st_after.pending_edges.contains(e) implies spec_valid_edge(
        oa,
        ra,
        e,
    ) && (spec_origin_value(st_after, e)@ == 0 || st_after.live.contains(
        spec_origin_value(st_after, e),
    )) by {
        assert(st.pending_edges.contains(e));
        assert(spec_valid_edge(ob, rb, e));
        match e {
            HeapEdge::Root(i) => {},
            HeapEdge::Field(y, k) => {
                assert(ob.contains_key(y));
                assert(st_after.origin[y] == st.origin[y]);
            },
        }
    }
    assert forall|n: ObjectReference| #[trigger] st_after.pending_nodes.contains(n) implies oa.contains_key(
        n,
    ) && t1.contains_key(st_after.origin[n]) && t1[st_after.origin[n]] == n by {
        if fresh && n == now {
            if !copied {
                assert(st.origin[v] == v);
            }
        } else {
            assert(st.pending_nodes.contains(n));
            assert(ob.contains_key(n));
            assert(t0.contains_key(st.origin[n]));
        }
    }
    assert forall|e: HeapEdge| #[trigger] st_after.root_edges.contains(e) implies spec_valid_edge(
        oa,
        ra,
        e,
    ) && spec_valid_edge(st_after.h0, st_after.r0, e) by {
        assert(spec_valid_edge(ob, rb, e));
    }
    assert forall|i: int| 0 <= i < st_after.scanned.len() implies oa.contains_key(
        #[trigger] st_after.scanned[i],
    ) by {
        assert(ob.contains_key(st.scanned[i]));
    }
    assert forall|y: ObjectReference| #[trigger] st_after.h0.contains_key(y) implies oa.contains_key(
        y,
    ) by {
        assert(ob.contains_key(y));
    }
}

/// The invariant still holds after an object that waited was scanned,
/// when its fields wait to be processed.
pub proof fn lemma_scan_preserves<P: PlanTraceObject>(
    plan: &P,
    heap: &Heap,
    st: ClosureState,
    node: ObjectReference,
    st_after: ClosureState,
)
    requires
        closure_inv(plan, heap, st),
        st.pending_node_count >= 1,
        st.pending_nodes.contains(node),
        st_after.h0 == st.h0,
        st_after.r0 == st.r0,
        st_after.live == st.live,
        st_after.origin == st.origin,
        st_after.root_edges == st.root_edges,
        st_after.scanned == st.scanned.push(node),
        st_after.pending_node_count == st.pending_node_count - 1,
        forall|n: ObjectReference|
            st.pending_nodes.contains(n) && n != node ==> st_after.pending_nodes.contains(n),
        forall|n: ObjectReference|
            st_after.pending_nodes.contains(n) ==> st.pending_nodes.contains(n),
        forall|e: HeapEdge| st.pending_edges.contains(e) ==> st_after.pending_edges.contains(e),
        forall|e: HeapEdge|
            (e matches HeapEdge::Field(y, k) && y == node && k < heap.objects()[node].len())
                ==> #[trigger] st_after.pending_edges.contains(e),
        forall|e: HeapEdge|
            st_after.pending_edges.contains(e) ==> st.pending_edges.contains(e) || (
            e matches HeapEdge::Field(y, k) && y == node && k < heap.objects()[node].len()),
    ensures
        closure_inv(plan, heap, st_after),
{
    let traced = plan.traced();
    let objects = heap.objects();
    let roots = heap.roots();
    assert forall|e: HeapEdge| #[trigger] st_after.pending_edges.contains(e) implies spec_valid_edge(
        objects,
        roots,
        e,
    ) && (spec_origin_value(st_after, e)@ == 0 || st_after.live.contains(
        spec_origin_value(st_after, e),
    )) by {
        if st.pending_edges.contains(e) {
        } else {
            match e {
                HeapEdge::Root(i) => {},
                HeapEdge::Field(y, k) => {
                    let x = st.origin[node];
                    assert(traced.contains_key(x) && traced[x] == node);
                    assert(st.live.contains(x));
                    assert(st.h0[x][k as int]@ == 0 || st.live.contains(st.h0[x][k as int]));
                },
            }
        }
    }
    assert forall|n: ObjectReference| #[trigger] st_after.pending_nodes.contains(n) implies objects.contains_key(
        n,
    ) && traced.contains_key(st_after.origin[n]) && traced[st_after.origin[n]] == n by {
        assert(st.pending_nodes.contains(n));
    }
    assert forall|x: ObjectReference| #[trigger] traced.contains_key(x) implies st_after.scanned.contains(
        traced[x],
    ) || st_after.pending_nodes.contains(traced[x]) by {
        if traced[x] == node {
            assert(st_after.scanned[st.scanned.len() as int] == node);
        } else if st.scanned.contains(traced[x]) {
            let j = choose|j: int| 0 <= j < st.scanned.len() && st.scanned[j] == traced[x];
            assert(st_after.scanned[j] == traced[x]);
        }
    }
    assert forall|e: HeapEdge| #[trigger] spec_valid_edge(objects, roots, e) implies {
        &&& spec_edge_sound(traced, objects, roots, st_after, e)
        &&& spec_edge_due(st_after, e) ==> st_after.pending_edges.contains(e) || spec_edge_done(
            plan,
            objects,
            roots,
            st_after,
            e,
        )
    } by {
        assert(spec_edge_sound(traced, objects, roots, st, e));
        assert(spec_origin_value(st_after, e) == spec_origin_value(st, e));
        if spec_edge_due(st_after, e) && !st_after.pending_edges.contains(e) {
            match e {
                HeapEdge::Root(i) => {},
                HeapEdge::Field(y, k) => {
                    if y == node {
                        assert(st_after.pending_edges.contains(e));
                    } else if st_after.scanned.contains(y) {
                        let j = choose|j: int|
                            0 <= j < st_after.scanned.len() && st_after.scanned[j] == y;
                        assert(st.scanned[j] == y);
                    }
                },
            }
            assert(spec_edge_due(st, e));
        }
    }
    assert forall|i: int| 0 <= i < st_after.scanned.len() implies objects.contains_key(
        #[trigger] st_after.scanned[i],
    ) by {
        if i < st.scanned.len() {
            assert(objects.contains_key(st.scanned[i]));
        }
    }
}

/// The closure is complete: every object that was traced was scanned where
/// it lies now, and every edge that was due, that is every edge that the
/// closure began with and every field of an object that was scanned, holds
/// the place where the object lies now that it held at the beginning; that
/// object was traced if the collection traces it.
pub open spec fn closure_complete<P: PlanTraceObject>(plan: &P, heap: &Heap, st: ClosureState) -> bool {
    let traced = plan.traced();
    &&& forall|x: ObjectReference| #[trigger]
        traced.contains_key(x) ==> {
            &&& st.h0.contains_key(x)
            &&& heap.objects().contains_key(traced[x])
            &&& st.scanned.contains(traced[x])
            &&& st.origin[traced[x]] == x
            &&& heap.objects()[traced[x]].len() == st.h0[x].len()
        }
    &&& forall|e: HeapEdge| #[trigger]
        spec_valid_edge(heap.objects(), heap.roots(), e) && spec_edge_due(st, e) ==> spec_edge_done(
            plan,
            heap.objects(),
            heap.roots(),
            st,
            e,
        )
    &&& forall|e: HeapEdge| #[trigger]
        st.root_edges.contains(e) ==> spec_valid_edge(heap.objects(), heap.roots(), e)
}

/// When nothing waits any more, the closure is complete.
pub proof fn lemma_closure_complete<P: PlanTraceObject>(plan: &P, heap: &Heap, st: ClosureState)
    requires
        closure_inv(plan, heap, st),
        forall|e: HeapEdge| !st.pending_edges.contains(e),
        forall|n: ObjectReference| !st.pending_nodes.contains(n),
    ensures
        closure_complete(plan, heap, st),
{
    let traced = plan.traced();
    assert forall|x: ObjectReference| #[trigger] traced.contains_key(x) implies {
        &&& st.h0.contains_key(x)
        &&& heap.objects().contains_key(traced[x])
        &&& st.scanned.contains(traced[x])
        &&& st.origin[traced[x]] == x
        &&& heap.objects()[traced[x]].len() == st.h0[x].len()
    } by {
        assert(heap.objects().contains_key(traced[x]));
    }
}

/// The edges that wait: those in the packets of `queue` and those of
/// `rest`.
pub open spec fn spec_pending_edges(queue: Seq<GCWork>, rest: Seq<HeapEdge>) -> Set<HeapEdge> {
    Set::new(|e: HeapEdge| queue_has_edge(queue, e) || rest.contains(e))
}

/// The objects that wait to be scanned: those in the packets of `queue`
/// and those of `rest`.
pub open spec fn spec_pending_nodes(queue: Seq<GCWork>, rest: Seq<ObjectReference>) -> Set<
    ObjectReference,
> {
    Set::new(|n: ObjectReference| queue_has_node(queue, n) || rest.contains(n))
}

/// Whether one of the packets in `queue` is a packet of edges that holds
/// `edge`.
pub open spec fn queue_has_edge(queue: Seq<GCWork>, edge: HeapEdge) -> bool {
    exists|i: int|
        0 <= i < queue.len() && (#[trigger] queue[i] matches GCWork::ProcessEdges { edges, roots }
            && edges@.contains(edge))
}

/// Whether one of the packets in `queue` is a packet of objects to scan
/// that holds `node`.
pub open spec fn queue_has_node(queue: Seq<GCWork>, node: ObjectReference) -> bool {
    exists|i: int|
        0 <= i < queue.len() && (#[trigger] queue[i] matches GCWork::ScanObjects { nodes }
            && nodes@.contains(node))
}

/// The number of objects to scan in a packet.
pub open spec fn packet_node_count(work: GCWork) -> int {
    match work {
        GCWork::ScanObjects { nodes } => nodes@.len() as int,
        _ => 0,
    }
}

/// The weight of a packet: one, and one more for each edge in it.
pub open spec fn packet_weight(work: GCWork) -> int {
    match work {
        GCWork::ProcessEdges { edges, roots } => 1 + edges@.len() as int,
        _ => 1,
    }
}

/// The number of objects to scan in all packets of `queue`.
pub open spec fn queue_node_count(queue: Seq<GCWork>) -> int
    decreases queue.len(),
{
    if queue.len() == 0 {
        0
    } else {
        queue_node_count(queue.drop_last()) + packet_node_count(queue.last())
    }
}

/// The weight of all packets of `queue`.
pub open spec fn queue_weight(queue: Seq<GCWork>) -> int
    decreases queue.len(),
{
    if queue.len() == 0 {
        0
    } else {
        queue_weight(queue.drop_last()) + packet_weight(queue.last())
    }
}

/// Counts and weights are not negative, and taking the first packet off a
/// queue takes off its count and weight.
pub proof fn lemma_queue_drop_first(queue: Seq<GCWork>)
    requires
        queue.len() > 0,
    ensures
        queue_node_count(queue) == queue_node_count(queue.drop_first()) + packet_node_count(
            queue[0],
        ),
        queue_weight(queue) == queue_weight(queue.drop_first()) + packet_weight(queue[0]),
        queue_node_count(queue.drop_first()) >= 0,
        queue_weight(queue.drop_first()) >= 0,
    decreases queue.len(),
{
    if queue.len() == 1 {
        assert(queue.drop_last() =~= Seq::<GCWork>::empty());
        assert(queue.drop_first() =~= Seq::<GCWork>::empty());
    } else {
        lemma_queue_drop_first(queue.drop_last());
        assert(queue.drop_first().drop_last() =~= queue.drop_last().drop_first());
        assert(queue.drop_first().last() == queue.last());
        assert(queue.drop_last()[0] == queue[0]);
    }
}

/// Adding a packet at the end of a queue adds its count and weight.
pub proof fn lemma_queue_push(queue: Seq<GCWork>, work: GCWork)
    ensures
        queue_node_count(queue.push(work)) == queue_node_count(queue) + packet_node_count(work),
        queue_weight(queue.push(work)) == queue_weight(queue) + packet_weight(work),
{
    assert(queue.push(work).drop_last() =~= queue);
}

/// What a complete closure has brought about, in terms of the heap as it
/// was when the closure began (`h0`, `r0`), the edges that the closure began
/// with, and the objects that were scanned.
///
/// Every object that was traced began in the heap and was scanned where it
/// lies now. Each of its fields, and each edge that the closure began with,
/// holds the place where the object lies now that the field or edge held at
/// the beginning: the place of the copy if the object was copied, the same
/// place if it was not moved, and null if it held null. And what a field or
/// edge held at the beginning was traced, if the collection traces it.
/// No object was scanned twice, and none that was not traced.
pub open spec fn spec_closure_result<P: PlanTraceObject>(
    plan: &P,
    heap: &Heap,
    h0: Map<ObjectReference, Seq<ObjectReference>>,
    r0: Seq<ObjectReference>,
    root_edges: Seq<HeapEdge>,
    scanned: Seq<ObjectReference>,
) -> bool {
    let traced = plan.traced();
    &&& forall|x: ObjectReference| #[trigger]
        traced.contains_key(x) ==> {
            &&& h0.contains_key(x)
            &&& heap.objects().contains_key(traced[x])
            &&& scanned.contains(traced[x])
            &&& heap.objects()[traced[x]].len() == h0[x].len()
            &&& forall|k: int|
                0 <= k < h0[x].len() ==> {
                    &&& heap.objects()[traced[x]][k] == spec_image(traced, #[trigger] h0[x][k])
                    &&& h0[x][k]@ != 0 && plan.in_scope(h0[x][k]) ==> traced.contains_key(h0[x][k])
                }
        }
    &&& forall|i: int|
        0 <= i < root_edges.len() ==> {
            let e = #[trigger] root_edges[i];
            let v = spec_load_edge(h0, r0, e);
            &&& spec_valid_edge(heap.objects(), heap.roots(), e)
            &&& spec_load_edge(heap.objects(), heap.roots(), e) == spec_image(traced, v)
            &&& v@ != 0 && plan.in_scope(v) ==> traced.contains_key(v)
        }
    &&& !heap.objects().contains_key(ObjectReference(0))
    &&& heap.roots().len() == r0.len()
    &&& forall|i: int|
        0 <= i < r0.len() ==> (#[trigger] heap.roots()[i]) == r0[i] || heap.roots()[i]
            == spec_image(traced, r0[i])
    &&& forall|y: ObjectReference| #[trigger]
        h0.contains_key(y) ==> {
            &&& heap.objects().contains_key(y)
            &&& heap.objects()[y].len() == h0[y].len()
            &&& forall|k: int|
                0 <= k < h0[y].len() ==> (#[trigger] heap.objects()[y][k]) == h0[y][k]
                    || heap.objects()[y][k] == spec_image(traced, h0[y][k])
        }
    &&& forall|y: ObjectReference| #[trigger]
        heap.objects().contains_key(y) ==> h0.contains_key(y) || exists|x: ObjectReference|
            #[trigger] traced.contains_key(x) && traced[x] == y
    &&& scanned.no_duplicates()
    &&& forall|i: int| 0 <= i < scanned.len() ==> spec_is_place_of_traced(traced, #[trigger] scanned[i])
}

/// Computes the transitive closure from `root_edges`: processes the
/// edges, scans the objects that are traced for the first time, processes
/// their edges, and so on until no packet is left. Returns the objects that
/// were scanned, in the order in which they were.
///
/// The packets wait in a bucket, from which they are taken oldest first.
/// The closure ends with an error, half done, if an object cannot be
/// copied; with room for every copy that the collection may make, it does
/// not.
pub fn trace_closure<P: PlanTraceObject>(
    plan: &mut P,
    heap: &mut Heap,
    root_edges: Vec<HeapEdge>,
) -> (res: Result<Vec<ObjectReference>, GcError>)
    requires
        old(plan).trace_inv(old(heap)),
        old(plan).traced() == Map::<ObjectReference, ObjectReference>::empty(),
        old(heap).objects().dom().finite(),
        exists|live: Set<ObjectReference>| #[trigger]
            spec_live_closed(old(heap).objects(), old(heap).roots(), root_edges@, live),
    ensures
        final(plan).trace_inv(final(heap)),
        old(plan).unchanged_but_traced(final(plan)),
        forall|o: ObjectReference| final(plan).in_scope(o) == old(plan).in_scope(o),
        old(plan).has_reserve(old(heap)) ==> res is Ok && final(plan).has_reserve(final(heap)),
        res matches Ok(scanned) ==> spec_closure_result(
            final(plan),
            final(heap),
            old(heap).objects(),
            old(heap).roots(),
            root_edges@,
            scanned@,
        ),
{
    let ghost h0 = heap.objects();
    let ghost r0 = heap.roots();
    let ghost roots_seq = root_edges@;
    let ghost live = choose|live: Set<ObjectReference>| #[trigger]
        spec_live_closed(heap.objects(), heap.roots(), root_edges@, live);
    let ghost none_e = Seq::<HeapEdge>::empty();
    let ghost none_n = Seq::<ObjectReference>::empty();
    let mut bucket: WorkBucket<GCWork> = WorkBucket::new(true);
    bucket.add(GCWork::ProcessEdges { edges: root_edges, roots: true });
    let mut scanned: Vec<ObjectReference> = Vec::new();
    let ghost mut st = ClosureState {
        h0,
        r0,
        origin: Map::new(|o: ObjectReference| true, |o: ObjectReference| o),
        live,
        root_edges: Set::new(|e: HeapEdge| roots_seq.contains(e)),
        pending_edges: spec_pending_edges(bucket.queue(), none_e),
        pending_nodes: spec_pending_nodes(bucket.queue(), none_n),
        pending_node_count: 0,
        scanned: Seq::empty(),
    };
    proof {
        let q = bucket.queue();
        assert(q =~= Seq::<GCWork>::empty().push(q[0]));
        lemma_queue_push(Seq::<GCWork>::empty(), q[0]);
        assert forall|e: HeapEdge| st.pending_edges.contains(e) <==> roots_seq.contains(e) by {
            if roots_seq.contains(e) {
                assert(q[0] matches GCWork::ProcessEdges { edges, roots } && edges@.contains(e));
            }
        }
        assert forall|e: HeapEdge| #[trigger]
            spec_valid_edge(heap.objects(), heap.roots(), e) implies spec_edge_sound(
            plan.traced(),
            heap.objects(),
            heap.roots(),
            st,
            e,
        ) by {
            match e {
                HeapEdge::Root(i) => {},
                HeapEdge::Field(y, k) => {},
            }
        }
        assert forall|e: HeapEdge| #[trigger] st.root_edges.contains(e) implies spec_valid_edge(
            heap.objects(),
            heap.roots(),
            e,
        ) && (spec_origin_value(st, e)@ == 0 || st.live.contains(spec_origin_value(st, e))) by {
            let i = choose|i: int| 0 <= i < roots_seq.len() && roots_seq[i] == e;
            assert(heap.valid_edge(roots_seq[i]));
            assert(spec_origin_value(st, e) == spec_load_edge(heap.objects(), heap.roots(), e));
        }
        assert forall|e: HeapEdge| #[trigger] st.pending_edges.contains(e) implies st.root_edges.contains(
            e,
        ) by {}
        assert(plan.traced().dom() =~= Set::<ObjectReference>::empty());
        assert(closure_inv(&*plan, &*heap, st));
        plan.lemma_unchanged_reflexive();
    }
    loop
        invariant
            closure_inv(&*plan, &*heap, st),
            old(plan).unchanged_but_traced(&*plan),
            old(plan).has_reserve(old(heap)) ==> plan.has_reserve(&*heap),
            bucket.is_open(),
            st.h0 == h0,
            st.r0 == r0,
            none_e == Seq::<HeapEdge>::empty(),
            none_n == Seq::<ObjectReference>::empty(),
            st.root_edges == Set::new(|e: HeapEdge| roots_seq.contains(e)),
            st.scanned == scanned@,
            st.pending_node_count == queue_node_count(bucket.queue()),
            st.pending_edges == spec_pending_edges(bucket.queue(), none_e),
            st.pending_nodes == spec_pending_nodes(bucket.queue(), none_n),
            forall|o: ObjectReference| plan.in_scope(o) == old(plan).in_scope(o),
            queue_weight(bucket.queue()) >= 0,
            forall|i: int|
                0 <= i < bucket.queue().len() ==> (#[trigger] bucket.queue()[i] matches GCWork::ScanObjects {
                    nodes,
                } ==> nodes@.len() > 0),
        ensures
            closure_inv(&*plan, &*heap, st),
            old(plan).unchanged_but_traced(&*plan),
            old(plan).has_reserve(old(heap)) ==> plan.has_reserve(&*heap),
            st.h0 == h0,
            st.r0 == r0,
            st.root_edges == Set::new(|e: HeapEdge| roots_seq.contains(e)),
            st.scanned == scanned@,
            forall|e: HeapEdge| !st.pending_edges.contains(e),
            forall|n: ObjectReference| !st.pending_nodes.contains(n),
            forall|o: ObjectReference| plan.in_scope(o) == old(plan).in_scope(o),
            st.pending_node_count == 0,
        decreases
                st.h0.dom().len() - plan.traced().dom().len(),
                queue_node_count(bucket.queue()),
                queue_weight(bucket.queue()),
    {
        let ghost q_before = bucket.queue();
        let ghost traced_before = plan.traced();
        proof {
            vstd::set_lib::lemma_len_subset(plan.traced().dom(), st.h0.dom());
        }
        let work = match bucket.poll() {
            Some(work) => work,
            None => {
                break ;
            },
        };
        let ghost q = bucket.queue();
        proof {
            lemma_queue_drop_first(q_before);
            assert(q == q_before.drop_first());
            assert(work == q_before[0]);
            assert forall|i: int| 0 <= i < q.len() implies (#[trigger] q[i] matches GCWork::ScanObjects {
                nodes,
            } ==> nodes@.len() > 0) by {
                assert(q[i] == q_before[i + 1]);
            }
        }
        match work {
            GCWork::ProcessEdges { edges, roots } => {
                let mut queue = VectorObjectQueue::new();
                let mut i: usize = 0;
                proof {
                    assert(edges@.subrange(0, edges@.len() as int) =~= edges@);
                    assert(st.pending_edges =~= spec_pending_edges(q, edges@)) by {
                        assert forall|e: HeapEdge|
                            st.pending_edges.contains(e) <==> spec_pending_edges(
                                q,
                                edges@,
                            ).contains(e) by {
                            lemma_has_edge_drop_first(q_before, e);
                        }
                    }
                    assert(st.pending_nodes =~= spec_pending_nodes(q, queue@)) by {
                        assert forall|n: ObjectReference|
                            st.pending_nodes.contains(n) <==> spec_pending_nodes(
                                q,
                                queue@,
                            ).contains(n) by {
                            lemma_has_node_drop_first(q_before, n);
                        }
                    }
                }
                while i < edges.len()
                    invariant
                        i <= edges@.len(),
                        closure_inv(&*plan, &*heap, st),
                        old(plan).unchanged_but_traced(&*plan),
                        old(plan).has_reserve(old(heap)) ==> plan.has_reserve(&*heap),
                        bucket.queue() == q,
                        bucket.is_open(),
                        st.h0 == h0,
                        st.r0 == r0,
                        st.root_edges == Set::new(|e: HeapEdge| roots_seq.contains(e)),
                        st.scanned == scanned@,
                        st.pending_node_count == queue_node_count(q) + queue@.len(),
                        st.pending_edges == spec_pending_edges(
                            q,
                            edges@.subrange(i as int, edges@.len() as int),
                        ),
                        st.pending_nodes == spec_pending_nodes(q, queue@),
                        forall|o: ObjectReference| plan.in_scope(o) == old(plan).in_scope(o),
                        queue@.len() == 0 ==> plan.traced() == traced_before,
                        queue@.len() > 0 ==> plan.traced().dom().len() > traced_before.dom().len(),
                    decreases edges@.len() - i,
                {
                    let slot = edges[i];
                    let ghost plan_before = *plan;
                    let ghost heap_before = *heap;
                    let ghost queue_before = queue@;
                    let ghost rest = edges@.subrange(i as int, edges@.len() as int);
                    let ghost rest_after = edges@.subrange(i + 1, edges@.len() as int);
                    proof {
                        assert(rest[0] == slot);
                        assert(rest.contains(slot));
                        assert(st.pending_edges.contains(slot));
                        lemma_edge_holds_object(&*plan, &*heap, st, slot);
                    }
                    let processed = process_edge(plan, heap, &mut queue, slot);
                    proof {
                        old(plan).lemma_unchanged_transitive(&plan_before, &*plan);
                    }
                    let now = processed?;
                    proof {
                        let v = heap_before.edge_value(slot);
                        let fresh = v@ != 0 && !plan_before.traced().contains_key(v)
                            && plan_before.in_scope(v);
                        let st_after = ClosureState {
                            origin: if fresh && now != v {
                                st.origin.insert(now, v)
                            } else {
                                st.origin
                            },
                            pending_node_count: if fresh {
                                st.pending_node_count + 1
                            } else {
                                st.pending_node_count
                            },
                            pending_nodes: spec_pending_nodes(q, queue@),
                            pending_edges: spec_pending_edges(q, rest_after),
                            ..st
                        };
                        if fresh {
                            assert(queue@ == queue_before.push(now));
                            assert(queue@.last() == now);
                            assert(plan.traced().dom() =~= plan_before.traced().dom().insert(v));
                        } else {
                            assert(queue@ == queue_before);
                        }
                        assert forall|n: ObjectReference|
                            st.pending_nodes.contains(n) || (fresh && n == now)
                                implies st_after.pending_nodes.contains(n) by {
                            if queue_before.contains(n) {
                                let j = choose|j: int|
                                    0 <= j < queue_before.len() && queue_before[j] == n;
                                assert(queue@[j] == n);
                            }
                        }
                        assert forall|n: ObjectReference|
                            st_after.pending_nodes.contains(n) implies st.pending_nodes.contains(n)
                            || (fresh && n == now) by {
                            if queue@.contains(n) && !queue_before.contains(n) {
                                let j = choose|j: int| 0 <= j < queue@.len() && queue@[j] == n;
                                if j < queue_before.len() {
                                    assert(queue_before[j] == n);
                                }
                            }
                        }
                        assert forall|e: HeapEdge|
                            st.pending_edges.contains(e) && e != slot
                                implies st_after.pending_edges.contains(e) by {
                            if rest.contains(e) {
                                let j = choose|j: int| 0 <= j < rest.len() && rest[j] == e;
                                assert(j > 0);
                                assert(rest_after[j - 1] == e);
                            }
                        }
                        assert forall|e: HeapEdge|
                            st_after.pending_edges.contains(e) implies st.pending_edges.contains(
                            e,
                        ) by {
                            if rest_after.contains(e) {
                                let j = choose|j: int|
                                    0 <= j < rest_after.len() && rest_after[j] == e;
                                assert(rest[j + 1] == e);
                            }
                        }
                        lemma_process_edge_preserves(
                            &plan_before,
                            &heap_before,
                            queue_before,
                            &*plan,
                            &*heap,
                            queue@,
                            st,
                            slot,
                            now,
                            st_after,
                        );
                        st = st_after;
                    }
                    i = i + 1;
                }
                proof {
                    assert(edges@.subrange(i as int, edges@.len() as int) =~= none_e);
                }
                if !queue.is_empty() {
                    let ghost nodes_seq = queue@;
                    let nodes = queue.into_vec();
                    bucket.add(GCWork::ScanObjects { nodes });
                    proof {
                        let q2 = bucket.queue();
                        lemma_queue_push(q, q2.last());
                        assert(st.pending_edges =~= spec_pending_edges(q2, none_e)) by {
                            assert forall|e: HeapEdge|
                                st.pending_edges.contains(e) <==> spec_pending_edges(
                                    q2,
                                    none_e,
                                ).contains(e) by {
                                lemma_has_edge_push(q, q2.last(), e);
                            }
                        }
                        assert(st.pending_nodes =~= spec_pending_nodes(q2, none_n)) by {
                            assert forall|n: ObjectReference|
                                st.pending_nodes.contains(n) <==> spec_pending_nodes(
                                    q2,
                                    none_n,
                                ).contains(n) by {
                                lemma_has_node_push(q, q2.last(), n);
                            }
                        }
                        assert forall|j: int| 0 <= j < q2.len() implies (#[trigger] q2[j] matches GCWork::ScanObjects {
                            nodes,
                        } ==> nodes@.len() > 0) by {
                            if j < q.len() {
                                assert(q2[j] == q[j]);
                            }
                        }
                        vstd::set_lib::lemma_len_subset(plan.traced().dom(), st.h0.dom());
                    }
                } else {
                    proof {
                        assert(st.pending_nodes =~= spec_pending_nodes(q, none_n));
                    }
                }
            },
            GCWork::ScanObjects { nodes } => {
                let mut closure: ObjectsClosure<HeapEdge> = ObjectsClosure::new();
                let mut j: usize = 0;
                proof {
                    assert(nodes@.len() > 0);
                    assert(nodes@.subrange(0, nodes@.len() as int) =~= nodes@);
                    assert(spec_flatten(closure.packets()) =~= Seq::<HeapEdge>::empty());
                    assert(closure.visited() =~= none_e);
                    assert(st.pending_edges =~= spec_pending_edges(q, closure.visited())) by {
                        assert forall|e: HeapEdge|
                            st.pending_edges.contains(e) <==> spec_pending_edges(
                                q,
                                closure.visited(),
                            ).contains(e) by {
                            lemma_has_edge_drop_first(q_before, e);
                        }
                    }
                    assert(st.pending_nodes =~= spec_pending_nodes(q, nodes@)) by {
                        assert forall|n: ObjectReference|
                            st.pending_nodes.contains(n) <==> spec_pending_nodes(
                                q,
                                nodes@,
                            ).contains(n) by {
                            lemma_has_node_drop_first(q_before, n);
                        }
                    }
                }
                while j < nodes.len()
                    invariant
                        j <= nodes@.len(),
                        closure_inv(&*plan, &*heap, st),
                        old(plan).unchanged_but_traced(&*plan),
                        old(plan).has_reserve(old(heap)) ==> plan.has_reserve(&*heap),
                        bucket.queue() == q,
                        bucket.is_open(),
                        plan.traced() == traced_before,
                        st.h0 == h0,
                        st.r0 == r0,
                        st.root_edges == Set::new(|e: HeapEdge| roots_seq.contains(e)),
                        st.scanned == scanned@,
                        st.pending_node_count == queue_node_count(q) + nodes@.len() - j,
                        queue_node_count(q) >= 0,
                        st.pending_edges == spec_pending_edges(q, closure.visited()),
                        st.pending_nodes == spec_pending_nodes(
                            q,
                            nodes@.subrange(j as int, nodes@.len() as int),
                        ),
                        forall|o: ObjectReference| plan.in_scope(o) == old(plan).in_scope(o),
                    decreases nodes@.len() - j,
                {
                    let node = nodes[j];
                    let ghost rest = nodes@.subrange(j as int, nodes@.len() as int);
                    let ghost rest_after = nodes@.subrange(j + 1, nodes@.len() as int);
                    proof {
                        assert(rest[0] == node);
                        assert(rest.contains(node));
                        assert(st.pending_nodes.contains(node));
                    }
                    let edges = heap.scan_object(node);
                    let ghost visited_before = closure.visited();
                    let mut k: usize = 0;
                    proof {
                        assert(visited_before + edges@.subrange(0, 0) =~= visited_before);
                    }
                    while k < edges.len()
                        invariant
                            k <= edges@.len(),
                            closure.visited() == visited_before + edges@.subrange(0, k as int),
                        decreases edges@.len() - k,
                    {
                        closure.push_edge(edges[k]);
                        proof {
                            assert(visited_before + edges@.subrange(0, k + 1) =~= (visited_before
                                + edges@.subrange(0, k as int)).push(edges@[k as int]));
                        }
                        k = k + 1;
                    }
                    scanned.push(node);
                    proof {
                        assert(edges@.subrange(0, k as int) =~= edges@);
                        let st_after = ClosureState {
                            scanned: st.scanned.push(node),
                            pending_node_count: st.pending_node_count - 1,
                            pending_nodes: spec_pending_nodes(q, rest_after),
                            pending_edges: spec_pending_edges(q, closure.visited()),
                            ..st
                        };
                        assert forall|n: ObjectReference|
                            st.pending_nodes.contains(n) && n != node
                                implies st_after.pending_nodes.contains(n) by {
                            if rest.contains(n) {
                                let i = choose|i: int| 0 <= i < rest.len() && rest[i] == n;
                                assert(i > 0);
                                assert(rest_after[i - 1] == n);
                            }
                        }
                        assert forall|n: ObjectReference|
                            st_after.pending_nodes.contains(n) implies st.pending_nodes.contains(
                            n,
                        ) by {
                            if rest_after.contains(n) {
                                let i = choose|i: int|
                                    0 <= i < rest_after.len() && rest_after[i] == n;
                                assert(rest[i + 1] == n);
                                assert(rest.contains(n));
                            }
                        }
                        assert forall|e: HeapEdge|
                            st.pending_edges.contains(e) implies st_after.pending_edges.contains(
                            e,
                        ) by {
                            lemma_concat_contains(visited_before, edges@, e);
                        }
                        assert forall|e: HeapEdge|
                            (e matches HeapEdge::Field(y, k) && y == node && k
                                < heap.objects()[node].len()) implies #[trigger] st_after.pending_edges.contains(
                            e,
                        ) by {
                            match e {
                                HeapEdge::Root(i) => {},
                                HeapEdge::Field(y, k) => {
                                    assert(edges@[k as int] == e);
                                    lemma_concat_contains(visited_before, edges@, e);
                                },
                            }
                        }
                        assert forall|e: HeapEdge|
                            st_after.pending_edges.contains(e) implies st.pending_edges.contains(e)
                            || (e matches HeapEdge::Field(y, k) && y == node && k
                            < heap.objects()[node].len()) by {
                            lemma_concat_contains(visited_before, edges@, e);
                            if edges@.contains(e) && !st.pending_edges.contains(e) {
                                let i = choose|i: int| 0 <= i < edges@.len() && edges@[i] == e;
                                assert(e == edges@[i]);
                            }
                        }
                        lemma_scan_preserves(&*plan, &*heap, st, node, st_after);
                        st = st_after;
                    }
                    j = j + 1;
                }
                let ghost visited = closure.visited();
                let mut packets = closure.finish();
                let ghost all = crate::plan::tracing::views(packets@);
                proof {
                    assert(all.subrange(0, all.len() as int) =~= all);
                    assert(nodes@.subrange(j as int, nodes@.len() as int) =~= none_n);
                }
                while packets.len() > 0
                    invariant
                        closure_inv(&*plan, &*heap, st),
                        old(plan).unchanged_but_traced(&*plan),
                        old(plan).has_reserve(old(heap)) ==> plan.has_reserve(&*heap),
                        bucket.is_open(),
                        plan.traced() == traced_before,
                        st.h0 == h0,
                        st.r0 == r0,
                        none_n == Seq::<ObjectReference>::empty(),
                        st.root_edges == Set::new(|e: HeapEdge| roots_seq.contains(e)),
                        st.scanned == scanned@,
                        st.pending_node_count == queue_node_count(bucket.queue()),
                        queue_node_count(bucket.queue()) == queue_node_count(q),
                        queue_weight(bucket.queue()) >= 0,
                        crate::plan::tracing::views(packets@) == all.subrange(
                            0,
                            packets@.len() as int,
                        ),
                        packets@.len() <= all.len(),
                        st.pending_edges == spec_pending_edges(
                            bucket.queue(),
                            spec_flatten(all.subrange(0, packets@.len() as int)),
                        ),
                        st.pending_nodes == spec_pending_nodes(bucket.queue(), none_n),
                        forall|o: ObjectReference| plan.in_scope(o) == old(plan).in_scope(o),
                        forall|i: int|
                            0 <= i < bucket.queue().len() ==> (#[trigger] bucket.queue()[i] matches GCWork::ScanObjects {
                                nodes,
                            } ==> nodes@.len() > 0),
                    decreases packets@.len(),
                {
                    let ghost n = packets@.len() as int;
                    let ghost qb = bucket.queue();
                    let packet = packets.pop().unwrap();
                    bucket.add(GCWork::ProcessEdges { edges: packet, roots: false });
                    proof {
                        let q2 = bucket.queue();
                        lemma_queue_push(qb, q2.last());
                        assert(crate::plan::tracing::views(packets@) =~= all.subrange(0, n - 1));
                        assert(all.subrange(0, n).drop_last() =~= all.subrange(0, n - 1));
                        assert(all.subrange(0, n).last() == packet@);
                        assert(st.pending_edges =~= spec_pending_edges(
                            q2,
                            spec_flatten(all.subrange(0, n - 1)),
                        )) by {
                            assert forall|e: HeapEdge|
                                st.pending_edges.contains(e) <==> spec_pending_edges(
                                    q2,
                                    spec_flatten(all.subrange(0, n - 1)),
                                ).contains(e) by {
                                lemma_has_edge_push(qb, q2.last(), e);
                                lemma_concat_contains(
                                    spec_flatten(all.subrange(0, n - 1)),
                                    packet@,
                                    e,
                                );
                            }
                        }
                        assert(st.pending_nodes =~= spec_pending_nodes(q2, none_n)) by {
                            assert forall|m: ObjectReference|
                                st.pending_nodes.contains(m) <==> spec_pending_nodes(
                                    q2,
                                    none_n,
                                ).contains(m) by {
                                lemma_has_node_push(qb, q2.last(), m);
                            }
                        }
                        assert forall|i: int| 0 <= i < q2.len() implies (#[trigger] q2[i] matches GCWork::ScanObjects {
                            nodes,
                        } ==> nodes@.len() > 0) by {
                            if i < qb.len() {
                                assert(q2[i] == qb[i]);
                            }
                        }
                    }
                }
                proof {
                    assert(all.subrange(0, 0) =~= Seq::<Seq<HeapEdge>>::empty());
                    assert(spec_flatten(all.subrange(0, 0)) =~= none_e);
                }
            },
            _ => {
                proof {
                    assert(st.pending_edges =~= spec_pending_edges(q, none_e)) by {
                        assert forall|e: HeapEdge|
                            st.pending_edges.contains(e) <==> spec_pending_edges(
                                q,
                                none_e,
                            ).contains(e) by {
                            lemma_has_edge_drop_first(q_before, e);
                        }
                    }
                    assert(st.pending_nodes =~= spec_pending_nodes(q, none_n)) by {
                        assert forall|n: ObjectReference|
                            st.pending_nodes.contains(n) <==> spec_pending_nodes(
                                q,
                                none_n,
                            ).contains(n) by {
                            lemma_has_node_drop_first(q_before, n);
                        }
                    }
                }
            },
        }
    }
    proof {
        lemma_closure_complete(&*plan, &*heap, st);
        lemma_closure_result(&*plan, &*heap, st, roots_seq);
    }
    Ok(scanned)
}

/// Whether `place` is where an object lies now that was traced.
pub open spec fn spec_is_place_of_traced(
    traced: Map<ObjectReference, ObjectReference>,
    place: ObjectReference,
) -> bool {
    exists|x: ObjectReference| #[trigger] traced.contains_key(x) && traced[x] == place
}

/// After a complete closure no object was scanned twice, and each object
/// that was scanned is the place where an object lies now that was traced:
/// there are as many objects that were scanned as objects that were traced,
/// and each that was traced was scanned where it lies now.
pub proof fn lemma_scanned_once<P: PlanTraceObject>(plan: &P, heap: &Heap, st: ClosureState)
    requires
        closure_inv(plan, heap, st),
        closure_complete(plan, heap, st),
        st.pending_node_count == 0,
    ensures
        st.scanned.no_duplicates(),
        forall|i: int|
            0 <= i < st.scanned.len() ==> spec_is_place_of_traced(
                plan.traced(),
                #[trigger] st.scanned[i],
            ),
{
    broadcast use vstd::seq_lib::seq_to_set_is_finite;

    let traced = plan.traced();
    let dom = traced.dom();
    let place = |x: ObjectReference| traced[x];
    let image = dom.map(place);
    let scanned_set = st.scanned.to_set();
    assert(vstd::relations::injective_on(place, dom)) by {
        assert forall|x1: ObjectReference, x2: ObjectReference|
            dom.contains(x1) && dom.contains(x2) && #[trigger] place(x1) == #[trigger] place(
                x2,
            ) implies x1 == x2 by {
            assert(traced.contains_key(x1) && traced.contains_key(x2));
            assert(st.origin[traced[x1]] == x1);
            assert(st.origin[traced[x2]] == x2);
        }
    }
    vstd::set_lib::lemma_map_size(dom, image, place);
    assert(image.subset_of(scanned_set)) by {
        assert forall|y: ObjectReference| image.contains(y) implies scanned_set.contains(y) by {
            let x = choose|x: ObjectReference| dom.contains(x) && y == place(x);
            assert(traced.contains_key(x));
            assert(st.scanned.contains(traced[x]));
        }
    }
    vstd::set_lib::lemma_len_subset(image, scanned_set);
    st.scanned.lemma_cardinality_of_set();
    assert(scanned_set.len() == st.scanned.len());
    st.scanned.lemma_no_dup_set_cardinality();
    vstd::set_lib::lemma_subset_equality(image, scanned_set);
    assert forall|i: int| 0 <= i < st.scanned.len() implies spec_is_place_of_traced(
        traced,
        #[trigger] st.scanned[i],
    ) by {
        assert(scanned_set.contains(st.scanned[i]));
        assert(image.contains(st.scanned[i]));
        let x = choose|x: ObjectReference| dom.contains(x) && st.scanned[i] == place(x);
        assert(traced.contains_key(x) && traced[x] == st.scanned[i]);
    }
}

/// A complete closure has brought about what `spec_closure_result` says.
pub proof fn lemma_closure_result<P: PlanTraceObject>(
    plan: &P,
    heap: &Heap,
    st: ClosureState,
    root_edges: Seq<HeapEdge>,
)
    requires
        closure_inv(plan, heap, st),
        closure_complete(plan, heap, st),
        st.pending_node_count == 0,
        st.root_edges == Set::new(|e: HeapEdge| root_edges.contains(e)),
    ensures
        spec_closure_result(plan, heap, st.h0, st.r0, root_edges, st.scanned),
{
    let traced = plan.traced();
    let objects = heap.objects();
    let roots = heap.roots();
    lemma_scanned_once(plan, heap, st);
    assert forall|x: ObjectReference| #[trigger] traced.contains_key(x) implies {
        &&& st.h0.contains_key(x)
        &&& objects.contains_key(traced[x])
        &&& st.scanned.contains(traced[x])
        &&& objects[traced[x]].len() == st.h0[x].len()
        &&& forall|k: int|
            0 <= k < st.h0[x].len() ==> {
                &&& objects[traced[x]][k] == spec_image(traced, #[trigger] st.h0[x][k])
                &&& st.h0[x][k]@ != 0 && plan.in_scope(st.h0[x][k]) ==> traced.contains_key(
                    st.h0[x][k],
                )
            }
    } by {
        assert forall|k: int| 0 <= k < st.h0[x].len() implies {
            &&& objects[traced[x]][k] == spec_image(traced, #[trigger] st.h0[x][k])
            &&& st.h0[x][k]@ != 0 && plan.in_scope(st.h0[x][k]) ==> traced.contains_key(
                st.h0[x][k],
            )
        } by {
            heap.lemma_field_count_fits(traced[x]);
            let e = HeapEdge::Field(traced[x], k as usize);
            assert(spec_valid_edge(objects, roots, e));
            assert(spec_edge_due(st, e));
            assert(spec_edge_done(plan, objects, roots, st, e));
        }
    }
    assert forall|i: int| 0 <= i < root_edges.len() implies {
        let e = #[trigger] root_edges[i];
        let v = spec_load_edge(st.h0, st.r0, e);
        &&& spec_valid_edge(objects, roots, e)
        &&& spec_load_edge(objects, roots, e) == spec_image(traced, v)
        &&& v@ != 0 && plan.in_scope(v) ==> traced.contains_key(v)
    } by {
        let e = root_edges[i];
        assert(st.root_edges.contains(e));
        assert(spec_valid_edge(objects, roots, e));
        assert(spec_valid_edge(st.h0, st.r0, e));
        assert(spec_edge_due(st, e));
        assert(spec_edge_done(plan, objects, roots, st, e));
        match e {
            HeapEdge::Root(r) => {},
            HeapEdge::Field(y, k) => {
                assert(objects.contains_key(y));
                assert(st.h0.contains_key(y));
                assert(st.origin[y] == y);
            },
        }
    }
    assert forall|i: int| 0 <= i < st.r0.len() implies (#[trigger] roots[i]) == st.r0[i] || roots[i]
        == spec_image(traced, st.r0[i]) by {
        heap.lemma_root_count_fits();
        let e = HeapEdge::Root(i as usize);
        assert(spec_valid_edge(objects, roots, e));
        assert(spec_edge_sound(traced, objects, roots, st, e));
    }
    assert forall|y: ObjectReference| #[trigger] st.h0.contains_key(y) implies {
        &&& objects.contains_key(y)
        &&& objects[y].len() == st.h0[y].len()
        &&& forall|k: int|
            0 <= k < st.h0[y].len() ==> (#[trigger] objects[y][k]) == st.h0[y][k] || objects[y][k]
                == spec_image(traced, st.h0[y][k])
    } by {
        assert(objects.contains_key(y));
        assert(st.origin[y] == y);
        assert forall|k: int| 0 <= k < st.h0[y].len() implies (#[trigger] objects[y][k])
            == st.h0[y][k] || objects[y][k] == spec_image(traced, st.h0[y][k]) by {
            heap.lemma_field_count_fits(y);
            let e = HeapEdge::Field(y, k as usize);
            assert(spec_valid_edge(objects, roots, e));
            assert(spec_edge_sound(traced, objects, roots, st, e));
        }
    }
    assert forall|y: ObjectReference| #[trigger] objects.contains_key(y) implies st.h0.contains_key(
        y,
    ) || exists|x: ObjectReference| #[trigger] traced.contains_key(x) && traced[x] == y by {
        if !st.h0.contains_key(y) {
            assert(traced.contains_key(st.origin[y]) && traced[st.origin[y]] == y);
        }
    }
}

/// An item is in two sequences joined if it is in one of them.
pub proof fn lemma_concat_contains<T>(a: Seq<T>, b: Seq<T>, x: T)
    ensures
        (a + b).contains(x) <==> a.contains(x) || b.contains(x),
{
    if a.contains(x) {
        let i = choose|i: int| 0 <= i < a.len() && a[i] == x;
        assert((a + b)[i] == x);
    }
    if b.contains(x) {
        let i = choose|i: int| 0 <= i < b.len() && b[i] == x;
        assert((a + b)[a.len() + i] == x);
    }
    if (a + b).contains(x) {
        let i = choose|i: int| 0 <= i < (a + b).len() && (a + b)[i] == x;
        if i < a.len() {
            assert(a[i] == x);
        } else {
            assert(b[i - a.len()] == x);
        }
    }
}

/// A queue has an edge if its first packet has it or the rest has it.
pub proof fn lemma_has_edge_drop_first(queue: Seq<GCWork>, e: HeapEdge)
    requires
        queue.len() > 0,
    ensures
        queue_has_edge(queue, e) <==> queue_has_edge(queue.drop_first(), e) || (
        queue[0] matches GCWork::ProcessEdges { edges, roots } && edges@.contains(e)),
{
    let rest = queue.drop_first();
    if queue_has_edge(queue, e) {
        let i = choose|i: int|
            0 <= i < queue.len() && (#[trigger] queue[i] matches GCWork::ProcessEdges { edges, roots }
                && edges@.contains(e));
        if i > 0 {
            assert(rest[i - 1] == queue[i]);
        }
    }
    if queue_has_edge(rest, e) {
        let i = choose|i: int|
            0 <= i < rest.len() && (#[trigger] rest[i] matches GCWork::ProcessEdges { edges, roots }
                && edges@.contains(e));
        assert(queue[i + 1] == rest[i]);
    }
}

/// A queue has a node if its first packet has it or the rest has it.
pub proof fn lemma_has_node_drop_first(queue: Seq<GCWork>, n: ObjectReference)
    requires
        queue.len() > 0,
    ensures
        queue_has_node(queue, n) <==> queue_has_node(queue.drop_first(), n) || (
        queue[0] matches GCWork::ScanObjects { nodes } && nodes@.contains(n)),
{
    let rest = queue.drop_first();
    if queue_has_node(queue, n) {
        let i = choose|i: int|
            0 <= i < queue.len() && (#[trigger] queue[i] matches GCWork::ScanObjects { nodes }
                && nodes@.contains(n));
        if i > 0 {
            assert(rest[i - 1] == queue[i]);
        }
    }
    if queue_has_node(rest, n) {
        let i = choose|i: int|
            0 <= i < rest.len() && (#[trigger] rest[i] matches GCWork::ScanObjects { nodes }
                && nodes@.contains(n));
        assert(queue[i + 1] == rest[i]);
    }
}

/// A queue with one more packet has an edge if the queue had it or the
/// packet has it.
pub proof fn lemma_has_edge_push(queue: Seq<GCWork>, work: GCWork, e: HeapEdge)
    ensures
        queue_has_edge(queue.push(work), e) <==> queue_has_edge(queue, e) || (
        work matches GCWork::ProcessEdges { edges, roots } && edges@.contains(e)),
{
    let more = queue.push(work);
    if queue_has_edge(queue, e) {
        let i = choose|i: int|
            0 <= i < queue.len() && (#[trigger] queue[i] matches GCWork::ProcessEdges { edges, roots }
                && edges@.contains(e));
        assert(more[i] == queue[i]);
    }
    if work matches GCWork::ProcessEdges { edges, roots } && edges@.contains(e) {
        assert(more[queue.len() as int] == work);
    }
    if queue_has_edge(more, e) {
        let i = choose|i: int|
            0 <= i < more.len() && (#[trigger] more[i] matches GCWork::ProcessEdges { edges, roots }
                && edges@.contains(e));
        if i < queue.len() {
            assert(queue[i] == more[i]);
        }
    }
}

/// A queue with one more packet has a node if the queue had it or the
/// packet has it.
pub proof fn lemma_has_node_push(queue: Seq<GCWork>, work: GCWork, n: ObjectReference)
    ensures
        queue_has_node(queue.push(work), n) <==> queue_has_node(queue, n) || (
        work matches GCWork::ScanObjects { nodes } && nodes@.contains(n)),
{
    let more = queue.push(work);
    if queue_has_node(queue, n) {
        let i = choose|i: int|
            0 <= i < queue.len() && (#[trigger] queue[i] matches GCWork::ScanObjects { nodes }
                && nodes@.contains(n));
        assert(more[i] == queue[i]);
    }
    if work matches GCWork::ScanObjects { nodes } && nodes@.contains(n) {
        assert(more[queue.len() as int] == work);
    }
    if queue_has_node(more, n) {
        let i = choose|i: int|
            0 <= i < more.len() && (#[trigger] more[i] matches GCWork::ScanObjects { nodes }
                && nodes@.contains(n));
        if i < queue.len() {
            assert(queue[i] == more[i]);
        }
    }
}

/// Whether a field of the object `a` holds `b`.
pub open spec fn spec_points_to(
    h0: Map<ObjectReference, Seq<ObjectReference>>,
    a: ObjectReference,
    b: ObjectReference,
) -> bool {
    exists|k: int| 0 <= k < h0[a].len() && (#[trigger] h0[a][k]) == b
}

/// Whether a field of the object at place `j` of `path` holds the next
/// object of `path`.
pub open spec fn spec_path_step(
    h0: Map<ObjectReference, Seq<ObjectReference>>,
    path: Seq<ObjectReference>,
    j: int,
) -> bool {
    spec_points_to(h0, path[j], path[j + 1])
}

/// Whether `path` leads through the heap from an edge of `root_edges`:
/// its first object is held by one of those edges, and each next object is
/// held by a field of the one before.
pub open spec fn spec_is_path(
    h0: Map<ObjectReference, Seq<ObjectReference>>,
    r0: Seq<ObjectReference>,
    root_edges: Seq<HeapEdge>,
    path: Seq<ObjectReference>,
) -> bool {
    &&& path.len() > 0
    &&& exists|i: int|
        0 <= i < root_edges.len() && spec_load_edge(h0, r0, #[trigger] root_edges[i]) == path[0]
    &&& forall|j: int| 0 <= j < path.len() ==> (#[trigger] path[j])@ != 0
    &&& forall|j: int| 0 <= j < path.len() - 1 ==> #[trigger] spec_path_step(h0, path, j)
}

/// Whether `object` can be reached from an edge of `root_edges`.
pub open spec fn spec_reachable(
    h0: Map<ObjectReference, Seq<ObjectReference>>,
    r0: Seq<ObjectReference>,
    root_edges: Seq<HeapEdge>,
    object: ObjectReference,
) -> bool {
    exists|path: Seq<ObjectReference>|
        #[trigger] spec_is_path(h0, r0, root_edges, path) && path.last() == object
}

/// After a complete closure, the last object of every path from the edges
/// that the closure began with is an object of `live`; and if the
/// collection traces it, it was traced and was scanned where it lies now.
/// This takes that the fields that lead from objects that the collection
/// does not trace to objects that it traces were remembered.
pub proof fn lemma_path_is_traced<P: PlanTraceObject>(
    plan: &P,
    heap: &Heap,
    h0: Map<ObjectReference, Seq<ObjectReference>>,
    r0: Seq<ObjectReference>,
    root_edges: Seq<HeapEdge>,
    scanned: Seq<ObjectReference>,
    live: Set<ObjectReference>,
    path: Seq<ObjectReference>,
)
    requires
        spec_closure_result(plan, heap, h0, r0, root_edges, scanned),
        spec_live_closed(h0, r0, root_edges, live),
        spec_remembered(plan, h0, root_edges, live),
        spec_is_path(h0, r0, root_edges, path),
    ensures
        live.contains(path.last()),
        plan.in_scope(path.last()) ==> plan.traced().contains_key(path.last()) && scanned.contains(
            plan.traced()[path.last()],
        ),
    decreases path.len(),
{
    let traced = plan.traced();
    let x = path.last();
    assert(path[path.len() - 1]@ != 0);
    if path.len() == 1 {
        let i = choose|i: int|
            0 <= i < root_edges.len() && spec_load_edge(h0, r0, #[trigger] root_edges[i]) == path[0];
        assert(live.contains(x));
    } else {
        let prefix = path.drop_last();
        assert(spec_is_path(h0, r0, root_edges, prefix)) by {
            assert(prefix[0] == path[0]);
            assert forall|j: int| 0 <= j < prefix.len() implies (#[trigger] prefix[j])@ != 0 by {
                assert(prefix[j] == path[j]);
            }
            assert forall|j: int| 0 <= j < prefix.len() - 1 implies #[trigger] spec_path_step(
                h0,
                prefix,
                j,
            ) by {
                assert(prefix[j] == path[j] && prefix[j + 1] == path[j + 1]);
                assert(spec_path_step(h0, path, j));
            }
        }
        lemma_path_is_traced(plan, heap, h0, r0, root_edges, scanned, live, prefix);
        let y = prefix.last();
        assert(y == path[path.len() - 2]);
        assert(spec_path_step(h0, path, path.len() - 2));
        let k = choose|k: int| 0 <= k < h0[y].len() && (#[trigger] h0[y][k]) == x;
        assert(live.contains(y));
        assert(h0[y][k] == x);
        assert(live.contains(x));
        if plan.in_scope(x) && !plan.in_scope(y) {
            // the field was remembered, and is one of the edges that the
            // closure began with
            assert(h0.contains_key(y));
            assert(heap.objects()[y].len() == h0[y].len());
            heap.lemma_field_count_fits(y);
            let e = HeapEdge::Field(y, k as usize);
            assert(root_edges.contains(e));
            let i = choose|i: int| 0 <= i < root_edges.len() && root_edges[i] == e;
            assert(spec_load_edge(h0, r0, root_edges[i]) == x);
        }
    }
    if plan.in_scope(x) {
        assert(traced.contains_key(x));
    }
}

/// Closure soundness: after a complete closure, every object that could
/// be reached from the roots when the collection began, and that the
/// collection traces, was traced, and was scanned where it lies now. This
/// takes that the fields that lead from objects that the collection does
/// not trace to objects that it traces were remembered; in a collection
/// that traces every object there are no such fields.
pub proof fn lemma_closure_soundness<P: PlanTraceObject>(
    plan: &P,
    heap: &Heap,
    h0: Map<ObjectReference, Seq<ObjectReference>>,
    r0: Seq<ObjectReference>,
    root_edges: Seq<HeapEdge>,
    scanned: Seq<ObjectReference>,
    live: Set<ObjectReference>,
    object: ObjectReference,
)
    requires
        spec_closure_result(plan, heap, h0, r0, root_edges, scanned),
        spec_live_closed(h0, r0, root_edges, live),
        spec_remembered(plan, h0, root_edges, live),
        spec_reachable(h0, r0, root_edges, object),
        plan.in_scope(object),
    ensures
        plan.traced().contains_key(object),
        scanned.contains(plan.traced()[object]),
{
    let path = choose|path: Seq<ObjectReference>|
        #[trigger] spec_is_path(h0, r0, root_edges, path) && path.last() == object;
    lemma_path_is_traced(plan, heap, h0, r0, root_edges, scanned, live, path);
}

/// The objects that a closure keeps of those of `live`: those that were
/// traced, where they lie now, and those that the collection does not
/// trace.
pub open spec fn spec_live_after<P: PlanTraceObject>(plan: &P, live: Set<ObjectReference>) -> Set<
    ObjectReference,
> {
    Set::new(
        |y: ObjectReference|
            exists|x: ObjectReference|
                #[trigger] live.contains(x) && (plan.traced().contains_key(x) || !plan.in_scope(x))
                    && spec_image(plan.traced(), x) == y,
    )
}

/// Whether every field of an object of `live` that the collection does
/// not trace, which holds an object that the collection traces, is among
/// the edges that the closure begins with: whether such fields are
/// remembered.
pub open spec fn spec_remembered<P: PlanTraceObject>(
    plan: &P,
    h0: Map<ObjectReference, Seq<ObjectReference>>,
    root_edges: Seq<HeapEdge>,
    live: Set<ObjectReference>,
) -> bool {
    forall|e: HeapEdge|
        (e matches HeapEdge::Field(x, k) && live.contains(x) && !plan.in_scope(x) && k
            < h0[x].len() && h0[x][k as int]@ != 0 && plan.in_scope(h0[x][k as int]))
            ==> #[trigger] root_edges.contains(e)
}

/// After a complete closure the heap is closed again: the objects that the
/// closure keeps refer to each other only, and the edges that the closure
/// began with hold such objects. This takes that the fields that lead from
/// objects that the collection does not trace to objects that it traces
/// were remembered.
pub proof fn lemma_live_closed_after<P: PlanTraceObject>(
    plan: &P,
    heap: &Heap,
    h0: Map<ObjectReference, Seq<ObjectReference>>,
    r0: Seq<ObjectReference>,
    root_edges: Seq<HeapEdge>,
    scanned: Seq<ObjectReference>,
    live: Set<ObjectReference>,
)
    requires
        plan.trace_inv(heap),
        spec_closure_result(plan, heap, h0, r0, root_edges, scanned),
        spec_live_closed(h0, r0, root_edges, live),
        spec_remembered(plan, h0, root_edges, live),
    ensures
        spec_live_closed(heap.objects(), heap.roots(), root_edges, spec_live_after(plan, live)),
{
    let traced = plan.traced();
    let objects = heap.objects();
    let roots = heap.roots();
    let after = spec_live_after(plan, live);
    // what an object of `live` held is null or kept where it lies now
    assert forall|v: ObjectReference|
        live.contains(v) && (traced.contains_key(v) || !plan.in_scope(v)) implies after.contains(
        spec_image(traced, v),
    ) by {}
    assert forall|x: ObjectReference| #[trigger] traced.contains_key(x) implies plan.in_scope(x) by {
        plan.lemma_traced_in_scope(heap, x);
    }
    assert forall|y: ObjectReference| #[trigger] after.contains(y) implies objects.contains_key(y) by {
        let x = choose|x: ObjectReference|
            #[trigger] live.contains(x) && (traced.contains_key(x) || !plan.in_scope(x))
                && spec_image(traced, x) == y;
        if !traced.contains_key(x) {
            assert(h0.contains_key(x));
        }
    }
    assert forall|y: ObjectReference, k: int|
        after.contains(y) && 0 <= k < objects[y].len() implies (#[trigger] objects[y][k])@ == 0
        || after.contains(objects[y][k]) by {
        let x = choose|x: ObjectReference|
            #[trigger] live.contains(x) && (traced.contains_key(x) || !plan.in_scope(x))
                && spec_image(traced, x) == y;
        assert(h0.contains_key(x));
        if traced.contains_key(x) {
            let v = h0[x][k];
            assert(objects[y][k] == spec_image(traced, v));
            if v@ != 0 {
                assert(live.contains(v));
            } else {
                assert(!h0.contains_key(v));
            }
        } else {
            let v = h0[x][k];
            assert(objects[x][k] == v || objects[x][k] == spec_image(traced, v));
            if v@ != 0 {
                assert(live.contains(v));
                if plan.in_scope(v) {
                    heap.lemma_field_count_fits(x);
                    let e = HeapEdge::Field(x, k as usize);
                    assert(root_edges.contains(e));
                    let i = choose|i: int| 0 <= i < root_edges.len() && root_edges[i] == e;
                    assert(spec_load_edge(h0, r0, root_edges[i]) == v);
                    assert(spec_load_edge(objects, roots, root_edges[i]) == objects[x][k]);
                }
            } else {
                assert(!h0.contains_key(v));
            }
        }
    }
    assert forall|i: int| 0 <= i < root_edges.len() implies spec_valid_edge(
        objects,
        roots,
        #[trigger] root_edges[i],
    ) && (spec_load_edge(objects, roots, root_edges[i])@ == 0 || after.contains(
        spec_load_edge(objects, roots, root_edges[i]),
    )) by {
        let v = spec_load_edge(h0, r0, root_edges[i]);
        if v@ != 0 {
            assert(live.contains(v));
        } else {
            assert(!h0.contains_key(v));
        }
    }
}

/// A closed heap stays closed when objects leave it that are not among
/// those that refer to each other, and the others stay as they are.
pub proof fn lemma_live_closed_after_removal(
    objects: Map<ObjectReference, Seq<ObjectReference>>,
    roots: Seq<ObjectReference>,
    root_edges: Seq<HeapEdge>,
    live: Set<ObjectReference>,
    remaining: Map<ObjectReference, Seq<ObjectReference>>,
)
    requires
        spec_live_closed(objects, roots, root_edges, live),
        forall|o: ObjectReference| #[trigger]
            remaining.contains_key(o) ==> objects.contains_key(o) && remaining[o] == objects[o],
        forall|o: ObjectReference| live.contains(o) ==> #[trigger] remaining.contains_key(o),
        forall|i: int|
            0 <= i < root_edges.len() ==> spec_valid_edge(remaining, roots, #[trigger] root_edges[i]),
    ensures
        spec_live_closed(remaining, roots, root_edges, live),
{
    assert forall|x: ObjectReference, k: int|
        live.contains(x) && 0 <= k < remaining[x].len() implies (#[trigger] remaining[x][k])@ == 0
        || live.contains(remaining[x][k]) by {
        assert(remaining.contains_key(x));
        assert(objects[x][k]@ == 0 || live.contains(objects[x][k]));
    }
    assert forall|i: int| 0 <= i < root_edges.len() implies spec_load_edge(
        remaining,
        roots,
        #[trigger] root_edges[i],
    )@ == 0 || live.contains(spec_load_edge(remaining, roots, root_edges[i])) by {
        assert(spec_valid_edge(objects, roots, root_edges[i]));
        match root_edges[i] {
            HeapEdge::Root(r) => {},
            HeapEdge::Field(o, k) => {
                assert(remaining.contains_key(o));
            },
        }
    }
}

/// Edge consistency: after a complete closure, an edge that the closure
/// began with, or a field of an object that was traced, holds the place of
/// the copy if what it held at the beginning was copied, and holds what it
/// held at the beginning if that was null or an object that was not moved.
pub proof fn lemma_edge_consistency<P: PlanTraceObject>(
    plan: &P,
    heap: &Heap,
    h0: Map<ObjectReference, Seq<ObjectReference>>,
    r0: Seq<ObjectReference>,
    root_edges: Seq<HeapEdge>,
    scanned: Seq<ObjectReference>,
    x: ObjectReference,
    k: int,
)
    requires
        spec_closure_result(plan, heap, h0, r0, root_edges, scanned),
        !h0.contains_key(ObjectReference(0)),
        plan.traced().contains_key(x),
        0 <= k < h0[x].len(),
    ensures
        ({
            let before = h0[x][k];
            let after = heap.objects()[plan.traced()[x]][k];
            &&& plan.traced().contains_key(before) ==> after == plan.traced()[before]
            &&& before@ == 0 ==> after == before
            &&& (!plan.traced().contains_key(before) || plan.traced()[before] == before) ==> after
                == before
        }),
{
    let before = h0[x][k];
    assert(heap.objects()[plan.traced()[x]][k] == spec_image(plan.traced(), before));
    if plan.traced().contains_key(before) {
        assert(h0.contains_key(before));
    }
}

/// Edge consistency for the edges that the closure began with.
pub proof fn lemma_root_edge_consistency<P: PlanTraceObject>(
    plan: &P,
    heap: &Heap,
    h0: Map<ObjectReference, Seq<ObjectReference>>,
    r0: Seq<ObjectReference>,
    root_edges: Seq<HeapEdge>,
    scanned: Seq<ObjectReference>,
    i: int,
)
    requires
        spec_closure_result(plan, heap, h0, r0, root_edges, scanned),
        0 <= i < root_edges.len(),
    ensures
        ({
            let before = spec_load_edge(h0, r0, root_edges[i]);
            let after = spec_load_edge(heap.objects(), heap.roots(), root_edges[i]);
            &&& plan.traced().contains_key(before) ==> after == plan.traced()[before]
            &&& (!plan.traced().contains_key(before) || plan.traced()[before] == before) ==> after
                == before
        }),
{
    let e = root_edges[i];
    assert(spec_load_edge(heap.objects(), heap.roots(), e) == spec_image(
        plan.traced(),
        spec_load_edge(h0, r0, e),
    ));
}

/// Edge consistency for the fields of the objects that the collection does
/// not trace: after a complete closure, such a field of an object of
/// `live` holds the place of the copy if what it held at the beginning was
/// copied, and else what it held at the beginning. This takes that the
/// fields that lead from objects that the collection does not trace to
/// objects that it traces were remembered.
pub proof fn lemma_untraced_edge_consistency<P: PlanTraceObject>(
    plan: &P,
    heap: &Heap,
    h0: Map<ObjectReference, Seq<ObjectReference>>,
    r0: Seq<ObjectReference>,
    root_edges: Seq<HeapEdge>,
    scanned: Seq<ObjectReference>,
    live: Set<ObjectReference>,
    y: ObjectReference,
    k: int,
)
    requires
        plan.trace_inv(heap),
        spec_closure_result(plan, heap, h0, r0, root_edges, scanned),
        spec_live_closed(h0, r0, root_edges, live),
        spec_remembered(plan, h0, root_edges, live),
        live.contains(y),
        !plan.in_scope(y),
        0 <= k < h0[y].len(),
    ensures
        heap.objects().contains_key(y),
        heap.objects()[y].len() == h0[y].len(),
        heap.objects()[y][k] == spec_image(plan.traced(), h0[y][k]),
{
    let v = h0[y][k];
    assert(h0.contains_key(y));
    assert(heap.objects()[y][k] == v || heap.objects()[y][k] == spec_image(plan.traced(), v));
    if v@ != 0 && plan.in_scope(v) {
        heap.lemma_field_count_fits(y);
        let e = HeapEdge::Field(y, k as usize);
        assert(root_edges.contains(e));
        let i = choose|i: int| 0 <= i < root_edges.len() && root_edges[i] == e;
        assert(spec_load_edge(heap.objects(), heap.roots(), root_edges[i]) == spec_image(
            plan.traced(),
            spec_load_edge(h0, r0, root_edges[i]),
        ));
    } else if plan.traced().contains_key(v) {
        plan.lemma_traced_in_scope(heap, v);
        assert(h0.contains_key(v));
    }
}

/// More was traced in `later` than in `earlier`, and what was traced in
/// `earlier` lies in `later` where it lay.
pub open spec fn spec_traced_extends(
    earlier: Map<ObjectReference, ObjectReference>,
    later: Map<ObjectReference, ObjectReference>,
) -> bool {
    forall|o: ObjectReference| #[trigger]
        earlier.contains_key(o) ==> later.contains_key(o) && later[o] == earlier[o]
}

/// Tracing an object leaves what was traced before where it was.
pub proof fn lemma_trace_step_extends(
    traced: Map<ObjectReference, ObjectReference>,
    in_scope: bool,
    objects: Map<ObjectReference, Seq<ObjectReference>>,
    queue: Seq<ObjectReference>,
    object: ObjectReference,
    res: Result<ObjectReference, GcError>,
    traced_after: Map<ObjectReference, ObjectReference>,
    objects_after: Map<ObjectReference, Seq<ObjectReference>>,
    queue_after: Seq<ObjectReference>,
)
    requires
        spec_trace_step(
            traced,
            in_scope,
            objects,
            queue,
            object,
            res,
            traced_after,
            objects_after,
            queue_after,
        ),
    ensures
        spec_traced_extends(traced, traced_after),
        forall|o: ObjectReference|
            traced_after.contains_key(o) && !traced.contains_key(o) ==> o == object && in_scope,
{
}

/// Forward monotonicity: if tracing `object` gave `first`, then tracing it
/// again later in the collection, when only more was traced and only
/// objects that the collection traces, gives `first` again.
pub proof fn lemma_forward_monotonicity(
    traced: Map<ObjectReference, ObjectReference>,
    in_scope: bool,
    objects: Map<ObjectReference, Seq<ObjectReference>>,
    queue: Seq<ObjectReference>,
    object: ObjectReference,
    first: ObjectReference,
    traced_after: Map<ObjectReference, ObjectReference>,
    objects_after: Map<ObjectReference, Seq<ObjectReference>>,
    queue_after: Seq<ObjectReference>,
    traced_later: Map<ObjectReference, ObjectReference>,
    objects_later: Map<ObjectReference, Seq<ObjectReference>>,
    queue_later: Seq<ObjectReference>,
    second: Result<ObjectReference, GcError>,
    traced_last: Map<ObjectReference, ObjectReference>,
    objects_last: Map<ObjectReference, Seq<ObjectReference>>,
    queue_last: Seq<ObjectReference>,
)
    requires
        spec_trace_step(
            traced,
            in_scope,
            objects,
            queue,
            object,
            Ok(first),
            traced_after,
            objects_after,
            queue_after,
        ),
        spec_traced_extends(traced_after, traced_later),
        !in_scope ==> !traced_later.contains_key(object),
        spec_trace_step(
            traced_later,
            in_scope,
            objects_later,
            queue_later,
            object,
            second,
            traced_last,
            objects_last,
            queue_last,
        ),
    ensures
        second == Ok::<ObjectReference, GcError>(first),
        traced_last == traced_later,
        objects_last == objects_later,
        queue_last == queue_later,
{
    if traced.contains_key(object) {
        assert(traced_after.contains_key(object));
    } else if in_scope {
        assert(traced_after.contains_key(object));
    }
}

/// Forward monotonicity for a plan: if the plan traced `object` and found
/// it at `first`, then after any number of further traces, in which only
/// more was traced, the plan finds the object at `first` again, and the
/// trace changes nothing.
pub proof fn lemma_plan_forward_monotonicity<P: PlanTraceObject>(
    before: &P,
    heap_before: &Heap,
    queue_before: Seq<ObjectReference>,
    object: ObjectReference,
    first: ObjectReference,
    after: &P,
    heap_after: &Heap,
    queue_after: Seq<ObjectReference>,
    later: &P,
    heap_later: &Heap,
    queue_later: Seq<ObjectReference>,
    second: Result<ObjectReference, GcError>,
    last: &P,
    heap_last: &Heap,
    queue_last: Seq<ObjectReference>,
)
    requires
        spec_trace_step(
            before.traced(),
            before.in_scope(object),
            heap_before.objects(),
            queue_before,
            object,
            Ok(first),
            after.traced(),
            heap_after.objects(),
            queue_after,
        ),
        later.trace_inv(heap_later),
        later.in_scope(object) == before.in_scope(object),
        spec_traced_extends(after.traced(), later.traced()),
        spec_trace_step(
            later.traced(),
            later.in_scope(object),
            heap_later.objects(),
            queue_later,
            object,
            second,
            last.traced(),
            heap_last.objects(),
            queue_last,
        ),
    ensures
        second == Ok::<ObjectReference, GcError>(first),
        last.traced() == later.traced(),
        heap_last.objects() == heap_later.objects(),
        queue_last == queue_later,
{
    if later.traced().contains_key(object) {
        later.lemma_traced_in_scope(heap_later, object);
    }
    lemma_forward_monotonicity(
        before.traced(),
        before.in_scope(object),
        heap_before.objects(),
        queue_before,
        object,
        first,
        after.traced(),
        heap_after.objects(),
        queue_after,
        later.traced(),
        heap_later.objects(),
        queue_later,
        second,
        last.traced(),
        heap_last.objects(),
        queue_last,
    );
}

} // verus!
