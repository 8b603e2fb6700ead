//! A whole collection of the plan, run by one worker: the packets are
//! taken from the scheduler stage by stage, and each does its part.

use crate::plan::closure::lemma_live_closed_after;
use crate::plan::closure::lemma_live_closed_after_removal;
use crate::plan::closure::lemma_path_is_traced;
use crate::plan::closure::lemma_untraced_edge_consistency;
use crate::plan::closure::spec_is_path;
use crate::plan::closure::spec_is_place_of_traced;
use crate::plan::closure::spec_reachable;
use crate::plan::closure::spec_image;
use crate::plan::closure::spec_live_after;
use crate::plan::closure::spec_live_closed;
use crate::plan::closure::spec_remembered;
use crate::plan::closure::trace_closure;
use crate::plan::global::GcStatus;
use crate::plan::transitive_closure::PlanTraceObject;
use crate::plan::triplespace::global::TripleSpace;
use crate::policy::space::CommonSpace;
use crate::policy::space::GcError;
use crate::scheduler::gc_work::GCWork;
use crate::scheduler::scheduler::GCWorkScheduler;
use crate::scheduler::scheduler::WorkerStep;
use crate::scheduler::work_bucket::WorkBucketStage;
use crate::scheduler::work_bucket::WORK_BUCKET_STAGES;
use crate::util::address::ObjectReference;
use crate::util::heap::spec_load_edge;
use crate::util::heap::spec_valid_edge;
use crate::util::heap::Heap;
use crate::util::heap::HeapEdge;
use vstd::pervasive::unreached;
use vstd::prelude::*;

verus! {

/// The edges that are the roots of a heap with `n` roots, in order.
pub open spec fn spec_root_slots(n: nat) -> Seq<HeapEdge> {
    Seq::new(n, |i: int| HeapEdge::Root(i as usize))
}

/// The edges that a collection begins with: the roots of the heap and the
/// fields of the objects that were remembered.
pub fn collect_roots(heap: &Heap, remembered: &Vec<ObjectReference>) -> (edges: Vec<HeapEdge>)
    requires
        forall|j: int|
            0 <= j < remembered@.len() ==> heap.objects().contains_key(#[trigger] remembered@[j]),
    ensures
        forall|i: int| 0 <= i < edges@.len() ==> heap.valid_edge(#[trigger] edges@[i]),
        forall|i: int| 0 <= i < heap.roots().len() ==> edges@[i] == HeapEdge::Root(i as usize),
        edges@.len() >= heap.roots().len(),
        forall|e: HeapEdge|
            (e matches HeapEdge::Field(o, k) && remembered@.contains(o) && k
                < heap.objects()[o].len()) ==> #[trigger] edges@.contains(e),
        forall|i: int|
            heap.roots().len() <= i < edges@.len() ==> (#[trigger] edges@[i] matches HeapEdge::Field(
                o,
                k,
            ) && remembered@.contains(o)),
{
    let n = heap.num_roots();
    let mut edges: Vec<HeapEdge> = Vec::new();
    let mut i: usize = 0;
    while i < n
        invariant
            i <= n,
            n == heap.roots().len(),
            edges@ == spec_root_slots(i as nat),
        decreases n - i,
    {
        edges.push(HeapEdge::Root(i));
        i = i + 1;
        assert(edges@ =~= spec_root_slots(i as nat));
    }
    let mut j: usize = 0;
    while j < remembered.len()
        invariant
            j <= remembered@.len(),
            n == heap.roots().len(),
            edges@.len() >= n,
            forall|j: int|
                0 <= j < remembered@.len() ==> heap.objects().contains_key(
                    #[trigger] remembered@[j],
                ),
            forall|i: int| 0 <= i < edges@.len() ==> heap.valid_edge(#[trigger] edges@[i]),
            forall|i: int| 0 <= i < n ==> edges@[i] == HeapEdge::Root(i as usize),
            forall|e: HeapEdge|
                (e matches HeapEdge::Field(o, k) && remembered@.subrange(0, j as int).contains(o)
                    && k < heap.objects()[o].len()) ==> #[trigger] edges@.contains(e),
            forall|i: int|
                n <= i < edges@.len() ==> (#[trigger] edges@[i] matches HeapEdge::Field(o, k)
                    && remembered@.contains(o)),
        decreases remembered@.len() - j,
    {
        let object = remembered[j];
        let fields = heap.scan_object(object);
        let ghost before = edges@;
        let mut k: usize = 0;
        while k < fields.len()
            invariant
                k <= fields@.len(),
                edges@ == before + fields@.subrange(0, k as int),
            decreases fields@.len() - k,
        {
            edges.push(fields[k]);
            k = k + 1;
            assert(edges@ =~= before + fields@.subrange(0, k as int));
        }
        proof {
            assert(fields@.subrange(0, k as int) =~= fields@);
            assert forall|e: HeapEdge|
                (e matches HeapEdge::Field(o, k) && remembered@.subrange(0, j + 1).contains(o) && k
                    < heap.objects()[o].len()) implies #[trigger] edges@.contains(e) by {
                match e {
                    HeapEdge::Root(r) => {},
                    HeapEdge::Field(o, k) => {
                        let prefix = remembered@.subrange(0, j + 1);
                        let at = choose|at: int| 0 <= at < prefix.len() && prefix[at] == o;
                        if at < j {
                            assert(remembered@.subrange(0, j as int)[at] == o);
                            assert(before.contains(e));
                            let i = choose|i: int| 0 <= i < before.len() && before[i] == e;
                            assert(edges@[i] == e);
                        } else {
                            assert(o == object);
                            assert(fields@[k as int] == e);
                            assert(edges@[before.len() + k] == e);
                        }
                    },
                }
            }
            assert forall|i: int| 0 <= i < edges@.len() implies heap.valid_edge(
                #[trigger] edges@[i],
            ) by {
                if i >= before.len() {
                    assert(edges@[i] == fields@[i - before.len()]);
                }
            }
            assert forall|i: int| n <= i < edges@.len() implies (#[trigger] edges@[i] matches HeapEdge::Field(
                o,
                k,
            ) && remembered@.contains(o)) by {
                if i >= before.len() {
                    assert(edges@[i] == fields@[i - before.len()]);
                    assert(remembered@[j as int] == object);
                }
            }
        }
        j = j + 1;
    }
    proof {
        assert(remembered@.subrange(0, j as int) =~= remembered@);
    }
    edges
}

/// What a collection needs of the heap: `live` is a set of objects that
/// takes in what the roots hold and what the fields of its objects hold;
/// the objects that were remembered are in it; and every object of it
/// outside the nursery that has a field that holds an object of the nursery
/// was remembered.
pub open spec fn spec_collectable(
    plan: &TripleSpace,
    heap: &Heap,
    remembered: Seq<ObjectReference>,
    live: Set<ObjectReference>,
) -> bool {
    &&& spec_live_closed(heap.objects(), heap.roots(), spec_root_slots(heap.roots().len()), live)
    &&& forall|j: int| 0 <= j < remembered.len() ==> live.contains(#[trigger] remembered[j])
    &&& forall|x: ObjectReference, k: int|
        live.contains(x) && !plan.youngspace.common().contains(x@) && 0 <= k
            < heap.objects()[x].len() && plan.youngspace.common().contains(
            (#[trigger] heap.objects()[x][k])@,
        ) ==> remembered.contains(x)
}

/// What a collection brings about, in terms of the heap before (`h0`,
/// `r0`) and after (`h1`, `r1`), of the place `moved` at which each object
/// that was traced lies afterwards, and of the objects that were scanned.
///
/// Every root holds the place where the object lies now that it held
/// before. Every object that was traced was in the heap, and is there
/// afterwards at its new place, where it was scanned; each of its fields
/// holds the place where the object lies now that the field held before.
/// The heap is closed again: `live_after` takes in what the roots hold
/// and what the fields of its objects hold. And no object was scanned
/// twice, nor one that was not traced.
pub open spec fn spec_collection_result(
    h0: Map<ObjectReference, Seq<ObjectReference>>,
    r0: Seq<ObjectReference>,
    moved: Map<ObjectReference, ObjectReference>,
    live_after: Set<ObjectReference>,
    h1: Map<ObjectReference, Seq<ObjectReference>>,
    r1: Seq<ObjectReference>,
    scanned: Seq<ObjectReference>,
) -> bool {
    &&& r1.len() == r0.len()
    &&& forall|i: int| 0 <= i < r0.len() ==> (#[trigger] r1[i]) == spec_image(moved, r0[i])
    &&& forall|x: ObjectReference| #[trigger]
        moved.contains_key(x) ==> {
            &&& h0.contains_key(x)
            &&& h1.contains_key(moved[x])
            &&& scanned.contains(moved[x])
            &&& h1[moved[x]].len() == h0[x].len()
            &&& forall|k: int|
                0 <= k < h0[x].len() ==> (#[trigger] h1[moved[x]][k]) == spec_image(
                    moved,
                    h0[x][k],
                )
        }
    &&& spec_live_closed(h1, r1, spec_root_slots(r1.len()), live_after)
    &&& scanned.no_duplicates()
    &&& forall|i: int| 0 <= i < scanned.len() ==> spec_is_place_of_traced(moved, #[trigger] scanned[i])
}

/// What a collection brings about for a set `live` of objects that the
/// heap was closed under before: besides what every collection brings
/// about, each object of `live_after`, under which the heap is closed
/// afterwards, was scanned, or is an object of `live` outside the nursery,
/// which the collection left as it was. Every object that could be
/// reached from the roots was traced, if it was an object of the nursery or
/// the collection took in the whole heap (`full`). And each field of an
/// object of `live` that a collection of the nursery left where it was
/// holds the place where the object lies now that the field held before.
pub open spec fn spec_collection_keeps(
    h0: Map<ObjectReference, Seq<ObjectReference>>,
    r0: Seq<ObjectReference>,
    moved: Map<ObjectReference, ObjectReference>,
    live: Set<ObjectReference>,
    live_after: Set<ObjectReference>,
    h1: Map<ObjectReference, Seq<ObjectReference>>,
    r1: Seq<ObjectReference>,
    scanned: Seq<ObjectReference>,
    young: &CommonSpace,
    full: bool,
) -> bool {
    &&& spec_collection_result(h0, r0, moved, live_after, h1, r1, scanned)
    &&& forall|y: ObjectReference| #[trigger]
        live_after.contains(y) ==> scanned.contains(y) || (live.contains(y) && !young.contains(y@))
    &&& forall|x: ObjectReference| #[trigger]
        spec_reachable(h0, r0, spec_root_slots(r0.len()), x) && (full || young.contains(x@))
            ==> moved.contains_key(x)
    &&& forall|y: ObjectReference| #[trigger]
        live.contains(y) && !full && !young.contains(y@) ==> {
            &&& h1.contains_key(y)
            &&& h1[y].len() == h0[y].len()
            &&& forall|k: int|
                0 <= k < h0[y].len() ==> (#[trigger] h1[y][k]) == spec_image(moved, h0[y][k])
        }
}

/// Whether every object of the heap lies in the semispace that is copied
/// to, in the immortal space or in the space of large objects: none is left
/// in the nursery or in the semispace that is copied from.
pub open spec fn spec_survivors_are_mature(plan: &TripleSpace, heap: &Heap) -> bool {
    forall|o: ObjectReference| #[trigger]
        heap.objects().contains_key(o) ==> {
            &&& plan.spec_tospace().common().contains(o@) || plan.common.contains(o@)
            &&& !plan.youngspace.common().contains(o@)
            &&& !plan.spec_fromspace().common().contains(o@)
        }
}

/// With the nursery and the semispace that is copied from both empty, every
/// object of the heap lies in the semispace that is copied to, in the
/// immortal space or in the space of large objects.
pub proof fn lemma_survivors_are_mature(plan: &TripleSpace, heap: &Heap)
    requires
        plan.plan_inv(heap),
        plan.youngspace.common().used() == 0,
        plan.spec_fromspace().common().used() == 0,
    ensures
        spec_survivors_are_mature(plan, heap),
{
    assert forall|o: ObjectReference| #[trigger] heap.objects().contains_key(o) implies {
        &&& plan.spec_tospace().common().contains(o@) || plan.common.contains(o@)
        &&& !plan.youngspace.common().contains(o@)
        &&& !plan.spec_fromspace().common().contains(o@)
    } by {
        assert(plan.claims(o@));
    }
}

/// The packets that wait in a collection of the plan, stage by stage:
/// those of the unconstrained stage, of the stage that prepares, of the
/// closure and of the stage that releases. No packet waits for another
/// stage.
pub open spec fn spec_queues(
    unconstrained: Seq<GCWork>,
    prepare: Seq<GCWork>,
    closure: Seq<GCWork>,
    release: Seq<GCWork>,
) -> Seq<Seq<GCWork>> {
    Seq::new(
        WORK_BUCKET_STAGES as nat,
        |i: int|
            if i == 0 {
                unconstrained
            } else if i == 1 {
                prepare
            } else if i == 2 {
                closure
            } else if i == 7 {
                release
            } else {
                Seq::empty()
            },
    )
}

/// The edges that a collection begins with hold objects of `live`, if the
/// roots do and the objects that were remembered are of `live`.
pub proof fn lemma_roots_closed(
    heap: &Heap,
    remembered: Seq<ObjectReference>,
    edges: Seq<HeapEdge>,
    live: Set<ObjectReference>,
)
    requires
        spec_live_closed(heap.objects(), heap.roots(), spec_root_slots(heap.roots().len()), live),
        forall|j: int| 0 <= j < remembered.len() ==> live.contains(#[trigger] remembered[j]),
        forall|i: int| 0 <= i < edges.len() ==> heap.valid_edge(#[trigger] edges[i]),
        forall|i: int| 0 <= i < heap.roots().len() ==> edges[i] == HeapEdge::Root(i as usize),
        edges.len() >= heap.roots().len(),
        forall|i: int|
            heap.roots().len() <= i < edges.len() ==> (#[trigger] edges[i] matches HeapEdge::Field(
                o,
                k,
            ) && remembered.contains(o)),
    ensures
        spec_live_closed(heap.objects(), heap.roots(), edges, live),
{
    assert forall|i: int| 0 <= i < edges.len() implies spec_valid_edge(
        heap.objects(),
        heap.roots(),
        #[trigger] edges[i],
    ) && (spec_load_edge(heap.objects(), heap.roots(), edges[i])@ == 0 || live.contains(
        spec_load_edge(heap.objects(), heap.roots(), edges[i]),
    )) by {
        assert(heap.valid_edge(edges[i]));
        if i < heap.roots().len() {
            assert(edges[i] == HeapEdge::Root(i as usize));
            assert(spec_root_slots(heap.roots().len())[i] == edges[i]);
        } else {
            match edges[i] {
                HeapEdge::Root(r) => {},
                HeapEdge::Field(o, k) => {
                    let j = choose|j: int| 0 <= j < remembered.len() && remembered[j] == o;
                    assert(live.contains(remembered[j]));
                    assert(heap.objects()[o][k as int]@ == 0 || live.contains(
                        heap.objects()[o][k as int],
                    ));
                },
            }
        }
    }
}

/// Takes the next step where it is known to open the next bucket.
fn open_next_bucket(
    scheduler: &mut GCWorkScheduler<GCWork>,
    Ghost(opened): Ghost<int>,
    Ghost(queues): Ghost<Seq<Seq<GCWork>>>,
)
    requires
        old(scheduler).in_state(opened, queues),
        1 <= opened < WORK_BUCKET_STAGES,
        forall|i: int| 0 <= i < opened ==> (#[trigger] queues[i]).len() == 0,
    ensures
        final(scheduler).in_state(opened + 1, queues),
        final(scheduler).finalizer() == old(scheduler).finalizer(),
{
    proof {
        scheduler.lemma_next_to_open(opened, queues);
    }
    match scheduler.next_step() {
        WorkerStep::Opened(_) => {
            proof {
                assert forall|i: int| 0 <= i < WORK_BUCKET_STAGES implies (
                #[trigger] scheduler.buckets()[i]).queue() == queues[i] by {
                    if i == opened {
                        assert(old(scheduler).buckets()[i].queue() + Seq::<GCWork>::empty()
                            =~= old(scheduler).buckets()[i].queue());
                        assert(old(scheduler).buckets()[i].open_packets() =~= Seq::<
                            GCWork,
                        >::empty());
                    }
                }
            }
        },
        _ => {
            unreached::<()>();
        },
    }
}

/// Takes the next step where it is known to hand out the first packet of
/// the stage with index `j`, whose bucket is open.
fn take_packet(
    scheduler: &mut GCWorkScheduler<GCWork>,
    Ghost(opened): Ghost<int>,
    Ghost(queues): Ghost<Seq<Seq<GCWork>>>,
    Ghost(j): Ghost<int>,
) -> (work: GCWork)
    requires
        old(scheduler).in_state(opened, queues),
        0 <= j < WORK_BUCKET_STAGES,
        j == opened - 1,
        queues[j].len() > 0,
        forall|i: int| 0 <= i < j ==> (#[trigger] queues[i]).len() == 0,
    ensures
        work == queues[j][0],
        final(scheduler).in_state(opened, queues.update(j, queues[j].drop_first())),
        final(scheduler).finalizer() == old(scheduler).finalizer(),
{
    proof {
        scheduler.lemma_ready_stage(opened, queues, j);
    }
    match scheduler.next_step() {
        WorkerStep::Run(_, work) => work,
        _ => unreached(),
    }
}

/// Whether the collection that begins now has room for every copy that it
/// may make: the three copying spaces are packed, and what is in use of
/// the nursery fits into the semispace that is copied to, beside what is
/// in use of that; in a collection of the whole heap, what is in use of the
/// nursery and of one semispace fits into the other.
pub open spec fn spec_reserve_suffices(plan: &TripleSpace, heap: &Heap) -> bool {
    &&& plan.spec_packed(heap)
    &&& if plan.spec_request_full_heap_collection() {
        plan.youngspace.common().used() + plan.spec_tospace().common().used()
            <= plan.spec_fromspace().common().extent()
    } else {
        plan.youngspace.common().used() + plan.spec_tospace().common().used()
            <= plan.spec_tospace().common().extent()
    }
}

/// Runs a collection of the plan as one worker does: it decides whether
/// the collection takes in the whole heap, adds the packets to the buckets
/// of the scheduler, and takes them out stage by stage. The mutators are
/// stopped and the roots gathered; the plan is prepared; the closure is
/// computed from the roots and from the fields of the objects that were
/// remembered; and what the collection freed is released. Returns the
/// objects that were scanned, in order.
///
/// Afterwards the nursery is empty, and so is the semispace that is copied
/// from. If an object cannot be copied, the collection ends with an error,
/// half done; with room for every copy that it may make, it does not.
pub fn collect(
    plan: &mut TripleSpace,
    heap: &mut Heap,
    scheduler: &mut GCWorkScheduler<GCWork>,
    remembered: &Vec<ObjectReference>,
) -> (res: Result<Vec<ObjectReference>, GcError>)
    requires
        old(plan).plan_inv(old(heap)),
        old(plan).spec_fromspace().common().used() == 0,
        old(scheduler).is_idle(),
        exists|live: Set<ObjectReference>| #[trigger]
            spec_collectable(old(plan), old(heap), remembered@, live),
    ensures
        res matches Ok(scanned) ==> {
            &&& final(plan).plan_inv(final(heap))
            &&& final(scheduler).is_idle()
            &&& final(plan).gc_full_heap == old(plan).spec_request_full_heap_collection()
            &&& final(plan).hi == (old(plan).hi != final(plan).gc_full_heap)
            &&& final(plan).youngspace.common().used() == 0
            &&& final(plan).spec_fromspace().common().used() == 0
            &&& final(plan).common.base.gc_status == GcStatus::NotInGC
            &&& !final(plan).common.base.user_triggered_collection
            &&& !final(plan).common.base.allocation_success
            &&& final(plan).common.base.options == old(plan).common.base.options
            &&& final(plan).common.base.cur_collection_attempts == old(
                plan,
            ).common.base.spec_next_attempt()
            &&& final(plan).youngspace.common().start() == old(plan).youngspace.common().start()
            &&& final(plan).youngspace.common().extent() == old(plan).youngspace.common().extent()
            &&& final(plan).copyspace0.common().extent() == old(plan).copyspace0.common().extent()
            &&& final(plan).copyspace1.common().extent() == old(plan).copyspace1.common().extent()
            &&& *final(plan).common.immortal.common() == *old(plan).common.immortal.common()
            &&& *final(plan).common.los.common() == *old(plan).common.los.common()
            &&& spec_survivors_are_mature(final(plan), final(heap))
            &&& exists|moved: Map<ObjectReference, ObjectReference>, live_after: Set<ObjectReference>|
                #[trigger] spec_collection_result(
                    old(heap).objects(),
                    old(heap).roots(),
                    moved,
                    live_after,
                    final(heap).objects(),
                    final(heap).roots(),
                    scanned@,
                )
            &&& forall|live: Set<ObjectReference>| #[trigger]
                spec_collectable(old(plan), old(heap), remembered@, live) ==> exists|
                    moved: Map<ObjectReference, ObjectReference>,
                    live_after: Set<ObjectReference>,
                | #[trigger]
                    spec_collection_keeps(
                        old(heap).objects(),
                        old(heap).roots(),
                        moved,
                        live,
                        live_after,
                        final(heap).objects(),
                        final(heap).roots(),
                        scanned@,
                        old(plan).youngspace.common(),
                        final(plan).gc_full_heap,
                    )
        },
        spec_reserve_suffices(old(plan), old(heap)) ==> res is Ok && final(plan).spec_packed(
            final(heap),
        ),
{
    let ghost live = choose|live: Set<ObjectReference>| #[trigger]
        spec_collectable(&*plan, &*heap, remembered@, live);
    let ghost h0 = heap.objects();
    let ghost r0 = heap.roots();
    let ghost none = Seq::<GCWork>::empty();
    proof {
        assert forall|j: int| 0 <= j < remembered@.len() implies heap.objects().contains_key(
            #[trigger] remembered@[j],
        ) by {
            assert(live.contains(remembered@[j]));
        }
    }
    plan.schedule_collection(scheduler);
    let ghost full = plan.gc_full_heap;
    let ghost stop = GCWork::StopMutators { full_heap: full };
    let ghost mut queues = spec_queues(seq![stop], seq![GCWork::Prepare], none, seq![GCWork::Release]);
    proof {
        assert forall|i: int| 0 <= i < WORK_BUCKET_STAGES implies (
        #[trigger] scheduler.buckets()[i]).queue() == queues[i] by {
            let q = scheduler.buckets()[i].queue();
            if i == 0 {
                assert(q.len() == 1);
                assert(q.last() == q[0]);
                assert(q =~= seq![stop]);
            } else if i == 1 {
                assert(q.len() == 1);
                assert(q.last() == q[0]);
                assert(q =~= seq![GCWork::Prepare]);
            } else if i == 7 {
                assert(q.len() == 1);
                assert(q.last() == q[0]);
                assert(q =~= seq![GCWork::Release]);
            } else {
                assert(q =~= none);
            }
        }
        assert(scheduler.in_state(1, queues));
    }
    // The unconstrained stage: the mutators are stopped and their roots
    // are gathered.
    let first = take_packet(scheduler, Ghost(1), Ghost(queues), Ghost(0));
    match first {
        GCWork::StopMutators { full_heap } => {},
        _ => {
            unreached::<()>();
        },
    }
    let edges = collect_roots(heap, remembered);
    let ghost edges_seq = edges@;
    let ghost packet = GCWork::ProcessEdges { edges, roots: true };
    scheduler.add(WorkBucketStage::Closure, GCWork::ProcessEdges { edges, roots: true });
    proof {
        queues = spec_queues(none, seq![GCWork::Prepare], seq![packet], seq![GCWork::Release]);
        assert forall|i: int| 0 <= i < WORK_BUCKET_STAGES implies (
        #[trigger] scheduler.buckets()[i]).queue() == queues[i] by {
            let q = scheduler.buckets()[i].queue();
            if i == 0 {
                assert(q =~= none);
            } else if i == 2 {
                assert(q =~= seq![packet]);
            }
        }
        assert(scheduler.in_state(1, queues));
    }
    // The stage that prepares.
    open_next_bucket(scheduler, Ghost(1), Ghost(queues));
    let second = take_packet(scheduler, Ghost(2), Ghost(queues), Ghost(1));
    match second {
        GCWork::Prepare => {},
        _ => {
            unreached::<()>();
        },
    }
    proof {
        let after = spec_queues(none, none, seq![packet], seq![GCWork::Release]);
        assert(queues[1].drop_first() =~= none);
        assert(queues.update(1, queues[1].drop_first()) =~= after);
        queues = after;
    }
    plan.prepare(heap);
    plan.common.base.set_gc_status(GcStatus::GcProper);
    proof {
        plan.lemma_prepared_is_ready(&*heap);
        heap.lemma_objects_finite();
        if spec_reserve_suffices(old(plan), old(heap)) {
            old(plan).youngspace.lemma_packed_after(&plan.youngspace, old(heap), &*heap);
            old(plan).copyspace0.lemma_packed_after(&plan.copyspace0, old(heap), &*heap);
            old(plan).copyspace1.lemma_packed_after(&plan.copyspace1, old(heap), &*heap);
            plan.youngspace.lemma_unforwarded_in_use(&*heap);
            plan.copyspace0.lemma_unforwarded_in_use(&*heap);
            plan.copyspace1.lemma_unforwarded_in_use(&*heap);
            assert(plan.spec_has_reserve(&*heap));
        }
    }
    // The closure.
    open_next_bucket(scheduler, Ghost(2), Ghost(queues));
    let third = take_packet(scheduler, Ghost(3), Ghost(queues), Ghost(2));
    proof {
        let after = spec_queues(none, none, none, seq![GCWork::Release]);
        assert(queues[2].drop_first() =~= none);
        assert(queues.update(2, queues[2].drop_first()) =~= after);
        queues = after;
    }
    let edges = match third {
        GCWork::ProcessEdges { edges, roots } => edges,
        _ => unreached(),
    };
    proof {
        assert(edges@ == edges_seq);
        lemma_roots_closed(&*heap, remembered@, edges_seq, live);
    }
    let ghost before_trace = *plan;
    let ghost heap0 = *heap;
    let scanned = trace_closure(plan, heap, edges)?;
    let ghost traced_plan = *plan;
    let ghost moved = plan.traced();
    let ghost middle = *heap;
    proof {
        assert(before_trace.unchanged_but_traced(&*plan));
    }
    // The stages of the references, which this plan has no packets for,
    // and the stage that releases.
    open_next_bucket(scheduler, Ghost(3), Ghost(queues));
    open_next_bucket(scheduler, Ghost(4), Ghost(queues));
    open_next_bucket(scheduler, Ghost(5), Ghost(queues));
    open_next_bucket(scheduler, Ghost(6), Ghost(queues));
    open_next_bucket(scheduler, Ghost(7), Ghost(queues));
    let fourth = take_packet(scheduler, Ghost(8), Ghost(queues), Ghost(7));
    match fourth {
        GCWork::Release => {},
        _ => {
            unreached::<()>();
        },
    }
    proof {
        let after = spec_queues(none, none, none, none);
        assert(queues[7].drop_first() =~= none);
        assert(queues.update(7, queues[7].drop_first()) =~= after);
        queues = after;
    }
    plan.release(heap);
    // The last stage, and the end of the collection.
    open_next_bucket(scheduler, Ghost(8), Ghost(queues));
    proof {
        scheduler.lemma_next_to_open(9, queues);
    }
    match scheduler.next_step() {
        WorkerStep::Finished(finalizer) => {},
        _ => {
            unreached::<()>();
        },
    }
    scheduler.deactivate_all();
    plan.common.base.set_gc_status(GcStatus::NotInGC);
    plan.common.base.user_triggered_collection = false;
    proof {
        let slots = spec_root_slots(heap.roots().len());
        let young = old(plan).youngspace.common();
        assert forall|x: ObjectReference| #[trigger] moved.contains_key(x) implies heap.objects().contains_key(
            moved[x],
        ) && heap.objects()[moved[x]] == middle.objects()[moved[x]] by {
            assert(middle.objects().contains_key(moved[x]));
        }
        assert forall|i: int| 0 <= i < r0.len() implies (#[trigger] heap.roots()[i]) == spec_image(
            moved,
            r0[i],
        ) by {
            middle.lemma_root_count_fits();
            assert(edges_seq[i] == HeapEdge::Root(i as usize));
            assert(spec_load_edge(middle.objects(), middle.roots(), edges_seq[i]) == spec_image(
                moved,
                spec_load_edge(h0, r0, edges_seq[i]),
            ));
        }
        assert forall|l: Set<ObjectReference>| #[trigger]
            spec_collectable(old(plan), old(heap), remembered@, l) implies spec_collection_keeps(
            h0,
            r0,
            moved,
            l,
            spec_live_after(&traced_plan, l),
            heap.objects(),
            heap.roots(),
            scanned@,
            young,
            full,
        ) by {
            let kept = spec_live_after(&traced_plan, l);
            lemma_roots_closed(&heap0, remembered@, edges_seq, l);
            assert(spec_remembered(&traced_plan, h0, edges_seq, l)) by {
                assert forall|e: HeapEdge|
                    (e matches HeapEdge::Field(x, k) && l.contains(x) && !traced_plan.in_scope(x)
                        && k < h0[x].len() && h0[x][k as int]@ != 0 && traced_plan.in_scope(
                        h0[x][k as int],
                    )) implies #[trigger] edges_seq.contains(e) by {
                    match e {
                        HeapEdge::Root(r) => {},
                        HeapEdge::Field(x, k) => {
                            assert(h0.contains_key(x));
                            assert(old(plan).claims(x@));
                            if full {
                                // the semispace that is copied to was empty,
                                // so the object lies in a space that is traced
                                assert(!traced_plan.spec_tospace().common().contains(x@));
                                assert(traced_plan.in_scope(x));
                            } else {
                                assert(remembered@.contains(x));
                            }
                        },
                    }
                }
            }
            lemma_live_closed_after(&traced_plan, &middle, h0, r0, edges_seq, scanned@, l);
            // the objects that were kept are still there
            assert forall|o: ObjectReference| kept.contains(o) implies #[trigger] heap.objects().contains_key(
                o,
            ) by {
                let x = choose|x: ObjectReference|
                    #[trigger] l.contains(x) && (moved.contains_key(x) || !before_trace.in_scope(x))
                        && spec_image(moved, x) == o;
                assert(middle.objects().contains_key(o));
            }
            assert(spec_live_closed(middle.objects(), middle.roots(), slots, kept)) by {
                assert forall|i: int| 0 <= i < slots.len() implies spec_valid_edge(
                    middle.objects(),
                    middle.roots(),
                    #[trigger] slots[i],
                ) && (spec_load_edge(middle.objects(), middle.roots(), slots[i])@ == 0
                    || kept.contains(spec_load_edge(middle.objects(), middle.roots(), slots[i]))) by {
                    assert(edges_seq[i] == slots[i]);
                }
            }
            lemma_live_closed_after_removal(
                middle.objects(),
                middle.roots(),
                slots,
                kept,
                heap.objects(),
            );
            assert forall|y: ObjectReference| #[trigger] kept.contains(y) implies scanned@.contains(y)
                || (l.contains(y) && !young.contains(y@)) by {
                let x = choose|x: ObjectReference|
                    #[trigger] l.contains(x) && (moved.contains_key(x) || !before_trace.in_scope(x))
                        && spec_image(moved, x) == y;
                if !moved.contains_key(x) {
                    assert(!before_trace.in_scope(x));
                }
            }
            assert forall|x: ObjectReference| #[trigger]
                spec_reachable(h0, r0, spec_root_slots(r0.len()), x) && (full || young.contains(
                    x@,
                )) implies moved.contains_key(x) by {
                let path = choose|path: Seq<ObjectReference>|
                    #[trigger] spec_is_path(h0, r0, spec_root_slots(r0.len()), path)
                        && path.last() == x;
                assert(spec_is_path(h0, r0, edges_seq, path)) by {
                    let i = choose|i: int|
                        0 <= i < spec_root_slots(r0.len()).len() && spec_load_edge(
                            h0,
                            r0,
                            #[trigger] spec_root_slots(r0.len())[i],
                        ) == path[0];
                    assert(edges_seq[i] == spec_root_slots(r0.len())[i]);
                }
                lemma_path_is_traced(
                    &traced_plan,
                    &middle,
                    h0,
                    r0,
                    edges_seq,
                    scanned@,
                    l,
                    path,
                );
                // an object of the heap that is not in the empty semispace
                // that is copied to is one that a collection of the whole
                // heap traces
                assert(h0.contains_key(x));
                assert(old(plan).claims(x@));
            }
            assert forall|y: ObjectReference| #[trigger]
                l.contains(y) && !full && !young.contains(y@) implies heap.objects().contains_key(y)
                && heap.objects()[y].len() == h0[y].len() && forall|k: int|
                0 <= k < h0[y].len() ==> (#[trigger] heap.objects()[y][k]) == spec_image(
                    moved,
                    h0[y][k],
                ) by {
                assert(h0.contains_key(y));
                assert(middle.objects().contains_key(y));
                assert(heap.objects().contains_key(y));
                assert forall|k: int| 0 <= k < h0[y].len() implies (
                #[trigger] heap.objects()[y][k]) == spec_image(moved, h0[y][k]) by {
                    lemma_untraced_edge_consistency(
                        &traced_plan,
                        &middle,
                        h0,
                        r0,
                        edges_seq,
                        scanned@,
                        l,
                        y,
                        k,
                    );
                }
            }
        }
        assert(spec_collection_keeps(
            h0,
            r0,
            moved,
            live,
            spec_live_after(&traced_plan, live),
            heap.objects(),
            heap.roots(),
            scanned@,
            young,
            full,
        ));
        lemma_survivors_are_mature(&*plan, &*heap);
    }
    Ok(scanned)
}

} // verus!
