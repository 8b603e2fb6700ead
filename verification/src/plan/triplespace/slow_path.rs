//! What a mutator does when it cannot go on by itself: it has the heap
//! collected, at the request of the user or for want of room for an
//! allocation. And what the write barrier keeps true in between, so that
//! the heap can be collected.

use crate::plan::barriers::LogBits;
use crate::plan::global::AllocationSemantics;
use crate::plan::global::GcStatus;
use crate::plan::mutator_context::Mutator;
use crate::plan::closure::spec_live_closed;
use crate::plan::triplespace::collection::collect;
use crate::plan::triplespace::collection::spec_reserve_suffices;
use crate::plan::triplespace::collection::spec_collectable;
use crate::plan::triplespace::collection::spec_collection_keeps;
use crate::plan::triplespace::collection::spec_collection_result;
use crate::plan::triplespace::collection::spec_root_slots;
use crate::plan::triplespace::collection::spec_survivors_are_mature;
use crate::plan::triplespace::global::TripleSpace;
use crate::plan::triplespace::mutator::post_alloc;
use crate::plan::triplespace::mutator::spec_unlogged_after_allocation;
use crate::policy::space::spec_object_size;
use crate::policy::space::GcError;
use crate::scheduler::gc_work::GCWork;
use crate::scheduler::scheduler::GCWorkScheduler;
use crate::util::address::ObjectReference;
use crate::util::heap::spec_load_edge;
use crate::util::heap::spec_valid_edge;
use crate::util::heap::Heap;
use crate::util::heap::HeapEdge;
use vstd::prelude::*;

verus! {

/// After a collection nothing is remembered and nothing needs to be: the
/// nursery is empty, so no field holds an object of the nursery.
pub proof fn lemma_collectable_after_collection(
    plan: &TripleSpace,
    heap: &Heap,
    live: Set<ObjectReference>,
)
    requires
        plan.plan_inv(heap),
        plan.youngspace.common().used() == 0,
        spec_live_closed(heap.objects(), heap.roots(), spec_root_slots(heap.roots().len()), live),
    ensures
        spec_collectable(plan, heap, Seq::<ObjectReference>::empty(), live),
{
    assert forall|x: ObjectReference, k: int|
        live.contains(x) && !plan.youngspace.common().contains(x@) && 0 <= k
            < heap.objects()[x].len() && plan.youngspace.common().contains(
            (#[trigger] heap.objects()[x][k])@,
        ) implies Seq::<ObjectReference>::empty().contains(x) by {
        let v = heap.objects()[x][k];
        // what the field holds is an object of the heap, and no object
        // of the heap lies in the empty nursery
        assert(v@ != 0);
        assert(live.contains(v));
        assert(heap.objects().contains_key(v));
    }
}

/// What a collection needs of the heap still holds when an object joins
/// the heap whose fields hold null.
pub proof fn lemma_collectable_after_allocation(
    plan_before: &TripleSpace,
    plan_after: &TripleSpace,
    before: &Heap,
    after: &Heap,
    object: ObjectReference,
    remembered: Seq<ObjectReference>,
    live: Set<ObjectReference>,
)
    requires
        spec_collectable(plan_before, before, remembered, live),
        plan_after.youngspace.common().start() == plan_before.youngspace.common().start(),
        plan_after.youngspace.common().extent() == plan_before.youngspace.common().extent(),
        !before.objects().contains_key(object),
        object@ != 0,
        exists|fields: Seq<ObjectReference>| after.objects() == before.objects().insert(object, fields),
        after.roots() == before.roots(),
    ensures
        spec_collectable(plan_after, after, remembered, live),
{
    let slots = spec_root_slots(before.roots().len());
    assert forall|x: ObjectReference| #[trigger] live.contains(x) implies after.objects()[x]
        == before.objects()[x] && after.objects().contains_key(x) by {
        assert(before.objects().contains_key(x));
    }
    assert forall|i: int| 0 <= i < slots.len() implies spec_valid_edge(
        after.objects(),
        after.roots(),
        #[trigger] slots[i],
    ) && (spec_load_edge(after.objects(), after.roots(), slots[i])@ == 0 || live.contains(
        spec_load_edge(after.objects(), after.roots(), slots[i]),
    )) by {
        assert(spec_valid_edge(before.objects(), before.roots(), slots[i]));
    }
    assert forall|x: ObjectReference, k: int|
        live.contains(x) && !plan_after.youngspace.common().contains(x@) && 0 <= k
            < after.objects()[x].len() && plan_after.youngspace.common().contains(
            (#[trigger] after.objects()[x][k])@,
        ) implies remembered.contains(x) by {
        assert(live.contains(x));
        assert(plan_before.youngspace.common().contains(before.objects()[x][k]@));
    }
}

/// What the write barrier keeps true between collections, for a set
/// `live` of objects: the heap can be collected with the objects that were
/// remembered, and every object of `live` outside the nursery that was not
/// remembered has its log bit set, so that the barrier remembers it at
/// the next write to it.
pub open spec fn spec_remembering(
    plan: &TripleSpace,
    heap: &Heap,
    unlogged: Set<ObjectReference>,
    remembered: Seq<ObjectReference>,
    live: Set<ObjectReference>,
) -> bool {
    &&& spec_collectable(plan, heap, remembered, live)
    &&& forall|x: ObjectReference| #[trigger]
        live.contains(x) && !plan.youngspace.common().contains(x@) && !remembered.contains(x)
            ==> unlogged.contains(x)
}

/// A heap without objects, whose roots hold null, is kept as the barrier
/// keeps it, for the empty set of objects.
pub proof fn lemma_remembering_at_start(
    plan: &TripleSpace,
    heap: &Heap,
    unlogged: Set<ObjectReference>,
)
    requires
        heap.objects() == Map::<ObjectReference, Seq<ObjectReference>>::empty(),
        forall|i: int| 0 <= i < heap.roots().len() ==> (#[trigger] heap.roots()[i])@ == 0,
    ensures
        spec_remembering(
            plan,
            heap,
            unlogged,
            Seq::<ObjectReference>::empty(),
            Set::<ObjectReference>::empty(),
        ),
{
    let slots = spec_root_slots(heap.roots().len());
    assert forall|i: int| 0 <= i < slots.len() implies spec_valid_edge(
        heap.objects(),
        heap.roots(),
        #[trigger] slots[i],
    ) && spec_load_edge(heap.objects(), heap.roots(), slots[i])@ == 0 by {
        heap.lemma_root_count_fits();
        assert(slots[i] == HeapEdge::Root(i as usize));
    }
}

/// A write to a field of an object of `live`, of null or of an object of
/// `live`, after which the barrier ran, keeps what the barrier keeps true.
pub proof fn lemma_write_keeps_remembering(
    plan: &TripleSpace,
    before: &Heap,
    after: &Heap,
    unlogged: Set<ObjectReference>,
    remembered: Seq<ObjectReference>,
    live: Set<ObjectReference>,
    src: ObjectReference,
    k: int,
    value: ObjectReference,
)
    requires
        spec_remembering(plan, before, unlogged, remembered, live),
        live.contains(src),
        0 <= k < before.objects()[src].len(),
        value@ == 0 || live.contains(value),
        after.roots() == before.roots(),
        after.objects() == before.objects().insert(src, before.objects()[src].update(k, value)),
    ensures
        spec_remembering(
            plan,
            after,
            unlogged.remove(src),
            if unlogged.contains(src) {
                remembered.push(src)
            } else {
                remembered
            },
            live,
        ),
{
    let after_remembered = if unlogged.contains(src) {
        remembered.push(src)
    } else {
        remembered
    };
    let slots = spec_root_slots(before.roots().len());
    assert(before.objects().contains_key(src));
    assert forall|x: ObjectReference, j: int|
        live.contains(x) && 0 <= j < after.objects()[x].len() implies (
        #[trigger] after.objects()[x][j])@ == 0 || live.contains(after.objects()[x][j]) by {
        assert(before.objects().contains_key(x));
        if x != src || j != k {
            assert(before.objects()[x][j]@ == 0 || live.contains(before.objects()[x][j]));
        }
    }
    assert forall|i: int| 0 <= i < slots.len() implies spec_valid_edge(
        after.objects(),
        after.roots(),
        #[trigger] slots[i],
    ) && (spec_load_edge(after.objects(), after.roots(), slots[i])@ == 0 || live.contains(
        spec_load_edge(after.objects(), after.roots(), slots[i]),
    )) by {
        assert(spec_valid_edge(before.objects(), before.roots(), slots[i]));
    }
    assert forall|j: int| 0 <= j < after_remembered.len() implies live.contains(
        #[trigger] after_remembered[j],
    ) by {
        if j < remembered.len() {
            assert(live.contains(remembered[j]));
        }
    }
    assert forall|x: ObjectReference| remembered.contains(x) implies after_remembered.contains(
        x,
    ) by {
        let j = choose|j: int| 0 <= j < remembered.len() && remembered[j] == x;
        assert(after_remembered[j] == x);
    }
    if unlogged.contains(src) {
        assert(after_remembered[remembered.len() as int] == src);
        assert forall|x: ObjectReference| after_remembered.contains(x) implies remembered.contains(
            x,
        ) || x == src by {
            let j = choose|j: int| 0 <= j < after_remembered.len() && after_remembered[j] == x;
            if j < remembered.len() {
                assert(remembered[j] == x);
            }
        }
    }
    assert forall|x: ObjectReference, j: int|
        live.contains(x) && !plan.youngspace.common().contains(x@) && 0 <= j
            < after.objects()[x].len() && plan.youngspace.common().contains(
            (#[trigger] after.objects()[x][j])@,
        ) implies after_remembered.contains(x) by {
        if x != src {
            assert(plan.youngspace.common().contains(before.objects()[x][j]@));
            assert(remembered.contains(x));
        }
    }
}

/// Setting the log bit of an object that was just allocated outside the
/// nursery, or leaving the bits as they are after one was allocated in the
/// nursery, keeps what the barrier keeps true, with the new object among
/// those that the heap is closed under.
pub proof fn lemma_allocation_keeps_remembering(
    plan_before: &TripleSpace,
    plan_after: &TripleSpace,
    before: &Heap,
    after: &Heap,
    unlogged: Set<ObjectReference>,
    unlogged_after: Set<ObjectReference>,
    remembered: Seq<ObjectReference>,
    live: Set<ObjectReference>,
    object: ObjectReference,
    fields: Seq<ObjectReference>,
)
    requires
        spec_remembering(plan_before, before, unlogged, remembered, live),
        plan_after.youngspace.common().start() == plan_before.youngspace.common().start(),
        plan_after.youngspace.common().extent() == plan_before.youngspace.common().extent(),
        !plan_after.youngspace.common().contains(0),
        !before.objects().contains_key(object),
        object@ != 0,
        after.objects() == before.objects().insert(object, fields),
        forall|k: int| 0 <= k < fields.len() ==> (#[trigger] fields[k])@ == 0,
        after.roots() == before.roots(),
        forall|x: ObjectReference| unlogged.contains(x) ==> unlogged_after.contains(x),
        !plan_after.youngspace.common().contains(object@) ==> unlogged_after.contains(object),
    ensures
        spec_remembering(plan_after, after, unlogged_after, remembered, live.insert(object)),
{
    lemma_collectable_after_allocation(
        plan_before,
        plan_after,
        before,
        after,
        object,
        remembered,
        live,
    );
    let more = live.insert(object);
    let slots = spec_root_slots(after.roots().len());
    assert forall|i: int| 0 <= i < slots.len() implies spec_valid_edge(
        after.objects(),
        after.roots(),
        #[trigger] slots[i],
    ) && (spec_load_edge(after.objects(), after.roots(), slots[i])@ == 0 || more.contains(
        spec_load_edge(after.objects(), after.roots(), slots[i]),
    )) by {
        let v = spec_load_edge(after.objects(), after.roots(), slots[i]);
        assert(v@ == 0 || live.contains(v));
    }
    assert forall|x: ObjectReference, j: int|
        more.contains(x) && 0 <= j < after.objects()[x].len() implies (
        #[trigger] after.objects()[x][j])@ == 0 || more.contains(after.objects()[x][j]) by {
        if x != object {
            assert(live.contains(x));
            assert(after.objects()[x][j]@ == 0 || live.contains(after.objects()[x][j]));
        }
    }
    assert forall|j: int| 0 <= j < remembered.len() implies more.contains(
        #[trigger] remembered[j],
    ) by {
        assert(live.contains(remembered[j]));
    }
    assert forall|x: ObjectReference, j: int|
        more.contains(x) && !plan_after.youngspace.common().contains(x@) && 0 <= j
            < after.objects()[x].len() && plan_after.youngspace.common().contains(
            (#[trigger] after.objects()[x][j])@,
        ) implies remembered.contains(x) by {
        if x != object {
            assert(live.contains(x));
            assert(plan_before.youngspace.common().contains(before.objects()[x][j]@));
        } else {
            assert(fields[j]@ == 0);
        }
    }
    assert forall|x: ObjectReference| #[trigger]
        more.contains(x) && !plan_after.youngspace.common().contains(x@) && !remembered.contains(
            x,
        ) implies unlogged_after.contains(x) by {
        if x != object {
            assert(live.contains(x));
            assert(unlogged.contains(x));
        }
    }
}

/// New values of the roots, each null or an object of `live`, keep what
/// the barrier keeps true.
pub proof fn lemma_roots_keep_remembering(
    plan: &TripleSpace,
    before: &Heap,
    after: &Heap,
    unlogged: Set<ObjectReference>,
    remembered: Seq<ObjectReference>,
    live: Set<ObjectReference>,
)
    requires
        spec_remembering(plan, before, unlogged, remembered, live),
        after.objects() == before.objects(),
        forall|i: int|
            0 <= i < after.roots().len() ==> (#[trigger] after.roots()[i])@ == 0 || live.contains(
                after.roots()[i],
            ),
    ensures
        spec_remembering(plan, after, unlogged, remembered, live),
{
    let slots = spec_root_slots(after.roots().len());
    assert forall|i: int| 0 <= i < slots.len() implies spec_valid_edge(
        after.objects(),
        after.roots(),
        #[trigger] slots[i],
    ) && (spec_load_edge(after.objects(), after.roots(), slots[i])@ == 0 || live.contains(
        spec_load_edge(after.objects(), after.roots(), slots[i]),
    )) by {
        after.lemma_root_count_fits();
        assert(slots[i] == HeapEdge::Root(i as usize));
        assert(after.roots()[i]@ == 0 || live.contains(after.roots()[i]));
    }
}

/// Sets the log bit of each of `objects`.
fn mark_all_as_unlogged(log_bits: &mut LogBits, objects: &Vec<ObjectReference>)
    ensures
        forall|x: ObjectReference|
            #![trigger final(log_bits).unlogged().contains(x)]
            final(log_bits).unlogged().contains(x) <==> old(log_bits).unlogged().contains(x)
                || objects@.contains(x),
{
    let mut i: usize = 0;
    while i < objects.len()
        invariant
            i <= objects@.len(),
            forall|x: ObjectReference|
                #![trigger log_bits.unlogged().contains(x)]
                log_bits.unlogged().contains(x) <==> old(log_bits).unlogged().contains(x)
                    || objects@.subrange(0, i as int).contains(x),
        decreases objects@.len() - i,
    {
        let ghost before = log_bits.unlogged();
        log_bits.mark_as_unlogged(objects[i]);
        proof {
            let shorter = objects@.subrange(0, i as int);
            let longer = objects@.subrange(0, i + 1);
            assert(longer[i as int] == objects@[i as int]);
            assert forall|x: ObjectReference| longer.contains(x) <==> shorter.contains(x) || x
                == objects@[i as int] by {
                if shorter.contains(x) {
                    let j = choose|j: int| 0 <= j < shorter.len() && shorter[j] == x;
                    assert(longer[j] == x);
                }
                if longer.contains(x) {
                    let j = choose|j: int| 0 <= j < longer.len() && longer[j] == x;
                    if j < i {
                        assert(shorter[j] == x);
                    }
                }
            }
        }
        i = i + 1;
    }
    assert(objects@.subrange(0, i as int) =~= objects@);
}

/// Collects for a mutator: the objects that its barrier remembered are
/// handed to the collection, and afterwards the log bit is set of every
/// object that was scanned and of every object that was remembered, so
/// that the barrier remembers them at the next write. Returns the objects
/// that were scanned, in order.
pub fn collect_for_mutator(
    plan: &mut TripleSpace,
    heap: &mut Heap,
    scheduler: &mut GCWorkScheduler<GCWork>,
    mutator: &mut Mutator,
    log_bits: &mut LogBits,
) -> (res: Result<Vec<ObjectReference>, GcError>)
    requires
        old(plan).plan_inv(old(heap)),
        old(plan).spec_fromspace().common().used() == 0,
        old(scheduler).is_idle(),
        exists|live: Set<ObjectReference>| #[trigger]
            spec_remembering(
                old(plan),
                old(heap),
                old(log_bits).unlogged(),
                old(mutator).barrier.modbuf(),
                live,
            ),
    ensures
        final(mutator).barrier.modbuf() == Seq::<ObjectReference>::empty(),
        final(mutator).bump_allocator == old(mutator).bump_allocator,
        final(mutator).mutator_tls == old(mutator).mutator_tls,
        final(mutator).config == old(mutator).config,
        res matches Ok(scanned) ==> {
            &&& final(plan).plan_inv(final(heap))
            &&& final(scheduler).is_idle()
            &&& final(plan).gc_full_heap == old(plan).spec_request_full_heap_collection()
            &&& final(plan).hi == (old(plan).hi != final(plan).gc_full_heap)
            &&& final(plan).youngspace.common().used() == 0
            &&& final(plan).spec_fromspace().common().used() == 0
            &&& final(plan).common.base.gc_status == GcStatus::NotInGC
            &&& !final(plan).common.base.user_triggered_collection
            &&& !final(plan).common.base.allocation_success
            &&& final(plan).common.base.options == old(plan).common.base.options
            &&& final(plan).common.base.cur_collection_attempts == old(
                plan,
            ).common.base.spec_next_attempt()
            &&& final(plan).youngspace.common().start() == old(plan).youngspace.common().start()
            &&& final(plan).youngspace.common().extent() == old(plan).youngspace.common().extent()
            &&& final(plan).copyspace0.common().extent() == old(plan).copyspace0.common().extent()
            &&& final(plan).copyspace1.common().extent() == old(plan).copyspace1.common().extent()
            &&& *final(plan).common.immortal.common() == *old(plan).common.immortal.common()
            &&& *final(plan).common.los.common() == *old(plan).common.los.common()
            &&& spec_survivors_are_mature(final(plan), final(heap))
            &&& forall|x: ObjectReference|
                #![trigger final(log_bits).unlogged().contains(x)]
                final(log_bits).unlogged().contains(x) <==> old(log_bits).unlogged().contains(x)
                    || scanned@.contains(x) || old(mutator).barrier.modbuf().contains(x)
            &&& exists|moved: Map<ObjectReference, ObjectReference>, live_after: Set<ObjectReference>|
                #[trigger] spec_collection_result(
                    old(heap).objects(),
                    old(heap).roots(),
                    moved,
                    live_after,
                    final(heap).objects(),
                    final(heap).roots(),
                    scanned@,
                ) && spec_remembering(
                    final(plan),
                    final(heap),
                    final(log_bits).unlogged(),
                    final(mutator).barrier.modbuf(),
                    live_after,
                )
        },
        spec_reserve_suffices(old(plan), old(heap)) ==> res is Ok && final(plan).spec_packed(
            final(heap),
        ),
{
    let ghost live = choose|live: Set<ObjectReference>| #[trigger]
        spec_remembering(
            &*plan,
            &*heap,
            log_bits.unlogged(),
            mutator.barrier.modbuf(),
            live,
        );
    let remembered = mutator.barrier.flush();
    let scanned = collect(plan, heap, scheduler, &remembered)?;
    mark_all_as_unlogged(log_bits, &scanned);
    let ghost between = log_bits.unlogged();
    mark_all_as_unlogged(log_bits, &remembered);
    proof {
        assert forall|x: ObjectReference| #[trigger]
            log_bits.unlogged().contains(x) <==> old(log_bits).unlogged().contains(x)
                || scanned@.contains(x) || remembered@.contains(x) by {
            assert(between.contains(x) <==> old(log_bits).unlogged().contains(x)
                || scanned@.contains(x));
        }
        assert(spec_collectable(old(plan), old(heap), remembered@, live));
        let (moved, live_after) = choose|
            moved: Map<ObjectReference, ObjectReference>,
            live_after: Set<ObjectReference>,
        | #[trigger]
            spec_collection_keeps(
                old(heap).objects(),
                old(heap).roots(),
                moved,
                live,
                live_after,
                heap.objects(),
                heap.roots(),
                scanned@,
                old(plan).youngspace.common(),
                plan.gc_full_heap,
            );
        lemma_collectable_after_collection(&*plan, &*heap, live_after);
        assert(mutator.barrier.modbuf() =~= Seq::<ObjectReference>::empty());
        assert forall|x: ObjectReference| #[trigger]
            live_after.contains(x) implies log_bits.unlogged().contains(x) by {
            if !scanned@.contains(x) {
                assert(live.contains(x) && !old(plan).youngspace.common().contains(x@));
                if !remembered@.contains(x) {
                    assert(old(log_bits).unlogged().contains(x));
                }
            }
        }
        assert(spec_remembering(
            &*plan,
            &*heap,
            log_bits.unlogged(),
            mutator.barrier.modbuf(),
            live_after,
        ));
        assert(spec_collection_result(
            old(heap).objects(),
            old(heap).roots(),
            moved,
            live_after,
            heap.objects(),
            heap.roots(),
            scanned@,
        ));
    }
    Ok(scanned)
}

/// Whether a collection that the user asks for now has room for every
/// copy that it may make: the three copying spaces are packed, and what is
/// in use of the nursery and of the semispace that is copied to fits into
/// the semispace that such a collection copies to.
pub open spec fn spec_user_reserve_suffices(plan: &TripleSpace, heap: &Heap) -> bool {
    &&& plan.spec_packed(heap)
    &&& if plan.common.base.options.full_heap_system_gc
        || plan.spec_request_full_heap_collection() {
        plan.youngspace.common().used() + plan.spec_tospace().common().used()
            <= plan.spec_fromspace().common().extent()
    } else {
        plan.youngspace.common().used() + plan.spec_tospace().common().used()
            <= plan.spec_tospace().common().extent()
    }
}

/// Collects at the request of the user: the collection takes in the whole
/// heap if the options say so of such collections, or if the plan would
/// have collected the whole heap anyway. The objects that the barrier of
/// `mutator` remembered are handed to the collection. Returns the objects
/// that were scanned, in order.
pub fn handle_user_collection_request(
    plan: &mut TripleSpace,
    heap: &mut Heap,
    scheduler: &mut GCWorkScheduler<GCWork>,
    mutator: &mut Mutator,
    log_bits: &mut LogBits,
) -> (res: Result<Vec<ObjectReference>, GcError>)
    requires
        old(plan).plan_inv(old(heap)),
        old(plan).spec_fromspace().common().used() == 0,
        old(scheduler).is_idle(),
        exists|live: Set<ObjectReference>| #[trigger]
            spec_remembering(
                old(plan),
                old(heap),
                old(log_bits).unlogged(),
                old(mutator).barrier.modbuf(),
                live,
            ),
    ensures
        final(mutator).barrier.modbuf() == Seq::<ObjectReference>::empty(),
        res matches Ok(scanned) ==> {
            &&& final(plan).plan_inv(final(heap))
            &&& final(scheduler).is_idle()
            &&& final(plan).gc_full_heap == (old(plan).common.base.options.full_heap_system_gc
                || old(plan).spec_request_full_heap_collection())
            &&& final(plan).hi == (old(plan).hi != final(plan).gc_full_heap)
            &&& final(plan).youngspace.common().used() == 0
            &&& final(plan).spec_fromspace().common().used() == 0
            &&& final(plan).common.base.gc_status == GcStatus::NotInGC
            &&& !final(plan).common.base.user_triggered_collection
            &&& final(plan).common.base.cur_collection_attempts == 1
            &&& final(plan).common.base.options == old(plan).common.base.options
            &&& final(plan).youngspace.common().start() == old(plan).youngspace.common().start()
            &&& final(plan).youngspace.common().extent() == old(plan).youngspace.common().extent()
            &&& final(plan).copyspace0.common().extent() == old(plan).copyspace0.common().extent()
            &&& final(plan).copyspace1.common().extent() == old(plan).copyspace1.common().extent()
            &&& *final(plan).common.immortal.common() == *old(plan).common.immortal.common()
            &&& *final(plan).common.los.common() == *old(plan).common.los.common()
            &&& spec_survivors_are_mature(final(plan), final(heap))
            &&& exists|moved: Map<ObjectReference, ObjectReference>, live_after: Set<ObjectReference>|
                #[trigger] spec_collection_result(
                    old(heap).objects(),
                    old(heap).roots(),
                    moved,
                    live_after,
                    final(heap).objects(),
                    final(heap).roots(),
                    scanned@,
                ) && spec_remembering(
                    final(plan),
                    final(heap),
                    final(log_bits).unlogged(),
                    final(mutator).barrier.modbuf(),
                    live_after,
                )
        },
        spec_user_reserve_suffices(old(plan), old(heap)) ==> res is Ok && final(plan).spec_packed(
            final(heap),
        ),
{
    let ghost live = choose|live: Set<ObjectReference>| #[trigger]
        spec_remembering(&*plan, &*heap, log_bits.unlogged(), mutator.barrier.modbuf(), live);
    plan.common.base.user_triggered_collection = true;
    proof {
        assert(spec_remembering(
            &*plan,
            &*heap,
            log_bits.unlogged(),
            mutator.barrier.modbuf(),
            live,
        ));
    }
    proof {
        if spec_user_reserve_suffices(old(plan), old(heap)) {
            old(plan).youngspace.lemma_packed_after(&plan.youngspace, old(heap), &*heap);
            old(plan).copyspace0.lemma_packed_after(&plan.copyspace0, old(heap), &*heap);
            old(plan).copyspace1.lemma_packed_after(&plan.copyspace1, old(heap), &*heap);
            assert(spec_reserve_suffices(&*plan, &*heap));
        }
    }
    collect_for_mutator(plan, heap, scheduler, mutator, log_bits)
}

/// Allocates an object with `num_fields` fields, all null, if there is
/// room for it, and sets its log bit unless it lies in the nursery.
fn try_allocate(
    plan: &mut TripleSpace,
    heap: &mut Heap,
    log_bits: &mut LogBits,
    Ghost(remembered): Ghost<Seq<ObjectReference>>,
    num_fields: usize,
    semantics: AllocationSemantics,
) -> (res: Option<ObjectReference>)
    requires
        old(plan).plan_inv(old(heap)),
    ensures
        final(plan).plan_inv(final(heap)),
        final(plan).hi == old(plan).hi,
        final(plan).gc_full_heap == old(plan).gc_full_heap,
        final(plan).next_gc_full_heap == old(plan).next_gc_full_heap,
        final(plan).copyspace0 == old(plan).copyspace0,
        final(plan).copyspace1 == old(plan).copyspace1,
        final(plan).common.base.options == old(plan).common.base.options,
        final(heap).roots() == old(heap).roots(),
        res is Some <==> old(plan).spec_has_room(num_fields, semantics),
        forall|live: Set<ObjectReference>| #[trigger]
            spec_remembering(old(plan), old(heap), old(log_bits).unlogged(), remembered, live)
                ==> spec_remembering(
                final(plan),
                final(heap),
                final(log_bits).unlogged(),
                remembered,
                match res {
                    Some(object) => live.insert(object),
                    None => live,
                },
            ),
        res matches Some(object) ==> {
            &&& final(plan).common.base.allocation_success
            &&& object@ == old(plan).spec_allocation_space(semantics).start() + old(
                plan,
            ).spec_allocation_space(semantics).used()
            &&& object@ != 0
            &&& !old(heap).objects().contains_key(object)
            &&& final(heap).objects() == old(heap).objects().insert(
                object,
                Seq::new(num_fields as nat, |k: int| ObjectReference(0)),
            )
            &&& final(log_bits).unlogged() == spec_unlogged_after_allocation(
                old(log_bits).unlogged(),
                object,
                semantics,
            )
        },
        res is None ==> {
            &&& final(plan).common.base == old(plan).common.base
            &&& final(plan).youngspace.common().used() == old(plan).youngspace.common().used()
            &&& final(plan).common.immortal.common().used() == old(
                plan,
            ).common.immortal.common().used()
            &&& final(plan).common.los.common().used() == old(plan).common.los.common().used()
            &&& final(heap).objects() == old(heap).objects()
            &&& final(log_bits).unlogged() == old(log_bits).unlogged()
        },
        final(plan).youngspace.common().start() == old(plan).youngspace.common().start(),
        final(plan).youngspace.common().extent() == old(plan).youngspace.common().extent(),
        final(plan).common.immortal.common().start() == old(plan).common.immortal.common().start(),
        final(plan).common.immortal.common().extent() == old(
            plan,
        ).common.immortal.common().extent(),
        final(plan).common.los.common().start() == old(plan).common.los.common().start(),
        final(plan).common.los.common().extent() == old(plan).common.los.common().extent(),
        old(plan).spec_packed(old(heap)) ==> final(plan).spec_packed(final(heap)),
{
    let ghost start = *heap;
    let ghost start_plan = *plan;
    let res = plan.allocate(heap, num_fields, semantics);
    match res {
        Some(object) => {
            plan.common.base.allocation_success = true;
            post_alloc(log_bits, object, semantics);
            proof {
                assert(heap.objects().contains_key(object));
                assert(plan.claims(object@));
                let fields = Seq::new(num_fields as nat, |k: int| ObjectReference(0));
                assert forall|live: Set<ObjectReference>| #[trigger]
                    spec_remembering(
                        &start_plan,
                        &start,
                        old(log_bits).unlogged(),
                        remembered,
                        live,
                    ) implies spec_remembering(
                    &*plan,
                    &*heap,
                    log_bits.unlogged(),
                    remembered,
                    live.insert(object),
                ) by {
                    lemma_allocation_keeps_remembering(
                        &start_plan,
                        &*plan,
                        &start,
                        &*heap,
                        old(log_bits).unlogged(),
                        log_bits.unlogged(),
                        remembered,
                        live,
                        object,
                        fields,
                    );
                }
            }
        },
        None => {
            proof {
                assert forall|live: Set<ObjectReference>| #[trigger]
                    spec_remembering(
                        &start_plan,
                        &start,
                        old(log_bits).unlogged(),
                        remembered,
                        live,
                    ) implies spec_remembering(
                    &*plan,
                    &*heap,
                    log_bits.unlogged(),
                    remembered,
                    live,
                ) by {
                    assert(spec_collectable(&*plan, &*heap, remembered, live));
                }
            }
        },
    }
    res
}

/// Allocates an object with `num_fields` fields, all null, and sets its
/// log bit unless it lies in the nursery. If there is no room for it, the
/// heap is collected, as the plan sees fit, and the allocation is tried
/// again. If there is still no room and the collection did not take in the
/// whole heap, a collection of the whole heap follows and one more try. If
/// there is no room even then, the allocation fails for want of memory.
///
/// The objects that the barrier of `mutator` remembered are handed to the
/// first collection.
pub fn allocate_with_collection(
    plan: &mut TripleSpace,
    heap: &mut Heap,
    scheduler: &mut GCWorkScheduler<GCWork>,
    mutator: &mut Mutator,
    log_bits: &mut LogBits,
    num_fields: usize,
    semantics: AllocationSemantics,
) -> (res: Result<ObjectReference, GcError>)
    requires
        old(plan).plan_inv(old(heap)),
        old(plan).spec_fromspace().common().used() == 0,
        old(scheduler).is_idle(),
        exists|live: Set<ObjectReference>| #[trigger]
            spec_remembering(
                old(plan),
                old(heap),
                old(log_bits).unlogged(),
                old(mutator).barrier.modbuf(),
                live,
            ),
    ensures
        res matches Ok(object) ==> {
            &&& final(plan).plan_inv(final(heap))
            &&& final(plan).spec_fromspace().common().used() == 0
            &&& final(scheduler).is_idle()
            &&& final(plan).common.base.allocation_success
            &&& final(plan).common.base.options == old(plan).common.base.options
            &&& object@ != 0
            &&& final(heap).objects().contains_key(object)
            &&& final(heap).objects()[object] == Seq::new(
                num_fields as nat,
                |k: int| ObjectReference(0),
            )
            &&& final(heap).roots().len() == old(heap).roots().len()
            &&& exists|live: Set<ObjectReference>|
                (#[trigger] spec_remembering(
                    final(plan),
                    final(heap),
                    final(log_bits).unlogged(),
                    final(mutator).barrier.modbuf(),
                    live,
                )) && live.contains(object)
        },
        res matches Err(e) ==> e == GcError::OutOfMemory && !old(plan).spec_has_room(
            num_fields,
            semantics,
        ),
        // without room outside the nursery there is none after a collection
        !old(plan).spec_has_room(num_fields, semantics) && !(semantics is Default) ==> res is Err,
        // an object that is larger than the nursery never has room
        semantics is Default && spec_object_size(num_fields as nat) > old(
            plan,
        ).youngspace.common().extent() ==> res is Err,
        // an object that is no larger than the nursery has room in it after
        // a collection, which does not fail where it has room for the copies
        semantics is Default && spec_object_size(num_fields as nat) <= old(
            plan,
        ).youngspace.common().extent() && spec_reserve_suffices(old(plan), old(heap)) ==> res is Ok
            && final(plan).spec_packed(final(heap)),
        // with room for the object, nothing is collected
        old(plan).spec_has_room(num_fields, semantics) ==> {
            &&& res matches Ok(object)
            &&& object@ == old(plan).spec_allocation_space(semantics).start() + old(
                plan,
            ).spec_allocation_space(semantics).used()
            &&& !old(heap).objects().contains_key(object)
            &&& final(heap).objects() == old(heap).objects().insert(
                object,
                Seq::new(num_fields as nat, |k: int| ObjectReference(0)),
            )
            &&& final(heap).roots() == old(heap).roots()
            &&& final(mutator).barrier.modbuf() == old(mutator).barrier.modbuf()
            &&& final(log_bits).unlogged() == spec_unlogged_after_allocation(
                old(log_bits).unlogged(),
                object,
                semantics,
            )
            &&& final(plan).hi == old(plan).hi
            &&& old(plan).spec_packed(old(heap)) ==> final(plan).spec_packed(final(heap))
            &&& forall|live: Set<ObjectReference>| #[trigger]
                spec_remembering(
                    old(plan),
                    old(heap),
                    old(log_bits).unlogged(),
                    old(mutator).barrier.modbuf(),
                    live,
                ) ==> spec_remembering(
                    final(plan),
                    final(heap),
                    final(log_bits).unlogged(),
                    final(mutator).barrier.modbuf(),
                    live.insert(object),
                )
        },
{
    let ghost live = choose|live: Set<ObjectReference>| #[trigger]
        spec_remembering(&*plan, &*heap, log_bits.unlogged(), mutator.barrier.modbuf(), live);
    if let Some(object) = try_allocate(
        plan,
        heap,
        log_bits,
        Ghost(mutator.barrier.modbuf()),
        num_fields,
        semantics,
    ) {
        proof {
            assert(spec_remembering(
                &*plan,
                &*heap,
                log_bits.unlogged(),
                mutator.barrier.modbuf(),
                live.insert(object),
            ));
        }
        return Ok(object);
    }
    // No room: collect, as the plan sees fit.
    proof {
        assert(spec_remembering(
            &*plan,
            &*heap,
            log_bits.unlogged(),
            mutator.barrier.modbuf(),
            live,
        ));
    }
    collect_for_mutator(plan, heap, scheduler, mutator, log_bits)?;
    let ghost live_first = choose|live_first: Set<ObjectReference>| #[trigger]
        spec_remembering(
            &*plan,
            &*heap,
            log_bits.unlogged(),
            mutator.barrier.modbuf(),
            live_first,
        );
    if let Some(object) = try_allocate(
        plan,
        heap,
        log_bits,
        Ghost(mutator.barrier.modbuf()),
        num_fields,
        semantics,
    ) {
        proof {
            assert(spec_remembering(
                &*plan,
                &*heap,
                log_bits.unlogged(),
                mutator.barrier.modbuf(),
                live_first.insert(object),
            ));
        }
        return Ok(object);
    }
    if plan.gc_full_heap {
        return Err(GcError::OutOfMemory);
    }
    // Still no room: collect the whole heap.
    proof {
        assert(spec_remembering(
            &*plan,
            &*heap,
            log_bits.unlogged(),
            mutator.barrier.modbuf(),
            live_first,
        ));
    }
    plan.next_gc_full_heap = true;
    proof {
        assert(spec_remembering(
            &*plan,
            &*heap,
            log_bits.unlogged(),
            mutator.barrier.modbuf(),
            live_first,
        ));
    }
    collect_for_mutator(plan, heap, scheduler, mutator, log_bits)?;
    let ghost live_second = choose|live_second: Set<ObjectReference>| #[trigger]
        spec_remembering(
            &*plan,
            &*heap,
            log_bits.unlogged(),
            mutator.barrier.modbuf(),
            live_second,
        );
    match try_allocate(
        plan,
        heap,
        log_bits,
        Ghost(mutator.barrier.modbuf()),
        num_fields,
        semantics,
    ) {
        Some(object) => {
            proof {
                assert(spec_remembering(
                    &*plan,
                    &*heap,
                    log_bits.unlogged(),
                    mutator.barrier.modbuf(),
                    live_second.insert(object),
                ));
            }
            Ok(object)
        },
        None => Err(GcError::OutOfMemory),
    }
}

} // verus!
