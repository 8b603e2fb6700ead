use mmtk::plan::triplespace::collection::collect;
use mmtk::plan::triplespace::collection::collect_roots;
use mmtk::plan::triplespace::global::alloc_ts;
use mmtk::plan::barriers::LogBits;
use mmtk::plan::triplespace::mutator::create_ts_mutator;
use mmtk::plan::triplespace::mutator::post_alloc;
use mmtk::plan::triplespace::mutator::write_field;
use mmtk::plan::triplespace::slow_path::allocate_with_collection;
use mmtk::plan::triplespace::slow_path::collect_for_mutator;
use mmtk::plan::triplespace::slow_path::handle_user_collection_request;
use mmtk::plan::triplespace::TripleSpace;
use mmtk::plan::AllocationSemantics;
use mmtk::plan::GcStatus;
use mmtk::plan::Options;
use mmtk::policy::space::GcError;
use mmtk::scheduler::GCWork;
use mmtk::scheduler::GCWorkScheduler;
use mmtk::scheduler::WorkBucketStage;
use mmtk::util::address::ObjectReference;
use mmtk::util::heap::Heap;
use mmtk::util::heap::HeapEdge;

const NURSERY: usize = 4096;
const MATURE: usize = 1 << 16;
const YOUNG: usize = 0x1000_0000;
const COPY0: usize = YOUNG + NURSERY;
const COPY1: usize = COPY0 + MATURE;
const IMMORTAL: usize = COPY1 + MATURE;

fn small_heap() -> (TripleSpace, Heap, GCWorkScheduler<GCWork>) {
    let options = Options {
        threads: 1,
        max_heap_size: MATURE,
        min_nursery: 1024,
        max_nursery: NURSERY,
        full_heap_system_gc: true,
        stress_factor: 0,
    };
    let heap = Heap::new();
    let plan = TripleSpace::new(options, &heap);
    (plan, heap, GCWorkScheduler::new())
}

/// No packet waits, and a packet for a stage of a collection would wait
/// for the stage to open.
fn idle(scheduler: &mut GCWorkScheduler<GCWork>) -> bool {
    if !scheduler.all_activated_buckets_are_empty() {
        return false;
    }
    scheduler.add(WorkBucketStage::Prepare, GCWork::Prepare);
    let waits = scheduler.poll().is_none();
    let opened = scheduler.update_buckets();
    let taken = scheduler.poll();
    scheduler.deactivate_all();
    waits && opened == Some(WorkBucketStage::Prepare)
        && matches!(taken, Some((WorkBucketStage::Prepare, GCWork::Prepare)))
}

#[test]
fn collect_roots_lists_the_roots_and_then_the_fields() {
    let (mut plan, mut heap, _) = small_heap();
    let a = plan.allocate(&mut heap, 2, alloc_ts()).unwrap();
    let b = plan.allocate(&mut heap, 0, alloc_ts()).unwrap();
    let c = plan.allocate(&mut heap, 1, alloc_ts()).unwrap();
    heap.add_root(b);
    heap.add_root(ObjectReference::null());
    assert_eq!(
        collect_roots(&heap, &vec![]),
        vec![HeapEdge::Root(0), HeapEdge::Root(1)]
    );
    assert_eq!(
        collect_roots(&heap, &vec![c, b, a]),
        vec![
            HeapEdge::Root(0),
            HeapEdge::Root(1),
            HeapEdge::Field(c, 0),
            HeapEdge::Field(a, 0),
            HeapEdge::Field(a, 1),
        ]
    );
    assert_eq!(collect_roots(&Heap::new(), &vec![]), vec![]);
}

#[test]
fn collect_moves_the_survivors_out_of_the_nursery() {
    let (mut plan, mut heap, mut scheduler) = small_heap();
    let a = plan.allocate(&mut heap, 2, alloc_ts()).unwrap();
    let garbage = plan.allocate(&mut heap, 5, alloc_ts()).unwrap();
    let b = plan.allocate(&mut heap, 1, alloc_ts()).unwrap();
    let c = plan.allocate(&mut heap, 0, AllocationSemantics::Immortal).unwrap();
    heap.store(HeapEdge::Field(a, 0), b);
    heap.store(HeapEdge::Field(a, 1), c);
    heap.store(HeapEdge::Field(b, 0), a);
    heap.store(HeapEdge::Field(garbage, 0), a);
    let root = heap.add_root(a);
    let other = heap.add_root(b);
    let empty = heap.add_root(ObjectReference::null());

    let scanned = collect(&mut plan, &mut heap, &mut scheduler, &vec![]).unwrap();

    // a collection of the nursery: the roles of the semispaces stay
    assert!(!plan.gc_full_heap);
    assert!(!plan.hi);
    assert_eq!(plan.common.base.gc_status, GcStatus::NotInGC);
    assert!(idle(&mut scheduler));
    let a2 = ObjectReference(COPY0);
    let b2 = ObjectReference(COPY0 + 24);
    assert_eq!(scanned, vec![a2, b2]);
    assert_eq!(heap.load(root), a2);
    assert_eq!(heap.load(other), b2);
    assert_eq!(heap.load(empty), ObjectReference::null());
    assert_eq!(heap.load(HeapEdge::Field(a2, 0)), b2);
    // an immortal object is not traced by a collection of the nursery
    assert_eq!(heap.load(HeapEdge::Field(a2, 1)), c);
    assert_eq!(c, ObjectReference(IMMORTAL));
    assert_eq!(heap.load(HeapEdge::Field(b2, 0)), a2);
    assert_eq!(heap.num_roots(), 3);
    assert!(!heap.is_object(a));
    assert!(!heap.is_object(b));
    assert!(!heap.is_object(garbage));
    assert!(heap.is_object(c));
    assert_eq!(plan.youngspace.get_common().used_bytes(), 0);
    assert_eq!(plan.fromspace().get_common().used_bytes(), 0);
    assert_eq!(plan.tospace().get_common().used_bytes(), 24 + 16);
}

#[test]
fn collect_takes_the_fields_of_remembered_objects_as_roots() {
    let (mut plan, mut heap, mut scheduler) = small_heap();
    let old = plan.allocate(&mut heap, 1, alloc_ts()).unwrap();
    let root = heap.add_root(old);
    collect(&mut plan, &mut heap, &mut scheduler, &vec![]).unwrap();
    let old = heap.load(root);
    assert_eq!(old, ObjectReference(COPY0));
    // the root lets go of the object, which a mature object holds on to:
    // here the immortal one
    let keeper = plan.allocate(&mut heap, 1, AllocationSemantics::Immortal).unwrap();
    heap.store(root, keeper);
    let young = plan.allocate(&mut heap, 0, alloc_ts()).unwrap();
    assert_eq!(young, ObjectReference(YOUNG));
    heap.store(HeapEdge::Field(keeper, 0), young);

    let scanned = collect(&mut plan, &mut heap, &mut scheduler, &vec![keeper]).unwrap();

    assert!(!plan.gc_full_heap);
    let moved = ObjectReference(COPY0 + 16);
    assert_eq!(scanned, vec![moved]);
    assert_eq!(heap.load(HeapEdge::Field(keeper, 0)), moved);
    assert!(heap.is_object(moved));
    assert!(!heap.is_object(young));
    // a collection of the nursery frees nothing outside it
    assert!(heap.is_object(old));
    assert_eq!(plan.tospace().get_common().used_bytes(), 16 + 8);
}

#[test]
fn collect_of_the_whole_heap_swaps_the_semispaces() {
    let (mut plan, mut heap, mut scheduler) = small_heap();
    let a = plan.allocate(&mut heap, 1, alloc_ts()).unwrap();
    let b = plan.allocate(&mut heap, 1, alloc_ts()).unwrap();
    heap.store(HeapEdge::Field(a, 0), b);
    let root = heap.add_root(a);
    collect(&mut plan, &mut heap, &mut scheduler, &vec![]).unwrap();
    assert_eq!(heap.load(root), ObjectReference(COPY0));
    // the list loses its tail
    heap.store(HeapEdge::Field(ObjectReference(COPY0), 0), ObjectReference::null());

    plan.common.base.user_triggered_collection = true;
    let scanned = collect(&mut plan, &mut heap, &mut scheduler, &vec![]).unwrap();

    assert!(plan.gc_full_heap);
    assert!(plan.hi);
    assert!(!plan.common.base.user_triggered_collection);
    assert_eq!(scanned, vec![ObjectReference(COPY1)]);
    assert_eq!(heap.load(root), ObjectReference(COPY1));
    assert!(!heap.is_object(ObjectReference(COPY0)));
    assert!(!heap.is_object(ObjectReference(COPY0 + 16)));
    assert_eq!(plan.copyspace0.get_common().used_bytes(), 0);
    assert_eq!(plan.copyspace1.get_common().used_bytes(), 16);

    // and once more: back into the first semispace
    plan.common.base.user_triggered_collection = true;
    let scanned = collect(&mut plan, &mut heap, &mut scheduler, &vec![]).unwrap();
    assert!(!plan.hi);
    assert_eq!(scanned, vec![ObjectReference(COPY0)]);
    assert_eq!(plan.copyspace1.get_common().used_bytes(), 0);
}

#[test]
fn collect_fails_when_the_survivors_do_not_fit() {
    let (mut plan, mut heap, mut scheduler) = small_heap();
    // the survivors of sixteen collections fill the semispace that is
    // copied to
    let mut collections = 0;
    let result = loop {
        let o = plan.allocate(&mut heap, NURSERY / 8 - 1, alloc_ts()).unwrap();
        heap.add_root(o);
        plan.next_gc_full_heap = false;
        plan.common.base.allocation_success = true;
        match collect(&mut plan, &mut heap, &mut scheduler, &vec![]) {
            Ok(_) => collections += 1,
            Err(e) => break e,
        }
        if plan.gc_full_heap {
            break GcError::OutOfMemory;
        }
    };
    assert_eq!(result, GcError::OutOfMemory);
    assert!(collections >= 1);
    assert!(collections <= MATURE / NURSERY);
}

#[test]
fn allocate_with_collection_with_room_collects_nothing() {
    let (mut plan, mut heap, mut scheduler) = small_heap();
    let mut mutator = create_ts_mutator(1);
    let mut log_bits = LogBits::new();
    let a = allocate_with_collection(&mut plan, &mut heap, &mut scheduler, &mut mutator, &mut log_bits, 2, alloc_ts());
    assert_eq!(a, Ok(ObjectReference(YOUNG)));
    let b = allocate_with_collection(&mut plan, &mut heap, &mut scheduler, &mut mutator, &mut log_bits, 0, alloc_ts());
    assert_eq!(b, Ok(ObjectReference(YOUNG + 24)));
    let c = allocate_with_collection(
        &mut plan,
        &mut heap,
        &mut scheduler,
        &mut mutator,
        &mut log_bits,
        1,
        AllocationSemantics::Immortal,
    );
    assert_eq!(c, Ok(ObjectReference(IMMORTAL)));
    assert!(heap.is_object(ObjectReference(YOUNG)));
    assert_eq!(heap.num_fields(ObjectReference(YOUNG)), 2);
    assert_eq!(heap.load(HeapEdge::Field(ObjectReference(YOUNG), 1)), ObjectReference::null());
    assert_eq!(plan.youngspace.get_common().used_bytes(), 32);
    assert_eq!(plan.tospace().get_common().used_bytes(), 0);
    assert!(plan.common.base.allocation_success);
}

#[test]
fn allocate_with_collection_collects_a_full_nursery() {
    let (mut plan, mut heap, mut scheduler) = small_heap();
    let mut mutator = create_ts_mutator(1);
    let mut log_bits = LogBits::new();
    let first = allocate_with_collection(&mut plan, &mut heap, &mut scheduler, &mut mutator, &mut log_bits, 1, alloc_ts())
        .unwrap();
    let root = heap.add_root(first);
    // garbage fills the nursery
    for i in 1..NURSERY / 16 {
        let o = allocate_with_collection(&mut plan, &mut heap, &mut scheduler, &mut mutator, &mut log_bits, 1, alloc_ts());
        assert_eq!(o, Ok(ObjectReference(YOUNG + 16 * i)));
    }
    assert_eq!(plan.youngspace.get_common().used_bytes(), NURSERY);
    assert_eq!(heap.load(root), first);

    // the next allocation collects the nursery, and then finds room
    let o = allocate_with_collection(&mut plan, &mut heap, &mut scheduler, &mut mutator, &mut log_bits, 1, alloc_ts());
    assert_eq!(o, Ok(ObjectReference(YOUNG)));
    assert_eq!(heap.load(root), ObjectReference(COPY0));
    assert!(!plan.gc_full_heap);
    assert_eq!(plan.youngspace.get_common().used_bytes(), 16);
    assert_eq!(plan.tospace().get_common().used_bytes(), 16);
    assert!(!heap.is_object(ObjectReference(YOUNG + 16)));
    assert!(plan.common.base.allocation_success);
    assert_eq!(plan.common.base.cur_collection_attempts, 1);
    assert!(idle(&mut scheduler));
}

#[test]
fn allocate_with_collection_runs_out_of_memory() {
    let (mut plan, mut heap, mut scheduler) = small_heap();
    let mut mutator = create_ts_mutator(1);
    let mut log_bits = LogBits::new();
    let kept = allocate_with_collection(&mut plan, &mut heap, &mut scheduler, &mut mutator, &mut log_bits, 1, alloc_ts())
        .unwrap();
    let root = heap.add_root(kept);
    // an object that is larger than the nursery
    let res = allocate_with_collection(
        &mut plan,
        &mut heap,
        &mut scheduler,
        &mut mutator,
        &mut log_bits,
        NURSERY / 8,
        alloc_ts(),
    );
    assert_eq!(res, Err(GcError::OutOfMemory));
    // the nursery was collected, and then the whole heap
    assert!(plan.gc_full_heap);
    assert!(plan.hi);
    assert_eq!(plan.common.base.cur_collection_attempts, 2);
    assert_eq!(heap.load(root), ObjectReference(COPY1));
    assert_eq!(plan.youngspace.get_common().used_bytes(), 0);
    assert_eq!(plan.copyspace0.get_common().used_bytes(), 0);
    // a smaller one still finds room
    let res = allocate_with_collection(
        &mut plan,
        &mut heap,
        &mut scheduler,
        &mut mutator,
        &mut log_bits,
        NURSERY / 8 - 1,
        alloc_ts(),
    );
    assert_eq!(res, Ok(ObjectReference(YOUNG)));
}

#[test]
fn allocate_with_collection_hands_over_what_was_remembered() {
    let (mut plan, mut heap, mut scheduler) = small_heap();
    let mut mutator = create_ts_mutator(1);
    let mut log_bits = LogBits::new();
    let keeper = allocate_with_collection(
        &mut plan,
        &mut heap,
        &mut scheduler,
        &mut mutator,
        &mut log_bits,
        1,
        AllocationSemantics::Immortal,
    )
    .unwrap();
    // the allocation set the log bit of the object outside the nursery
    assert!(log_bits.is_unlogged(keeper));
    heap.add_root(keeper);
    let young = allocate_with_collection(&mut plan, &mut heap, &mut scheduler, &mut mutator, &mut log_bits, 0, alloc_ts())
        .unwrap();
    assert!(!log_bits.is_unlogged(young));
    write_field(&mut heap, &mut mutator, &mut log_bits, keeper, 0, young);
    assert!(!log_bits.is_unlogged(keeper));
    // the nursery fills up with garbage; the collection keeps `young`
    let mut last = young;
    for _ in 0..NURSERY / 8 {
        last = allocate_with_collection(&mut plan, &mut heap, &mut scheduler, &mut mutator, &mut log_bits, 0, alloc_ts())
            .unwrap();
    }
    assert_eq!(last, ObjectReference(YOUNG));
    assert_eq!(heap.load(HeapEdge::Field(keeper, 0)), ObjectReference(COPY0));
    assert!(heap.is_object(ObjectReference(COPY0)));
    assert_eq!(mutator.barrier.flush(), vec![]);
    // the log bits of the survivor and of the remembered object are set again
    assert!(log_bits.is_unlogged(ObjectReference(COPY0)));
    assert!(log_bits.is_unlogged(keeper));
}

#[test]
fn the_barrier_remembers_an_object_once() {
    let (mut plan, mut heap, _) = small_heap();
    let mut mutator = create_ts_mutator(1);
    let mut log_bits = LogBits::new();
    let a = plan.allocate(&mut heap, 2, AllocationSemantics::Los).unwrap();
    let b = plan.allocate(&mut heap, 1, AllocationSemantics::Immortal).unwrap();
    let y = plan.allocate(&mut heap, 1, alloc_ts()).unwrap();
    post_alloc(&mut log_bits, a, AllocationSemantics::Los);
    post_alloc(&mut log_bits, b, AllocationSemantics::Immortal);
    post_alloc(&mut log_bits, y, alloc_ts());
    assert!(log_bits.is_unlogged(a));
    assert!(log_bits.is_unlogged(b));
    assert!(!log_bits.is_unlogged(y));
    write_field(&mut heap, &mut mutator, &mut log_bits, a, 1, y);
    write_field(&mut heap, &mut mutator, &mut log_bits, y, 0, a);
    write_field(&mut heap, &mut mutator, &mut log_bits, a, 0, b);
    write_field(&mut heap, &mut mutator, &mut log_bits, b, 0, y);
    write_field(&mut heap, &mut mutator, &mut log_bits, a, 1, ObjectReference::null());
    assert_eq!(heap.load(HeapEdge::Field(a, 0)), b);
    assert_eq!(heap.load(HeapEdge::Field(a, 1)), ObjectReference::null());
    assert_eq!(heap.load(HeapEdge::Field(b, 0)), y);
    assert_eq!(heap.load(HeapEdge::Field(y, 0)), a);
    assert!(!log_bits.is_unlogged(a));
    assert!(!log_bits.is_unlogged(b));
    assert_eq!(mutator.barrier.flush(), vec![a, b]);
    assert_eq!(mutator.barrier.flush(), vec![]);
    assert_eq!(mutator.mutator_tls, 1);
}

#[test]
fn collect_for_mutator_sets_the_log_bits_again() {
    let (mut plan, mut heap, mut scheduler) = small_heap();
    let mut mutator = create_ts_mutator(1);
    let mut log_bits = LogBits::new();
    let keeper = allocate_with_collection(
        &mut plan,
        &mut heap,
        &mut scheduler,
        &mut mutator,
        &mut log_bits,
        2,
        AllocationSemantics::Immortal,
    )
    .unwrap();
    let root = heap.add_root(keeper);
    let y1 = plan.allocate(&mut heap, 1, alloc_ts()).unwrap();
    let y2 = plan.allocate(&mut heap, 0, alloc_ts()).unwrap();
    write_field(&mut heap, &mut mutator, &mut log_bits, keeper, 0, y1);

    let scanned =
        collect_for_mutator(&mut plan, &mut heap, &mut scheduler, &mut mutator, &mut log_bits)
            .unwrap();

    // a collection of the nursery, which the remembered object led into
    assert!(!plan.gc_full_heap);
    let moved = ObjectReference(COPY0);
    assert_eq!(scanned, vec![moved]);
    assert_eq!(heap.load(root), keeper);
    assert_eq!(heap.load(HeapEdge::Field(keeper, 0)), moved);
    assert!(!heap.is_object(y1));
    assert!(!heap.is_object(y2));
    assert!(log_bits.is_unlogged(keeper));
    assert!(log_bits.is_unlogged(moved));
    assert_eq!(mutator.barrier.flush(), vec![]);

    // the next write to the object is remembered again
    let y3 = plan.allocate(&mut heap, 0, alloc_ts()).unwrap();
    write_field(&mut heap, &mut mutator, &mut log_bits, keeper, 1, y3);
    write_field(&mut heap, &mut mutator, &mut log_bits, moved, 0, y3);
    let scanned =
        collect_for_mutator(&mut plan, &mut heap, &mut scheduler, &mut mutator, &mut log_bits)
            .unwrap();
    assert_eq!(scanned, vec![ObjectReference(COPY0 + 16)]);
    assert_eq!(heap.load(HeapEdge::Field(keeper, 1)), ObjectReference(COPY0 + 16));
    assert_eq!(heap.load(HeapEdge::Field(moved, 0)), ObjectReference(COPY0 + 16));
    assert_eq!(heap.load(HeapEdge::Field(keeper, 0)), moved);
}

#[test]
fn a_collection_that_the_user_asks_for() {
    let (mut plan, mut heap, mut scheduler) = small_heap();
    let mut mutator = create_ts_mutator(1);
    let mut log_bits = LogBits::new();
    let a = allocate_with_collection(&mut plan, &mut heap, &mut scheduler, &mut mutator, &mut log_bits, 1, alloc_ts())
        .unwrap();
    let b = allocate_with_collection(&mut plan, &mut heap, &mut scheduler, &mut mutator, &mut log_bits, 1, alloc_ts())
        .unwrap();
    write_field(&mut heap, &mut mutator, &mut log_bits, a, 0, b);
    let root = heap.add_root(a);
    let scanned = handle_user_collection_request(
        &mut plan,
        &mut heap,
        &mut scheduler,
        &mut mutator,
        &mut log_bits,
    )
    .unwrap();
    // the options say that such a collection takes in the whole heap
    assert!(plan.gc_full_heap);
    assert!(plan.hi);
    assert!(!plan.common.base.user_triggered_collection);
    assert_eq!(plan.common.base.cur_collection_attempts, 1);
    assert_eq!(scanned, vec![ObjectReference(COPY1), ObjectReference(COPY1 + 16)]);
    assert_eq!(heap.load(root), ObjectReference(COPY1));
    assert_eq!(heap.load(HeapEdge::Field(ObjectReference(COPY1), 0)), ObjectReference(COPY1 + 16));
    assert!(log_bits.is_unlogged(ObjectReference(COPY1)));
    assert!(log_bits.is_unlogged(ObjectReference(COPY1 + 16)));
    assert!(idle(&mut scheduler));

    // without that option the plan decides, here for the nursery
    let mut options = plan.common.base.options;
    options.full_heap_system_gc = false;
    let heap2 = Heap::new();
    let mut plan = TripleSpace::new(options, &heap2);
    let mut heap = heap2;
    let mut log_bits = LogBits::new();
    handle_user_collection_request(&mut plan, &mut heap, &mut scheduler, &mut mutator, &mut log_bits)
        .unwrap();
    assert!(!plan.gc_full_heap);
    assert!(!plan.hi);
}

#[test]
fn allocate_with_collection_finds_no_room_outside_the_nursery() {
    let (mut plan, mut heap, mut scheduler) = small_heap();
    let mut mutator = create_ts_mutator(1);
    let mut log_bits = LogBits::new();
    // the immortal space has room for this object, and then for no other
    // of its size
    let big = allocate_with_collection(
        &mut plan,
        &mut heap,
        &mut scheduler,
        &mut mutator,
        &mut log_bits,
        MATURE / 8 - 1,
        AllocationSemantics::Immortal,
    );
    assert_eq!(big, Ok(ObjectReference(IMMORTAL)));
    let young = allocate_with_collection(&mut plan, &mut heap, &mut scheduler, &mut mutator, &mut log_bits, 0, alloc_ts())
        .unwrap();
    let root = heap.add_root(young);
    let more = allocate_with_collection(
        &mut plan,
        &mut heap,
        &mut scheduler,
        &mut mutator,
        &mut log_bits,
        0,
        AllocationSemantics::Immortal,
    );
    assert_eq!(more, Err(GcError::OutOfMemory));
    // two collections were tried: of the nursery, and of the whole heap
    assert!(plan.gc_full_heap);
    assert!(plan.hi);
    assert_eq!(heap.load(root), ObjectReference(COPY1));
    assert!(heap.is_object(ObjectReference(IMMORTAL)));
    assert_eq!(plan.common.get_immortal().get_common().used_bytes(), MATURE);
    // the space of large objects still has room
    let los = allocate_with_collection(
        &mut plan,
        &mut heap,
        &mut scheduler,
        &mut mutator,
        &mut log_bits,
        0,
        AllocationSemantics::Los,
    );
    assert_eq!(los, Ok(ObjectReference(IMMORTAL + MATURE)));
}

#[test]
fn a_collection_succeeds_with_room_for_the_survivors() {
    let (mut plan, mut heap, mut scheduler) = small_heap();
    let mut mutator = create_ts_mutator(1);
    let mut log_bits = LogBits::new();
    // every object survives: each is a root
    let mut count = 0;
    loop {
        let used = plan.youngspace.get_common().used_bytes() + plan.tospace().get_common().used_bytes();
        let fits = used <= MATURE;
        let o = allocate_with_collection(&mut plan, &mut heap, &mut scheduler, &mut mutator, &mut log_bits, 63, alloc_ts());
        match o {
            Ok(o) => {
                heap.add_root(o);
                count += 1;
            }
            Err(e) => {
                assert_eq!(e, GcError::OutOfMemory);
                // the survivors did not fit any more
                assert!(!fits || plan.youngspace.get_common().used_bytes() == NURSERY);
                break;
            }
        }
        assert!(count <= (MATURE + NURSERY) / 512);
    }
    // the semispace and the nursery were filled before the allocation failed
    assert!(count >= MATURE / 512);
}
