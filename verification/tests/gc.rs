use mmtk::plan::barriers::LogBits;
use mmtk::plan::barriers::ObjectRememberingBarrier;
use mmtk::plan::closure::process_edge;
use mmtk::plan::closure::trace_closure;
use mmtk::plan::generational::gc_work::GenNurseryProcessEdges;
use mmtk::plan::global::ConfigurationError;
use mmtk::plan::tracing::VectorObjectQueue;
use mmtk::plan::transitive_closure::PlanTraceObject;
use mmtk::plan::triplespace::gc_work::TSCopyContext;
use mmtk::plan::triplespace::gc_work::TSProcessEdges;
use mmtk::plan::triplespace::global::alloc_ts;
use mmtk::plan::triplespace::global::ts_constraints;
use mmtk::plan::triplespace::mutator::allocator_mapping;
use mmtk::plan::triplespace::mutator::create_ts_mutator;
use mmtk::plan::triplespace::mutator::ts_mutator_prepare;
use mmtk::plan::triplespace::mutator::ts_mutator_release;
use mmtk::plan::triplespace::TripleSpace;
use mmtk::plan::mutator_context::AllocatorSelector;
use mmtk::plan::mutator_context::SpaceSelector;
use mmtk::plan::AllocationSemantics;
use mmtk::plan::BarrierSelector;
use mmtk::plan::GcStatus;
use mmtk::plan::Options;
use mmtk::policy::space::GcError;
use mmtk::scheduler::GCWork;
use mmtk::scheduler::GCWorkScheduler;
use mmtk::scheduler::WorkBucketStage;
use mmtk::scheduler::WorkerStep;
use mmtk::util::address::Address;
use mmtk::util::address::ObjectReference;
use mmtk::util::heap::Heap;
use mmtk::util::heap::HeapEdge;
use mmtk::vm::Scanning;
use mmtk::vmbindings::dummyvm::scanning::DummyVM;

const NURSERY: usize = 4096;
const HEAP: usize = 1 << 20;
const YOUNG: usize = 0x1000_0000;
const COPY0: usize = YOUNG + NURSERY;
const COPY1: usize = COPY0 + HEAP;
const IMMORTAL: usize = COPY1 + HEAP;

fn options() -> Options {
    Options {
        threads: 1,
        max_heap_size: HEAP,
        min_nursery: 1024,
        max_nursery: NURSERY,
        full_heap_system_gc: true,
        stress_factor: 0,
    }
}

fn setup() -> (TripleSpace, Heap, GCWorkScheduler<GCWork>) {
    let heap = Heap::new();
    let plan = TripleSpace::new(options(), &heap);
    (plan, heap, GCWorkScheduler::new())
}

/// Runs one collection as a worker does: takes a step from the scheduler
/// and does what the packet says, until the collection is over.
fn collect(
    plan: &mut TripleSpace,
    heap: &mut Heap,
    scheduler: &mut GCWorkScheduler<GCWork>,
    remembered: Vec<ObjectReference>,
) -> Result<(Vec<WorkBucketStage>, Vec<ObjectReference>), GcError> {
    plan.schedule_collection(scheduler);
    assert_eq!(plan.common.base.gc_status, GcStatus::GcPrepare);
    let mut stages = vec![];
    let mut scanned = vec![];
    loop {
        match scheduler.next_step() {
            WorkerStep::Run(stage, work) => {
                stages.push(stage);
                match work {
                    GCWork::StopMutators { full_heap } => {
                        assert_eq!(full_heap, plan.gc_full_heap);
                        let mut edges = DummyVM.scan_thread_roots(heap);
                        edges.extend(DummyVM.scan_vm_specific_roots(heap));
                        for object in remembered.iter() {
                            edges.extend(heap.scan_object(*object));
                        }
                        scheduler.add(
                            WorkBucketStage::Closure,
                            GCWork::ProcessEdges { edges, roots: true },
                        );
                    }
                    GCWork::Prepare => {
                        plan.prepare(heap);
                        plan.common.base.set_gc_status(GcStatus::GcProper);
                    }
                    GCWork::ProcessEdges { edges, roots: _ } => {
                        scanned.extend(trace_closure(plan, heap, edges)?);
                    }
                    GCWork::Release => plan.release(heap),
                    _ => panic!("a packet that no collection of this plan has"),
                }
            }
            WorkerStep::Opened(_) => {}
            WorkerStep::Coordinate(_) => panic!("no work was given to the coordinator"),
            WorkerStep::Finished(finalizer) => {
                assert!(matches!(finalizer, Some(GCWork::EndOfGC)));
                plan.common.base.set_gc_status(GcStatus::NotInGC);
                plan.common.base.user_triggered_collection = false;
                scheduler.deactivate_all();
                break;
            }
        }
    }
    Ok((stages, scanned))
}

/// A list of `n` objects with one field each, allocated in the nursery,
/// each of which refers to the next. Returns the objects, the head first.
fn make_list(plan: &mut TripleSpace, heap: &mut Heap, n: usize) -> Vec<ObjectReference> {
    let mut objects = vec![];
    for _ in 0..n {
        objects.push(plan.allocate(heap, 1, alloc_ts()).unwrap());
    }
    for i in 0..n - 1 {
        heap.store(HeapEdge::Field(objects[i], 0), objects[i + 1]);
    }
    objects
}

fn in_range(object: ObjectReference, start: usize, extent: usize) -> bool {
    start <= object.0 && object.0 < start + extent
}

#[test]
fn full_collection_copies_a_list() {
    let (mut plan, mut heap, mut scheduler) = setup();
    let objects = make_list(&mut plan, &mut heap, 100);
    assert!(objects.iter().all(|o| in_range(*o, YOUNG, NURSERY)));
    assert_eq!(objects[0], ObjectReference(YOUNG));
    assert_eq!(objects[1], ObjectReference(YOUNG + 16));
    let garbage = plan.allocate(&mut heap, 3, alloc_ts()).unwrap();
    let root = heap.add_root(objects[0]);
    let null_root = heap.add_root(ObjectReference::null());

    plan.common.base.user_triggered_collection = true;
    let (stages, scanned) = collect(&mut plan, &mut heap, &mut scheduler, vec![]).unwrap();
    assert_eq!(
        stages,
        vec![
            WorkBucketStage::Unconstrained,
            WorkBucketStage::Prepare,
            WorkBucketStage::Closure,
            WorkBucketStage::Release
        ]
    );
    assert!(plan.gc_full_heap);
    assert!(!plan.is_current_gc_nursery());
    // the roles of the semispaces were swapped
    assert!(plan.hi);
    assert_eq!(plan.tospace().get_common().start_address(), Address(COPY1));
    assert_eq!(plan.fromspace().get_common().start_address(), Address(COPY0));

    // the root holds the new place of the head
    let head = heap.load(root);
    assert_eq!(head, ObjectReference(COPY1));
    assert_eq!(heap.load(null_root), ObjectReference::null());
    assert_eq!(scanned.len(), 100);
    assert_eq!(scanned[0], head);

    // walking the list finds 100 objects, all in the space copied to
    let mut cur = head;
    let mut count = 0;
    while !cur.is_null() {
        assert!(heap.is_object(cur));
        assert!(plan.tospace().in_space(cur));
        assert_eq!(cur, ObjectReference(COPY1 + 16 * count));
        assert_eq!(scanned[count], cur);
        assert_eq!(heap.num_fields(cur), 1);
        cur = heap.load(HeapEdge::Field(cur, 0));
        count += 1;
    }
    assert_eq!(count, 100);

    // nothing is left in the nursery, and the garbage is gone
    assert_eq!(plan.youngspace.get_common().used_bytes(), 0);
    assert_eq!(plan.fromspace().get_common().used_bytes(), 0);
    assert_eq!(plan.tospace().get_common().used_bytes(), 1600);
    assert!(!heap.is_object(garbage));
    assert!(objects.iter().all(|o| !heap.is_object(*o)));
    assert_eq!(plan.get_pages_used(), 1);
    assert_eq!(plan.get_collection_reserve(), 1);
    assert_eq!(plan.get_pages_reserved(), 2);
    assert_eq!(plan.get_pages_avail(), (256 - 2) / 2);
    assert!(!plan.next_gc_full_heap);
}

#[test]
fn nursery_and_full_collection() {
    let (mut plan, mut heap, mut scheduler) = setup();
    // garbage that fills the nursery but for ten small objects
    let mut garbage = vec![];
    while plan.youngspace.get_common().used_bytes() + 8 + 10 * 16 <= NURSERY {
        garbage.push(plan.allocate(&mut heap, 0, alloc_ts()).unwrap());
    }
    assert_eq!(garbage.len(), (NURSERY - 160) / 8);
    let mut roots = vec![];
    let mut survivors = vec![];
    for i in 0..10 {
        let o = plan.allocate(&mut heap, 1, alloc_ts()).unwrap();
        survivors.push(o);
        roots.push(heap.add_root(o));
        if i > 0 {
            heap.store(HeapEdge::Field(o, 0), survivors[i - 1]);
        }
    }
    // the nursery is full
    assert_eq!(plan.allocate(&mut heap, 0, alloc_ts()), None);
    assert!(plan.collection_required(true, true));
    assert!(!plan.next_gc_full_heap);
    assert!(!plan.request_full_heap_collection());

    let (_, scanned) = collect(&mut plan, &mut heap, &mut scheduler, vec![]).unwrap();
    assert!(plan.is_current_gc_nursery());
    assert!(!plan.hi);
    assert_eq!(scanned.len(), 10);
    // ten survivors in the space copied to; the nursery is empty, and the
    // space copied from was not touched
    for (i, root) in roots.iter().enumerate() {
        let o = heap.load(*root);
        assert_eq!(o, ObjectReference(COPY0 + 16 * i));
        assert!(plan.tospace().in_space(o));
        assert!(heap.is_object(o));
        let next = heap.load(HeapEdge::Field(o, 0));
        if i > 0 {
            assert_eq!(next, ObjectReference(COPY0 + 16 * (i - 1)));
        } else {
            assert!(next.is_null());
        }
    }
    assert_eq!(plan.youngspace.get_common().used_bytes(), 0);
    assert_eq!(plan.youngspace.reserved_pages(), 0);
    assert_eq!(plan.fromspace().get_common().used_bytes(), 0);
    assert_eq!(plan.tospace().get_common().used_bytes(), 160);
    assert!(garbage.iter().all(|o| !heap.is_object(*o)));
    assert!(survivors.iter().all(|o| !heap.is_object(*o)));

    // a collection of the whole heap, asked for by the user
    plan.common.base.user_triggered_collection = true;
    assert!(plan.request_full_heap_collection());
    collect(&mut plan, &mut heap, &mut scheduler, vec![]).unwrap();
    assert!(plan.hi);
    assert!(!plan.is_current_gc_nursery());
    for (i, root) in roots.iter().enumerate() {
        let o = heap.load(*root);
        assert_eq!(o, ObjectReference(COPY1 + 16 * i));
        assert!(plan.tospace().in_space(o));
        assert!(!heap.is_object(ObjectReference(COPY0 + 16 * i)));
    }
    // what was copied to in the collection before is given back
    assert_eq!(plan.copyspace0.get_common().used_bytes(), 0);
    assert_eq!(plan.copyspace1.get_common().used_bytes(), 160);
    assert!(std::ptr::eq(plan.fromspace(), &plan.copyspace0));
}

#[test]
fn closure_reaches_all_and_only_what_is_reachable() {
    let (mut plan, mut heap, mut _scheduler) = setup();
    // a -> b, a -> c, b -> a (a cycle), c -> immortal d -> e; f is not reachable
    let a = plan.allocate(&mut heap, 2, alloc_ts()).unwrap();
    let b = plan.allocate(&mut heap, 1, alloc_ts()).unwrap();
    let c = plan.allocate(&mut heap, 1, alloc_ts()).unwrap();
    let d = plan.allocate(&mut heap, 1, AllocationSemantics::Immortal).unwrap();
    let e = plan.allocate(&mut heap, 0, alloc_ts()).unwrap();
    let f = plan.allocate(&mut heap, 1, alloc_ts()).unwrap();
    heap.store(HeapEdge::Field(a, 0), b);
    heap.store(HeapEdge::Field(a, 1), c);
    heap.store(HeapEdge::Field(b, 0), a);
    heap.store(HeapEdge::Field(c, 0), d);
    heap.store(HeapEdge::Field(d, 0), e);
    heap.store(HeapEdge::Field(f, 0), a);
    assert_eq!(d, ObjectReference(IMMORTAL));
    let root = heap.add_root(a);

    plan.gc_full_heap = true;
    plan.prepare(&heap);
    let scanned = trace_closure(&mut plan, &mut heap, vec![root, root]).unwrap();
    let a2 = heap.load(root);
    let b2 = heap.load(HeapEdge::Field(a2, 0));
    let c2 = heap.load(HeapEdge::Field(a2, 1));
    let d2 = heap.load(HeapEdge::Field(c2, 0));
    let e2 = heap.load(HeapEdge::Field(d2, 0));
    assert_eq!(a2, ObjectReference(COPY1));
    assert_eq!(b2, ObjectReference(COPY1 + 24));
    assert_eq!(c2, ObjectReference(COPY1 + 40));
    // the immortal object stays where it is
    assert_eq!(d2, d);
    assert_eq!(e2, ObjectReference(COPY1 + 56));
    // the cycle is closed in the copies
    assert_eq!(heap.load(HeapEdge::Field(b2, 0)), a2);
    // every reachable object was scanned once, where it lies now
    assert_eq!(scanned, vec![a2, b2, c2, d2, e2]);
    // the copies of what was not reachable were never made
    assert_eq!(plan.tospace().get_common().used_bytes(), 64);
    assert!(plan.common.immortal.is_marked(d));
    plan.release(&mut heap);
    assert!(!heap.is_object(f));
    assert!(!heap.is_object(a));
    assert!(heap.is_object(d));
}

#[test]
fn tracing_an_object_again_gives_the_same_place() {
    let (mut plan, mut heap, mut _scheduler) = setup();
    let a = plan.allocate(&mut heap, 1, alloc_ts()).unwrap();
    let d = plan.allocate(&mut heap, 0, AllocationSemantics::Los).unwrap();
    plan.gc_full_heap = true;
    plan.prepare(&heap);
    assert!(plan.may_move_objects());
    let mut queue = VectorObjectQueue::new();
    let first = plan.trace_object(&mut heap, &mut queue, a).unwrap();
    assert_eq!(first, ObjectReference(COPY1));
    let other = plan.allocate(&mut heap, 1, alloc_ts()).unwrap();
    let moved = plan.trace_object(&mut heap, &mut queue, other).unwrap();
    assert_eq!(moved, ObjectReference(COPY1 + 16));
    for _ in 0..3 {
        assert_eq!(plan.trace_object(&mut heap, &mut queue, a), Ok(first));
        // the copy itself stays where it is
        assert_eq!(plan.trace_object(&mut heap, &mut queue, first), Ok(first));
        assert_eq!(plan.trace_object(&mut heap, &mut queue, d), Ok(d));
    }
    // each object was put into the queue once
    assert_eq!(queue.into_vec(), vec![first, moved, d]);
}

#[test]
fn collection_of_the_nursery_leaves_other_objects() {
    let (mut plan, mut heap, mut _scheduler) = setup();
    let young = plan.allocate(&mut heap, 1, alloc_ts()).unwrap();
    let immortal = plan.allocate(&mut heap, 1, AllocationSemantics::Immortal).unwrap();
    heap.store(HeapEdge::Field(immortal, 0), young);
    heap.store(HeapEdge::Field(young, 0), immortal);
    plan.prepare(&heap);
    assert!(!plan.gc_full_heap);
    let mut packet: TSProcessEdges<false> = TSProcessEdges::new(vec![], false);
    assert_eq!(packet.trace_object(&mut plan, &mut heap, immortal), Ok(immortal));
    assert_eq!(packet.trace_object(&mut plan, &mut heap, ObjectReference::null()), Ok(ObjectReference::null()));
    assert!(!plan.common.immortal.is_marked(immortal));
    assert!(packet.take_nodes().is_empty());
    // the field of the old object is an edge of the collection
    let now = packet.process_edge(&mut plan, &mut heap, HeapEdge::Field(immortal, 0)).unwrap();
    assert_eq!(now, ObjectReference(COPY0));
    assert_eq!(heap.load(HeapEdge::Field(immortal, 0)), now);
    assert_eq!(packet.take_nodes(), vec![now]);
    // the copy refers to the old object as before
    assert_eq!(heap.load(HeapEdge::Field(now, 0)), immortal);

    let mut gen = GenNurseryProcessEdges::new(vec![], false);
    assert_eq!(gen.trace_object(&mut plan, &mut heap, young), Ok(now));
    assert_eq!(gen.process_edge(&mut plan, &mut heap, HeapEdge::Field(immortal, 0)), Ok(now));
    assert_eq!(gen.trace_object(&mut plan, &mut heap, ObjectReference::null()), Ok(ObjectReference::null()));
}

#[test]
fn remembered_objects_are_roots_of_a_nursery_collection() {
    let (mut plan, mut heap, mut scheduler) = setup();
    let mut log_bits = LogBits::new();
    let mut mutator = create_ts_mutator(7);
    assert_eq!(mutator.mutator_tls, 7);
    assert_eq!(
        mutator.config.space_mapping,
        vec![
            (AllocatorSelector::BumpPointer(0), SpaceSelector::Nursery),
            (AllocatorSelector::BumpPointer(1), SpaceSelector::Immortal),
            (AllocatorSelector::LargeObject(0), SpaceSelector::Los),
        ]
    );
    let old = plan.allocate(&mut heap, 2, AllocationSemantics::Immortal).unwrap();
    log_bits.mark_as_unlogged(old);
    let young = plan.allocate(&mut heap, 0, alloc_ts()).unwrap();
    // the mutator writes to the old object, twice
    heap.store(HeapEdge::Field(old, 1), young);
    mutator.barrier.post_write_barrier(&mut log_bits, old);
    assert!(!log_bits.is_unlogged(old));
    heap.store(HeapEdge::Field(old, 0), young);
    mutator.barrier.post_write_barrier(&mut log_bits, old);
    let remembered = mutator.barrier.flush();
    assert_eq!(remembered, vec![old]);
    assert!(mutator.barrier.flush().is_empty());

    ts_mutator_prepare(&mut mutator, 0);
    let (_, scanned) = collect(&mut plan, &mut heap, &mut scheduler, remembered).unwrap();
    mutator.bump_allocator.cursor = 8;
    ts_mutator_release(&mut mutator, 0);
    assert_eq!(mutator.bump_allocator.cursor, 0);
    assert_eq!(mutator.bump_allocator.limit, 0);
    assert!(plan.is_current_gc_nursery());
    let now = ObjectReference(COPY0);
    assert_eq!(scanned, vec![now]);
    assert_eq!(heap.load(HeapEdge::Field(old, 0)), now);
    assert_eq!(heap.load(HeapEdge::Field(old, 1)), now);
    assert!(!heap.is_object(young));

    let mut context = TSCopyContext::new(&plan);
    context.init(3);
    context.prepare(&plan);
    context.post_copy(&mut log_bits, now);
    assert!(log_bits.is_unlogged(now));
    assert!(log_bits.compare_exchange_logged(now));
    assert!(!log_bits.compare_exchange_logged(now));
    assert_eq!(context.constraints(), ts_constraints());
    assert_eq!(context.alloc_copy(&mut plan, &heap, 16), Address(COPY0 + 8));
    assert_eq!(context.alloc_copy(&mut plan, &heap, HEAP), Address(0));
    assert_eq!(plan.copyspace0.get_common().used_bytes(), 24);
    context.release();
    let _ = ObjectRememberingBarrier::new();
}

#[test]
fn a_closure_fails_when_the_space_copied_to_is_full() {
    let heap = Heap::new();
    let mut small = options();
    small.max_heap_size = 16;
    small.min_nursery = 0;
    let mut plan = TripleSpace::new(small, &heap);
    let mut heap = heap;
    let a = plan.allocate(&mut heap, 1, alloc_ts()).unwrap();
    let b = plan.allocate(&mut heap, 1, alloc_ts()).unwrap();
    let ra = heap.add_root(a);
    let rb = heap.add_root(b);
    plan.prepare(&heap);
    assert_eq!(trace_closure(&mut plan, &mut heap, vec![ra, rb]), Err(GcError::OutOfMemory));
    // the first object was copied, the second was left
    assert_eq!(heap.load(ra), ObjectReference(COPY0));
    assert_eq!(heap.load(rb), b);
    let mut queue = VectorObjectQueue::new();
    assert_eq!(process_edge(&mut plan, &mut heap, &mut queue, rb), Err(GcError::OutOfMemory));
    assert!(queue.is_empty());
}

#[test]
fn deciding_between_nursery_and_whole_heap() {
    let (mut plan, mut heap, mut scheduler) = setup();
    assert!(!plan.request_full_heap_collection());
    // the user asks, and collections for the user are full
    plan.common.base.user_triggered_collection = true;
    assert!(plan.request_full_heap_collection());
    plan.common.base.options.full_heap_system_gc = false;
    assert!(!plan.request_full_heap_collection());
    plan.common.base.user_triggered_collection = false;
    // a space other than the nursery is full
    assert!(plan.collection_required(true, false));
    assert!(plan.next_gc_full_heap);
    assert!(plan.request_full_heap_collection());
    plan.next_gc_full_heap = false;
    assert!(!plan.collection_required(false, false));
    assert!(!plan.next_gc_full_heap);
    // a second attempt
    plan.common.base.cur_collection_attempts = 2;
    assert!(plan.request_full_heap_collection());
    plan.common.base.cur_collection_attempts = 1;
    assert!(!plan.request_full_heap_collection());

    // two collections in a row without an allocation that succeeded
    collect(&mut plan, &mut heap, &mut scheduler, vec![]).unwrap();
    assert_eq!(plan.common.base.cur_collection_attempts, 1);
    assert!(!plan.common.base.emergency_collection);
    collect(&mut plan, &mut heap, &mut scheduler, vec![]).unwrap();
    assert_eq!(plan.common.base.cur_collection_attempts, 2);
    assert!(plan.common.base.emergency_collection);
    plan.common.base.allocation_success = true;
    collect(&mut plan, &mut heap, &mut scheduler, vec![]).unwrap();
    // the collection before was the second attempt, so this one was full
    assert!(plan.gc_full_heap);
    assert_eq!(plan.common.base.cur_collection_attempts, 1);
    assert!(!plan.common.base.gc_in_progress_proper());
}

#[test]
fn the_next_collection_is_full_when_little_is_left() {
    let heap = Heap::new();
    let mut o = options();
    o.max_heap_size = 3 * 4096;
    o.min_nursery = 4096;
    let mut plan = TripleSpace::new(o, &heap);
    let mut heap = heap;
    let mut scheduler = GCWorkScheduler::new();
    let a = plan.allocate(&mut heap, 0, alloc_ts()).unwrap();
    heap.add_root(a);
    collect(&mut plan, &mut heap, &mut scheduler, vec![]).unwrap();
    // three pages, two of them reserved: not a page is left for the nursery
    assert_eq!(plan.get_pages_reserved(), 2);
    assert_eq!(plan.get_pages_avail(), 0);
    assert!(plan.next_gc_full_heap);
    collect(&mut plan, &mut heap, &mut scheduler, vec![]).unwrap();
    assert!(plan.gc_full_heap);
    assert!(plan.hi);
}

#[test]
fn constraints_and_options() {
    let c = ts_constraints();
    assert!(c.moves_objects);
    assert_eq!(c.gc_header_bits, 2);
    assert_eq!(c.gc_header_words, 0);
    assert_eq!(c.num_specialized_scans, 1);
    assert_eq!(c.barrier, BarrierSelector::ObjectBarrier);
    let d = mmtk::plan::PlanConstraints::default();
    assert!(d.collects_garbage);
    assert!(!d.moves_objects);
    assert_eq!(d.barrier, BarrierSelector::NoBarrier);
    assert_eq!(allocator_mapping(AllocationSemantics::Default), AllocatorSelector::BumpPointer(0));
    assert_eq!(allocator_mapping(AllocationSemantics::Immortal), AllocatorSelector::BumpPointer(1));
    assert_eq!(allocator_mapping(AllocationSemantics::Code), AllocatorSelector::BumpPointer(1));
    assert_eq!(allocator_mapping(AllocationSemantics::ReadOnly), AllocatorSelector::BumpPointer(1));
    assert_eq!(allocator_mapping(AllocationSemantics::Los), AllocatorSelector::LargeObject(0));

    assert_eq!(options().validate(), Ok(()));
    let mut o = options();
    o.max_nursery = 512;
    assert_eq!(o.validate(), Err(ConfigurationError::NurseryTooSmall));
    o.max_nursery = HEAP + 1;
    assert_eq!(o.validate(), Err(ConfigurationError::NurseryLargerThanHeap));
    o.threads = 0;
    assert_eq!(o.validate(), Err(ConfigurationError::NoThreads));
}
