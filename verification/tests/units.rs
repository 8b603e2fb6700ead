use mmtk::plan::global::BasePlan;
use mmtk::plan::global::CommonPlan;
use mmtk::plan::transitive_closure::PlanTraceObject;
use mmtk::policy::gc_work::DEFAULT_TRACE;
use mmtk::policy::immortalspace::ImmortalSpace;
use mmtk::scheduler::GCWork;
use mmtk::plan::mutator_context::AllocatorSelector;
use mmtk::plan::nogc::global::NoGC;
use mmtk::plan::tracing::VectorObjectQueue;
use mmtk::plan::triplespace::gc_work::CopySpaceRole;
use mmtk::plan::triplespace::gc_work::TSCopyContext;
use mmtk::plan::triplespace::gc_work::TSProcessEdges;
use mmtk::plan::triplespace::global::alloc_ts;
use mmtk::plan::triplespace::TripleSpace;
use mmtk::plan::AllocationSemantics;
use mmtk::plan::Options;
use mmtk::policy::copyspace::CopySpace;
use mmtk::policy::space::object_size;
use mmtk::policy::space::CommonSpace;
use mmtk::policy::space::GcError;
use mmtk::scheduler::WorkBucketStage;
use mmtk::util::address::Address;
use mmtk::util::address::ObjectReference;
use mmtk::util::constants::log_bytes_in_word;
use mmtk::util::heap::Heap;
use mmtk::util::heap::HeapEdge;
use mmtk::util::mmapper::MmapError;
use mmtk::util::mmapper::MmapKind;
use mmtk::util::mmapper::MmapRequest;
use mmtk::util::mmapper::Mmapper;
use mmtk::util::reference_processor::ReferenceProcessor;
use mmtk::util::reference_processor::Semantics;
use mmtk::util::text::truth_text;
use mmtk::vm::Scanning;
use mmtk::vmbindings::dummyvm::scanning::DummyVM;

const YOUNG: usize = 0x1000_0000;

fn plan_options() -> Options {
    Options {
        threads: 2,
        max_heap_size: 4096,
        min_nursery: 0,
        max_nursery: 1024,
        full_heap_system_gc: false,
        stress_factor: 0,
    }
}

#[test]
fn words_and_truth_values() {
    assert_eq!(1usize << log_bytes_in_word(), std::mem::size_of::<usize>());
    assert_eq!(truth_text(true), "true");
    assert_eq!(truth_text(false), "false");
}

#[test]
fn objects_of_a_heap() {
    let mut heap = Heap::new();
    let a = ObjectReference(0x100);
    let b = ObjectReference(0x200);
    heap.create_object(a, 2);
    assert!(heap.is_object(a));
    assert_eq!(heap.num_fields(a), 2);
    assert_eq!(heap.load(HeapEdge::Field(a, 0)), ObjectReference::null());
    assert_eq!(heap.load(HeapEdge::Field(a, 1)), ObjectReference::null());
    heap.store(HeapEdge::Field(a, 1), a);
    heap.copy_object(a, b);
    assert!(heap.is_object(b));
    assert_eq!(heap.num_fields(b), 2);
    assert_eq!(heap.load(HeapEdge::Field(b, 0)), ObjectReference::null());
    assert_eq!(heap.load(HeapEdge::Field(b, 1)), a);
    // the copy is an object of its own
    heap.store(HeapEdge::Field(b, 0), b);
    assert_eq!(heap.load(HeapEdge::Field(a, 0)), ObjectReference::null());
    heap.remove_object(a);
    assert!(!heap.is_object(a));
    assert!(heap.is_object(b));
    heap.remove_object(a);
    assert!(heap.is_object(b));
    assert_eq!(heap.scan_object(b), vec![HeapEdge::Field(b, 0), HeapEdge::Field(b, 1)]);
}

#[test]
fn requests_to_map() {
    let mut m = Mmapper::new(4);
    assert_eq!(m.ensure_mapped(Address(0x1000), 3), Ok(()));
    assert_eq!(m.get_pages_left(), 1);
    assert_eq!(
        m.ensure_mapped(Address(0x8000), 2),
        Err(MmapError { start: Address(0x8000), pages: 2 })
    );
    assert_eq!(m.get_pages_left(), 1);
    // an address range that is set aside takes nothing from the budget
    assert_eq!(m.quarantine_address_range(Address(0x10_0000), 100), Ok(()));
    assert_eq!(m.get_pages_left(), 1);
    assert!(m.is_mapped_address(Address(0x1000)));
    assert!(m.is_mapped_address(Address(0x3fff)));
    assert!(!m.is_mapped_address(Address(0x4000)));
    assert!(!m.is_mapped_address(Address(0x8000)));
    m.ensure_unmapped(Address(0x2000), 1);
    assert!(m.is_mapped_address(Address(0x1fff)));
    assert!(!m.is_mapped_address(Address(0x2000)));
    assert!(m.is_mapped_address(Address(0x3000)));
    assert_eq!(
        m.get_requests(),
        &vec![
            MmapRequest { kind: MmapKind::Commit, start: Address(0x1000), pages: 3 },
            MmapRequest { kind: MmapKind::Quarantine, start: Address(0x10_0000), pages: 100 },
            MmapRequest { kind: MmapKind::Release, start: Address(0x2000), pages: 1 },
        ]
    );
}

#[test]
fn retaining_the_referents_of_soft_references() {
    let mut p = ReferenceProcessor::new(Semantics::SOFT);
    p.add_candidate(ObjectReference(0x10), ObjectReference(0x100));
    p.add_candidate(ObjectReference(0x18), ObjectReference(0x180));
    p.add_candidate(ObjectReference(0x20), ObjectReference(0));
    let mut asked = vec![];
    let mut retained = vec![];
    p.scan_retain(
        &mut |r: ObjectReference| {
            asked.push(r);
            r.0 != 0x18
        },
        &mut |r: ObjectReference| if r.0 == 0x20 { ObjectReference(0) } else { ObjectReference(r.0 << 4) },
        &mut |referent: ObjectReference| retained.push(referent),
        false,
    );
    // every reference was asked about; the referent of the one that is
    // alive and has one was retained
    assert_eq!(asked, vec![ObjectReference(0x10), ObjectReference(0x18), ObjectReference(0x20)]);
    assert_eq!(retained, vec![ObjectReference(0x100)]);
    // the table is as it was
    assert_eq!(p.len(), 3);
    assert_eq!(p.get(1), Address(0x18));
    assert_eq!(p.get_nursery_index(), 0);
    let mut forwarded = vec![];
    p.forward(&mut |r: ObjectReference| forwarded.push(r), false);
    assert_eq!(forwarded, vec![ObjectReference(0x10), ObjectReference(0x18), ObjectReference(0x20)]);
}

#[test]
fn a_range_of_addresses() {
    let mut s = CommonSpace::new("some", Address(0x4000), 0x100);
    assert_eq!(s.get_name(), "some");
    assert_eq!(s.start_address(), Address(0x4000));
    assert_eq!(s.extent_bytes(), 0x100);
    assert_eq!(s.used_bytes(), 0);
    assert!(s.address_in_space(Address(0x4000)));
    assert!(s.address_in_space(Address(0x40ff)));
    assert!(!s.address_in_space(Address(0x4100)));
    assert!(!s.address_in_space(Address(0x3fff)));
    assert!(s.in_space(ObjectReference(0x4080)));
    assert_eq!(s.acquire(0x80), Some(Address(0x4000)));
    assert_eq!(s.acquire(0x81), None);
    assert_eq!(s.acquire(0x80), Some(Address(0x4080)));
    assert_eq!(s.acquire(1), None);
    assert_eq!(s.acquire(0), Some(Address(0x4100)));
    assert_eq!(s.used_bytes(), 0x100);
    assert_eq!(s.reserved_pages(), 1);
    s.reset();
    assert_eq!(s.used_bytes(), 0);
    assert_eq!(s.reserved_pages(), 0);

    assert_eq!(object_size(0), Some(8));
    assert_eq!(object_size(3), Some(32));
    assert_eq!(object_size(usize::MAX / 8 - 1), Some(usize::MAX / 8 * 8));
    assert_eq!(object_size(usize::MAX / 8), None);
    assert_eq!(object_size(usize::MAX), None);
}

#[test]
fn a_copy_space_by_itself() {
    let mut heap = Heap::new();
    let mut from = CopySpace::new("from", true, CommonSpace::new("from", Address(0x1000), 64));
    let mut to = CopySpace::new("to", false, CommonSpace::new("to", Address(0x2000), 24));
    assert!(from.from_space());
    assert!(!to.from_space());
    let a = from.allocate(&mut heap, 1).unwrap();
    let b = from.allocate(&mut heap, 1).unwrap();
    assert_eq!((a, b), (ObjectReference(0x1000), ObjectReference(0x1010)));
    assert_eq!(to.acquire(&heap, 8), Some(Address(0x2000)));
    let mut queue = VectorObjectQueue::new();
    assert_eq!(from.trace_object(&mut heap, &mut queue, a, &mut to), Ok(ObjectReference(0x2008)));
    assert_eq!(from.trace_object(&mut heap, &mut queue, a, &mut to), Ok(ObjectReference(0x2008)));
    // no room is left for the copy of the other
    assert_eq!(from.trace_object(&mut heap, &mut queue, b, &mut to), Err(GcError::OutOfMemory));
    assert_eq!(to.acquire(&heap, 1), None);
    assert_eq!(queue.into_vec(), vec![ObjectReference(0x2008)]);
    from.release(&mut heap);
    assert!(!heap.is_object(a));
    assert!(!heap.is_object(b));
    assert!(heap.is_object(ObjectReference(0x2008)));
    to.prepare(true);
    assert!(to.from_space());
}

#[test]
fn the_attempts_of_a_collection() {
    let mut base = BasePlan::new(plan_options());
    assert_eq!(base.get_total_pages(), 1);
    assert!(!base.gc_in_progress_proper());
    // collections in a row without a successful allocation are counted
    base.set_collection_kind();
    assert_eq!((base.cur_collection_attempts, base.emergency_collection), (1, false));
    base.set_collection_kind();
    assert_eq!((base.cur_collection_attempts, base.emergency_collection), (2, true));
    base.set_collection_kind();
    assert_eq!((base.cur_collection_attempts, base.emergency_collection), (3, true));
    // a collection that the user asked for is a first attempt
    base.user_triggered_collection = true;
    base.set_collection_kind();
    assert_eq!((base.cur_collection_attempts, base.emergency_collection), (1, false));
    assert_eq!(base.max_collection_attempts, 3);
    base.user_triggered_collection = false;
    base.allocation_success = true;
    base.set_collection_kind();
    assert_eq!((base.cur_collection_attempts, base.max_collection_attempts), (1, 1));
    assert!(!base.allocation_success);
    // the count wraps around
    base.max_collection_attempts = usize::MAX;
    base.set_collection_kind();
    assert_eq!((base.cur_collection_attempts, base.max_collection_attempts), (0, 0));
}

#[test]
fn allocators_by_the_kind_of_allocation() {
    let heap = Heap::new();
    let ts = TripleSpace::new(plan_options(), &heap);
    assert_eq!(ts.get_allocator_mapping(alloc_ts()), AllocatorSelector::BumpPointer(0));
    assert_eq!(
        ts.get_allocator_mapping(AllocationSemantics::Immortal),
        AllocatorSelector::BumpPointer(1)
    );
    assert_eq!(ts.get_allocator_mapping(AllocationSemantics::Code), AllocatorSelector::BumpPointer(1));
    assert_eq!(ts.get_allocator_mapping(AllocationSemantics::Los), AllocatorSelector::LargeObject(0));
    assert_eq!(ts.common().get_los().get_common().start_address(), Address(YOUNG + 1024 + 3 * 4096));
    assert_eq!(ts.common().get_immortal().get_common().start_address(), Address(YOUNG + 1024 + 2 * 4096));
    assert_eq!(ts.base().options, plan_options());
    let nogc = NoGC::new(plan_options(), &heap);
    assert_eq!(
        nogc.get_allocator_mapping(AllocationSemantics::Default),
        AllocatorSelector::BumpPointer(0)
    );
    assert_eq!(
        nogc.get_allocator_mapping(AllocationSemantics::ReadOnly),
        AllocatorSelector::BumpPointer(1)
    );
    assert_eq!(nogc.get_allocator_mapping(AllocationSemantics::Los), AllocatorSelector::BumpPointer(2));
}

#[test]
fn tracing_in_one_space_of_the_plan() {
    let mut heap = Heap::new();
    let mut plan = TripleSpace::new(plan_options(), &heap);
    let young = plan.allocate(&mut heap, 1, alloc_ts()).unwrap();
    let immortal = plan.allocate(&mut heap, 0, AllocationSemantics::Immortal).unwrap();
    plan.gc_full_heap = true;
    plan.prepare(&heap);
    assert!(plan.hi);
    let mut queue = VectorObjectQueue::new();
    // an object is traced in the space that it lies in, and in no other
    for role in [CopySpaceRole::ToSpace, CopySpaceRole::FromSpace] {
        assert_eq!(plan.try_trace_object_in(&mut heap, &mut queue, role, young), None);
    }
    let copy = ObjectReference(YOUNG + 1024 + 4096);
    assert_eq!(
        plan.try_trace_object_in(&mut heap, &mut queue, CopySpaceRole::Young, young),
        Some(Ok(copy))
    );
    assert_eq!(
        plan.try_trace_object_in(&mut heap, &mut queue, CopySpaceRole::Young, young),
        Some(Ok(copy))
    );
    // the copy lies in the space that is copied to, and stays
    assert_eq!(plan.try_trace_object_in(&mut heap, &mut queue, CopySpaceRole::Young, copy), None);
    assert_eq!(plan.try_trace_object_in(&mut heap, &mut queue, CopySpaceRole::FromSpace, copy), None);
    assert_eq!(
        plan.try_trace_object_in(&mut heap, &mut queue, CopySpaceRole::ToSpace, copy),
        Some(Ok(copy))
    );
    for role in [CopySpaceRole::Young, CopySpaceRole::ToSpace, CopySpaceRole::FromSpace] {
        assert_eq!(plan.try_trace_object_in(&mut heap, &mut queue, role, immortal), None);
    }
    assert_eq!(queue.into_vec(), vec![copy]);

    // the same through a packet of edges
    let other = plan.allocate(&mut heap, 0, alloc_ts()).unwrap();
    let mut packet: TSProcessEdges<true> = TSProcessEdges::new(vec![], false);
    assert_eq!(packet.try_trace_object_in(&mut plan, &mut heap, CopySpaceRole::ToSpace, other), None);
    assert_eq!(
        packet.try_trace_object_in(&mut plan, &mut heap, CopySpaceRole::Young, other),
        Some(Ok(ObjectReference(copy.0 + 16)))
    );
    assert_eq!(packet.take_nodes(), vec![ObjectReference(copy.0 + 16)]);
    assert_eq!(packet.take_nodes(), vec![]);
}

#[test]
fn the_copy_context_of_a_worker() {
    let heap = Heap::new();
    let mut plan = TripleSpace::new(plan_options(), &heap);
    let cs0 = YOUNG + 1024;
    let mut context = TSCopyContext::create_worker_local(&plan, 7);
    assert_eq!(context.alloc_copy(&mut plan, &heap, 32), Address(cs0));
    // the context stays bound to the semispace until it is prepared again
    plan.gc_full_heap = true;
    plan.prepare(&heap);
    assert_eq!(context.alloc_copy(&mut plan, &heap, 32), Address(cs0 + 32));
    context.prepare(&plan);
    assert_eq!(context.alloc_copy(&mut plan, &heap, 32), Address(cs0 + 4096));
    assert_eq!(context.alloc_copy(&mut plan, &heap, 4096), Address(0));
    let _ = WorkBucketStage::Closure;
}

#[test]
fn what_a_policy_says_of_its_spaces() {
    assert!(CopySpace::may_move_objects::<DEFAULT_TRACE>());
    assert!(CopySpace::may_move_objects::<0>());
    assert!(!ImmortalSpace::may_move_objects::<DEFAULT_TRACE>());
    assert!(!CommonPlan::may_move_objects::<1>());
    let heap = Heap::new();
    let plan = TripleSpace::new(plan_options(), &heap);
    assert!(plan.may_move_objects());
    let nodes = vec![ObjectReference(0x10), ObjectReference(0x20)];
    match plan.youngspace.create_scan_work(nodes.clone()) {
        GCWork::ScanObjects { nodes: scanned } => assert_eq!(scanned, nodes),
        _ => panic!("a packet that scans objects was expected"),
    }
    match plan.common.get_immortal().create_scan_work(vec![]) {
        GCWork::ScanObjects { nodes: scanned } => assert!(scanned.is_empty()),
        _ => panic!("a packet that scans objects was expected"),
    }
}

#[test]
fn the_small_runtime_reports_every_field() {
    let mut heap = Heap::new();
    let a = ObjectReference(0x100);
    let b = ObjectReference(0x200);
    heap.create_object(a, 3);
    heap.create_object(b, 0);
    let mut visitor: mmtk::plan::transitive_closure::ObjectsClosure<HeapEdge> =
        mmtk::plan::transitive_closure::ObjectsClosure::with_capacity(2);
    DummyVM.scan_object(&heap, &mut visitor, b, 0);
    DummyVM.scan_object(&heap, &mut visitor, a, 0);
    DummyVM.scan_object(&heap, &mut visitor, a, 1);
    assert_eq!(
        visitor.finish(),
        vec![
            vec![HeapEdge::Field(a, 0), HeapEdge::Field(a, 1)],
            vec![HeapEdge::Field(a, 2), HeapEdge::Field(a, 0)],
            vec![HeapEdge::Field(a, 1), HeapEdge::Field(a, 2)],
            // what waits at the end goes out, here nothing
            vec![],
        ]
    );
    assert!(!DummyVM.supports_return_barrier());
    assert!(DummyVM.scan_mutators_in_safepoint());
    assert!(DummyVM.single_thread_mutator_scanning());
    DummyVM.notify_initial_thread_scan_complete(false, 0);
    DummyVM.prepare_for_roots_re_scanning();
}
