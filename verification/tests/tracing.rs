use mmtk::plan::tracing::ObjectQueue;
use mmtk::plan::tracing::ObjectsClosure;
use mmtk::plan::tracing::SliceBuffer;
use mmtk::plan::tracing::TracePacket;
use mmtk::plan::tracing::VectorObjectQueue;
use mmtk::plan::tracing::VectorQueue;
use mmtk::scheduler::GCWorkScheduler;
use mmtk::scheduler::WorkBucket;
use mmtk::scheduler::WorkBucketStage;
use mmtk::scheduler::WorkerStep;
use mmtk::util::address::Address;
use mmtk::util::address::ObjectReference;
use mmtk::util::heap::HeapEdge;
use mmtk::vm::edge_shape::EdgeRange;
use mmtk::vm::edge_shape::MemorySlice;
use mmtk::vm::EdgeVisitor;

#[test]
fn vector_queue() {
    let mut q: VectorQueue<usize> = VectorQueue::new();
    assert!(q.is_empty());
    assert!(!q.is_full());
    for i in 0..4095 {
        q.push(i);
    }
    assert!(!q.is_full());
    q.push(4095);
    assert!(q.is_full());
    assert!(!q.is_empty());
    let taken = q.take();
    assert_eq!(taken, (0..4096).collect::<Vec<usize>>());
    assert!(q.is_empty());
    q.push(7);
    assert_eq!(q.into_vec(), vec![7]);

    let mut o: VectorObjectQueue = VectorQueue::default();
    o.enqueue(ObjectReference(16));
    o.enqueue(ObjectReference(8));
    assert_eq!(o.take(), vec![ObjectReference(16), ObjectReference(8)]);
}

fn range(start: usize, len: usize) -> EdgeRange {
    EdgeRange::new(Address(start), len)
}

#[test]
fn chunks_of_a_range() {
    let r = range(0x1000, 10);
    assert_eq!(r.len(), 10);
    assert_eq!(r.start_address(), Address(0x1000));
    assert_eq!(r.edge_at(0), Address(0x1000));
    assert_eq!(r.edge_at(9), Address(0x1048));
    assert_eq!(r.chunks(4), vec![range(0x1000, 4), range(0x1020, 4), range(0x1040, 2)]);
    assert_eq!(r.chunks(5), vec![range(0x1000, 5), range(0x1028, 5)]);
    assert_eq!(r.chunks(10), vec![range(0x1000, 10)]);
    assert_eq!(r.chunks(11), vec![range(0x1000, 10)]);
    assert_eq!(range(0x1000, 0).chunks(4), vec![]);
    assert_eq!(range(0x1000, 3).chunks(1).len(), 3);
}

fn edges_in(packet: &[EdgeRange]) -> usize {
    packet.iter().map(|s| s.len()).sum()
}

#[test]
fn slice_buffer_makes_packets_of_bounded_size() {
    let mut b: SliceBuffer<EdgeRange> = SliceBuffer::new(4);
    // chunks of at least half a packet go out at once
    let packets = b.push_with_flush(range(0x1000, 10));
    assert_eq!(
        packets,
        vec![vec![range(0x1000, 4)], vec![range(0x1020, 4)], vec![range(0x1040, 2)]]
    );
    assert_eq!(b.flush(), None);
    // a small remainder waits
    let packets = b.push_with_flush(range(0x2000, 9));
    assert_eq!(packets, vec![vec![range(0x2000, 4)], vec![range(0x2020, 4)]]);
    assert_eq!(b.push_with_flush(range(0x3000, 1)), Vec::<Vec<EdgeRange>>::new());
    assert_eq!(b.push_with_flush(range(0x4000, 1)), Vec::<Vec<EdgeRange>>::new());
    // a fourth edge still fits
    assert_eq!(b.push_with_flush(range(0x5000, 1)), Vec::<Vec<EdgeRange>>::new());
    // with a fifth the buffer would hold more than a packet: the four that
    // wait go out
    let packets = b.push_with_flush(range(0x5800, 1));
    assert_eq!(
        packets,
        vec![vec![range(0x2040, 1), range(0x3000, 1), range(0x4000, 1), range(0x5000, 1)]]
    );
    // the last packet may hold fewer
    assert_eq!(b.flush(), Some(vec![range(0x5800, 1)]));
    assert_eq!(b.flush(), None);
    assert_eq!(b.push_with_flush(range(0x6000, 0)), Vec::<Vec<EdgeRange>>::new());
    assert_eq!(b.flush(), None);
}

#[test]
fn every_slice_packet_holds_between_half_and_all() {
    for max in 1..9usize {
        let mut b: SliceBuffer<EdgeRange> = SliceBuffer::new(max);
        let mut pushed = 0;
        let mut out = 0;
        for len in [0usize, 1, 2, 3, 1, 1, 7, 12, 1, 5, 2, 2, 1, 30, 1] {
            for packet in b.push_with_flush(range(0x1000 * (pushed + 1), len)) {
                let edges = edges_in(&packet);
                assert!(max / 2 <= edges && edges <= max);
                out += edges;
            }
            pushed += len;
        }
        if let Some(last) = b.flush() {
            assert!(edges_in(&last) <= max);
            out += edges_in(&last);
        }
        assert_eq!(out, pushed);
    }
}

#[test]
fn objects_closure_with_slices() {
    let mut c: ObjectsClosure<EdgeRange> =
        ObjectsClosure::with_capacity(WorkBucketStage::Closure, 4);
    c.visit_edge(Address(0x10));
    // a slice of less than half a packet waits
    c.visit_slice(range(0x1000, 1));
    c.visit_edge(Address(0x18));
    c.visit_slice(range(0x2000, 5));
    c.visit_edge(Address(0x20));
    // the fourth edge fills the buffer: the edges go out, the slices that
    // wait go on waiting
    c.visit_edge(Address(0x28));
    c.visit_edge(Address(0x30));
    let packets = c.finish();
    assert_eq!(packets.len(), 4);
    match &packets[0] {
        TracePacket::ProcessSlices { slices, roots, bucket } => {
            assert_eq!(slices, &vec![range(0x2000, 4)]);
            assert!(!roots);
            assert_eq!(*bucket, WorkBucketStage::Closure);
        }
        _ => panic!("a packet of slices was expected"),
    }
    match &packets[1] {
        TracePacket::ProcessEdges { edges, roots, bucket } => {
            assert_eq!(
                edges,
                &vec![Address(0x10), Address(0x18), Address(0x20), Address(0x28)]
            );
            assert!(!roots);
            assert_eq!(*bucket, WorkBucketStage::Closure);
        }
        _ => panic!("a packet of edges was expected"),
    }
    // at the end what waits goes out, however little it is: the edges
    // first, then the slices
    match &packets[2] {
        TracePacket::ProcessEdges { edges, .. } => {
            assert_eq!(edges, &vec![Address(0x30)]);
        }
        _ => panic!("a packet of edges was expected"),
    }
    match &packets[3] {
        TracePacket::ProcessSlices { slices, .. } => {
            assert_eq!(slices, &vec![range(0x1000, 1), range(0x2020, 1)]);
        }
        _ => panic!("a packet of slices was expected"),
    }
    let empty: ObjectsClosure<EdgeRange> = ObjectsClosure::new(WorkBucketStage::Closure);
    assert!(empty.finish().is_empty());
}

#[test]
fn objects_closure_of_edges() {
    let mut c: mmtk::plan::transitive_closure::ObjectsClosure<HeapEdge> =
        mmtk::plan::transitive_closure::ObjectsClosure::with_capacity(2);
    for i in 0..5 {
        c.visit_edge(HeapEdge::Root(i));
    }
    assert_eq!(
        c.finish(),
        vec![
            vec![HeapEdge::Root(0), HeapEdge::Root(1)],
            vec![HeapEdge::Root(2), HeapEdge::Root(3)],
            vec![HeapEdge::Root(4)]
        ]
    );
    // the last packet is made even of nothing
    let c: mmtk::plan::transitive_closure::ObjectsClosure<HeapEdge> =
        mmtk::plan::transitive_closure::ObjectsClosure::new();
    assert_eq!(c.finish(), vec![Vec::<HeapEdge>::new()]);
}

#[test]
fn stages() {
    let all = [
        WorkBucketStage::Unconstrained,
        WorkBucketStage::Prepare,
        WorkBucketStage::Closure,
        WorkBucketStage::SoftRefClosure,
        WorkBucketStage::WeakRefClosure,
        WorkBucketStage::PhantomRefClosure,
        WorkBucketStage::VMRefClosure,
        WorkBucketStage::Release,
        WorkBucketStage::Final,
    ];
    for (i, stage) in all.iter().enumerate() {
        assert_eq!(stage.index(), i);
        assert_eq!(WorkBucketStage::from_index(i), *stage);
    }
    assert_eq!(WorkBucketStage::first_stw_stage(), WorkBucketStage::Prepare);
}

#[test]
fn bucket() {
    let mut b: WorkBucket<u32> = WorkBucket::new(false);
    assert!(!b.is_activated());
    assert!(b.is_empty());
    assert!(!b.is_drained());
    b.add(1);
    b.bulk_add(vec![2, 3]);
    b.add_on_open(9);
    // a closed bucket hands out nothing
    assert_eq!(b.poll(), None);
    b.activate();
    assert!(b.is_activated());
    assert_eq!(b.poll(), Some(1));
    assert_eq!(b.poll(), Some(2));
    b.activate();
    assert_eq!(b.poll(), Some(3));
    assert_eq!(b.poll(), Some(9));
    assert_eq!(b.poll(), None);
    assert!(b.is_drained());
    b.add(4);
    b.deactivate();
    assert_eq!(b.poll(), None);
    assert!(!b.is_empty());
}

fn steps(s: &mut GCWorkScheduler<&'static str>) -> Vec<String> {
    let mut log = vec![];
    loop {
        match s.next_step() {
            WorkerStep::Coordinate(work) => log.push(format!("coordinate {}", work)),
            WorkerStep::Run(stage, work) => log.push(format!("run {:?} {}", stage, work)),
            WorkerStep::Opened(stage) => log.push(format!("open {:?}", stage)),
            WorkerStep::Finished(finalizer) => {
                log.push(format!("finished {:?}", finalizer));
                break;
            }
        }
    }
    log
}

#[test]
fn packets_run_in_the_order_of_their_stages() {
    let mut s: GCWorkScheduler<&'static str> = GCWorkScheduler::new();
    s.add(WorkBucketStage::Closure, "q");
    s.add(WorkBucketStage::Release, "r");
    s.add(WorkBucketStage::Prepare, "first");
    s.add(WorkBucketStage::Prepare, "second");
    s.add(WorkBucketStage::Unconstrained, "u");
    s.add_on_open(WorkBucketStage::Final, "f");
    s.set_finalizer(Some("end"));
    assert!(!s.all_activated_buckets_are_empty());
    assert_eq!(s.update_buckets(), None);
    assert_eq!(
        steps(&mut s),
        vec![
            "run Unconstrained u",
            "open Prepare",
            "run Prepare first",
            "run Prepare second",
            "open Closure",
            "run Closure q",
            "open SoftRefClosure",
            "open WeakRefClosure",
            "open PhantomRefClosure",
            "open VMRefClosure",
            "open Release",
            "run Release r",
            "open Final",
            "run Final f",
            "finished Some(\"end\")",
        ]
    );
    // the finalizer was taken
    assert_eq!(steps(&mut s), vec!["finished None"]);
    s.deactivate_all();
    s.bulk_add(WorkBucketStage::Prepare, vec!["a", "b"]);
    assert_eq!(s.poll(), None);
    assert_eq!(s.update_buckets(), Some(WorkBucketStage::Prepare));
    assert_eq!(s.poll(), Some((WorkBucketStage::Prepare, "a")));
}

#[test]
fn a_packet_of_an_earlier_stage_goes_first() {
    let mut s: GCWorkScheduler<&'static str> = GCWorkScheduler::new();
    s.add(WorkBucketStage::Closure, "c");
    s.add(WorkBucketStage::Closure, "d");
    assert_eq!(s.current_stage(), WorkBucketStage::Unconstrained);
    assert_eq!(s.update_buckets(), Some(WorkBucketStage::Prepare));
    assert_eq!(s.update_buckets(), Some(WorkBucketStage::Closure));
    assert_eq!(s.current_stage(), WorkBucketStage::Closure);
    assert_eq!(s.poll(), Some((WorkBucketStage::Closure, "c")));
    // while a packet waits in the bucket of an earlier stage, none of this
    // stage is handed out: the earlier bucket is opened again
    s.add(WorkBucketStage::Prepare, "p");
    s.add(WorkBucketStage::Unconstrained, "u");
    assert!(!s.all_activated_buckets_are_empty());
    assert_eq!(s.poll(), None);
    assert_eq!(s.update_buckets(), Some(WorkBucketStage::Unconstrained));
    assert_eq!(s.current_stage(), WorkBucketStage::Unconstrained);
    assert_eq!(s.update_buckets(), None);
    assert_eq!(s.poll(), Some((WorkBucketStage::Unconstrained, "u")));
    assert_eq!(s.poll(), None);
    assert!(s.all_activated_buckets_are_empty());
    assert_eq!(
        steps(&mut s),
        vec![
            "open Prepare",
            "run Prepare p",
            "open Closure",
            "run Closure d",
            "open SoftRefClosure",
            "open WeakRefClosure",
            "open PhantomRefClosure",
            "open VMRefClosure",
            "open Release",
            "open Final",
            "finished None",
        ]
    );
    assert_eq!(s.current_stage(), WorkBucketStage::Final);
    // a packet for the unconstrained stage after the end
    s.add(WorkBucketStage::Unconstrained, "late");
    assert_eq!(steps(&mut s)[..2], ["open Unconstrained", "run Unconstrained late"]);
    s.deactivate_all();
    assert_eq!(s.current_stage(), WorkBucketStage::Unconstrained);
    // a packet that was to join the unconstrained bucket at its opening
    // joins it when the scheduler comes to rest
    s.update_buckets();
    s.add_on_open(WorkBucketStage::Unconstrained, "again");
    assert_eq!(s.poll(), None);
    s.deactivate_all();
    assert_eq!(s.poll(), Some((WorkBucketStage::Unconstrained, "again")));
}

#[test]
fn work_for_the_coordinator_goes_first() {
    let mut s: GCWorkScheduler<&'static str> = GCWorkScheduler::new();
    s.add(WorkBucketStage::Unconstrained, "u");
    s.add(WorkBucketStage::Prepare, "p");
    s.add_coordinator_work("first");
    s.add_coordinator_work("second");
    // no packet of a bucket is handed out, and no bucket is opened, while
    // work waits for the coordinator
    assert_eq!(s.poll(), None);
    assert_eq!(s.update_buckets(), None);
    assert_eq!(s.poll_coordinator(), Some("first"));
    assert_eq!(s.poll(), None);
    assert_eq!(
        steps(&mut s)[..4],
        ["coordinate second", "run Unconstrained u", "open Prepare", "run Prepare p"]
    );
    assert_eq!(s.poll_coordinator(), None);
    s.add(WorkBucketStage::Final, "f");
    s.add_coordinator_work("late");
    assert_eq!(steps(&mut s), vec!["coordinate late", "run Final f", "finished None"]);
}
