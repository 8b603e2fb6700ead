//! Buffers for tracing, that is for visiting the reachable objects by
//! walking all or part of the object graph.

use crate::scheduler::work_bucket::WorkBucketStage;
use crate::util::address::Address;
use crate::util::address::ObjectReference;
use crate::vm::edge_shape::MemorySlice;
use crate::vm::scanning::EdgeVisitor;
use vstd::prelude::*;

verus! {

/// A queue to which objects are added while they are traced.
pub trait ObjectQueue {
    /// The objects in the queue, oldest first.
    spec fn queued(&self) -> Seq<ObjectReference>;

    /// Adds `object` at the end of the queue.
    fn enqueue(&mut self, object: ObjectReference)
        ensures
            final(self).queued() == old(self).queued().push(object),
    ;
}

/// The number of items after which a [`VectorQueue`] counts as full.
pub const VECTOR_QUEUE_CAPACITY: usize = 4096;

/// A queue of objects.
pub type VectorObjectQueue = VectorQueue<ObjectReference>;

/// A queue kept in a vector. It also serves as a plain buffer, such as the
/// mark stack or the buffer of a write barrier.
pub struct VectorQueue<T> {
    buffer: Vec<T>,
}

impl<T> View for VectorQueue<T> {
    type V = Seq<T>;

    closed spec fn view(&self) -> Seq<T> {
        self.buffer@
    }
}

impl<T> VectorQueue<T> {
    /// An empty queue.
    pub fn new() -> (q: Self)
        ensures
            q@ == Seq::<T>::empty(),
    {
        Self { buffer: Vec::new() }
    }

    /// Whether the queue holds nothing.
    pub fn is_empty(&self) -> (b: bool)
        ensures
            b == (self@.len() == 0),
    {
        self.buffer.is_empty()
    }

    /// Takes out what the queue holds, oldest first, and leaves it empty.
    pub fn take(&mut self) -> (items: Vec<T>)
        ensures
            items@ == old(self)@,
            final(self)@ == Seq::<T>::empty(),
    {
        let mut items: Vec<T> = Vec::new();
        core::mem::swap(&mut items, &mut self.buffer);
        items
    }

    /// Turns the queue into the vector of what it holds, oldest first.
    pub fn into_vec(self) -> (items: Vec<T>)
        ensures
            items@ == self@,
    {
        self.buffer
    }

    /// Whether the queue has reached `VECTOR_QUEUE_CAPACITY` items.
    pub fn is_full(&self) -> (b: bool)
        ensures
            b == (self@.len() >= VECTOR_QUEUE_CAPACITY),
    {
        self.buffer.len() >= VECTOR_QUEUE_CAPACITY
    }

    /// Adds `v` at the end of the queue.
    pub fn push(&mut self, v: T)
        ensures
            final(self)@ == old(self)@.push(v),
    {
        if self.buffer.is_empty() {
            self.buffer.reserve(VECTOR_QUEUE_CAPACITY);
        }
        self.buffer.push(v);
    }
}

impl<T> Default for VectorQueue<T> {
    fn default() -> (q: Self)
        ensures
            q@ == Seq::<T>::empty(),
    {
        Self::new()
    }
}

impl ObjectQueue for VectorQueue<ObjectReference> {
    closed spec fn queued(&self) -> Seq<ObjectReference> {
        self.buffer@
    }

    fn enqueue(&mut self, object: ObjectReference) {
        self.push(object);
    }
}

/// The two ways of looking at a queue of objects agree.
pub broadcast proof fn lemma_vector_queue_queued(q: VectorQueue<ObjectReference>)
    ensures
        #[trigger] q.queued() == q@,
{
}

/// The number of edges in all of `slices` together.
pub open spec fn total_edges<S: MemorySlice>(slices: Seq<S>) -> nat
    decreases slices.len(),
{
    if slices.len() == 0 {
        0
    } else {
        total_edges(slices.drop_last()) + slices.last().edges().len()
    }
}

/// What a vector of vectors holds, as a sequence of sequences.
pub open spec fn views<T>(v: Seq<Vec<T>>) -> Seq<Seq<T>> {
    Seq::new(v.len(), |i: int| v[i]@)
}

/// The packets made so far and the slices that wait, after one more chunk
/// came in: a chunk of at least half of `max` edges makes a packet of its
/// own; a smaller one joins those that wait, which make a packet first if
/// they would exceed `max` edges with it.
pub open spec fn spec_push_chunk<S: MemorySlice>(
    packets: Seq<Seq<S>>,
    pending: Seq<S>,
    chunk: S,
    max: int,
) -> (Seq<Seq<S>>, Seq<S>) {
    if chunk.edges().len() >= max / 2 {
        (packets.push(seq![chunk]), pending)
    } else if total_edges(pending) + chunk.edges().len() > max {
        (packets.push(pending), seq![chunk])
    } else {
        (packets, pending.push(chunk))
    }
}

/// The packets made and the slices that wait after `chunks` came in, one
/// after the other.
pub open spec fn spec_push_chunks<S: MemorySlice>(
    packets: Seq<Seq<S>>,
    pending: Seq<S>,
    chunks: Seq<S>,
    max: int,
) -> (Seq<Seq<S>>, Seq<S>)
    decreases chunks.len(),
{
    if chunks.len() == 0 {
        (packets, pending)
    } else {
        let before = spec_push_chunks(packets, pending, chunks.drop_last(), max);
        spec_push_chunk(before.0, before.1, chunks.last(), max)
    }
}

/// Whether a packet of slices holds between half of `max` and `max` edges.
pub open spec fn slice_packet_bounded<S: MemorySlice>(packet: Seq<S>, max: int) -> bool {
    max / 2 <= total_edges(packet) <= max
}

/// Every packet that comes out while chunks of at most `max` edges come in
/// holds between half of `max` and `max` edges, and what waits does not
/// exceed `max` edges.
pub proof fn lemma_slice_packets_bounded<S: MemorySlice>(
    packets: Seq<Seq<S>>,
    pending: Seq<S>,
    chunks: Seq<S>,
    max: int,
)
    requires
        max > 0,
        total_edges(pending) <= max,
        forall|i: int| 0 <= i < packets.len() ==> slice_packet_bounded(#[trigger] packets[i], max),
        forall|k: int| 0 <= k < chunks.len() ==> (#[trigger] chunks[k]).edges().len() <= max,
    ensures
        ({
            let after = spec_push_chunks(packets, pending, chunks, max);
            &&& total_edges(after.1) <= max
            &&& after.0.len() >= packets.len()
            &&& forall|i: int|
                0 <= i < after.0.len() ==> slice_packet_bounded(#[trigger] after.0[i], max)
        }),
    decreases chunks.len(),
{
    if chunks.len() > 0 {
        lemma_slice_packets_bounded(packets, pending, chunks.drop_last(), max);
        let before = spec_push_chunks(packets, pending, chunks.drop_last(), max);
        let chunk = chunks.last();
        let n = chunk.edges().len();
        assert(seq![chunk].drop_last() =~= Seq::<S>::empty());
        assert(total_edges(seq![chunk]) == n) by {
            assert(seq![chunk].last() == chunk);
            assert(total_edges(seq![chunk].drop_last()) == 0);
        }
        assert(before.1.push(chunk).drop_last() =~= before.1);
        assert(total_edges(before.1.push(chunk)) == total_edges(before.1) + n);
    }
}

/// A buffer of slices that counts the edges in them, not the slices, and
/// gives them out in packets of bounded size.
pub struct SliceBuffer<S: MemorySlice> {
    slices: Vec<S>,
    cur_edges: usize,
    max_edges: usize,
}

/// The number of edges that a [`SliceBuffer`] holds at most, unless told
/// otherwise.
pub const SLICE_BUFFER_DEFAULT_CAPACITY: usize = 4096;

impl<S: MemorySlice> SliceBuffer<S> {
    /// The count of edges is that of the slices held, and does not exceed
    /// the limit, which is not zero.
    #[verifier::type_invariant]
    spec fn counts_edges(self) -> bool {
        &&& self.cur_edges == total_edges(self.slices@)
        &&& self.cur_edges <= self.max_edges
        &&& self.max_edges > 0
    }

    /// The slices that wait in the buffer.
    pub closed spec fn pending(&self) -> Seq<S> {
        self.slices@
    }

    /// The number of edges that a packet may hold.
    pub closed spec fn max_edges(&self) -> int {
        self.max_edges as int
    }

    /// An empty buffer that makes packets of at most `max_edges` edges.
    pub fn new(max_edges: usize) -> (b: Self)
        requires
            max_edges > 0,
        ensures
            b.pending() == Seq::<S>::empty(),
            b.max_edges() == max_edges,
    {
        Self { slices: Vec::new(), cur_edges: 0, max_edges }
    }

    /// Adds `slice`, cut into chunks of at most `max_edges` edges, and
    /// returns the packets that this completes, in order.
    ///
    /// A chunk of at least `max_edges / 2` edges becomes a packet of its
    /// own at once. A smaller chunk, which can only be the last, waits in
    /// the buffer; if the buffer would exceed `max_edges` edges with it, what
    /// waited before becomes a packet first. So every packet holds between
    /// `max_edges / 2` and `max_edges` edges.
    pub fn push_with_flush(&mut self, slice: S) -> (packets: Vec<Vec<S>>)
        ensures
            final(self).max_edges() == old(self).max_edges(),
            (views(packets@), final(self).pending()) == spec_push_chunks(
                Seq::empty(),
                old(self).pending(),
                slice.spec_chunks(old(self).max_edges()),
                old(self).max_edges(),
            ),
            forall|i: int|
                0 <= i < packets@.len() ==> slice_packet_bounded(
                    (#[trigger] packets@[i])@,
                    old(self).max_edges(),
                ),
            total_edges(final(self).pending()) <= old(self).max_edges(),
    {
        proof {
            use_type_invariant(&*self);
        }
        let max_edges: usize = self.max_edges;
        let half_edges: usize = max_edges / 2;
        let mut packets: Vec<Vec<S>> = Vec::new();
        let mut chunks: Vec<S> = slice.chunks(max_edges);
        let ghost all = chunks@;
        proof {
            assert forall|k: int| 0 <= k < all.len() implies (#[trigger] all[k]).edges().len()
                <= max_edges by {
                slice.lemma_chunks(max_edges as int, k);
                assert((k + 1) * max_edges == k * max_edges + max_edges) by (nonlinear_arith);
            }
        }
        let mut taken = Self { slices: Vec::new(), cur_edges: 0, max_edges };
        core::mem::swap(self, &mut taken);
        let mut pending: Vec<S> = taken.slices;
        let mut cur_edges: usize = taken.cur_edges;
        let ghost mut done: int = 0;
        assert(all.subrange(0, 0) =~= Seq::<S>::empty());
        assert(views(packets@) =~= Seq::<Seq<S>>::empty());
        assert(all.subrange(0, all.len() as int) =~= all);
        while chunks.len() > 0
            invariant
                max_edges > 0,
                half_edges == max_edges / 2,
                0 <= done,
                done + chunks@.len() == all.len(),
                chunks@ == all.subrange(done as int, all.len() as int),
                forall|k: int| 0 <= k < all.len() ==> (#[trigger] all[k]).edges().len() <= max_edges,
                cur_edges == total_edges(pending@),
                cur_edges <= max_edges,
                (views(packets@), pending@) == spec_push_chunks(
                    Seq::empty(),
                    old(self).pending(),
                    all.subrange(0, done as int),
                    max_edges as int,
                ),
            decreases chunks@.len(),
        {
            let chunk = chunks.remove(0);
            let ghost before_packets = views(packets@);
            let ghost before_pending = pending@;
            proof {
                let next = all.subrange(0, done + 1);
                assert(chunk == all[done as int]);
                assert(next.drop_last() =~= all.subrange(0, done as int));
                assert(next.last() == chunk);
                assert(chunks@ =~= all.subrange(done + 1, all.len() as int));
            }
            let chunk_len: usize = chunk.len();
            if chunk_len >= half_edges {
                // Large enough for a packet of its own.
                let mut single: Vec<S> = Vec::new();
                single.push(chunk);
                packets.push(single);
                proof {
                    assert(single@ =~= seq![chunk]);
                    assert(views(packets@) =~= before_packets.push(seq![chunk]));
                }
            } else {
                if chunk_len > max_edges - cur_edges {
                    // It does not fit: what waits has at least half the
                    // edges of a packet, and goes first.
                    let mut full: Vec<S> = Vec::new();
                    core::mem::swap(&mut full, &mut pending);
                    packets.push(full);
                    cur_edges = 0;
                    proof {
                        assert(views(packets@) =~= before_packets.push(before_pending));
                        assert(pending@ =~= Seq::<S>::empty());
                        assert(total_edges(pending@) == 0);
                    }
                }
                let ghost waiting = pending@;
                pending.push(chunk);
                cur_edges = cur_edges + chunk_len;
                proof {
                    assert(pending@.drop_last() =~= waiting);
                    assert(pending@.last() == chunk);
                    assert(total_edges(pending@) == total_edges(waiting) + chunk_len);
                    assert(seq![chunk] =~= Seq::<S>::empty().push(chunk));
                }
            }
            proof {
                done = done + 1;
            }
        }
        proof {
            assert(all.subrange(0, done as int) =~= all);
            lemma_slice_packets_bounded(
                Seq::<Seq<S>>::empty(),
                old(self).pending(),
                all,
                max_edges as int,
            );
            assert forall|i: int| 0 <= i < packets@.len() implies slice_packet_bounded(
                (#[trigger] packets@[i])@,
                max_edges as int,
            ) by {
                assert(views(packets@)[i] == packets@[i]@);
            }
        }
        *self = Self { slices: pending, cur_edges, max_edges };
        packets
    }

    /// Empties the buffer: returns the slices that waited as one packet,
    /// however few edges they hold, or nothing if none waited.
    pub fn flush(&mut self) -> (packet: Option<Vec<S>>)
        ensures
            final(self).max_edges() == old(self).max_edges(),
            final(self).pending() == Seq::<S>::empty(),
            old(self).pending().len() > 0 ==> packet is Some && packet.unwrap()@ == old(
                self,
            ).pending(),
            old(self).pending().len() == 0 ==> packet is None,
    {
        if !self.slices.is_empty() {
            Some(self.flush_inner())
        } else {
            None
        }
    }

    /// Takes out the slices that wait and sets the count of edges to zero.
    fn flush_inner(&mut self) -> (slices: Vec<S>)
        ensures
            final(self).max_edges() == old(self).max_edges(),
            final(self).pending() == Seq::<S>::empty(),
            slices@ == old(self).pending(),
    {
        proof {
            use_type_invariant(&*self);
        }
        let mut taken = Self { slices: Vec::new(), cur_edges: 0, max_edges: self.max_edges };
        core::mem::swap(self, &mut taken);
        taken.slices
    }
}

/// A packet that a closure gives out: edges to process, or slices whose
/// edges are to be processed, for the bucket of a stage.
pub enum TracePacket<S> {
    ProcessEdges { edges: Vec<Address>, roots: bool, bucket: WorkBucketStage },
    ProcessSlices { slices: Vec<S>, roots: bool, bucket: WorkBucketStage },
}

/// What a packet holds.
pub enum TracePacketView<S> {
    ProcessEdges { edges: Seq<Address>, roots: bool, bucket: WorkBucketStage },
    ProcessSlices { slices: Seq<S>, roots: bool, bucket: WorkBucketStage },
}

impl<S> View for TracePacket<S> {
    type V = TracePacketView<S>;

    open spec fn view(&self) -> TracePacketView<S> {
        match self {
            TracePacket::ProcessEdges { edges, roots, bucket } => TracePacketView::ProcessEdges {
                edges: edges@,
                roots: *roots,
                bucket: *bucket,
            },
            TracePacket::ProcessSlices { slices, roots, bucket } => TracePacketView::ProcessSlices {
                slices: slices@,
                roots: *roots,
                bucket: *bucket,
            },
        }
    }
}

/// What each of `packets` holds.
pub open spec fn packet_views<S>(packets: Seq<TracePacket<S>>) -> Seq<TracePacketView<S>> {
    Seq::new(packets.len(), |i: int| packets[i]@)
}

/// The packets of slices for `bucket` that hold `parts`, in order.
pub open spec fn spec_slice_packets<S>(parts: Seq<Seq<S>>, bucket: WorkBucketStage) -> Seq<
    TracePacketView<S>,
> {
    Seq::new(
        parts.len(),
        |i: int| TracePacketView::ProcessSlices { slices: parts[i], roots: false, bucket },
    )
}

/// Whether every packet of slices among `packets` holds between half of
/// `max` and `max` edges.
pub open spec fn spec_slice_packets_bounded<S: MemorySlice>(
    packets: Seq<TracePacketView<S>>,
    max: int,
) -> bool {
    forall|i: int|
        0 <= i < packets.len() ==> (#[trigger] packets[i] matches TracePacketView::ProcessSlices {
            slices,
            roots,
            bucket,
        } ==> slice_packet_bounded(slices, max))
}

/// The number of edges in a packet of edges of an [`ObjectsClosure`],
/// unless told otherwise.
pub const OBJECTS_CLOSURE_CAPACITY: usize = 4096;

/// A visitor that gathers the edges of the objects that are scanned, and
/// the slices of edges too, and gives them out in packets for the bucket
/// that the packet came from that is being run.
pub struct ObjectsClosure<S: MemorySlice> {
    edge_buffer: Vec<Address>,
    slice_buffer: SliceBuffer<S>,
    capacity: usize,
    bucket: WorkBucketStage,
    packets: Vec<TracePacket<S>>,
}

impl<S: MemorySlice> ObjectsClosure<S> {
    /// The edges that wait for their packet to fill.
    pub closed spec fn pending_edges(&self) -> Seq<Address> {
        self.edge_buffer@
    }

    /// The slices that wait for their packet.
    pub closed spec fn pending_slices(&self) -> Seq<S> {
        self.slice_buffer.pending()
    }

    /// The number of edges that a packet holds at most.
    pub closed spec fn capacity(&self) -> int {
        self.capacity as int
    }

    /// The stage for whose bucket the packets are.
    pub closed spec fn bucket(&self) -> WorkBucketStage {
        self.bucket
    }

    /// The packets given out so far, oldest first.
    pub closed spec fn packets(&self) -> Seq<TracePacketView<S>> {
        packet_views(self.packets@)
    }

    /// What holds of every closure: the buffer of slices makes packets of
    /// the same size as the buffer of edges, that size is not zero, and
    /// every packet of slices given out so far holds between half as many
    /// edges as a packet may hold and as many.
    pub closed spec fn wf(&self) -> bool {
        &&& self.capacity > 0
        &&& self.slice_buffer.max_edges() == self.capacity
        &&& spec_slice_packets_bounded(packet_views(self.packets@), self.capacity as int)
    }

    /// Slice packet bounding: every packet of slices that a closure gave
    /// out, before it ends, holds between half as many edges as a packet
    /// may hold and as many.
    pub proof fn lemma_slice_packets_are_bounded(&self)
        requires
            self.wf(),
        ensures
            spec_slice_packets_bounded(self.packets(), self.capacity()),
            self.capacity() > 0,
    {
    }

    /// A closure without edges and slices that gives out packets of
    /// `OBJECTS_CLOSURE_CAPACITY` edges for `bucket`.
    pub fn new(bucket: WorkBucketStage) -> (c: Self)
        ensures
            c.wf(),
            c.pending_edges() == Seq::<Address>::empty(),
            c.pending_slices() == Seq::<S>::empty(),
            c.packets() == Seq::<TracePacketView<S>>::empty(),
            c.capacity() == OBJECTS_CLOSURE_CAPACITY,
            c.bucket() == bucket,
    {
        Self::with_capacity(bucket, OBJECTS_CLOSURE_CAPACITY)
    }

    /// A closure without edges and slices that gives out packets of
    /// `capacity` edges for `bucket`.
    pub fn with_capacity(bucket: WorkBucketStage, capacity: usize) -> (c: Self)
        requires
            capacity > 0,
        ensures
            c.wf(),
            c.pending_edges() == Seq::<Address>::empty(),
            c.pending_slices() == Seq::<S>::empty(),
            c.packets() == Seq::<TracePacketView<S>>::empty(),
            c.capacity() == capacity,
            c.bucket() == bucket,
    {
        let c = Self {
            edge_buffer: Vec::new(),
            slice_buffer: SliceBuffer::new(capacity),
            capacity,
            bucket,
            packets: Vec::new(),
        };
        assert(c.packets() =~= Seq::<TracePacketView<S>>::empty());
        c
    }

    /// Whether the buffer of edges holds as many edges as a packet does.
    fn edge_buffer_is_full(&self) -> (b: bool)
        ensures
            b == (self.pending_edges().len() >= self.capacity()),
    {
        self.edge_buffer.len() >= self.capacity
    }

    /// Makes a packet of the edges that wait, if there are any.
    fn flush_edges(&mut self)
        requires
            old(self).wf(),
        ensures
            final(self).wf(),
            final(self).capacity() == old(self).capacity(),
            final(self).bucket() == old(self).bucket(),
            final(self).pending_slices() == old(self).pending_slices(),
            final(self).pending_edges() == Seq::<Address>::empty(),
            final(self).packets() == (if old(self).pending_edges().len() > 0 {
                old(self).packets().push(
                    TracePacketView::ProcessEdges {
                        edges: old(self).pending_edges(),
                        roots: false,
                        bucket: old(self).bucket(),
                    },
                )
            } else {
                old(self).packets()
            }),
    {
        if !self.edge_buffer.is_empty() {
            let mut buf: Vec<Address> = Vec::new();
            core::mem::swap(&mut buf, &mut self.edge_buffer);
            self.packets.push(TracePacket::ProcessEdges { edges: buf, roots: false, bucket: self.bucket });
            assert(self.packets() =~= old(self).packets().push(
                TracePacketView::ProcessEdges {
                    edges: old(self).pending_edges(),
                    roots: false,
                    bucket: old(self).bucket(),
                },
            ));
        } else {
            assert(self.packets() =~= old(self).packets());
            assert(self.edge_buffer@ =~= Seq::<Address>::empty());
        }
    }

    /// Makes a packet of the slices that wait, if there are any, however
    /// few edges they hold.
    fn flush_slices(&mut self)
        requires
            old(self).wf(),
        ensures
            final(self).capacity() == old(self).capacity(),
            final(self).bucket() == old(self).bucket(),
            final(self).pending_edges() == old(self).pending_edges(),
            final(self).pending_slices() == Seq::<S>::empty(),
            final(self).packets() == (if old(self).pending_slices().len() > 0 {
                old(self).packets().push(
                    TracePacketView::ProcessSlices {
                        slices: old(self).pending_slices(),
                        roots: false,
                        bucket: old(self).bucket(),
                    },
                )
            } else {
                old(self).packets()
            }),
    {
        match self.slice_buffer.flush() {
            Some(slices) => {
                self.packets.push(
                    TracePacket::ProcessSlices { slices, roots: false, bucket: self.bucket },
                );
                assert(self.packets() =~= old(self).packets().push(
                    TracePacketView::ProcessSlices {
                        slices: old(self).pending_slices(),
                        roots: false,
                        bucket: old(self).bucket(),
                    },
                ));
            },
            None => {
                assert(self.packets() =~= old(self).packets());
            },
        }
    }

    /// Makes packets of what waits: first of the edges, then of the
    /// slices.
    fn flush(&mut self)
        requires
            old(self).wf(),
        ensures
            final(self).capacity() == old(self).capacity(),
            final(self).bucket() == old(self).bucket(),
            final(self).pending_edges() == Seq::<Address>::empty(),
            final(self).pending_slices() == Seq::<S>::empty(),
            final(self).packets() == spec_flushed(
                old(self).packets(),
                old(self).pending_edges(),
                old(self).pending_slices(),
                old(self).bucket(),
            ),
    {
        self.flush_edges();
        self.flush_slices();
    }

    /// Adds an edge. When that gives as many edges as a packet holds, the
    /// edges that wait are given out in a packet. The slices that wait go
    /// on waiting.
    pub fn push_edge(&mut self, slot: Address)
        requires
            old(self).wf(),
        ensures
            final(self).wf(),
            final(self).capacity() == old(self).capacity(),
            final(self).bucket() == old(self).bucket(),
            final(self).pending_slices() == old(self).pending_slices(),
            old(self).pending_edges().len() + 1 >= old(self).capacity() ==> {
                &&& final(self).pending_edges() == Seq::<Address>::empty()
                &&& final(self).packets() == old(self).packets().push(
                    TracePacketView::ProcessEdges {
                        edges: old(self).pending_edges().push(slot),
                        roots: false,
                        bucket: old(self).bucket(),
                    },
                )
            },
            old(self).pending_edges().len() + 1 < old(self).capacity() ==> {
                &&& final(self).pending_edges() == old(self).pending_edges().push(slot)
                &&& final(self).packets() == old(self).packets()
            },
    {
        self.edge_buffer.push(slot);
        if self.edge_buffer_is_full() {
            self.flush_edges();
        } else {
            assert(self.packets() =~= old(self).packets());
        }
    }

    /// Adds a slice, cut into chunks of at most as many edges as a packet
    /// holds. The packets of slices that this completes are given out; each
    /// holds between half as many edges as a packet may hold and as many.
    pub fn visit_slice(&mut self, slice: S)
        requires
            old(self).wf(),
        ensures
            final(self).wf(),
            final(self).capacity() == old(self).capacity(),
            final(self).bucket() == old(self).bucket(),
            final(self).pending_edges() == old(self).pending_edges(),
            ({
                let pushed = spec_push_chunks(
                    Seq::empty(),
                    old(self).pending_slices(),
                    slice.spec_chunks(old(self).capacity()),
                    old(self).capacity(),
                );
                &&& final(self).pending_slices() == pushed.1
                &&& final(self).packets() == old(self).packets() + spec_slice_packets(
                    pushed.0,
                    old(self).bucket(),
                )
                &&& forall|i: int|
                    0 <= i < pushed.0.len() ==> slice_packet_bounded(
                        #[trigger] pushed.0[i],
                        old(self).capacity(),
                    )
            }),
    {
        let mut new_packets = self.slice_buffer.push_with_flush(slice);
        let ghost parts = views(new_packets@);
        let ghost before = self.packets();
        let ghost mut done: int = 0;
        proof {
            assert(before + spec_slice_packets(parts.subrange(0, 0), self.bucket) =~= before);
            assert(parts.subrange(0, parts.len() as int) =~= parts);
            assert forall|i: int| 0 <= i < parts.len() implies slice_packet_bounded(
                #[trigger] parts[i],
                old(self).capacity(),
            ) by {
                assert(parts[i] == new_packets@[i]@);
            }
        }
        while new_packets.len() > 0
            invariant
                self.wf(),
                self.capacity == old(self).capacity,
                self.bucket == old(self).bucket,
                self.edge_buffer == old(self).edge_buffer,
                self.slice_buffer.pending() == spec_push_chunks(
                    Seq::empty(),
                    old(self).pending_slices(),
                    slice.spec_chunks(old(self).capacity()),
                    old(self).capacity(),
                ).1,
                0 <= done,
                done + new_packets@.len() == parts.len(),
                views(new_packets@) == parts.subrange(done, parts.len() as int),
                self.packets() == before + spec_slice_packets(parts.subrange(0, done), self.bucket),
                forall|i: int|
                    0 <= i < parts.len() ==> slice_packet_bounded(
                        #[trigger] parts[i],
                        self.capacity as int,
                    ),
            decreases new_packets@.len(),
        {
            let ghost waiting = new_packets@;
            let slices = new_packets.remove(0);
            let ghost packets_before = self.packets();
            self.packets.push(TracePacket::ProcessSlices { slices, roots: false, bucket: self.bucket });
            proof {
                assert(slices@ == parts[done]) by {
                    assert(views(waiting)[0] == slices@);
                    assert(parts.subrange(done, parts.len() as int)[0] == parts[done]);
                }
                assert forall|i: int| 0 <= i < new_packets@.len() implies views(new_packets@)[i]
                    == parts.subrange(done + 1, parts.len() as int)[i] by {
                    assert(new_packets@[i] == waiting[i + 1]);
                    assert(views(waiting)[i + 1] == parts.subrange(done, parts.len() as int)[i + 1]);
                }
                assert(views(new_packets@) =~= parts.subrange(done + 1, parts.len() as int));
                assert(self.packets() =~= packets_before.push(
                    TracePacketView::ProcessSlices {
                        slices: slices@,
                        roots: false,
                        bucket: self.bucket,
                    },
                ));
                assert(slice_packet_bounded(parts[done], self.capacity as int));
                assert forall|i: int| 0 <= i < self.packets().len() implies (
                #[trigger] self.packets()[i] matches TracePacketView::ProcessSlices {
                    slices,
                    roots,
                    bucket,
                } ==> slice_packet_bounded(slices, self.capacity as int)) by {
                    if i < packets_before.len() {
                        assert(self.packets()[i] == packets_before[i]);
                    }
                }
                assert(self.packets() =~= before + spec_slice_packets(
                    parts.subrange(0, done + 1),
                    self.bucket,
                ));
                done = done + 1;
            }
        }
        assert(parts.subrange(0, done) =~= parts);
    }

    /// Ends the gathering: what waits is given out, the edges in a packet
    /// and the slices in another, however few they hold; and all packets are
    /// handed out, oldest first, to be added to the bucket. Only the last
    /// packet of slices may hold fewer than half as many edges as a packet
    /// may hold.
    pub fn finish(self) -> (packets: Vec<TracePacket<S>>)
        requires
            self.wf(),
        ensures
            packet_views(packets@) == spec_flushed(
                self.packets(),
                self.pending_edges(),
                self.pending_slices(),
                self.bucket(),
            ),
    {
        let mut this = self;
        this.flush();
        this.packets
    }
}

/// The packets given out once what waits was flushed: a packet of the
/// edges if there are any, then a packet of the slices if there are any.
pub open spec fn spec_flushed<S>(
    packets: Seq<TracePacketView<S>>,
    edges: Seq<Address>,
    slices: Seq<S>,
    bucket: WorkBucketStage,
) -> Seq<TracePacketView<S>> {
    let with_edges = if edges.len() > 0 {
        packets.push(TracePacketView::ProcessEdges { edges, roots: false, bucket })
    } else {
        packets
    };
    if slices.len() > 0 {
        with_edges.push(TracePacketView::ProcessSlices { slices, roots: false, bucket })
    } else {
        with_edges
    }
}

/// The edges of the packets of edges among `packets`, one packet after the
/// other.
pub open spec fn spec_packet_edges<S>(packets: Seq<TracePacketView<S>>) -> Seq<Address>
    decreases packets.len(),
{
    if packets.len() == 0 {
        Seq::empty()
    } else {
        spec_packet_edges(packets.drop_last()) + (match packets.last() {
            TracePacketView::ProcessEdges { edges, roots, bucket } => edges,
            TracePacketView::ProcessSlices { slices, roots, bucket } => Seq::empty(),
        })
    }
}

impl<S: MemorySlice> EdgeVisitor<Address> for ObjectsClosure<S> {
    open spec fn ready(&self) -> bool {
        self.wf()
    }

    /// The edges that were given out in packets, and those that wait.
    open spec fn reported(&self) -> Seq<Address> {
        spec_packet_edges(self.packets()) + self.pending_edges()
    }

    /// Adds the edge to those that were gathered.
    fn visit_edge(&mut self, edge: Address)
        ensures
            final(self).capacity() == old(self).capacity(),
            final(self).bucket() == old(self).bucket(),
            final(self).pending_slices() == old(self).pending_slices(),
            old(self).pending_edges().len() + 1 >= old(self).capacity() ==> {
                &&& final(self).pending_edges() == Seq::<Address>::empty()
                &&& final(self).packets() == old(self).packets().push(
                    TracePacketView::ProcessEdges {
                        edges: old(self).pending_edges().push(edge),
                        roots: false,
                        bucket: old(self).bucket(),
                    },
                )
            },
            old(self).pending_edges().len() + 1 < old(self).capacity() ==> {
                &&& final(self).pending_edges() == old(self).pending_edges().push(edge)
                &&& final(self).packets() == old(self).packets()
            },
    {
        self.push_edge(edge);
        proof {
            let before = old(self).packets();
            let waiting = old(self).pending_edges();
            if waiting.len() + 1 >= old(self).capacity() {
                assert(self.packets().drop_last() =~= before);
                assert(self.reported() =~= old(self).reported().push(edge));
            } else {
                assert(self.reported() =~= old(self).reported().push(edge));
            }
        }
    }
}

} // verus!
