//! The scheduler: one bucket per stage, and the rule by which packets
//! leave them.
//!
//! One bucket is open at a time. A packet is handed out from the open
//! bucket, and only while every bucket of an earlier stage is empty. When
//! the open bucket is empty, it is closed and the bucket of the next stage
//! is opened; when a packet waits in the bucket of an earlier stage, the
//! open bucket is closed and that one is opened again. So while a packet
//! waits in the bucket of a stage, no packet of a later stage is handed
//! out. Work for the coordinator goes before the packets of every bucket.

use crate::scheduler::work_bucket::WorkBucket;
use crate::scheduler::work_bucket::WorkBucketStage;
use crate::scheduler::work_bucket::WORK_BUCKET_STAGES;
use vstd::prelude::*;

verus! {

/// What a worker does next.
pub enum WorkerStep<W> {
    /// Run this packet on the coordinator: it goes before the packets of
    /// the buckets.
    Coordinate(W),
    /// Run this packet, which was taken from the bucket of the stage.
    Run(WorkBucketStage, W),
    /// No packet could be handed out, so the bucket of this stage was
    /// opened: ask again.
    Opened(WorkBucketStage),
    /// Nothing waits and the bucket of the last stage is open: the
    /// collection is over. The packet, if there is one, is the finalizer to
    /// run at its end.
    Finished(Option<W>),
}

/// The buckets of all stages, the stage whose bucket is open, the packets
/// that wait for the coordinator, and the packet to run when the collection
/// is over.
pub struct GCWorkScheduler<W> {
    work_buckets: Vec<WorkBucket<W>>,
    finalizer: Option<W>,
    current: usize,
    coordinator: Vec<W>,
}

/// The lowest stage from `from` on in whose bucket a packet waits.
pub open spec fn spec_first_waiting<W>(buckets: Seq<WorkBucket<W>>, from: int) -> Option<int>
    decreases buckets.len() - from,
{
    if from < 0 || from >= buckets.len() {
        None
    } else if buckets[from].queue().len() > 0 {
        Some(from)
    } else {
        spec_first_waiting(buckets, from + 1)
    }
}

/// What `spec_first_waiting` finds is the lowest stage in whose bucket a
/// packet waits.
pub proof fn lemma_first_waiting<W>(buckets: Seq<WorkBucket<W>>, from: int)
    requires
        0 <= from,
    ensures
        match spec_first_waiting(buckets, from) {
            Some(j) => from <= j < buckets.len() && buckets[j].queue().len() > 0 && forall|i: int|
                from <= i < j ==> (#[trigger] buckets[i]).queue().len() == 0,
            None => forall|i: int|
                from <= i < buckets.len() ==> (#[trigger] buckets[i]).queue().len() == 0,
        },
    decreases buckets.len() - from,
{
    if from < buckets.len() {
        lemma_first_waiting(buckets, from + 1);
    }
}

impl<W> GCWorkScheduler<W> {
    /// The buckets, by the index of their stage.
    pub closed spec fn buckets(&self) -> Seq<WorkBucket<W>> {
        self.work_buckets@
    }

    /// The index of the stage whose bucket is open.
    pub closed spec fn current(&self) -> int {
        self.current as int
    }

    /// The packets that wait for `stage`, oldest first.
    pub open spec fn queue(&self, stage: WorkBucketStage) -> Seq<W> {
        self.buckets()[stage.spec_index()].queue()
    }

    /// Whether the bucket of `stage` is open.
    pub open spec fn is_open(&self, stage: WorkBucketStage) -> bool {
        self.buckets()[stage.spec_index()].is_open()
    }

    /// The packet to run when the collection is over.
    pub closed spec fn finalizer(&self) -> Option<W> {
        self.finalizer
    }

    /// The packets that wait for the coordinator, oldest first.
    pub closed spec fn coordinator_work(&self) -> Seq<W> {
        self.coordinator@
    }

    /// The stage from whose bucket the next packet is handed out: that of
    /// the open bucket, if a packet waits in it, none in the bucket of an
    /// earlier stage, and none for the coordinator.
    pub open spec fn ready_stage(&self) -> Option<int> {
        if self.coordinator_work().len() == 0 && spec_first_waiting(self.buckets(), 0) == Some(
            self.current(),
        ) {
            Some(self.current())
        } else {
            None
        }
    }

    /// The stage whose bucket is opened next, when no packet can be handed
    /// out and none waits for the coordinator: the lowest earlier stage in
    /// whose bucket a packet waits; else, with the open bucket empty, the
    /// next stage, if there is one.
    pub open spec fn next_to_open(&self) -> Option<int> {
        if self.coordinator_work().len() > 0 {
            None
        } else {
            self.next_stage()
        }
    }

    /// The stage whose bucket is opened next, once no packet waits for the
    /// coordinator.
    pub open spec fn next_stage(&self) -> Option<int> {
        match spec_first_waiting(self.buckets(), 0) {
            Some(j) => if j < self.current() {
                Some(j)
            } else if j == self.current() {
                None
            } else {
                Some(self.current() + 1)
            },
            None => if self.current() + 1 < WORK_BUCKET_STAGES {
                Some(self.current() + 1)
            } else {
                None
            },
        }
    }

    /// What holds of the buckets of every scheduler: one of them is open.
    pub open spec fn wf(&self) -> bool {
        &&& self.buckets().len() == WORK_BUCKET_STAGES
        &&& 0 <= self.current() < WORK_BUCKET_STAGES
        &&& forall|i: int|
            0 <= i < WORK_BUCKET_STAGES ==> (#[trigger] self.buckets()[i]).is_open() == (i
                == self.current())
    }

    /// A scheduler with empty buckets, of which the unconstrained one is
    /// open, and without finalizer.
    pub fn new() -> (s: Self)
        ensures
            s.wf(),
            s.current() == 0,
            s.finalizer() is None,
            s.coordinator_work() == Seq::<W>::empty(),
            forall|i: int|
                0 <= i < WORK_BUCKET_STAGES ==> (#[trigger] s.buckets()[i]).queue().len() == 0
                    && s.buckets()[i].open_packets().len() == 0 && s.buckets()[i].is_open() == (i
                    == 0),
    {
        let mut work_buckets: Vec<WorkBucket<W>> = Vec::new();
        let mut i: usize = 0;
        while i < WORK_BUCKET_STAGES
            invariant
                i <= WORK_BUCKET_STAGES,
                work_buckets@.len() == i,
                forall|k: int|
                    0 <= k < i ==> (#[trigger] work_buckets@[k]).queue().len() == 0
                        && work_buckets@[k].open_packets().len() == 0 && work_buckets@[k].is_open()
                        == (k == 0),
            decreases WORK_BUCKET_STAGES - i,
        {
            work_buckets.push(WorkBucket::new(i == 0));
            i = i + 1;
        }
        Self { work_buckets, finalizer: None, current: 0, coordinator: Vec::new() }
    }

    /// The stage whose bucket is open.
    pub fn current_stage(&self) -> (stage: WorkBucketStage)
        requires
            self.wf(),
        ensures
            stage.spec_index() == self.current(),
            self.is_open(stage),
    {
        WorkBucketStage::from_index(self.current)
    }

    /// Adds a packet to the bucket of `stage`, behind those that wait.
    pub fn add(&mut self, stage: WorkBucketStage, work: W)
        requires
            old(self).wf(),
        ensures
            final(self).wf(),
            final(self).current() == old(self).current(),
            final(self).finalizer() == old(self).finalizer(),
            final(self).coordinator_work() == old(self).coordinator_work(),
            final(self).queue(stage) == old(self).queue(stage).push(work),
            forall|i: int|
                0 <= i < WORK_BUCKET_STAGES ==> (#[trigger] final(self).buckets()[i]).is_open()
                    == old(self).buckets()[i].is_open() && final(self).buckets()[i].open_packets()
                    == old(self).buckets()[i].open_packets() && (i != stage.spec_index()
                    ==> final(self).buckets()[i].queue() == old(self).buckets()[i].queue()),
    {
        let idx = stage.index();
        self.work_buckets[idx].add(work);
    }

    /// Adds packets, in their order, to the bucket of `stage`.
    pub fn bulk_add(&mut self, stage: WorkBucketStage, work: Vec<W>)
        requires
            old(self).wf(),
        ensures
            final(self).wf(),
            final(self).current() == old(self).current(),
            final(self).finalizer() == old(self).finalizer(),
            final(self).coordinator_work() == old(self).coordinator_work(),
            final(self).queue(stage) == old(self).queue(stage) + work@,
            forall|i: int|
                0 <= i < WORK_BUCKET_STAGES ==> (#[trigger] final(self).buckets()[i]).is_open()
                    == old(self).buckets()[i].is_open() && final(self).buckets()[i].open_packets()
                    == old(self).buckets()[i].open_packets() && (i != stage.spec_index()
                    ==> final(self).buckets()[i].queue() == old(self).buckets()[i].queue()),
    {
        let idx = stage.index();
        self.work_buckets[idx].bulk_add(work);
    }

    /// Registers a packet that joins the bucket of `stage` when it opens.
    pub fn add_on_open(&mut self, stage: WorkBucketStage, work: W)
        requires
            old(self).wf(),
        ensures
            final(self).wf(),
            final(self).current() == old(self).current(),
            final(self).finalizer() == old(self).finalizer(),
            final(self).coordinator_work() == old(self).coordinator_work(),
            final(self).buckets()[stage.spec_index()].open_packets() == old(
                self,
            ).buckets()[stage.spec_index()].open_packets().push(work),
            forall|i: int|
                0 <= i < WORK_BUCKET_STAGES ==> (#[trigger] final(self).buckets()[i]).is_open()
                    == old(self).buckets()[i].is_open() && final(self).buckets()[i].queue() == old(
                    self,
                ).buckets()[i].queue() && (i != stage.spec_index() ==> final(self).buckets()[i].open_packets() == old(self).buckets()[i].open_packets()),
    {
        let idx = stage.index();
        self.work_buckets[idx].add_on_open(work);
    }

    /// Sets the packet to run when the collection is over.
    pub fn set_finalizer(&mut self, work: Option<W>)
        ensures
            final(self).finalizer() == work,
            final(self).buckets() == old(self).buckets(),
            final(self).current() == old(self).current(),
            final(self).coordinator_work() == old(self).coordinator_work(),
    {
        self.finalizer = work;
    }

    /// Adds a packet for the coordinator, behind those that wait for it.
    /// It goes before the packets of the buckets.
    pub fn add_coordinator_work(&mut self, work: W)
        ensures
            final(self).coordinator_work() == old(self).coordinator_work().push(work),
            final(self).buckets() == old(self).buckets(),
            final(self).current() == old(self).current(),
            final(self).finalizer() == old(self).finalizer(),
    {
        self.coordinator.push(work);
    }

    /// Hands out the oldest packet that waits for the coordinator, if one
    /// does.
    pub fn poll_coordinator(&mut self) -> (work: Option<W>)
        ensures
            final(self).buckets() == old(self).buckets(),
            final(self).current() == old(self).current(),
            final(self).finalizer() == old(self).finalizer(),
            old(self).coordinator_work().len() == 0 ==> work is None && final(self).coordinator_work() == old(self).coordinator_work(),
            old(self).coordinator_work().len() > 0 ==> work == Some(old(self).coordinator_work()[0])
                && final(self).coordinator_work() == old(self).coordinator_work().drop_first(),
    {
        if self.coordinator.len() > 0 {
            let work = self.coordinator.remove(0);
            assert(self.coordinator@ =~= old(self).coordinator@.drop_first());
            Some(work)
        } else {
            None
        }
    }

    /// Whether no packet waits in the open bucket.
    pub fn all_activated_buckets_are_empty(&self) -> (b: bool)
        requires
            self.wf(),
        ensures
            b == (self.buckets()[self.current()].queue().len() == 0),
    {
        self.work_buckets[self.current].is_empty()
    }

    /// The lowest stage in whose bucket a packet waits.
    fn first_waiting(&self) -> (found: Option<usize>)
        requires
            self.wf(),
        ensures
            match found {
                Some(j) => spec_first_waiting(self.buckets(), 0) == Some(j as int),
                None => spec_first_waiting(self.buckets(), 0) is None,
            },
    {
        let mut i: usize = 0;
        while i < WORK_BUCKET_STAGES
            invariant
                i <= WORK_BUCKET_STAGES,
                self.wf(),
                spec_first_waiting(self.buckets(), 0) == spec_first_waiting(
                    self.buckets(),
                    i as int,
                ),
            decreases WORK_BUCKET_STAGES - i,
        {
            if !self.work_buckets[i].is_empty() {
                return Some(i);
            }
            i = i + 1;
        }
        None
    }

    /// Hands out the next packet of a bucket: the oldest of the open
    /// bucket, if no packet waits in the bucket of an earlier stage nor for
    /// the coordinator. The stage comes with it.
    ///
    /// A packet is handed out only from the open bucket and only while
    /// every bucket of an earlier stage is empty and closed.
    pub fn poll(&mut self) -> (work: Option<(WorkBucketStage, W)>)
        requires
            old(self).wf(),
        ensures
            final(self).wf(),
            final(self).current() == old(self).current(),
            final(self).finalizer() == old(self).finalizer(),
            final(self).coordinator_work() == old(self).coordinator_work(),
            old(self).ready_stage() is None ==> work is None && final(self).buckets() == old(
                self,
            ).buckets(),
            old(self).ready_stage() matches Some(j) ==> {
                &&& work == Some(
                    (WorkBucketStage::spec_from_index(j), old(self).buckets()[j].queue()[0]),
                )
                &&& final(self).buckets()[j].queue() == old(self).buckets()[j].queue().drop_first()
                &&& old(self).buckets()[j].is_open()
                &&& forall|i: int|
                    0 <= i < j ==> (#[trigger] old(self).buckets()[i]).queue().len() == 0 && !old(
                        self,
                    ).buckets()[i].is_open()
                &&& forall|i: int|
                    0 <= i < WORK_BUCKET_STAGES ==> (#[trigger] final(self).buckets()[i]).is_open()
                        == old(self).buckets()[i].is_open() && final(self).buckets()[i].open_packets() == old(self).buckets()[i].open_packets() && (i
                        != j ==> final(self).buckets()[i].queue() == old(self).buckets()[i].queue())
            },
    {
        proof {
            lemma_first_waiting(self.buckets(), 0);
        }
        if self.coordinator.len() > 0 {
            return None;
        }
        match self.first_waiting() {
            Some(j) => {
                if j == self.current {
                    let stage = WorkBucketStage::from_index(j);
                    let polled = self.work_buckets[j].poll();
                    Some((stage, polled.unwrap()))
                } else {
                    None
                }
            },
            None => None,
        }
    }

    /// Opens another bucket in place of the open one, if no packet can be
    /// handed out and none waits for the coordinator: that of the lowest
    /// earlier stage in which a packet waits; else, if the open bucket is
    /// empty, that of the next stage. The
    /// packets registered for the opening of the bucket join it. Returns the
    /// stage whose bucket was opened.
    pub fn update_buckets(&mut self) -> (opened: Option<WorkBucketStage>)
        requires
            old(self).wf(),
        ensures
            final(self).wf(),
            final(self).finalizer() == old(self).finalizer(),
            final(self).coordinator_work() == old(self).coordinator_work(),
            old(self).next_to_open() is None ==> opened is None && final(self).buckets() == old(
                self,
            ).buckets() && final(self).current() == old(self).current(),
            old(self).next_to_open() matches Some(j) ==> {
                &&& opened == Some(WorkBucketStage::spec_from_index(j))
                &&& final(self).current() == j
                &&& j != old(self).current()
                &&& final(self).buckets()[j].queue() == old(self).buckets()[j].queue() + old(
                    self,
                ).buckets()[j].open_packets()
                &&& final(self).buckets()[j].open_packets() == Seq::<W>::empty()
                &&& forall|i: int|
                    0 <= i < WORK_BUCKET_STAGES && i != j ==> (#[trigger] final(self).buckets()[i]).queue() == old(self).buckets()[i].queue() && final(self).buckets()[i].open_packets() == old(self).buckets()[i].open_packets()
            },
    {
        proof {
            lemma_first_waiting(self.buckets(), 0);
        }
        if self.coordinator.len() > 0 {
            return None;
        }
        let target: usize = match self.first_waiting() {
            Some(j) => {
                if j < self.current {
                    j
                } else if j == self.current {
                    return None;
                } else {
                    self.current + 1
                }
            },
            None => {
                if self.current + 1 < WORK_BUCKET_STAGES {
                    self.current + 1
                } else {
                    return None;
                }
            },
        };
        let stage = WorkBucketStage::from_index(target);
        let before = self.current;
        self.work_buckets[before].deactivate();
        self.work_buckets[target].activate();
        self.current = target;
        Some(stage)
    }

    /// What a worker does next: run the work of the coordinator if any
    /// waits; else run the next packet if one can be handed out; else open
    /// another bucket; else, with the bucket of the last stage open and
    /// every bucket empty, end the collection and take the finalizer.
    pub fn next_step(&mut self) -> (step: WorkerStep<W>)
        requires
            old(self).wf(),
        ensures
            final(self).wf(),
            old(self).coordinator_work().len() > 0 ==> {
                &&& step == WorkerStep::Coordinate(old(self).coordinator_work()[0])
                &&& final(self).coordinator_work() == old(self).coordinator_work().drop_first()
                &&& final(self).buckets() == old(self).buckets()
                &&& final(self).current() == old(self).current()
                &&& final(self).finalizer() == old(self).finalizer()
            },
            old(self).ready_stage() matches Some(j) ==> {
                &&& step == WorkerStep::Run(
                    WorkBucketStage::spec_from_index(j),
                    old(self).buckets()[j].queue()[0],
                )
                &&& final(self).current() == old(self).current()
                &&& final(self).finalizer() == old(self).finalizer()
                &&& final(self).coordinator_work() == old(self).coordinator_work()
                &&& final(self).buckets()[j].queue() == old(self).buckets()[j].queue().drop_first()
                &&& forall|i: int|
                    0 <= i < j ==> (#[trigger] old(self).buckets()[i]).queue().len() == 0 && !old(
                        self,
                    ).buckets()[i].is_open()
                &&& forall|i: int|
                    0 <= i < WORK_BUCKET_STAGES ==> (#[trigger] final(self).buckets()[i]).is_open()
                        == old(self).buckets()[i].is_open() && final(self).buckets()[i].open_packets() == old(self).buckets()[i].open_packets() && (i
                        != j ==> final(self).buckets()[i].queue() == old(self).buckets()[i].queue())
            },
            old(self).coordinator_work().len() == 0 && old(self).ready_stage() is None ==> (old(
                self,
            ).next_to_open() matches Some(j) ==> {
                &&& step == WorkerStep::<W>::Opened(WorkBucketStage::spec_from_index(j))
                &&& final(self).current() == j
                &&& final(self).finalizer() == old(self).finalizer()
                &&& final(self).coordinator_work() == old(self).coordinator_work()
                &&& final(self).buckets()[j].queue() == old(self).buckets()[j].queue() + old(
                    self,
                ).buckets()[j].open_packets()
                &&& final(self).buckets()[j].open_packets() == Seq::<W>::empty()
                &&& forall|i: int|
                    0 <= i < WORK_BUCKET_STAGES && i != j ==> (#[trigger] final(self).buckets()[i]).queue() == old(self).buckets()[i].queue() && final(self).buckets()[i].open_packets() == old(self).buckets()[i].open_packets()
            }),
            old(self).coordinator_work().len() == 0 && old(self).ready_stage() is None && old(
                self,
            ).next_to_open() is None ==> step == WorkerStep::Finished(old(self).finalizer())
                && final(self).finalizer() is None && final(self).buckets() == old(self).buckets()
                && final(self).current() == old(self).current() && final(self).coordinator_work()
                == old(self).coordinator_work(),
    {
        match self.poll_coordinator() {
            Some(work) => {
                return WorkerStep::Coordinate(work);
            },
            None => {},
        }
        match self.poll() {
            Some((stage, work)) => {
                return WorkerStep::Run(stage, work);
            },
            None => {},
        }
        match self.update_buckets() {
            Some(stage) => {
                return WorkerStep::Opened(stage);
            },
            None => {},
        }
        let mut finalizer: Option<W> = None;
        core::mem::swap(&mut finalizer, &mut self.finalizer);
        WorkerStep::Finished(finalizer)
    }

    /// Closes the open bucket and opens the unconstrained one in its
    /// place, as at the end of a collection. What waits in the buckets
    /// stays.
    pub fn deactivate_all(&mut self)
        requires
            old(self).wf(),
        ensures
            final(self).wf(),
            final(self).current() == 0,
            final(self).finalizer() == old(self).finalizer(),
            final(self).coordinator_work() == old(self).coordinator_work(),
            forall|i: int|
                0 < i < WORK_BUCKET_STAGES ==> (#[trigger] final(self).buckets()[i]).queue() == old(
                    self,
                ).buckets()[i].queue() && final(self).buckets()[i].open_packets() == old(
                    self,
                ).buckets()[i].open_packets(),
            old(self).current() == 0 ==> final(self).buckets() == old(self).buckets(),
            old(self).current() != 0 ==> final(self).buckets()[0].queue() == old(
                self,
            ).buckets()[0].queue() + old(self).buckets()[0].open_packets() && final(self).buckets()[0].open_packets() == Seq::<W>::empty(),
    {
        if self.current != 0 {
            let before = self.current;
            self.work_buckets[before].deactivate();
            self.work_buckets[0].activate();
            self.current = 0;
        }
    }
}

/// Bucket ordering: while a packet waits in the bucket of a stage, no
/// packet of a later stage is handed out. If the next packet is handed out
/// at all, it comes from that stage or an earlier one.
pub proof fn lemma_bucket_ordering<W>(s: GCWorkScheduler<W>, i: int, j: int)
    requires
        s.wf(),
        0 <= i < j < WORK_BUCKET_STAGES,
        s.buckets()[i].queue().len() > 0,
    ensures
        s.ready_stage() != Some(j),
        s.ready_stage() matches Some(r) ==> r <= i,
{
    lemma_first_waiting(s.buckets(), 0);
}

/// The packet that is handed out comes from a bucket below which every
/// bucket is empty and closed.
pub proof fn lemma_earlier_buckets_are_done<W>(s: GCWorkScheduler<W>, i: int)
    requires
        s.wf(),
        s.ready_stage() matches Some(j) && 0 <= i < j,
    ensures
        s.buckets()[i].queue().len() == 0,
        !s.buckets()[i].is_open(),
{
    lemma_first_waiting(s.buckets(), 0);
}

/// While a packet waits in a bucket, the scheduler does not come to rest:
/// work waits for the coordinator, or a packet can be handed out, or
/// another bucket is to be opened.
pub proof fn lemma_no_packet_is_left<W>(s: GCWorkScheduler<W>, i: int)
    requires
        s.wf(),
        0 <= i < WORK_BUCKET_STAGES,
        s.buckets()[i].queue().len() > 0,
    ensures
        s.coordinator_work().len() > 0 || s.ready_stage() is Some || s.next_to_open() is Some,
{
    lemma_first_waiting(s.buckets(), 0);
}

impl<W> GCWorkScheduler<W> {
    /// The scheduler is at rest, as between collections: no packet waits,
    /// none is to join a bucket when it opens, the unconstrained bucket is
    /// open, and there is no finalizer.
    pub open spec fn is_idle(&self) -> bool {
        &&& self.wf()
        &&& self.current() == 0
        &&& self.finalizer() is None
        &&& self.coordinator_work().len() == 0
        &&& forall|i: int|
            0 <= i < WORK_BUCKET_STAGES ==> (#[trigger] self.buckets()[i]).queue().len() == 0
                && self.buckets()[i].open_packets().len() == 0
    }

    /// The bucket of the stage before `opened` is open; no packet waits
    /// for the coordinator; none is to join a bucket when it opens; and the
    /// packets that wait are those of `queues`, stage by stage.
    pub open spec fn in_state(&self, opened: int, queues: Seq<Seq<W>>) -> bool {
        &&& self.wf()
        &&& self.current() == opened - 1
        &&& self.coordinator_work().len() == 0
        &&& queues.len() == WORK_BUCKET_STAGES
        &&& forall|i: int|
            0 <= i < WORK_BUCKET_STAGES ==> (#[trigger] self.buckets()[i]).queue() == queues[i]
                && self.buckets()[i].open_packets().len() == 0
    }

    /// The packet that is handed out next comes from the open bucket, if a
    /// packet waits in it and none in the bucket of an earlier stage.
    pub proof fn lemma_ready_stage(&self, opened: int, queues: Seq<Seq<W>>, j: int)
        requires
            self.in_state(opened, queues),
            j == opened - 1,
            queues[j].len() > 0,
            forall|i: int| 0 <= i < j ==> (#[trigger] queues[i]).len() == 0,
        ensures
            self.ready_stage() == Some(j),
    {
        lemma_first_waiting(self.buckets(), 0);
        assert(self.buckets()[j].queue() == queues[j]);
        match spec_first_waiting(self.buckets(), 0) {
            Some(r) => {
                if r < j {
                    assert(self.buckets()[r].queue() == queues[r]);
                    assert(queues[r].len() == 0);
                }
            },
            None => {},
        }
    }

    /// When no packet waits in the open bucket nor in the bucket of an
    /// earlier stage, the bucket of the next stage is the next to open; if
    /// there is none, and no packet waits at all, the collection is over.
    pub proof fn lemma_next_to_open(&self, opened: int, queues: Seq<Seq<W>>)
        requires
            self.in_state(opened, queues),
            1 <= opened <= WORK_BUCKET_STAGES,
            forall|i: int| 0 <= i < opened ==> (#[trigger] queues[i]).len() == 0,
        ensures
            self.ready_stage() is None,
            opened < WORK_BUCKET_STAGES ==> self.next_to_open() == Some(opened),
            opened == WORK_BUCKET_STAGES ==> self.next_to_open() is None,
    {
        lemma_first_waiting(self.buckets(), 0);
        match spec_first_waiting(self.buckets(), 0) {
            Some(r) => {
                assert(self.buckets()[r].queue() == queues[r]);
                if r < opened {
                    assert(queues[r].len() == 0);
                }
            },
            None => {},
        }
    }
}

} // verus!
