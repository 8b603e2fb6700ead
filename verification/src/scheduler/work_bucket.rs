//! A stage of a collection and the packets that wait for it.

use vstd::prelude::*;

verus! {

/// The number of stages.
pub const WORK_BUCKET_STAGES: usize = 9;

/// The stages of a collection, in the order in which their buckets open.
#[derive(Debug, Clone, Copy, PartialEq, Eq, Hash, Structural)]
pub enum WorkBucketStage {
    /// Work that runs before that of every other stage; its bucket is the
    /// one that is open between collections.
    Unconstrained,
    /// Preparing the plan, the workers and the mutators.
    Prepare,
    /// The transitive closure from the roots.
    Closure,
    /// Soft references.
    SoftRefClosure,
    /// Weak references.
    WeakRefClosure,
    /// Phantom references.
    PhantomRefClosure,
    /// References that the runtime handles itself.
    VMRefClosure,
    /// Releasing what the collection freed.
    Release,
    /// The end of the collection.
    Final,
}

impl WorkBucketStage {
    /// The place of the stage in the order of stages, from zero.
    pub open spec fn spec_index(self) -> int {
        match self {
            WorkBucketStage::Unconstrained => 0,
            WorkBucketStage::Prepare => 1,
            WorkBucketStage::Closure => 2,
            WorkBucketStage::SoftRefClosure => 3,
            WorkBucketStage::WeakRefClosure => 4,
            WorkBucketStage::PhantomRefClosure => 5,
            WorkBucketStage::VMRefClosure => 6,
            WorkBucketStage::Release => 7,
            WorkBucketStage::Final => 8,
        }
    }

    /// The stage at a place in the order of stages.
    pub open spec fn spec_from_index(index: int) -> WorkBucketStage {
        if index == 0 {
            WorkBucketStage::Unconstrained
        } else if index == 1 {
            WorkBucketStage::Prepare
        } else if index == 2 {
            WorkBucketStage::Closure
        } else if index == 3 {
            WorkBucketStage::SoftRefClosure
        } else if index == 4 {
            WorkBucketStage::WeakRefClosure
        } else if index == 5 {
            WorkBucketStage::PhantomRefClosure
        } else if index == 6 {
            WorkBucketStage::VMRefClosure
        } else if index == 7 {
            WorkBucketStage::Release
        } else {
            WorkBucketStage::Final
        }
    }

    /// The place of the stage in the order of stages, from zero.
    pub fn index(self) -> (i: usize)
        ensures
            i == self.spec_index(),
            i < WORK_BUCKET_STAGES,
            Self::spec_from_index(i as int) == self,
    {
        match self {
            WorkBucketStage::Unconstrained => 0,
            WorkBucketStage::Prepare => 1,
            WorkBucketStage::Closure => 2,
            WorkBucketStage::SoftRefClosure => 3,
            WorkBucketStage::WeakRefClosure => 4,
            WorkBucketStage::PhantomRefClosure => 5,
            WorkBucketStage::VMRefClosure => 6,
            WorkBucketStage::Release => 7,
            WorkBucketStage::Final => 8,
        }
    }

    /// The stage at a place in the order of stages.
    pub fn from_index(index: usize) -> (stage: WorkBucketStage)
        requires
            index < WORK_BUCKET_STAGES,
        ensures
            stage == Self::spec_from_index(index as int),
            stage.spec_index() == index,
    {
        if index == 0 {
            WorkBucketStage::Unconstrained
        } else if index == 1 {
            WorkBucketStage::Prepare
        } else if index == 2 {
            WorkBucketStage::Closure
        } else if index == 3 {
            WorkBucketStage::SoftRefClosure
        } else if index == 4 {
            WorkBucketStage::WeakRefClosure
        } else if index == 5 {
            WorkBucketStage::PhantomRefClosure
        } else if index == 6 {
            WorkBucketStage::VMRefClosure
        } else if index == 7 {
            WorkBucketStage::Release
        } else {
            WorkBucketStage::Final
        }
    }

    /// The first stage that runs while the mutators are stopped.
    pub fn first_stw_stage() -> (stage: WorkBucketStage)
        ensures
            stage == WorkBucketStage::Prepare,
    {
        WorkBucketStage::Prepare
    }
}

/// The packets that wait for one stage. While the bucket is closed they
/// only gather; once it is open they are handed out, oldest first.
pub struct WorkBucket<W> {
    active: bool,
    queue: Vec<W>,
    on_open: Vec<W>,
}

impl<W> WorkBucket<W> {
    /// The packets that wait, oldest first.
    pub closed spec fn queue(&self) -> Seq<W> {
        self.queue@
    }

    /// Whether the bucket is open.
    pub closed spec fn is_open(&self) -> bool {
        self.active
    }

    /// The packets that join the bucket when it opens.
    pub closed spec fn open_packets(&self) -> Seq<W> {
        self.on_open@
    }

    /// An empty bucket, open or closed.
    pub fn new(active: bool) -> (b: Self)
        ensures
            b.queue() == Seq::<W>::empty(),
            b.open_packets() == Seq::<W>::empty(),
            b.is_open() == active,
    {
        Self { active, queue: Vec::new(), on_open: Vec::new() }
    }

    /// Whether the bucket is open.
    pub fn is_activated(&self) -> (b: bool)
        ensures
            b == self.is_open(),
    {
        self.active
    }

    /// Opens the bucket. The packets registered for its opening join it,
    /// behind those that wait already.
    pub fn activate(&mut self)
        ensures
            final(self).is_open(),
            final(self).queue() == old(self).queue() + (if old(self).is_open() {
                Seq::<W>::empty()
            } else {
                old(self).open_packets()
            }),
            final(self).open_packets() == (if old(self).is_open() {
                old(self).open_packets()
            } else {
                Seq::<W>::empty()
            }),
    {
        if !self.active {
            self.active = true;
            self.queue.append(&mut self.on_open);
        }
        assert(self.queue@ + Seq::<W>::empty() =~= self.queue@);
    }

    /// Closes the bucket. What waits in it stays.
    pub fn deactivate(&mut self)
        ensures
            !final(self).is_open(),
            final(self).queue() == old(self).queue(),
            final(self).open_packets() == old(self).open_packets(),
    {
        self.active = false;
    }

    /// Whether no packet waits.
    pub fn is_empty(&self) -> (b: bool)
        ensures
            b == (self.queue().len() == 0),
    {
        self.queue.len() == 0
    }

    /// Whether the bucket is open and no packet waits.
    pub fn is_drained(&self) -> (b: bool)
        ensures
            b == (self.is_open() && self.queue().len() == 0),
    {
        self.active && self.queue.len() == 0
    }

    /// Adds a packet behind those that wait.
    pub fn add(&mut self, work: W)
        ensures
            final(self).queue() == old(self).queue().push(work),
            final(self).is_open() == old(self).is_open(),
            final(self).open_packets() == old(self).open_packets(),
    {
        self.queue.push(work);
    }

    /// Adds packets, in their order, behind those that wait.
    pub fn bulk_add(&mut self, work: Vec<W>)
        ensures
            final(self).queue() == old(self).queue() + work@,
            final(self).is_open() == old(self).is_open(),
            final(self).open_packets() == old(self).open_packets(),
    {
        let mut work = work;
        self.queue.append(&mut work);
    }

    /// Registers a packet that joins the bucket when it opens.
    pub fn add_on_open(&mut self, work: W)
        ensures
            final(self).open_packets() == old(self).open_packets().push(work),
            final(self).queue() == old(self).queue(),
            final(self).is_open() == old(self).is_open(),
    {
        self.on_open.push(work);
    }

    /// Hands out the oldest packet, if the bucket is open and one waits.
    pub fn poll(&mut self) -> (work: Option<W>)
        ensures
            final(self).is_open() == old(self).is_open(),
            final(self).open_packets() == old(self).open_packets(),
            old(self).is_open() && old(self).queue().len() > 0 ==> work == Some(
                old(self).queue()[0],
            ) && final(self).queue() == old(self).queue().drop_first(),
            !(old(self).is_open() && old(self).queue().len() > 0) ==> work is None && final(self).queue() == old(self).queue(),
    {
        if self.active && self.queue.len() > 0 {
            let w = self.queue.remove(0);
            assert(self.queue@ =~= old(self).queue@.drop_first());
            Some(w)
        } else {
            None
        }
    }
}

} // verus!
