//! A space whose objects are never moved and never reclaimed.

use crate::plan::tracing::ObjectQueue;
use crate::policy::space::spec_object_size;
use crate::policy::space::object_size;
use crate::policy::space::CommonSpace;
use crate::scheduler::gc_work::GCWork;
use crate::util::address::ObjectReference;
use crate::util::heap::Heap;
use std::collections::HashSet;
use vstd::prelude::*;

verus! {

broadcast use vstd::std_specs::hash::group_hash_axioms;

/// A space of objects that stay where they are. In a collection the
/// objects that were reached are marked.
pub struct ImmortalSpace {
    common: CommonSpace,
    marked: HashSet<usize>,
}

impl ImmortalSpace {
    /// The range of the space and what is in use of it.
    pub closed spec fn common(&self) -> &CommonSpace {
        &self.common
    }

    /// The objects that are marked.
    pub closed spec fn marked(&self) -> Set<ObjectReference> {
        Set::new(|o: ObjectReference| self.marked@.contains(o.0))
    }

    /// The space is well formed, what is marked lies in it, and every
    /// object of `heap` that lies in it lies in the part that is in use.
    pub open spec fn holds(&self, heap: &Heap) -> bool {
        &&& self.common().wf()
        &&& self.common().covers(heap)
        &&& forall|o: ObjectReference|
            #[trigger] self.marked().contains(o) ==> self.common().contains(o@)
    }

    /// The space still holds of a heap that has no object in the space
    /// that the heap did not have before.
    pub proof fn lemma_holds_without_new_object(&self, before: &Heap, after: &Heap)
        requires
            self.holds(before),
            forall|o: ObjectReference|
                #[trigger] after.objects().contains_key(o) && self.common().contains(o@)
                    ==> before.objects().contains_key(o),
        ensures
            self.holds(after),
    {
        assert forall|o: ObjectReference|
            #[trigger] after.objects().contains_key(o) && self.common().contains(o@) implies o@
            < self.common().start() + self.common().used() by {
            assert(before.objects().contains_key(o));
        }
    }

    /// An unused space with the given range.
    pub fn new(common: CommonSpace) -> (s: Self)
        ensures
            *s.common() == common,
            s.marked() == Set::<ObjectReference>::empty(),
    {
        let s = Self { common, marked: HashSet::new() };
        assert(s.marked() =~= Set::<ObjectReference>::empty());
        s
    }

    /// The range of the space and what is in use of it.
    pub fn get_common(&self) -> (c: &CommonSpace)
        ensures
            c == self.common(),
    {
        &self.common
    }

    /// Whether tracing an object of a space of this policy may move it: it
    /// may not, whatever the kind of the trace.
    pub fn may_move_objects<const KIND: u8>() -> (b: bool)
        ensures
            !b,
    {
        false
    }

    /// The packet that scans `nodes`, objects that were traced, for their
    /// edges.
    pub fn create_scan_work(&self, nodes: Vec<ObjectReference>) -> (work: GCWork)
        ensures
            work matches GCWork::ScanObjects { nodes: scanned } && scanned@ == nodes@,
    {
        GCWork::ScanObjects { nodes }
    }

    /// Whether `object` lies in the space.
    pub fn in_space(&self, object: ObjectReference) -> (b: bool)
        requires
            self.common().wf(),
        ensures
            b == self.common().contains(object@),
    {
        self.common.in_space(object)
    }

    /// The number of pages of the space that are in use.
    pub fn reserved_pages(&self) -> (pages: usize)
        ensures
            pages == crate::util::constants::spec_bytes_to_pages_up(self.common().used()),
    {
        self.common.reserved_pages()
    }

    /// Whether `object` is marked.
    pub fn is_marked(&self, object: ObjectReference) -> (b: bool)
        ensures
            b == self.marked().contains(object),
    {
        self.marked.contains(&object.0)
    }

    /// Takes the marks off all objects, as before a collection.
    pub fn prepare(&mut self)
        ensures
            *final(self).common() == *old(self).common(),
            final(self).marked() == Set::<ObjectReference>::empty(),
    {
        self.marked.clear();
        assert(self.marked() =~= Set::<ObjectReference>::empty());
    }

    /// Ends a collection. Nothing is reclaimed.
    pub fn release(&mut self)
        ensures
            *final(self) == *old(self),
    {
    }

    /// Allocates an object with `num_fields` fields, all null, in the
    /// space. Returns nothing if the space has no room for it.
    pub fn allocate(&mut self, heap: &mut Heap, num_fields: usize) -> (object: Option<ObjectReference>)
        requires
            old(self).holds(old(heap)),
        ensures
            final(self).holds(final(heap)),
            final(self).marked() == old(self).marked(),
            final(self).common().start() == old(self).common().start(),
            final(self).common().extent() == old(self).common().extent(),
            final(self).common().name() == old(self).common().name(),
            final(heap).roots() == old(heap).roots(),
            old(self).common().used() + spec_object_size(num_fields as nat) <= old(
                self,
            ).common().extent() ==> {
                &&& object == Some(
                    ObjectReference((old(self).common().start() + old(self).common().used()) as usize),
                )
                &&& !old(heap).objects().contains_key(object.unwrap())
                &&& final(heap).objects() == old(heap).objects().insert(
                    object.unwrap(),
                    Seq::new(num_fields as nat, |k: int| ObjectReference(0)),
                )
                &&& final(self).common().used() == old(self).common().used() + spec_object_size(
                    num_fields as nat,
                )
            },
            old(self).common().used() + spec_object_size(num_fields as nat) > old(
                self,
            ).common().extent() ==> {
                &&& object is None
                &&& final(heap).objects() == old(heap).objects()
                &&& final(self).common().used() == old(self).common().used()
            },
    {
        let size = match object_size(num_fields) {
            Some(size) => size,
            None => {
                return None;
            },
        };
        match self.common.acquire(size) {
            Some(addr) => {
                let object = ObjectReference::from_address(addr);
                heap.create_object(object, num_fields);
                proof {
                    assert(self.marked() =~= old(self).marked());
                }
                Some(object)
            },
            None => None,
        }
    }

    /// Traces `object`, which lies in this space: if it is not marked yet,
    /// it is marked and put into `queue` to be scanned. The object stays
    /// where it is.
    pub fn trace_object<Q: ObjectQueue>(&mut self, queue: &mut Q, object: ObjectReference) -> (res:
        ObjectReference)
        requires
            old(self).common().contains(object@),
        ensures
            res == object,
            *final(self).common() == *old(self).common(),
            final(self).marked() == old(self).marked().insert(object),
            old(self).marked().contains(object) ==> final(queue).queued() == old(queue).queued(),
            !old(self).marked().contains(object) ==> final(queue).queued() == old(
                queue,
            ).queued().push(object),
    {
        if !self.marked.contains(&object.0) {
            self.marked.insert(object.0);
            queue.enqueue(object);
        }
        assert(self.marked() =~= old(self).marked().insert(object));
        object
    }
}

} // verus!
