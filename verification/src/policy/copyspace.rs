//! A space whose objects are collected by copying them elsewhere.

use crate::plan::tracing::ObjectQueue;
use crate::policy::space::object_size;
use crate::policy::space::spec_object_size;
use crate::policy::space::CommonSpace;
use crate::policy::space::GcError;
use crate::scheduler::gc_work::GCWork;
use crate::util::address::ObjectReference;
use crate::util::heap::Heap;
use std::collections::HashMap;
use vstd::prelude::*;

verus! {

broadcast use vstd::std_specs::hash::group_hash_axioms;

/// The bytes that `object` takes, if it is an object of the heap and not
/// one of `copied`; else zero.
pub open spec fn spec_bytes_of_one(
    object: ObjectReference,
    objects: Map<ObjectReference, Seq<ObjectReference>>,
    copied: Set<ObjectReference>,
) -> int {
    if objects.contains_key(object) && !copied.contains(object) {
        spec_object_size(objects[object].len())
    } else {
        0
    }
}

/// The bytes that those of `allocated` take together that are objects of
/// the heap and not among `copied`.
pub open spec fn spec_bytes_of(
    allocated: Seq<ObjectReference>,
    objects: Map<ObjectReference, Seq<ObjectReference>>,
    copied: Set<ObjectReference>,
) -> int
    decreases allocated.len(),
{
    if allocated.len() == 0 {
        0
    } else {
        spec_bytes_of(allocated.drop_last(), objects, copied) + spec_bytes_of_one(
            allocated.last(),
            objects,
            copied,
        )
    }
}

/// If each of `allocated` takes no more bytes in one heap than in another,
/// all together take no more.
pub proof fn lemma_bytes_pointwise(
    allocated: Seq<ObjectReference>,
    objects: Map<ObjectReference, Seq<ObjectReference>>,
    copied: Set<ObjectReference>,
    other_objects: Map<ObjectReference, Seq<ObjectReference>>,
    other_copied: Set<ObjectReference>,
)
    requires
        forall|i: int|
            0 <= i < allocated.len() ==> spec_bytes_of_one(
                #[trigger] allocated[i],
                objects,
                copied,
            ) <= spec_bytes_of_one(allocated[i], other_objects, other_copied),
    ensures
        0 <= spec_bytes_of(allocated, objects, copied) <= spec_bytes_of(
            allocated,
            other_objects,
            other_copied,
        ),
    decreases allocated.len(),
{
    if allocated.len() > 0 {
        let shorter = allocated.drop_last();
        assert forall|i: int| 0 <= i < shorter.len() implies spec_bytes_of_one(
            #[trigger] shorter[i],
            objects,
            copied,
        ) <= spec_bytes_of_one(shorter[i], other_objects, other_copied) by {
            assert(shorter[i] == allocated[i]);
        }
        lemma_bytes_pointwise(shorter, objects, copied, other_objects, other_copied);
        assert(allocated.last() == allocated[allocated.len() - 1]);
    }
}

/// An object that occurs once among `allocated` takes its bytes away from
/// the whole when it joins those that were copied.
pub proof fn lemma_bytes_without(
    allocated: Seq<ObjectReference>,
    objects: Map<ObjectReference, Seq<ObjectReference>>,
    copied: Set<ObjectReference>,
    object: ObjectReference,
)
    requires
        allocated.no_duplicates(),
        allocated.contains(object),
        objects.contains_key(object),
        !copied.contains(object),
    ensures
        spec_bytes_of(allocated, objects, copied.insert(object)) == spec_bytes_of(
            allocated,
            objects,
            copied,
        ) - spec_object_size(objects[object].len()),
    decreases allocated.len(),
{
    let n = allocated.len() as int;
    let shorter = allocated.drop_last();
    let at = choose|at: int| 0 <= at < n && allocated[at] == object;
    assert(allocated.last() == allocated[n - 1]);
    if allocated.last() == object {
        assert forall|i: int| 0 <= i < shorter.len() implies spec_bytes_of_one(
            #[trigger] shorter[i],
            objects,
            copied.insert(object),
        ) == spec_bytes_of_one(shorter[i], objects, copied) by {
            assert(shorter[i] == allocated[i]);
            assert(allocated[i] != allocated[n - 1]);
        }
        lemma_bytes_pointwise(shorter, objects, copied.insert(object), objects, copied);
        lemma_bytes_pointwise(shorter, objects, copied, objects, copied.insert(object));
    } else {
        assert(shorter[at] == object);
        assert forall|i: int, j: int|
            0 <= i < shorter.len() && 0 <= j < shorter.len() && i != j implies shorter[i]
            != shorter[j] by {
            assert(shorter[i] == allocated[i] && shorter[j] == allocated[j]);
        }
        lemma_bytes_without(shorter, objects, copied, object);
    }
}

/// A space that is, in a collection, either copied from or copied to.
///
/// While it is copied from, it keeps for each of its objects that was
/// copied where the copy lies.
pub struct CopySpace {
    common: CommonSpace,
    from_space: bool,
    forwarding: HashMap<usize, usize>,
    allocated: Vec<ObjectReference>,
}

impl CopySpace {
    /// The range of the space and what is in use of it.
    pub closed spec fn common(&self) -> &CommonSpace {
        &self.common
    }

    /// Whether the space is copied from.
    pub closed spec fn is_from_space(&self) -> bool {
        self.from_space
    }

    /// Where the copy of each object lies that was copied out of the
    /// space.
    pub closed spec fn forwarding(&self) -> Map<ObjectReference, ObjectReference> {
        Map::new(
            |o: ObjectReference| self.forwarding@.contains_key(o.0),
            |o: ObjectReference| ObjectReference(self.forwarding@[o.0]),
        )
    }

    /// The objects that were allocated in the space since it was released.
    pub closed spec fn allocated(&self) -> Seq<ObjectReference> {
        self.allocated@
    }

    /// The space is well formed, the objects that were copied out of it
    /// lie in it, and every object of `heap` that lies in it is one that
    /// was allocated in it, in the part that is in use.
    pub open spec fn holds(&self, heap: &Heap) -> bool {
        &&& self.common().wf()
        &&& self.common().covers(heap)
        &&& forall|o: ObjectReference|
            #[trigger] heap.objects().contains_key(o) && self.common().contains(o@)
                ==> self.allocated().contains(o)
        &&& forall|o: ObjectReference|
            #[trigger] self.forwarding().contains_key(o) ==> self.common().contains(o@)
        &&& forall|i: int|
            0 <= i < self.allocated().len() ==> self.common().contains(
                (#[trigger] self.allocated()[i])@,
            )
    }

    /// The bytes that the objects of the space take together that are
    /// objects of the heap and were not copied out of the space.
    pub open spec fn unforwarded_bytes(&self, heap: &Heap) -> int {
        spec_bytes_of(self.allocated(), heap.objects(), self.forwarding().dom())
    }

    /// Whether the objects of the space do not take more bytes than are in
    /// use of the space: each was allocated once, below where the next
    /// will be, and the bytes that those take together that are objects of
    /// the heap are in use.
    pub open spec fn packed(&self, heap: &Heap) -> bool {
        &&& self.allocated().no_duplicates()
        &&& forall|i: int|
            0 <= i < self.allocated().len() ==> (#[trigger] self.allocated()[i])@
                < self.common().start() + self.common().used()
        &&& spec_bytes_of(self.allocated(), heap.objects(), Set::empty()) <= self.common().used()
    }

    /// The objects that were not copied take no more bytes than are in
    /// use.
    pub proof fn lemma_unforwarded_in_use(&self, heap: &Heap)
        requires
            self.packed(heap),
        ensures
            0 <= self.unforwarded_bytes(heap) <= self.common().used(),
    {
        lemma_bytes_pointwise(
            self.allocated(),
            heap.objects(),
            self.forwarding().dom(),
            heap.objects(),
            Set::empty(),
        );
    }

    /// A space in which nothing was allocated is packed.
    pub proof fn lemma_packed_when_empty(&self, heap: &Heap)
        requires
            self.allocated() == Seq::<ObjectReference>::empty(),
            self.common().wf(),
        ensures
            self.packed(heap),
            self.unforwarded_bytes(heap) == 0,
    {
    }

    /// A space stays packed when an object is allocated in it, where the
    /// next was to be.
    pub proof fn lemma_packed_after_allocation(
        &self,
        after: &CopySpace,
        heap: &Heap,
        heap_after: &Heap,
        object: ObjectReference,
        fields: Seq<ObjectReference>,
    )
        requires
            self.packed(heap),
            object@ == self.common().start() + self.common().used(),
            after.common().start() == self.common().start(),
            after.common().used() == self.common().used() + spec_object_size(fields.len()),
            after.allocated() == self.allocated().push(object),
            heap_after.objects() == heap.objects().insert(object, fields),
        ensures
            after.packed(heap_after),
    {
        let before = self.allocated();
        let all = after.allocated();
        assert(all.drop_last() =~= before);
        assert(all.last() == object);
        assert forall|i: int| 0 <= i < before.len() implies spec_bytes_of_one(
            #[trigger] before[i],
            heap_after.objects(),
            Set::empty(),
        ) <= spec_bytes_of_one(before[i], heap.objects(), Set::empty()) by {
            assert(before[i]@ < object@);
        }
        lemma_bytes_pointwise(
            before,
            heap_after.objects(),
            Set::empty(),
            heap.objects(),
            Set::empty(),
        );
        assert forall|i: int, j: int| 0 <= i < all.len() && 0 <= j < all.len() && i != j implies all[i]
            != all[j] by {
            if i < before.len() {
                assert(all[i] == before[i]);
            }
            if j < before.len() {
                assert(all[j] == before[j]);
            }
        }
        assert forall|i: int| 0 <= i < all.len() implies (#[trigger] all[i])@ < after.common().start()
            + after.common().used() by {
            if i < before.len() {
                assert(all[i] == before[i]);
            }
        }
    }

    /// A space stays packed when no more of it is given back and those of
    /// its objects that are objects of the heap were so before, with as
    /// many fields.
    pub proof fn lemma_packed_after(&self, after: &CopySpace, heap: &Heap, heap_after: &Heap)
        requires
            self.packed(heap),
            after.common().start() == self.common().start(),
            after.common().used() >= self.common().used(),
            after.allocated() == self.allocated(),
            forall|i: int|
                0 <= i < self.allocated().len() && heap_after.objects().contains_key(
                    #[trigger] self.allocated()[i],
                ) ==> heap.objects().contains_key(self.allocated()[i])
                    && heap_after.objects()[self.allocated()[i]].len()
                    == heap.objects()[self.allocated()[i]].len(),
        ensures
            after.packed(heap_after),
    {
        lemma_bytes_pointwise(
            self.allocated(),
            heap_after.objects(),
            Set::empty(),
            heap.objects(),
            Set::empty(),
        );
    }

    /// The objects that were not copied take as many bytes as before when
    /// the same were copied and the objects of the space are objects of the
    /// heap as before, with as many fields.
    pub proof fn lemma_unforwarded_after(&self, after: &CopySpace, heap: &Heap, heap_after: &Heap)
        requires
            after.allocated() == self.allocated(),
            after.forwarding().dom() == self.forwarding().dom(),
            forall|i: int|
                0 <= i < self.allocated().len() ==> heap_after.objects().contains_key(
                    #[trigger] self.allocated()[i],
                ) == heap.objects().contains_key(self.allocated()[i]) && (heap.objects().contains_key(
                    self.allocated()[i],
                ) ==> heap_after.objects()[self.allocated()[i]].len()
                    == heap.objects()[self.allocated()[i]].len()),
        ensures
            after.unforwarded_bytes(heap_after) == self.unforwarded_bytes(heap),
    {
        lemma_bytes_pointwise(
            self.allocated(),
            heap_after.objects(),
            self.forwarding().dom(),
            heap.objects(),
            self.forwarding().dom(),
        );
        lemma_bytes_pointwise(
            self.allocated(),
            heap.objects(),
            self.forwarding().dom(),
            heap_after.objects(),
            self.forwarding().dom(),
        );
    }

    /// When an object of the space is copied, the objects that were not
    /// copied take fewer bytes, by those of the object.
    pub proof fn lemma_unforwarded_after_copy(
        &self,
        after: &CopySpace,
        heap: &Heap,
        heap_after: &Heap,
        object: ObjectReference,
        copy: ObjectReference,
    )
        requires
            self.holds(heap),
            self.packed(heap),
            self.common().contains(object@),
            !self.common().contains(copy@),
            heap.objects().contains_key(object),
            !self.forwarding().contains_key(object),
            after.allocated() == self.allocated(),
            after.forwarding() == self.forwarding().insert(object, copy),
            heap_after.objects() == heap.objects().insert(copy, heap.objects()[object]),
        ensures
            after.unforwarded_bytes(heap_after) == self.unforwarded_bytes(heap) - spec_object_size(
                heap.objects()[object].len(),
            ),
            self.unforwarded_bytes(heap) >= spec_object_size(heap.objects()[object].len()),
    {
        let all = self.allocated();
        let copied = self.forwarding().dom();
        assert(after.forwarding().dom() =~= copied.insert(object));
        assert(all.contains(object));
        lemma_bytes_without(all, heap.objects(), copied, object);
        assert forall|i: int| 0 <= i < all.len() implies spec_bytes_of_one(
            #[trigger] all[i],
            heap_after.objects(),
            copied.insert(object),
        ) == spec_bytes_of_one(all[i], heap.objects(), copied.insert(object)) by {
            assert(self.common().contains(all[i]@));
        }
        lemma_bytes_pointwise(
            all,
            heap_after.objects(),
            copied.insert(object),
            heap.objects(),
            copied.insert(object),
        );
        lemma_bytes_pointwise(
            all,
            heap.objects(),
            copied.insert(object),
            heap_after.objects(),
            copied.insert(object),
        );
    }

    /// The space still holds of a heap that has no object in the space
    /// that the heap did not have before.
    pub proof fn lemma_holds_without_new_object(&self, before: &Heap, after: &Heap)
        requires
            self.holds(before),
            forall|o: ObjectReference|
                #[trigger] after.objects().contains_key(o) && self.common().contains(o@)
                    ==> before.objects().contains_key(o),
        ensures
            self.holds(after),
    {
        assert forall|o: ObjectReference|
            #[trigger] after.objects().contains_key(o) && self.common().contains(o@) implies o@
            < self.common().start() + self.common().used() && self.allocated().contains(o) by {
            assert(before.objects().contains_key(o));
        }
    }

    /// An unused space with the given range and role.
    pub fn new(name: &'static str, from_space: bool, common: CommonSpace) -> (s: Self)
        ensures
            *s.common() == common,
            s.is_from_space() == from_space,
            s.forwarding() == Map::<ObjectReference, ObjectReference>::empty(),
            s.allocated() == Seq::<ObjectReference>::empty(),
    {
        let s = Self { common, from_space, forwarding: HashMap::new(), allocated: Vec::new() };
        assert(s.forwarding() =~= Map::<ObjectReference, ObjectReference>::empty());
        s
    }

    /// The range of the space and what is in use of it.
    pub fn get_common(&self) -> (c: &CommonSpace)
        ensures
            c == self.common(),
    {
        &self.common
    }

    /// Whether `object` lies in the space.
    pub fn in_space(&self, object: ObjectReference) -> (b: bool)
        requires
            self.common().wf(),
        ensures
            b == self.common().contains(object@),
    {
        self.common.in_space(object)
    }

    /// Whether tracing an object of a space of this policy may move it: it
    /// may, whatever the kind of the trace.
    pub fn may_move_objects<const KIND: u8>() -> (b: bool)
        ensures
            b,
    {
        true
    }

    /// The packet that scans `nodes`, objects that were traced, for their
    /// edges.
    pub fn create_scan_work(&self, nodes: Vec<ObjectReference>) -> (work: GCWork)
        ensures
            work matches GCWork::ScanObjects { nodes: scanned } && scanned@ == nodes@,
    {
        GCWork::ScanObjects { nodes }
    }

    /// Whether the space is copied from.
    pub fn from_space(&self) -> (b: bool)
        ensures
            b == self.is_from_space(),
    {
        self.from_space
    }

    /// The number of pages of the space that are in use.
    pub fn reserved_pages(&self) -> (pages: usize)
        ensures
            pages == crate::util::constants::spec_bytes_to_pages_up(self.common().used()),
    {
        self.common.reserved_pages()
    }

    /// Sets the role of the space for the collection that begins, and
    /// forgets where copies of earlier collections lie.
    pub fn prepare(&mut self, from_space: bool)
        ensures
            final(self).is_from_space() == from_space,
            *final(self).common() == *old(self).common(),
            final(self).allocated() == old(self).allocated(),
            final(self).forwarding() == Map::<ObjectReference, ObjectReference>::empty(),
    {
        self.from_space = from_space;
        self.forwarding.clear();
        assert(self.forwarding() =~= Map::<ObjectReference, ObjectReference>::empty());
    }

    /// Gives back all of the space: the objects that were allocated in it
    /// leave the heap.
    pub fn release(&mut self, heap: &mut Heap)
        requires
            old(self).holds(old(heap)),
        ensures
            final(self).holds(final(heap)),
            final(self).common().used() == 0,
            final(self).common().start() == old(self).common().start(),
            final(self).common().extent() == old(self).common().extent(),
            final(self).common().name() == old(self).common().name(),
            final(self).is_from_space() == old(self).is_from_space(),
            final(self).allocated() == Seq::<ObjectReference>::empty(),
            final(self).forwarding() == Map::<ObjectReference, ObjectReference>::empty(),
            final(heap).roots() == old(heap).roots(),
            forall|o: ObjectReference|
                final(heap).objects().contains_key(o) <==> old(heap).objects().contains_key(o)
                    && !old(self).common().contains(o@),
            forall|o: ObjectReference|
                #[trigger] final(heap).objects().contains_key(o) ==> final(heap).objects()[o]
                    == old(heap).objects()[o],
    {
        let ghost all = self.allocated@;
        proof {
            assert(self.allocated@ =~= all.subrange(0, self.allocated@.len() as int));
            assert forall|i: int| 0 <= i < all.len() implies old(self).common().contains(
                (#[trigger] all[i])@,
            ) by {
                assert(all[i] == old(self).allocated()[i]);
            }
        }
        while self.allocated.len() > 0
            invariant
                self.allocated@.len() <= all.len(),
                self.common == old(self).common,
                self.from_space == old(self).from_space,
                self.allocated@ == all.subrange(0, self.allocated@.len() as int),
                all == old(self).allocated@,
                forall|i: int| 0 <= i < all.len() ==> old(self).common().contains((#[trigger] all[i])@),
                heap.roots() == old(heap).roots(),
                forall|o: ObjectReference|
                    heap.objects().contains_key(o) <==> old(heap).objects().contains_key(o) && !(
                    exists|i: int| self.allocated@.len() <= i < all.len() && all[i] == o),
                forall|o: ObjectReference|
                    #[trigger] heap.objects().contains_key(o) ==> heap.objects()[o] == old(
                        heap,
                    ).objects()[o],
            decreases self.allocated@.len(),
        {
            let ghost n = self.allocated@.len() as int;
            let object = self.allocated.pop().unwrap();
            heap.remove_object(object);
            proof {
                assert(object == all[n - 1]);
                assert(self.allocated@ =~= all.subrange(0, n - 1));
            }
        }
        self.common.reset();
        self.forwarding.clear();
        proof {
            assert(self.forwarding() =~= Map::<ObjectReference, ObjectReference>::empty());
            assert forall|o: ObjectReference|
                heap.objects().contains_key(o) <==> old(heap).objects().contains_key(o) && !old(
                    self,
                ).common().contains(o@) by {
                if old(heap).objects().contains_key(o) {
                    if old(self).common().contains(o@) {
                        assert(old(self).allocated().contains(o));
                        let i = choose|i: int| 0 <= i < all.len() && all[i] == o;
                        assert(all[i] == o);
                    }
                }
            }
        }
    }

    /// Allocates an object with `num_fields` fields, all null, in the
    /// space. Returns nothing if the space has no room for it.
    pub fn allocate(&mut self, heap: &mut Heap, num_fields: usize) -> (object: Option<ObjectReference>)
        requires
            old(self).holds(old(heap)),
        ensures
            final(self).holds(final(heap)),
            final(self).is_from_space() == old(self).is_from_space(),
            final(self).forwarding() == old(self).forwarding(),
            final(self).common().start() == old(self).common().start(),
            final(self).common().extent() == old(self).common().extent(),
            final(self).common().name() == old(self).common().name(),
            final(heap).roots() == old(heap).roots(),
            old(self).common().used() + spec_object_size(num_fields as nat) <= old(
                self,
            ).common().extent() ==> {
                &&& object == Some(
                    ObjectReference((old(self).common().start() + old(self).common().used()) as usize),
                )
                &&& !old(heap).objects().contains_key(object.unwrap())
                &&& final(heap).objects() == old(heap).objects().insert(
                    object.unwrap(),
                    Seq::new(num_fields as nat, |k: int| ObjectReference(0)),
                )
                &&& final(self).common().used() == old(self).common().used() + spec_object_size(
                    num_fields as nat,
                )
                &&& final(self).allocated() == old(self).allocated().push(object.unwrap())
            },
            old(self).common().used() + spec_object_size(num_fields as nat) > old(
                self,
            ).common().extent() ==> {
                &&& object is None
                &&& final(heap).objects() == old(heap).objects()
                &&& final(self).common().used() == old(self).common().used()
                &&& final(self).allocated() == old(self).allocated()
            },
    {
        let size = match object_size(num_fields) {
            Some(size) => size,
            None => {
                return None;
            },
        };
        match self.common.acquire(size) {
            Some(addr) => {
                let object = ObjectReference::from_address(addr);
                heap.create_object(object, num_fields);
                self.allocated.push(object);
                proof {
                    assert forall|o: ObjectReference|
                        #[trigger] heap.objects().contains_key(o) && self.common().contains(o@)
                            implies self.allocated().contains(o) by {
                        if o == object {
                            assert(self.allocated()[self.allocated().len() - 1] == o);
                        } else {
                            assert(old(heap).objects().contains_key(o));
                            let i = choose|i: int|
                                0 <= i < old(self).allocated().len() && old(self).allocated()[i]
                                    == o;
                            assert(self.allocated()[i] == o);
                        }
                    }
                    assert(self.forwarding() =~= old(self).forwarding());
                    assert forall|i: int| 0 <= i < self.allocated().len() implies self.common().contains(
                        (#[trigger] self.allocated()[i])@,
                    ) by {
                        if i < old(self).allocated().len() {
                            assert(self.allocated()[i] == old(self).allocated()[i]);
                        }
                    }
                    assert forall|o: ObjectReference|
                        #[trigger] self.forwarding().contains_key(o) implies self.common().contains(
                        o@,
                    ) by {
                        assert(old(self).forwarding().contains_key(o));
                    }
                    assert(self.common().covers(heap));
                }
                Some(object)
            },
            None => {
                proof {
                    assert(self.forwarding() =~= old(self).forwarding());
                    assert forall|i: int| 0 <= i < self.allocated().len() implies self.common().contains(
                        (#[trigger] self.allocated()[i])@,
                    ) by {
                        assert(self.allocated()[i] == old(self).allocated()[i]);
                    }
                    assert forall|o: ObjectReference|
                        #[trigger] self.forwarding().contains_key(o) implies self.common().contains(
                        o@,
                    ) by {
                        assert(old(self).forwarding().contains_key(o));
                    }
                }
                None
            },
        }
    }

    /// Takes `bytes` bytes from the unused part of the space. Returns the
    /// address of the first, or nothing if so many are not left.
    pub fn acquire(&mut self, heap: &Heap, bytes: usize) -> (addr: Option<crate::util::address::Address>)
        requires
            old(self).holds(heap),
        ensures
            final(self).holds(heap),
            final(self).is_from_space() == old(self).is_from_space(),
            final(self).forwarding() == old(self).forwarding(),
            final(self).allocated() == old(self).allocated(),
            final(self).common().start() == old(self).common().start(),
            final(self).common().extent() == old(self).common().extent(),
            final(self).common().name() == old(self).common().name(),
            old(self).common().used() + bytes <= old(self).common().extent() ==> addr == Some(
                crate::util::address::Address(
                    (old(self).common().start() + old(self).common().used()) as usize,
                ),
            ) && final(self).common().used() == old(self).common().used() + bytes,
            old(self).common().used() + bytes > old(self).common().extent() ==> addr is None
                && final(self).common().used() == old(self).common().used(),
    {
        let addr = self.common.acquire(bytes);
        proof {
            assert(self.forwarding() =~= old(self).forwarding());
            assert forall|i: int| 0 <= i < self.allocated().len() implies self.common().contains(
                (#[trigger] self.allocated()[i])@,
            ) by {
                assert(self.allocated()[i] == old(self).allocated()[i]);
            }
            assert forall|o: ObjectReference|
                #[trigger] self.forwarding().contains_key(o) implies self.common().contains(o@) by {
                assert(old(self).forwarding().contains_key(o));
            }
        }
        addr
    }

    /// Traces `object`, which lies in this space, while the space is
    /// copied from, and returns where the object lies now.
    ///
    /// An object that was copied before is not copied again: the place of
    /// its copy is returned. Else the object is copied into `to`, the place
    /// of the copy is noted, and the copy is put into `queue` to be
    /// scanned. If `to` has no room for the copy, nothing is changed.
    pub fn trace_object<Q: ObjectQueue>(
        &mut self,
        heap: &mut Heap,
        queue: &mut Q,
        object: ObjectReference,
        to: &mut CopySpace,
    ) -> (res: Result<ObjectReference, GcError>)
        requires
            old(self).holds(old(heap)),
            old(to).holds(old(heap)),
            old(self).common().disjoint(old(to).common()),
            old(self).common().contains(object@),
            old(heap).objects().contains_key(object),
        ensures
            final(self).holds(final(heap)),
            final(to).holds(final(heap)),
            *final(self).common() == *old(self).common(),
            final(self).is_from_space() == old(self).is_from_space(),
            final(self).allocated() == old(self).allocated(),
            final(to).is_from_space() == old(to).is_from_space(),
            final(to).forwarding() == old(to).forwarding(),
            final(to).common().start() == old(to).common().start(),
            final(to).common().extent() == old(to).common().extent(),
            final(to).common().name() == old(to).common().name(),
            final(heap).roots() == old(heap).roots(),
            old(self).forwarding().contains_key(object) ==> {
                &&& res == Ok::<ObjectReference, GcError>(old(self).forwarding()[object])
                &&& final(self).forwarding() == old(self).forwarding()
                &&& final(heap).objects() == old(heap).objects()
                &&& final(queue).queued() == old(queue).queued()
                &&& final(to).common().used() == old(to).common().used()
                &&& final(to).allocated() == old(to).allocated()
            },
            !old(self).forwarding().contains_key(object) ==> match res {
                Ok(copy) => {
                    &&& copy@ == old(to).common().start() + old(to).common().used()
                    &&& copy@ != 0
                    &&& old(to).common().contains(copy@)
                    &&& !old(heap).objects().contains_key(copy)
                    &&& final(heap).objects() == old(heap).objects().insert(
                        copy,
                        old(heap).objects()[object],
                    )
                    &&& final(self).forwarding() == old(self).forwarding().insert(object, copy)
                    &&& final(queue).queued() == old(queue).queued().push(copy)
                    &&& final(to).common().used() == old(to).common().used() + spec_object_size(
                        old(heap).objects()[object].len(),
                    )
                    &&& final(to).allocated() == old(to).allocated().push(copy)
                },
                Err(e) => {
                    &&& e == GcError::OutOfMemory
                    &&& old(to).common().used() + spec_object_size(
                        old(heap).objects()[object].len(),
                    ) > old(to).common().extent()
                    &&& final(self).forwarding() == old(self).forwarding()
                    &&& final(heap).objects() == old(heap).objects()
                    &&& final(queue).queued() == old(queue).queued()
                    &&& final(to).common().used() == old(to).common().used()
                    &&& final(to).allocated() == old(to).allocated()
                },
            },
    {
        match self.forwarding.get(&object.0) {
            Some(copy) => {
                let copy = ObjectReference(*copy);
                return Ok(copy);
            },
            None => {},
        }
        let num_fields = heap.num_fields(object);
        let size = match object_size(num_fields) {
            Some(size) => size,
            None => {
                return Err(GcError::OutOfMemory);
            },
        };
        match to.common.acquire(size) {
            Some(addr) => {
                let copy = ObjectReference::from_address(addr);
                heap.copy_object(object, copy);
                to.allocated.push(copy);
                self.forwarding.insert(object.0, copy.0);
                queue.enqueue(copy);
                proof {
                    assert(self.forwarding() =~= old(self).forwarding().insert(object, copy));
                    assert(to.forwarding() =~= old(to).forwarding());
                    assert forall|o: ObjectReference|
                        #[trigger] heap.objects().contains_key(o) && to.common().contains(o@)
                            implies to.allocated().contains(o) by {
                        if o == copy {
                            assert(to.allocated()[to.allocated().len() - 1] == o);
                        } else {
                            assert(old(heap).objects().contains_key(o));
                            let i = choose|i: int|
                                0 <= i < old(to).allocated().len() && old(to).allocated()[i] == o;
                            assert(to.allocated()[i] == o);
                        }
                    }
                    assert forall|o: ObjectReference|
                        #[trigger] heap.objects().contains_key(o) && self.common().contains(o@)
                            implies self.allocated().contains(o) by {
                        assert(o != copy);
                        assert(old(heap).objects().contains_key(o));
                    }
                    assert forall|i: int| 0 <= i < to.allocated().len() implies to.common().contains(
                        (#[trigger] to.allocated()[i])@,
                    ) by {
                        if i < old(to).allocated().len() {
                            assert(to.allocated()[i] == old(to).allocated()[i]);
                        }
                    }
                    assert forall|o: ObjectReference|
                        #[trigger] to.forwarding().contains_key(o) implies to.common().contains(
                        o@,
                    ) by {
                        assert(old(to).forwarding().contains_key(o));
                    }
                    assert forall|o: ObjectReference|
                        #[trigger] self.forwarding().contains_key(o) implies self.common().contains(
                        o@,
                    ) by {
                        if o != object {
                            assert(old(self).forwarding().contains_key(o));
                        }
                    }
                    assert(to.common().covers(heap));
                    assert(self.common().covers(heap)) by {
                        assert forall|o: ObjectReference|
                            #[trigger] heap.objects().contains_key(o) && self.common().contains(
                                o@,
                            ) implies o@ < self.common().start() + self.common().used() by {
                            assert(o != copy);
                            assert(old(heap).objects().contains_key(o));
                        }
                    }
                }
                Ok(copy)
            },
            None => {
                proof {
                    assert(to.forwarding() =~= old(to).forwarding());
                    assert forall|i: int| 0 <= i < to.allocated().len() implies to.common().contains(
                        (#[trigger] to.allocated()[i])@,
                    ) by {
                        assert(to.allocated()[i] == old(to).allocated()[i]);
                    }
                    assert forall|o: ObjectReference|
                        #[trigger] to.forwarding().contains_key(o) implies to.common().contains(
                        o@,
                    ) by {
                        assert(old(to).forwarding().contains_key(o));
                    }
                }
                Err(GcError::OutOfMemory)
            },
        }
    }
}

} // verus!
