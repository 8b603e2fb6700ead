//! The heap as the collector sees it: the objects, each with the
//! references that its fields hold, and the roots.
//!
//! An object is known by the address at which it starts. The places that
//! hold references, the edges, are the fields of the objects and the roots.

use crate::util::address::ObjectReference;
use std::collections::HashMap;
use vstd::prelude::*;

verus! {

broadcast use vstd::std_specs::hash::group_hash_axioms;

/// A place of the heap that holds a reference.
#[derive(Clone, Copy, Debug, PartialEq, Eq, Hash, Structural)]
pub enum HeapEdge {
    /// The root with this index.
    Root(usize),
    /// The field with this index of this object.
    Field(ObjectReference, usize),
}

/// The objects of a heap with their fields, and its roots.
pub struct Heap {
    objects: HashMap<usize, Vec<ObjectReference>>,
    roots: Vec<ObjectReference>,
}

/// Whether `edge` is a place of a heap with the given objects and roots.
pub open spec fn spec_valid_edge(
    objects: Map<ObjectReference, Seq<ObjectReference>>,
    roots: Seq<ObjectReference>,
    edge: HeapEdge,
) -> bool {
    match edge {
        HeapEdge::Root(i) => i < roots.len(),
        HeapEdge::Field(o, k) => objects.contains_key(o) && k < objects[o].len(),
    }
}

/// The reference that `edge` holds in a heap with the given objects and
/// roots.
pub open spec fn spec_load_edge(
    objects: Map<ObjectReference, Seq<ObjectReference>>,
    roots: Seq<ObjectReference>,
    edge: HeapEdge,
) -> ObjectReference {
    match edge {
        HeapEdge::Root(i) => roots[i as int],
        HeapEdge::Field(o, k) => objects[o][k as int],
    }
}

impl Heap {
    /// The objects, each with the references that its fields hold.
    pub closed spec fn objects(&self) -> Map<ObjectReference, Seq<ObjectReference>> {
        Map::new(
            |o: ObjectReference| self.objects@.contains_key(o.0),
            |o: ObjectReference| self.objects@[o.0]@,
        )
    }

    /// The references that the roots hold.
    pub closed spec fn roots(&self) -> Seq<ObjectReference> {
        self.roots@
    }

    /// Whether `edge` is a place of this heap.
    pub open spec fn valid_edge(&self, edge: HeapEdge) -> bool {
        spec_valid_edge(self.objects(), self.roots(), edge)
    }

    /// The reference that `edge` holds.
    pub open spec fn edge_value(&self, edge: HeapEdge) -> ObjectReference {
        spec_load_edge(self.objects(), self.roots(), edge)
    }

    /// The number of fields of an object fits a machine word.
    pub proof fn lemma_field_count_fits(&self, object: ObjectReference)
        requires
            self.objects().contains_key(object),
        ensures
            self.objects()[object].len() <= usize::MAX,
    {
        assert(self.objects@[object.0]@.len() == self.objects@[object.0].len());
    }

    /// A heap has finitely many objects.
    pub proof fn lemma_objects_finite(&self)
        ensures
            self.objects().dom().finite(),
    {
        let keys = self.objects@.dom();
        let f = |k: usize| ObjectReference(k);
        keys.lemma_map_finite(f);
        assert(self.objects().dom() =~= keys.map(f)) by {
            assert forall|o: ObjectReference| self.objects().dom().contains(o) implies keys.map(
                f,
            ).contains(o) by {
                assert(keys.contains(o.0));
                assert(f(o.0) == o);
            }
        }
    }

    /// The number of roots fits a machine word.
    pub proof fn lemma_root_count_fits(&self)
        ensures
            self.roots().len() <= usize::MAX,
    {
        assert(self.roots@.len() == self.roots.len());
    }

    /// A heap without objects and roots.
    pub fn new() -> (h: Heap)
        ensures
            h.objects() == Map::<ObjectReference, Seq<ObjectReference>>::empty(),
            h.roots() == Seq::<ObjectReference>::empty(),
    {
        let h = Heap { objects: HashMap::new(), roots: Vec::new() };
        assert(h.objects() =~= Map::<ObjectReference, Seq<ObjectReference>>::empty());
        h
    }

    /// Whether an object starts at `object`.
    pub fn is_object(&self, object: ObjectReference) -> (b: bool)
        ensures
            b == self.objects().contains_key(object),
    {
        self.objects.contains_key(&object.0)
    }

    /// The number of fields of `object`.
    pub fn num_fields(&self, object: ObjectReference) -> (n: usize)
        requires
            self.objects().contains_key(object),
        ensures
            n == self.objects()[object].len(),
    {
        match self.objects.get(&object.0) {
            Some(fields) => fields.len(),
            None => 0,
        }
    }

    /// The number of roots.
    pub fn num_roots(&self) -> (n: usize)
        ensures
            n == self.roots().len(),
    {
        self.roots.len()
    }

    /// Loads the reference that `edge` holds.
    pub fn load(&self, edge: HeapEdge) -> (value: ObjectReference)
        requires
            self.valid_edge(edge),
        ensures
            value == self.edge_value(edge),
    {
        match edge {
            HeapEdge::Root(i) => self.roots[i],
            HeapEdge::Field(o, k) => {
                match self.objects.get(&o.0) {
                    Some(fields) => fields[k],
                    None => ObjectReference(0),
                }
            },
        }
    }

    /// Stores `value` into `edge`. Every other place holds what it held.
    pub fn store(&mut self, edge: HeapEdge, value: ObjectReference)
        requires
            old(self).valid_edge(edge),
        ensures
            match edge {
                HeapEdge::Root(i) => final(self).roots() == old(self).roots().update(i as int, value)
                    && final(self).objects() == old(self).objects(),
                HeapEdge::Field(o, k) => final(self).roots() == old(self).roots() && final(self).objects() == old(self).objects().insert(
                    o,
                    old(self).objects()[o].update(k as int, value),
                ),
            },
    {
        match edge {
            HeapEdge::Root(i) => {
                self.roots[i] = value;
                assert(self.objects() =~= old(self).objects());
            },
            HeapEdge::Field(o, k) => {
                let removed = self.objects.remove(&o.0);
                let mut fields = removed.unwrap();
                fields[k] = value;
                self.objects.insert(o.0, fields);
                assert(self.objects() =~= old(self).objects().insert(
                    o,
                    old(self).objects()[o].update(k as int, value),
                ));
            },
        }
    }

    /// Adds a root that holds `value`. Returns the edge that is the root.
    pub fn add_root(&mut self, value: ObjectReference) -> (edge: HeapEdge)
        requires
            old(self).roots().len() < usize::MAX,
        ensures
            edge == HeapEdge::Root(old(self).roots().len() as usize),
            final(self).roots() == old(self).roots().push(value),
            final(self).objects() == old(self).objects(),
    {
        let index = self.roots.len();
        self.roots.push(value);
        assert(self.objects() =~= old(self).objects());
        HeapEdge::Root(index)
    }

    /// Makes an object with `num_fields` fields at `object`. Its fields
    /// hold null.
    pub fn create_object(&mut self, object: ObjectReference, num_fields: usize)
        requires
            !old(self).objects().contains_key(object),
        ensures
            final(self).roots() == old(self).roots(),
            final(self).objects() == old(self).objects().insert(
                object,
                Seq::new(num_fields as nat, |k: int| ObjectReference(0)),
            ),
    {
        let mut fields: Vec<ObjectReference> = Vec::new();
        let mut k: usize = 0;
        while k < num_fields
            invariant
                k <= num_fields,
                fields@ == Seq::new(k as nat, |i: int| ObjectReference(0)),
            decreases num_fields - k,
        {
            fields.push(ObjectReference(0));
            k = k + 1;
            assert(fields@ =~= Seq::new(k as nat, |i: int| ObjectReference(0)));
        }
        self.objects.insert(object.0, fields);
        assert(self.objects() =~= old(self).objects().insert(
            object,
            Seq::new(num_fields as nat, |k: int| ObjectReference(0)),
        ));
    }

    /// Makes at `to` a copy of the object at `from`: an object whose
    /// fields hold what those of `from` hold.
    pub fn copy_object(&mut self, from: ObjectReference, to: ObjectReference)
        requires
            old(self).objects().contains_key(from),
            !old(self).objects().contains_key(to),
        ensures
            final(self).roots() == old(self).roots(),
            final(self).objects() == old(self).objects().insert(to, old(self).objects()[from]),
    {
        let mut fields: Vec<ObjectReference> = Vec::new();
        match self.objects.get(&from.0) {
            Some(source) => {
                let mut k: usize = 0;
                while k < source.len()
                    invariant
                        k <= source@.len(),
                        fields@ == source@.subrange(0, k as int),
                    decreases source@.len() - k,
                {
                    fields.push(source[k]);
                    k = k + 1;
                    assert(fields@ =~= source@.subrange(0, k as int));
                }
                assert(source@.subrange(0, k as int) =~= source@);
            },
            None => {},
        }
        self.objects.insert(to.0, fields);
        assert(self.objects() =~= old(self).objects().insert(to, old(self).objects()[from]));
    }

    /// Takes the object at `object` off the heap, if there is one.
    pub fn remove_object(&mut self, object: ObjectReference)
        ensures
            final(self).roots() == old(self).roots(),
            final(self).objects() == old(self).objects().remove(object),
    {
        self.objects.remove(&object.0);
        assert(self.objects() =~= old(self).objects().remove(object));
    }

    /// The edges that are the fields of `object`, in the order of the
    /// fields.
    pub fn scan_object(&self, object: ObjectReference) -> (edges: Vec<HeapEdge>)
        requires
            self.objects().contains_key(object),
        ensures
            edges@ == spec_object_edges(object, self.objects()[object].len()),
    {
        let n = self.num_fields(object);
        let mut edges: Vec<HeapEdge> = Vec::new();
        let mut k: usize = 0;
        while k < n
            invariant
                k <= n,
                edges@ == spec_object_edges(object, k as nat),
            decreases n - k,
        {
            edges.push(HeapEdge::Field(object, k));
            k = k + 1;
            assert(edges@ =~= spec_object_edges(object, k as nat));
        }
        edges
    }
}

/// The edges that are the first `n` fields of `object`.
pub open spec fn spec_object_edges(object: ObjectReference, n: nat) -> Seq<HeapEdge> {
    Seq::new(n, |k: int| HeapEdge::Field(object, k as usize))
}

} // verus!
