//! The write barrier of the generational plans: it remembers the objects
//! that were written to since the last collection.

use crate::util::address::ObjectReference;
use std::collections::HashSet;
use vstd::prelude::*;

verus! {

broadcast use vstd::std_specs::hash::group_hash_axioms;

/// The log bit of every object: an object whose bit is set was not written
/// to since the bit was set.
pub struct LogBits {
    unlogged: HashSet<usize>,
}

impl LogBits {
    /// The objects whose bit is set.
    pub closed spec fn unlogged(&self) -> Set<ObjectReference> {
        Set::new(|o: ObjectReference| self.unlogged@.contains(o.0))
    }

    /// No bit is set.
    pub fn new() -> (b: Self)
        ensures
            b.unlogged() == Set::<ObjectReference>::empty(),
    {
        let b = LogBits { unlogged: HashSet::new() };
        assert(b.unlogged() =~= Set::<ObjectReference>::empty());
        b
    }

    /// Whether the bit of `object` is set.
    pub fn is_unlogged(&self, object: ObjectReference) -> (b: bool)
        ensures
            b == self.unlogged().contains(object),
    {
        self.unlogged.contains(&object.0)
    }

    /// Sets the bit of `object`, as after the object was allocated or
    /// copied.
    pub fn mark_as_unlogged(&mut self, object: ObjectReference)
        ensures
            final(self).unlogged() == old(self).unlogged().insert(object),
    {
        self.unlogged.insert(object.0);
        assert(self.unlogged() =~= old(self).unlogged().insert(object));
    }

    /// Clears the bit of `object` if it is set, and tells whether it was.
    pub fn compare_exchange_logged(&mut self, object: ObjectReference) -> (was_unlogged: bool)
        ensures
            was_unlogged == old(self).unlogged().contains(object),
            final(self).unlogged() == old(self).unlogged().remove(object),
    {
        let was = self.unlogged.remove(&object.0);
        assert(self.unlogged() =~= old(self).unlogged().remove(object));
        was
    }
}

/// The barrier that remembers objects: at the first write to a field of an
/// object since the last collection, the object is put into the buffer of
/// modified objects.
pub struct ObjectRememberingBarrier {
    modbuf: Vec<ObjectReference>,
}

impl ObjectRememberingBarrier {
    /// The objects that were remembered, in the order of their first write.
    pub closed spec fn modbuf(&self) -> Seq<ObjectReference> {
        self.modbuf@
    }

    /// A barrier that remembers nothing yet.
    pub fn new() -> (b: Self)
        ensures
            b.modbuf() == Seq::<ObjectReference>::empty(),
    {
        ObjectRememberingBarrier { modbuf: Vec::new() }
    }

    /// Runs the barrier for a write to a field of `src`: if the log bit of
    /// `src` is set, it is cleared and `src` is remembered; else nothing
    /// changes.
    pub fn post_write_barrier(&mut self, log_bits: &mut LogBits, src: ObjectReference)
        ensures
            final(log_bits).unlogged() == old(log_bits).unlogged().remove(src),
            old(log_bits).unlogged().contains(src) ==> final(self).modbuf() == old(
                self,
            ).modbuf().push(src),
            !old(log_bits).unlogged().contains(src) ==> final(self).modbuf() == old(self).modbuf(),
    {
        if log_bits.compare_exchange_logged(src) {
            self.modbuf.push(src);
        }
    }

    /// Hands out the objects that were remembered, for the collection to
    /// take their fields as roots, and remembers nothing any more.
    pub fn flush(&mut self) -> (modbuf: Vec<ObjectReference>)
        ensures
            modbuf@ == old(self).modbuf(),
            final(self).modbuf() == Seq::<ObjectReference>::empty(),
    {
        let mut modbuf: Vec<ObjectReference> = Vec::new();
        core::mem::swap(&mut modbuf, &mut self.modbuf);
        modbuf
    }
}

/// An object is remembered at most once between two collections: if no
/// object that is remembered has its log bit set, and none is remembered
/// twice, then the same holds after the barrier ran.
pub proof fn lemma_remembered_once(
    unlogged: Set<ObjectReference>,
    modbuf: Seq<ObjectReference>,
    src: ObjectReference,
    unlogged_after: Set<ObjectReference>,
    modbuf_after: Seq<ObjectReference>,
)
    requires
        modbuf.no_duplicates(),
        forall|i: int| 0 <= i < modbuf.len() ==> !unlogged.contains(#[trigger] modbuf[i]),
        unlogged_after == unlogged.remove(src),
        unlogged.contains(src) ==> modbuf_after == modbuf.push(src),
        !unlogged.contains(src) ==> modbuf_after == modbuf,
    ensures
        modbuf_after.no_duplicates(),
        forall|i: int|
            0 <= i < modbuf_after.len() ==> !unlogged_after.contains(#[trigger] modbuf_after[i]),
{
}

} // verus!
