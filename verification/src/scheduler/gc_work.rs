//! The packets of work that a collection is made of.

use crate::util::address::ObjectReference;
use crate::util::heap::HeapEdge;
use vstd::prelude::*;

verus! {

/// A packet of work.
pub enum GCWork {
    /// Stop the mutators and scan their roots. `full_heap` tells whether
    /// the collection takes in the whole heap.
    StopMutators { full_heap: bool },
    /// Prepare the plan, the workers and the mutators.
    Prepare,
    /// Release what the collection freed.
    Release,
    /// End the collection and resume the mutators.
    EndOfGC,
    /// Trace the objects that these edges hold.
    ProcessEdges { edges: Vec<HeapEdge>, roots: bool },
    /// Scan these objects for their edges.
    ScanObjects { nodes: Vec<ObjectReference> },
}

} // verus!
