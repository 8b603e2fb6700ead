//! The kinds of trace and the type that ties a plan to its packets.

use vstd::prelude::*;

verus! {

/// The kind of a trace. Plans with more than one kind of trace tell them
/// apart by it.
pub type TraceKind = u8;

/// The kind of the trace of a plan that has only one.
pub const DEFAULT_TRACE: TraceKind = 255;

/// Ties a plan to the kind of trace that its packets of edges run.
pub trait GCWorkContext {
    /// The kind of trace.
    spec fn spec_trace_kind(&self) -> TraceKind;

    /// The kind of trace.
    fn trace_kind(&self) -> (kind: TraceKind)
        ensures
            kind == self.spec_trace_kind(),
    ;
}

} // verus!
