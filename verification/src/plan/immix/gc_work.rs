//! The packets of the immix plan.

use crate::policy::gc_work::GCWorkContext;
use crate::policy::gc_work::TraceKind;
use vstd::prelude::*;

verus! {

/// Ties the immix plan to its packets: they run the trace of kind `KIND`.
pub struct ImmixGCWorkContext<const KIND: u8>;

impl<const KIND: u8> GCWorkContext for ImmixGCWorkContext<KIND> {
    open spec fn spec_trace_kind(&self) -> TraceKind {
        KIND
    }

    fn trace_kind(&self) -> (kind: TraceKind) {
        KIND
    }
}

} // verus!
