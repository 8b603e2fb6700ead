//! The packets of the semispace plan.

use crate::policy::gc_work::GCWorkContext;
use crate::policy::gc_work::TraceKind;
use crate::policy::gc_work::DEFAULT_TRACE;
use vstd::prelude::*;

verus! {

/// Ties the semispace plan to its packets: they run the default trace.
pub struct SSGCWorkContext;

impl GCWorkContext for SSGCWorkContext {
    open spec fn spec_trace_kind(&self) -> TraceKind {
        DEFAULT_TRACE
    }

    fn trace_kind(&self) -> (kind: TraceKind) {
        DEFAULT_TRACE
    }
}

} // verus!
