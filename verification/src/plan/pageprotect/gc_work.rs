//! The packets of the plan that protects pages.

use crate::policy::gc_work::GCWorkContext;
use crate::policy::gc_work::TraceKind;
use crate::policy::gc_work::DEFAULT_TRACE;
use vstd::prelude::*;

verus! {

/// Ties the plan that protects pages to its packets: they run the default trace.
pub struct PPGCWorkContext;

impl GCWorkContext for PPGCWorkContext {
    open spec fn spec_trace_kind(&self) -> TraceKind {
        DEFAULT_TRACE
    }

    fn trace_kind(&self) -> (kind: TraceKind) {
        DEFAULT_TRACE
    }
}

} // verus!
