//! How the tracing of a plan is derived from the description of its
//! fields.

pub mod trace_object;
