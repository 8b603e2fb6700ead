//! Core of a pluggable garbage-collection toolkit: side metadata, the
//! work-packet scheduler, the tracing engine and a family of plans, all
//! stated over a simulated address space so that their behaviour can be
//! specified and proved.

pub mod util;
pub mod macros;
pub mod memory_manager;
pub mod plan;
pub mod policy;
pub mod scheduler;
pub mod vm;
pub mod vmbindings;
