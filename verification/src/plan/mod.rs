//! Plans: collection algorithms composed of spaces, and what they share.

pub mod barriers;
pub mod closure;
pub mod generational;
pub mod global;
pub mod immix;
pub mod marksweep;
pub mod mutator_context;
pub mod nogc;
pub mod pageprotect;
pub mod semispace;
pub mod tracing;
pub mod triplespace;
pub mod transitive_closure;

pub use global::AllocationSemantics;
pub use global::BarrierSelector;
pub use global::BasePlan;
pub use global::CommonPlan;
pub use global::GcStatus;
pub use global::Options;
pub use global::PlanConstraints;
