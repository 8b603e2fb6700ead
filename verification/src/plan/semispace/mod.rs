//! What is kept here of the semispace plan.

pub mod gc_work;
