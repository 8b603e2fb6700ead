//! What is kept here of the immix plan.

pub mod gc_work;
