//! What is kept here of the plan that protects pages.

pub mod gc_work;
