//! Policies: how the objects of a space are allocated, traced and
//! reclaimed.

pub mod copyspace;
pub mod gc_work;
pub mod immortalspace;
pub mod space;
