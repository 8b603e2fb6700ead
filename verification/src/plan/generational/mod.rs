//! What generational plans share.

pub mod gc_work;
