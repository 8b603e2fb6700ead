//! A generational plan with three copying spaces: a nursery and a pair of
//! semispaces for the objects that survived it.

pub mod collection;
pub mod gc_work;
pub mod global;
pub mod mutator;
pub mod slow_path;

pub use global::TripleSpace;
