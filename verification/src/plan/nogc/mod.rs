//! A plan that allocates and never collects.

pub mod global;

pub use global::NoGC;
