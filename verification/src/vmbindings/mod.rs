//! Bindings of the toolkit to runtimes.

pub mod dummyvm;
