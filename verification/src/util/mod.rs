//! Utilities shared by plans, policies and the scheduler.

pub mod address;
pub mod batcher;
pub mod constants;
pub mod dump;
pub mod heap;
pub mod memory;
pub mod metadata;
pub mod mmapper;
pub mod reference_processor;
pub mod text;

pub use address::Address;
pub use address::ObjectReference;
