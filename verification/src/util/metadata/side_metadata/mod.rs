//! Bit-packed metadata tables that live beside the heap, keyed by data
//! address.

pub mod helpers;
pub mod ranges;
pub mod table;
