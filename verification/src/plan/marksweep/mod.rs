//! What is kept here of the mark-sweep plan: its side metadata.

pub mod metadata;
