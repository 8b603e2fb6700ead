//! A small runtime that serves to exercise the toolkit.

pub mod edges;
pub mod scanning;
