//! Metadata that the collector keeps about heap data.

pub mod global;
pub mod side_metadata;


pub use global::MetadataSpec;

pub use global::MetadataContext;
pub use global::SideMetadata;
