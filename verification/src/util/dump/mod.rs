//! Heap dumps for debugging: a stream of records of what a trace met.
//!
//! The records are turned into text here. Whoever embeds the dumper writes
//! the text to the file of the collection.

pub mod json_writer;
pub mod noop_writer;
pub mod record;
pub mod recorder;
pub mod yaml_writer;

pub use recorder::DumpWriter;
pub use recorder::HeapDumper;
pub use recorder::HeapDumperLocal;
pub use recorder::RecordWriter;
