//! A writer that writes nothing.

use crate::util::dump::record::Record;
use crate::util::dump::recorder::RecordWriter;
use vstd::prelude::*;

verus! {

/// Drops every record.
pub struct NoopWriter;

impl RecordWriter for NoopWriter {
    open spec fn pending(&self) -> Seq<char> {
        Seq::empty()
    }

    open spec fn record_text(&self, record: Record) -> Seq<char> {
        Seq::empty()
    }

    fn write_record(&mut self, record: Record) {
        assert(Seq::<char>::empty() + Seq::<char>::empty() =~= Seq::<char>::empty());
    }

    fn flush(&mut self) -> (text: String) {
        String::new()
    }
}

} // verus!
