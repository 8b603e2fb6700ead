//! The dumper of a heap and the buffer that each worker fills for it.

use crate::util::address::ObjectReference;
use crate::util::dump::json_writer::JsonSeqWriter;
use crate::util::dump::noop_writer::NoopWriter;
use crate::util::dump::record::Record;
use vstd::prelude::*;

verus! {

/// Turns records into text, which gathers until it is flushed.
pub trait RecordWriter {
    /// The text written since the last flush.
    spec fn pending(&self) -> Seq<char>;

    /// The text that this writer writes for `record`.
    spec fn record_text(&self, record: Record) -> Seq<char>;

    /// Writes `record` behind what is pending.
    fn write_record(&mut self, record: Record)
        ensures
            final(self).pending() == old(self).pending() + old(self).record_text(record),
            forall|r: Record| final(self).record_text(r) == old(self).record_text(r),
    ;

    /// Hands out the pending text, to be written to the dump.
    fn flush(&mut self) -> (text: String)
        ensures
            text@ == old(self).pending(),
            final(self).pending() == Seq::<char>::empty(),
            forall|r: Record| final(self).record_text(r) == old(self).record_text(r),
    ;
}

/// The writers that a dumper can have.
pub enum DumpWriter {
    /// Writes a sequence of JSON texts.
    Json(JsonSeqWriter),
    /// Writes nothing.
    Noop(NoopWriter),
}

impl RecordWriter for DumpWriter {
    open spec fn pending(&self) -> Seq<char> {
        match self {
            DumpWriter::Json(w) => w.pending(),
            DumpWriter::Noop(w) => w.pending(),
        }
    }

    open spec fn record_text(&self, record: Record) -> Seq<char> {
        match self {
            DumpWriter::Json(w) => w.record_text(record),
            DumpWriter::Noop(w) => w.record_text(record),
        }
    }

    fn write_record(&mut self, record: Record) {
        match self {
            DumpWriter::Json(w) => w.write_record(record),
            DumpWriter::Noop(w) => w.write_record(record),
        }
    }

    fn flush(&mut self) -> (text: String) {
        match self {
            DumpWriter::Json(w) => w.flush(),
            DumpWriter::Noop(w) => w.flush(),
        }
    }
}

/// The text that `writer` writes for `records`, one after the other.
pub open spec fn spec_records_text(writer: DumpWriter, records: Seq<Record>) -> Seq<char>
    decreases records.len(),
{
    if records.len() == 0 {
        Seq::empty()
    } else {
        spec_records_text(writer, records.drop_last()) + writer.record_text(records.last())
    }
}

/// Records the traversal of the heap, one file for each collection.
pub struct HeapDumper {
    actually_dump: bool,
    writer: Option<DumpWriter>,
}

impl HeapDumper {
    /// Whether a dump is written at all.
    pub closed spec fn actually_dump(&self) -> bool {
        self.actually_dump
    }

    /// The writer of the recording that is going on, if one is.
    pub closed spec fn writer(&self) -> Option<DumpWriter> {
        self.writer
    }

    /// A dumper that records nothing yet. If `actually_dump` is `false`, it
    /// never writes anything.
    pub fn new(actually_dump: bool) -> (d: Self)
        ensures
            d.actually_dump() == actually_dump,
            d.writer() is None,
    {
        Self { actually_dump, writer: None }
    }

    /// Starts the recording of the collection with the number `gc_count`.
    /// The result is the number under which a file is to be opened for the
    /// dump, if one is.
    pub fn start_recording(&mut self, gc_count: usize) -> (file: Option<usize>)
        requires
            old(self).writer() is None,
        ensures
            file == (if old(self).actually_dump() {
                Some(gc_count)
            } else {
                None
            }),
            final(self).actually_dump() == old(self).actually_dump(),
            final(self).writer() is Some,
            final(self).writer().unwrap().pending() == Seq::<char>::empty(),
            final(self).writer().unwrap() is Json == old(self).actually_dump(),
    {
        if self.actually_dump {
            self.writer = Some(DumpWriter::Json(JsonSeqWriter::new()));
            Some(gc_count)
        } else {
            self.writer = Some(DumpWriter::Noop(NoopWriter));
            None
        }
    }

    /// Ends the recording. Hands out the text that is still pending.
    pub fn finish_recording(&mut self) -> (text: String)
        requires
            old(self).writer() is Some,
        ensures
            text@ == old(self).writer().unwrap().pending(),
            final(self).writer() is None,
            final(self).actually_dump() == old(self).actually_dump(),
    {
        let mut writer: Option<DumpWriter> = None;
        core::mem::swap(&mut writer, &mut self.writer);
        let mut w = writer.unwrap();
        w.flush()
    }

    /// Writes `records` in order and hands out all the text that is
    /// pending then.
    pub fn write_many(&mut self, records: Vec<Record>) -> (text: String)
        requires
            old(self).writer() is Some,
        ensures
            text@ == old(self).writer().unwrap().pending() + spec_records_text(
                old(self).writer().unwrap(),
                records@,
            ),
            final(self).writer() is Some,
            final(self).writer().unwrap().pending() == Seq::<char>::empty(),
            final(self).writer().unwrap() is Json == old(self).writer().unwrap() is Json,
            final(self).actually_dump() == old(self).actually_dump(),
    {
        let mut taken: Option<DumpWriter> = None;
        core::mem::swap(&mut taken, &mut self.writer);
        let mut writer = taken.unwrap();
        let ghost first = writer;
        let mut records = records;
        let ghost all = records@;
        let ghost mut done: int = 0;
        assert(all.subrange(0, 0) =~= Seq::<Record>::empty());
        assert(writer.pending() + Seq::<char>::empty() =~= writer.pending());
        while records.len() > 0
            invariant
                0 <= done,
                done + records@.len() == all.len(),
                records@ == all.subrange(done, all.len() as int),
                writer.pending() == first.pending() + spec_records_text(
                    first,
                    all.subrange(0, done),
                ),
                forall|r: Record| writer.record_text(r) == first.record_text(r),
                writer is Json == first is Json,
            decreases records@.len(),
        {
            let record = records.remove(0);
            proof {
                let next = all.subrange(0, done + 1);
                assert(next.drop_last() =~= all.subrange(0, done));
                assert(next.last() == record);
                assert(records@ =~= all.subrange(done + 1, all.len() as int));
                assert((first.pending() + spec_records_text(first, all.subrange(0, done)))
                    + first.record_text(record) =~= first.pending() + spec_records_text(
                    first,
                    next,
                ));
            }
            let ghost before = writer;
            writer.write_record(record);
            proof {
                assert(before is Json ==> writer is Json);
                assert(before is Noop ==> writer is Noop);
                done = done + 1;
            }
        }
        assert(all.subrange(0, done) =~= all);
        let ghost before = writer;
        let text = writer.flush();
        assert(before is Json ==> writer is Json);
        assert(before is Noop ==> writer is Noop);
        self.writer = Some(writer);
        text
    }
}

/// The records that one worker has gathered and not yet handed to the
/// dumper, and the object that it is scanning.
pub struct HeapDumperLocal {
    buffer: Vec<Record>,
    cur_obj: Option<ObjectReference>,
}

impl Default for HeapDumperLocal {
    fn default() -> (l: Self)
        ensures
            l.records() == Seq::<Record>::empty(),
            l.cur_obj() is None,
    {
        Self { buffer: Vec::new(), cur_obj: None }
    }
}

impl HeapDumperLocal {
    /// The records gathered, oldest first.
    pub closed spec fn records(&self) -> Seq<Record> {
        self.buffer@
    }

    /// The object that is being scanned, if one is.
    pub closed spec fn cur_obj(&self) -> Option<ObjectReference> {
        self.cur_obj
    }

    /// Adds a record.
    pub fn add_record(&mut self, record: Record)
        ensures
            final(self).records() == old(self).records().push(record),
            final(self).cur_obj() == old(self).cur_obj(),
    {
        self.buffer.push(record);
    }

    /// Notes that `obj` is being scanned.
    pub fn set_cur_obj(&mut self, obj: ObjectReference)
        ensures
            final(self).cur_obj() == Some(obj),
            final(self).records() == old(self).records(),
    {
        self.cur_obj = Some(obj);
    }

    /// Notes that no object is being scanned.
    pub fn clear_cur_obj(&mut self)
        ensures
            final(self).cur_obj() is None,
            final(self).records() == old(self).records(),
    {
        self.cur_obj = None;
    }

    /// Adds the record of a field of the object being scanned that holds
    /// `to`.
    pub fn add_edge_from_cur_obj(&mut self, to: ObjectReference, valid: bool)
        requires
            old(self).cur_obj() is Some,
        ensures
            final(self).records() == old(self).records().push(
                Record::Edge { from: old(self).cur_obj().unwrap(), to, valid },
            ),
            final(self).cur_obj() == old(self).cur_obj(),
    {
        let from = self.cur_obj.unwrap();
        self.add_record(Record::Edge { from, to, valid })
    }

    /// Hands the records gathered to `heap_dumper` and returns the text
    /// that it gives out for them.
    pub fn flush(&mut self, heap_dumper: &mut HeapDumper) -> (text: String)
        requires
            old(heap_dumper).writer() is Some,
        ensures
            final(self).records() == Seq::<Record>::empty(),
            final(self).cur_obj() == old(self).cur_obj(),
            text@ == old(heap_dumper).writer().unwrap().pending() + spec_records_text(
                old(heap_dumper).writer().unwrap(),
                old(self).records(),
            ),
            final(heap_dumper).writer() is Some,
            final(heap_dumper).writer().unwrap().pending() == Seq::<char>::empty(),
            final(heap_dumper).actually_dump() == old(heap_dumper).actually_dump(),
    {
        let mut records: Vec<Record> = Vec::new();
        core::mem::swap(&mut records, &mut self.buffer);
        heap_dumper.write_many(records)
    }
}

} // verus!
