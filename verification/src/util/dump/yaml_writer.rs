//! Records as items of a YAML list: each record is a mapping from the
//! names of its fields to their values, numbers in decimal.

use crate::util::dump::record::Record;
use crate::util::dump::recorder::RecordWriter;
use crate::util::text::decimal_text;
use crate::util::text::spec_decimal;
use crate::util::text::spec_truth;
use crate::util::text::truth_text;
use vstd::prelude::*;

verus! {

/// The item of the YAML list that stands for `record`: after an empty
/// line, the kind of event, and then each field on a line of its own.
/// Object references are given as their address. Of an object that is
/// visited, the texts about its type are left out.
pub open spec fn spec_yaml_record(record: Record) -> Seq<char> {
    match record {
        Record::Root { objref, pinning, valid } => "\n- event: Root\n  objref: "@ + spec_decimal(
            objref.0 as nat,
        ) + "\n  pinning: "@ + spec_truth(pinning) + "\n  valid: "@ + spec_truth(valid) + "\n"@,
        Record::Node { objref, pinned, type_string, comment } => "\n- event: Node\n  objref: "@
            + spec_decimal(objref.0 as nat) + "\n  pinned: "@ + spec_truth(pinned) + "\n"@,
        Record::Edge { from, to, valid } => "\n- event: Edge\n  from: "@ + spec_decimal(
            from.0 as nat,
        ) + "\n  to: "@ + spec_decimal(to.0 as nat) + "\n  valid: "@ + spec_truth(valid) + "\n"@,
        Record::Forward { from, to } => "\n- event: Forward\n  from: "@ + spec_decimal(
            from.0 as nat,
        ) + "\n  to: "@ + spec_decimal(to.0 as nat) + "\n"@,
        Record::Resurrect { objref } => "\n- event: Resurrect\n  objref: "@ + spec_decimal(
            objref.0 as nat,
        ) + "\n"@,
    }
}

/// The item of the YAML list that stands for `record`, as text.
pub fn record_to_yaml(record: &Record) -> (text: String)
    ensures
        text@ == spec_yaml_record(*record),
{
    match record {
        Record::Root { objref, pinning, valid } => {
            let mut text = String::from_str("\n- event: Root\n  objref: ");
            text.append(decimal_text(objref.value()).as_str());
            text.append("\n  pinning: ");
            text.append(truth_text(*pinning));
            text.append("\n  valid: ");
            text.append(truth_text(*valid));
            text.append("\n");
            text
        },
        Record::Node { objref, pinned, type_string, comment } => {
            let mut text = String::from_str("\n- event: Node\n  objref: ");
            text.append(decimal_text(objref.value()).as_str());
            text.append("\n  pinned: ");
            text.append(truth_text(*pinned));
            text.append("\n");
            text
        },
        Record::Edge { from, to, valid } => {
            let mut text = String::from_str("\n- event: Edge\n  from: ");
            text.append(decimal_text(from.value()).as_str());
            text.append("\n  to: ");
            text.append(decimal_text(to.value()).as_str());
            text.append("\n  valid: ");
            text.append(truth_text(*valid));
            text.append("\n");
            text
        },
        Record::Forward { from, to } => {
            let mut text = String::from_str("\n- event: Forward\n  from: ");
            text.append(decimal_text(from.value()).as_str());
            text.append("\n  to: ");
            text.append(decimal_text(to.value()).as_str());
            text.append("\n");
            text
        },
        Record::Resurrect { objref } => {
            let mut text = String::from_str("\n- event: Resurrect\n  objref: ");
            text.append(decimal_text(objref.value()).as_str());
            text.append("\n");
            text
        },
    }
}

/// Writes the records as items of a YAML list.
pub struct YamlWriter {
    out: String,
}

impl YamlWriter {
    /// A writer that has written nothing.
    pub fn new() -> (w: Self)
        ensures
            w.pending() == Seq::<char>::empty(),
    {
        Self { out: String::new() }
    }
}

impl RecordWriter for YamlWriter {
    closed spec fn pending(&self) -> Seq<char> {
        self.out@
    }

    open spec fn record_text(&self, record: Record) -> Seq<char> {
        spec_yaml_record(record)
    }

    fn write_record(&mut self, record: Record) {
        let text = record_to_yaml(&record);
        self.out.append(text.as_str());
    }

    fn flush(&mut self) -> (text: String) {
        let mut text = String::new();
        core::mem::swap(&mut text, &mut self.out);
        text
    }
}

} // verus!
