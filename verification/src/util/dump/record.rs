//! The events of a heap traversal that a dump records.

use crate::util::address::ObjectReference;
use vstd::prelude::*;

verus! {

/// An event in tracing, that is in computing the transitive closure from
/// the roots.
#[derive(Debug)]
pub enum Record {
    /// An object is reached from a root.
    Root {
        /// The object.
        objref: ObjectReference,
        /// Whether the root pins the object.
        pinning: bool,
        /// `false` if the root does not hold a valid object.
        valid: bool,
    },
    /// An object is visited.
    Node {
        /// The object, where it lies after the collection.
        objref: ObjectReference,
        /// Whether the object is pinned.
        pinned: bool,
        /// The type of the object, if it is known.
        type_string: Option<String>,
        /// More about the object, if there is more.
        comment: Option<String>,
    },
    /// A reference field of an object is visited.
    Edge {
        /// The object that holds the field.
        from: ObjectReference,
        /// What the field holds.
        to: ObjectReference,
        /// `false` if `to` is not a valid object.
        valid: bool,
    },
    /// An object is moved.
    Forward {
        /// Where the object was.
        from: ObjectReference,
        /// Where the object is now.
        to: ObjectReference,
    },
    /// An object is kept alive by a weak reference or by finalization.
    Resurrect {
        /// The object, where it lay before the collection.
        objref: ObjectReference,
    },
}

/// The value of a field of a JSON object: null, a truth value, a number
/// or a text.
pub enum JsonField {
    Null,
    Boolean(bool),
    Number(u64),
    Text(Seq<char>),
}

/// The field that holds an optional text: the text, or null.
pub open spec fn spec_optional_text(text: Option<String>) -> JsonField {
    match text {
        Some(s) => JsonField::Text(s@),
        None => JsonField::Null,
    }
}

/// The fields of the JSON object that stands for a record, in order: the
/// kind of event first, then what the record holds. Object references are
/// given as their address.
pub open spec fn spec_record_fields(record: Record) -> Seq<(Seq<char>, JsonField)> {
    match record {
        Record::Root { objref, pinning, valid } => seq![
            ("event"@, JsonField::Text("Root"@)),
            ("objref"@, JsonField::Number(objref.0 as u64)),
            ("pinning"@, JsonField::Boolean(pinning)),
            ("valid"@, JsonField::Boolean(valid)),
        ],
        Record::Node { objref, pinned, type_string, comment } => seq![
            ("event"@, JsonField::Text("Node"@)),
            ("objref"@, JsonField::Number(objref.0 as u64)),
            ("pinned"@, JsonField::Boolean(pinned)),
            ("type_string"@, spec_optional_text(type_string)),
            ("comment"@, spec_optional_text(comment)),
        ],
        Record::Edge { from, to, valid } => seq![
            ("event"@, JsonField::Text("Edge"@)),
            ("from"@, JsonField::Number(from.0 as u64)),
            ("to"@, JsonField::Number(to.0 as u64)),
            ("valid"@, JsonField::Boolean(valid)),
        ],
        Record::Forward { from, to } => seq![
            ("event"@, JsonField::Text("Forward"@)),
            ("from"@, JsonField::Number(from.0 as u64)),
            ("to"@, JsonField::Number(to.0 as u64)),
        ],
        Record::Resurrect { objref } => seq![
            ("event"@, JsonField::Text("Resurrect"@)),
            ("objref"@, JsonField::Number(objref.0 as u64)),
        ],
    }
}

} // verus!
