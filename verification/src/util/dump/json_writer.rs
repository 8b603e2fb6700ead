//! Records as a sequence of JSON texts (RFC 7464): each record is the byte
//! 0x1E, a JSON object, and a line feed.

use crate::util::dump::record::spec_record_fields;
use crate::util::dump::record::JsonField;
use crate::util::dump::record::Record;
use crate::util::dump::recorder::RecordWriter;
use vstd::prelude::*;

verus! {

/// The object type of the `json` crate.
#[verifier::external_type_specification]
#[verifier::external_body]
pub struct ExJsonObject(json::object::Object);

/// The entries of a JSON object, in the order in which they are printed.
pub uninterp spec fn json_entries(object: json::object::Object) -> Seq<(Seq<char>, JsonField)>;

/// The text that the `json` crate prints for an object with the given
/// entries, without white space between the tokens.
pub uninterp spec fn json_object_text(entries: Seq<(Seq<char>, JsonField)>) -> Seq<char>;

/// Whether one of `entries` has the key `key`.
pub open spec fn spec_has_key(entries: Seq<(Seq<char>, JsonField)>, key: Seq<char>) -> bool {
    exists|i: int| 0 <= i < entries.len() && (#[trigger] entries[i]).0 == key
}

/// `json::object::Object::new`: an object without entries.
#[verifier::external_body]
fn json_new_object() -> (object: json::object::Object)
    ensures
        json_entries(object) == Seq::<(Seq<char>, JsonField)>::empty(),
{
    json::object::Object::new()
}

/// `json::object::Object::insert` with a number: for a key that the object
/// does not have yet, the entry is added behind the others.
#[verifier::external_body]
fn json_insert_number(object: &mut json::object::Object, key: &str, value: usize)
    requires
        !spec_has_key(json_entries(*old(object)), key@),
    ensures
        json_entries(*final(object)) == json_entries(*old(object)).push(
            (key@, JsonField::Number(value as u64)),
        ),
{
    object.insert(key, json::JsonValue::from(value))
}

/// `json::object::Object::insert` with a truth value: for a key that the
/// object does not have yet, the entry is added behind the others.
#[verifier::external_body]
fn json_insert_bool(object: &mut json::object::Object, key: &str, value: bool)
    requires
        !spec_has_key(json_entries(*old(object)), key@),
    ensures
        json_entries(*final(object)) == json_entries(*old(object)).push(
            (key@, JsonField::Boolean(value)),
        ),
{
    object.insert(key, json::JsonValue::from(value))
}

/// `json::object::Object::insert` with a text: for a key that the object
/// does not have yet, the entry is added behind the others.
#[verifier::external_body]
fn json_insert_text(object: &mut json::object::Object, key: &str, value: &str)
    requires
        !spec_has_key(json_entries(*old(object)), key@),
    ensures
        json_entries(*final(object)) == json_entries(*old(object)).push(
            (key@, JsonField::Text(value@)),
        ),
{
    object.insert(key, json::JsonValue::from(value))
}

/// `json::object::Object::insert` with null: for a key that the object
/// does not have yet, the entry is added behind the others.
#[verifier::external_body]
fn json_insert_null(object: &mut json::object::Object, key: &str)
    requires
        !spec_has_key(json_entries(*old(object)), key@),
    ensures
        json_entries(*final(object)) == json_entries(*old(object)).push((key@, JsonField::Null)),
{
    object.insert(key, json::JsonValue::Null)
}

/// `json::object::Object::dump`: the text of the object.
#[verifier::external_body]
fn json_dump(object: &json::object::Object) -> (text: String)
    ensures
        text@ == json_object_text(json_entries(*object)),
{
    object.dump()
}

/// The character that starts a record.
pub const START_OF_RECORD: char = '\x1e';

/// The character that ends a record.
pub const END_OF_RECORD: char = '\x0a';

/// The text of one record in the stream.
pub open spec fn spec_json_record_text(record: Record) -> Seq<char> {
    seq![START_OF_RECORD] + json_object_text(spec_record_fields(record)) + seq![END_OF_RECORD]
}

/// Turns records into a sequence of JSON texts.
pub struct JsonSeqWriter {
    out: String,
}

/// Adds an optional text, or null, to `object` under `key`.
fn json_insert_optional_text(object: &mut json::object::Object, key: &str, value: &Option<String>)
    requires
        !spec_has_key(json_entries(*old(object)), key@),
    ensures
        json_entries(*final(object)) == json_entries(*old(object)).push(
            (key@, crate::util::dump::record::spec_optional_text(*value)),
        ),
{
    match value {
        Some(s) => json_insert_text(object, key, s.as_str()),
        None => json_insert_null(object, key),
    }
}

/// The keys of the fields of records differ from each other.
proof fn lemma_keys_differ()
    ensures
        "event"@ != "objref"@,
        "event"@ != "pinning"@,
        "event"@ != "pinned"@,
        "event"@ != "valid"@,
        "event"@ != "type_string"@,
        "event"@ != "comment"@,
        "event"@ != "from"@,
        "event"@ != "to"@,
        "objref"@ != "pinning"@,
        "objref"@ != "pinned"@,
        "objref"@ != "valid"@,
        "objref"@ != "type_string"@,
        "objref"@ != "comment"@,
        "pinning"@ != "valid"@,
        "pinned"@ != "type_string"@,
        "pinned"@ != "comment"@,
        "type_string"@ != "comment"@,
        "from"@ != "to"@,
        "from"@ != "valid"@,
        "to"@ != "valid"@,
{
    reveal_strlit("event");
    reveal_strlit("objref");
    reveal_strlit("pinning");
    reveal_strlit("pinned");
    reveal_strlit("valid");
    reveal_strlit("type_string");
    reveal_strlit("comment");
    reveal_strlit("from");
    reveal_strlit("to");
    assert("event"@.len() == 5 && "objref"@.len() == 6 && "pinning"@.len() == 7);
    assert("pinned"@.len() == 6 && "valid"@.len() == 5 && "type_string"@.len() == 11);
    assert("comment"@.len() == 7 && "from"@.len() == 4 && "to"@.len() == 2);
    assert("event"@[0] == 'e' && "valid"@[0] == 'v');
    assert("objref"@[0] == 'o' && "pinned"@[0] == 'p');
    assert("pinning"@[0] == 'p' && "comment"@[0] == 'c');
}

/// The JSON object that stands for `record`, as text.
pub fn record_to_json(record: &Record) -> (text: String)
    ensures
        text@ == json_object_text(spec_record_fields(*record)),
{
    let mut object = json_new_object();
    proof {
        lemma_keys_differ();
    }
    match record {
        Record::Root { objref, pinning, valid } => {
            json_insert_text(&mut object, "event", "Root");
            let ghost e1 = json_entries(object);
            assert(!spec_has_key(e1, "objref"@));
            json_insert_number(&mut object, "objref", objref.value());
            let ghost e2 = json_entries(object);
            assert(!spec_has_key(e2, "pinning"@));
            json_insert_bool(&mut object, "pinning", *pinning);
            let ghost e3 = json_entries(object);
            assert(!spec_has_key(e3, "valid"@));
            json_insert_bool(&mut object, "valid", *valid);
            assert(json_entries(object) =~= spec_record_fields(*record));
        },
        Record::Node { objref, pinned, type_string, comment } => {
            json_insert_text(&mut object, "event", "Node");
            let ghost e1 = json_entries(object);
            assert(!spec_has_key(e1, "objref"@));
            json_insert_number(&mut object, "objref", objref.value());
            let ghost e2 = json_entries(object);
            assert(!spec_has_key(e2, "pinned"@));
            json_insert_bool(&mut object, "pinned", *pinned);
            let ghost e3 = json_entries(object);
            assert(!spec_has_key(e3, "type_string"@));
            json_insert_optional_text(&mut object, "type_string", type_string);
            let ghost e4 = json_entries(object);
            assert(!spec_has_key(e4, "comment"@));
            json_insert_optional_text(&mut object, "comment", comment);
            assert(json_entries(object) =~= spec_record_fields(*record));
        },
        Record::Edge { from, to, valid } => {
            json_insert_text(&mut object, "event", "Edge");
            let ghost e1 = json_entries(object);
            assert(!spec_has_key(e1, "from"@));
            json_insert_number(&mut object, "from", from.value());
            let ghost e2 = json_entries(object);
            assert(!spec_has_key(e2, "to"@));
            json_insert_number(&mut object, "to", to.value());
            let ghost e3 = json_entries(object);
            assert(!spec_has_key(e3, "valid"@));
            json_insert_bool(&mut object, "valid", *valid);
            assert(json_entries(object) =~= spec_record_fields(*record));
        },
        Record::Forward { from, to } => {
            json_insert_text(&mut object, "event", "Forward");
            let ghost e1 = json_entries(object);
            assert(!spec_has_key(e1, "from"@));
            json_insert_number(&mut object, "from", from.value());
            let ghost e2 = json_entries(object);
            assert(!spec_has_key(e2, "to"@));
            json_insert_number(&mut object, "to", to.value());
            assert(json_entries(object) =~= spec_record_fields(*record));
        },
        Record::Resurrect { objref } => {
            json_insert_text(&mut object, "event", "Resurrect");
            let ghost e1 = json_entries(object);
            assert(!spec_has_key(e1, "objref"@));
            json_insert_number(&mut object, "objref", objref.value());
            assert(json_entries(object) =~= spec_record_fields(*record));
        },
    }
    json_dump(&object)
}

impl JsonSeqWriter {
    /// A writer that has written nothing.
    pub fn new() -> (w: Self)
        ensures
            w.pending() == Seq::<char>::empty(),
    {
        Self { out: String::new() }
    }
}

impl RecordWriter for JsonSeqWriter {
    closed spec fn pending(&self) -> Seq<char> {
        self.out@
    }

    open spec fn record_text(&self, record: Record) -> Seq<char> {
        spec_json_record_text(record)
    }

    fn flush(&mut self) -> (text: String) {
        let mut text = String::new();
        core::mem::swap(&mut text, &mut self.out);
        text
    }

    fn write_record(&mut self, record: Record) {
        let json_text = record_to_json(&record);
        proof {
            reveal_strlit("\x1e");
            reveal_strlit("\x0a");
            assert("\x1e"@ =~= seq![START_OF_RECORD]);
            assert("\x0a"@ =~= seq![END_OF_RECORD]);
        }
        self.out.append("\x1e");
        self.out.append(json_text.as_str());
        self.out.append("\x0a");
    }
}

} // verus!
