use mmtk::util::address::ObjectReference;
use mmtk::util::dump::json_writer::record_to_json;
use mmtk::util::dump::json_writer::JsonSeqWriter;
use mmtk::util::dump::noop_writer::NoopWriter;
use mmtk::util::dump::record::Record;
use mmtk::util::text::decimal_text;
use mmtk::util::text::hex_text;
use mmtk::util::dump::yaml_writer::record_to_yaml;
use mmtk::util::dump::yaml_writer::YamlWriter;
use mmtk::util::dump::HeapDumper;
use mmtk::util::dump::HeapDumperLocal;
use mmtk::util::dump::RecordWriter;

fn records() -> Vec<Record> {
    vec![
        Record::Root { objref: ObjectReference(4096), pinning: true, valid: false },
        Record::Node {
            objref: ObjectReference(4096),
            pinned: false,
            type_string: Some("a \"b\"".to_string()),
            comment: None,
        },
        Record::Edge { from: ObjectReference(4096), to: ObjectReference(0), valid: true },
        Record::Forward { from: ObjectReference(4096), to: ObjectReference(8192) },
        Record::Resurrect { objref: ObjectReference(usize::MAX) },
    ]
}

fn texts() -> Vec<String> {
    vec![
        r#"{"event":"Root","objref":4096,"pinning":true,"valid":false}"#.to_string(),
        r#"{"event":"Node","objref":4096,"pinned":false,"type_string":"a \"b\"","comment":null}"#
            .to_string(),
        r#"{"event":"Edge","from":4096,"to":0,"valid":true}"#.to_string(),
        r#"{"event":"Forward","from":4096,"to":8192}"#.to_string(),
        format!(r#"{{"event":"Resurrect","objref":{}}}"#, usize::MAX),
    ]
}

#[test]
fn records_as_json() {
    for (record, text) in records().iter().zip(texts()) {
        assert_eq!(record_to_json(record), text);
        // what was written is what a reader of JSON gets back
        let parsed = json::parse(&text).unwrap();
        assert!(parsed.is_object());
    }
    let parsed = json::parse(&record_to_json(&records()[1])).unwrap();
    assert_eq!(parsed["event"].as_str(), Some("Node"));
    assert_eq!(parsed["objref"].as_usize(), Some(4096));
    assert_eq!(parsed["pinned"].as_bool(), Some(false));
    assert_eq!(parsed["type_string"].as_str(), Some("a \"b\""));
    assert!(parsed["comment"].is_null());
    assert_eq!(parsed.len(), 5);
}

#[test]
fn sequence_of_json_texts() {
    let mut w = JsonSeqWriter::new();
    assert_eq!(w.flush(), "");
    for record in records() {
        w.write_record(record);
    }
    let mut expected = String::new();
    for text in texts() {
        expected.push('\x1e');
        expected.push_str(&text);
        expected.push('\n');
    }
    assert_eq!(w.flush(), expected);
    assert_eq!(w.flush(), "");

    let mut n = NoopWriter;
    n.write_record(Record::Resurrect { objref: ObjectReference(8) });
    assert_eq!(n.flush(), "");
}

#[test]
fn dumper() {
    let mut dumper = HeapDumper::new(true);
    assert_eq!(dumper.start_recording(5), Some(5));
    let mut local = HeapDumperLocal::default();
    local.add_record(Record::Root { objref: ObjectReference(16), pinning: false, valid: true });
    local.set_cur_obj(ObjectReference(16));
    local.add_edge_from_cur_obj(ObjectReference(32), true);
    local.clear_cur_obj();
    let text = local.flush(&mut dumper);
    assert_eq!(
        text,
        "\x1e{\"event\":\"Root\",\"objref\":16,\"pinning\":false,\"valid\":true}\n\
         \x1e{\"event\":\"Edge\",\"from\":16,\"to\":32,\"valid\":true}\n"
    );
    // the buffer of the worker is empty now
    assert_eq!(local.flush(&mut dumper), "");
    let text = dumper.write_many(vec![Record::Forward {
        from: ObjectReference(16),
        to: ObjectReference(48),
    }]);
    assert_eq!(text, "\x1e{\"event\":\"Forward\",\"from\":16,\"to\":48}\n");
    assert_eq!(dumper.finish_recording(), "");
    // a new recording can begin
    assert_eq!(dumper.start_recording(6), Some(6));
    assert_eq!(dumper.finish_recording(), "");

    let mut quiet = HeapDumper::new(false);
    assert_eq!(quiet.start_recording(5), None);
    assert_eq!(quiet.write_many(records()), "");
    assert_eq!(quiet.finish_recording(), "");
}

#[test]
fn numbers_in_decimal() {
    assert_eq!(decimal_text(0), "0");
    assert_eq!(decimal_text(7), "7");
    assert_eq!(decimal_text(10), "10");
    assert_eq!(decimal_text(4096), "4096");
    assert_eq!(decimal_text(1234567890), "1234567890");
    assert_eq!(decimal_text(usize::MAX), usize::MAX.to_string());
}

#[test]
fn numbers_in_hexadecimal() {
    assert_eq!(hex_text(0), "0");
    assert_eq!(hex_text(9), "9");
    assert_eq!(hex_text(10), "a");
    assert_eq!(hex_text(15), "f");
    assert_eq!(hex_text(16), "10");
    assert_eq!(hex_text(0x1000), "1000");
    assert_eq!(hex_text(0xdead_beef), "deadbeef");
    assert_eq!(hex_text(usize::MAX), format!("{:x}", usize::MAX));
}

#[test]
fn records_as_yaml() {
    let expected = vec![
        "\n- event: Root\n  objref: 4096\n  pinning: true\n  valid: false\n".to_string(),
        "\n- event: Node\n  objref: 4096\n  pinned: false\n".to_string(),
        "\n- event: Edge\n  from: 4096\n  to: 0\n  valid: true\n".to_string(),
        "\n- event: Forward\n  from: 4096\n  to: 8192\n".to_string(),
        format!("\n- event: Resurrect\n  objref: {}\n", usize::MAX),
    ];
    for (record, text) in records().iter().zip(expected.iter()) {
        assert_eq!(&record_to_yaml(record), text);
    }
    let mut w = YamlWriter::new();
    assert_eq!(w.flush(), "");
    for record in records() {
        w.write_record(record);
    }
    assert_eq!(w.flush(), expected.concat());
    assert_eq!(w.flush(), "");
    w.write_record(Record::Forward { from: ObjectReference(1), to: ObjectReference(2) });
    assert_eq!(w.flush(), "\n- event: Forward\n  from: 1\n  to: 2\n");
}
