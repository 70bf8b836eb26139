use raft_engine_strings::namespaces::namespace_listing;
use raft_engine_strings::records::{
    actual_entry_range, entry_document, entry_field_record, entry_payload, field_record, filter_entry_range,
    push_message_records, records_document, render_plain_text, OutputRecord,
};
use raft_engine_strings::wal::Json;

fn field_parts(record: &OutputRecord) -> (u64, &str, bool, &str) {
    match record {
        OutputRecord::Field {
            entry_id,
            field,
            precise,
            content,
        } => (*entry_id, field.as_str(), *precise, content.as_str()),
        OutputRecord::EntryRange(_) => panic!("not a field record"),
    }
}

#[test]
fn field_without_readable_strings_falls_back_to_hex() {
    let record = field_record(1, "key", &[0x01, 0x02], 4);
    assert_eq!(field_parts(&record), (1, "key_hex", false, "0102"));

    let record = field_record(1, "value", &[0xde, 0xad, 0xbe, 0xef], 4);
    assert_eq!(field_parts(&record), (1, "value_hex", false, "deadbeef"));
}

#[test]
fn field_strings_are_joined_with_bars() {
    let record = field_record(10, "entry", b"first string\x00second string", 4);
    assert_eq!(
        field_parts(&record),
        (10, "entry", false, "first string | second string")
    );

    let record = field_record(2, "key", b"key,with,comma", 4);
    assert_eq!(field_parts(&record), (2, "key", false, "key,with,comma"));
}

#[test]
fn empty_field_renders_as_empty_hex() {
    let record = field_record(3, "value", &[], 4);
    assert_eq!(field_parts(&record), (3, "value_hex", false, ""));
}

#[test]
fn decoded_entry_is_precise() {
    let record = entry_field_record(12, b"\x22\x00", 4, Some("{}".to_owned()));
    assert_eq!(field_parts(&record), (12, "entry", true, "{}"));

    let record = entry_field_record(11, b"raw context payload", 4, None);
    assert_eq!(
        field_parts(&record),
        (11, "entry", false, "raw context payload")
    );
}

#[test]
fn log_store_data_is_preferred_over_raft_data() {
    let log_store = b"\x08\x0a\x10\x2a\x1a\x03abc";
    assert_eq!(entry_payload(log_store), Some(&b"abc"[..]));

    let raft = b"\x18\x0b\x22\x02xy";
    assert_eq!(entry_payload(raft), Some(&b"xy"[..]));

    let both = b"\x22\x02xy\x1a\x01z";
    assert_eq!(entry_payload(both), Some(&b"z"[..]));

    assert_eq!(entry_payload(b"\x08\x01"), None);
}

#[test]
fn entry_range_needs_first_and_last_index() {
    assert_eq!(actual_entry_range(Some(10), Some(12)), Some((10, 12)));
    assert_eq!(actual_entry_range(None, Some(12)), None);
    assert_eq!(actual_entry_range(Some(10), None), None);
}

#[test]
fn entry_range_filters_narrow_the_actual_range() {
    let actual = Some((10, 12));
    assert_eq!(filter_entry_range(actual, None, None, None), Some((10, 12)));
    assert_eq!(filter_entry_range(actual, Some(11), None, None), Some((11, 11)));
    assert_eq!(filter_entry_range(actual, None, Some(11), Some(11)), Some((11, 11)));
    assert_eq!(filter_entry_range(actual, None, Some(5), Some(20)), Some((10, 12)));
    assert_eq!(filter_entry_range(actual, None, Some(13), None), None);
    assert_eq!(filter_entry_range(actual, Some(30), None, None), Some((30, 30)));
    assert_eq!(filter_entry_range(actual, Some(11), Some(12), None), None);
    assert_eq!(filter_entry_range(None, Some(11), None, None), None);
}

#[test]
fn plain_text_lists_range_then_field_blocks() {
    let records = vec![
        OutputRecord::EntryRange(Some((10, 11))),
        OutputRecord::Field {
            entry_id: 10,
            field: "entry".to_owned(),
            precise: true,
            content: "{}".to_owned(),
        },
        OutputRecord::Field {
            entry_id: 1,
            field: "key".to_owned(),
            precise: false,
            content: "hello, csv".to_owned(),
        },
    ];
    let text = render_plain_text(42, &records);
    assert_eq!(
        text,
        "namespace: 42, entry id range: 10 ~ 11\n\
         Entry ID:     10\nMessage type: entry\nPrecise:      true\nContent:\n{}\n---\n\
         Entry ID:     1\nMessage type: key\nPrecise:      false\nContent:\nhello, csv\n---\n"
    );
}

#[test]
fn plain_text_without_range() {
    let records = vec![OutputRecord::EntryRange(None)];
    assert_eq!(
        render_plain_text(42, &records),
        "namespace: 42, entry id range: none\n"
    );
    assert_eq!(
        render_plain_text(7, &Vec::new()),
        "namespace: 7, entry id range: none\n"
    );
}

#[test]
fn raw_messages_give_a_key_and_a_value_record() {
    let mut records = vec![OutputRecord::EntryRange(None)];
    push_message_records(&mut records, 1, b"visible-key", b"\x00hello namespace\xff", 4);
    assert_eq!(records.len(), 3);
    assert_eq!(field_parts(&records[1]), (1, "key", false, "visible-key"));
    assert_eq!(field_parts(&records[2]), (1, "value", false, "hello namespace"));
    assert!(matches!(records[0], OutputRecord::EntryRange(None)));

    push_message_records(&mut records, 2, &[0x01, 0x02], &[0xde, 0xad, 0xbe, 0xef], 4);
    assert_eq!(field_parts(&records[3]), (2, "key_hex", false, "0102"));
    assert_eq!(field_parts(&records[4]), (2, "value_hex", false, "deadbeef"));
}

#[test]
fn namespaces_are_listed_in_ascending_order() {
    assert_eq!(namespace_listing(vec![42, 7]), "7\n42\n");
    assert_eq!(
        namespace_listing(vec![5_037_996_638_208, 4_398_046_511_104, 5_037_996_638_208]),
        "4398046511104\n5037996638208\n5037996638208\n"
    );
    assert_eq!(namespace_listing(Vec::new()), "");
}

#[test]
fn records_document_describes_each_record() {
    let records = vec![
        OutputRecord::EntryRange(None),
        OutputRecord::EntryRange(Some((10, 11))),
        OutputRecord::Field {
            entry_id: 1,
            field: "key".to_owned(),
            precise: false,
            content: "entry-key".to_owned(),
        },
    ];
    let items = match records_document(&records) {
        Json::Array(items) => items,
        _ => panic!("not an array"),
    };
    assert_eq!(items.len(), 3);
    let members = |j: &Json| -> Vec<String> {
        match j {
            Json::Object(members) => members.iter().map(|(k, _)| k.clone()).collect(),
            _ => panic!("not an object"),
        }
    };
    assert_eq!(members(&items[0]), vec!["type", "range"]);
    assert_eq!(members(&items[2]), vec!["type", "entry_id", "field", "precise", "content"]);
    match &items[0] {
        Json::Object(m) => {
            assert!(matches!(&m[0].1, Json::Str(t) if t == "entry_range"));
            assert!(matches!(m[1].1, Json::Null));
        }
        _ => panic!("not an object"),
    }
    match &items[1] {
        Json::Object(m) => match &m[1].1 {
            Json::Object(bounds) => {
                assert_eq!(bounds[0].0, "first");
                assert!(matches!(bounds[0].1, Json::UInt(10)));
                assert_eq!(bounds[1].0, "last");
                assert!(matches!(bounds[1].1, Json::UInt(11)));
            }
            _ => panic!("range is no object"),
        },
        _ => panic!("not an object"),
    }
    match &items[2] {
        Json::Object(m) => {
            assert!(matches!(&m[0].1, Json::Str(t) if t == "field"));
            assert!(matches!(m[1].1, Json::UInt(1)));
            assert!(matches!(&m[2].1, Json::Str(t) if t == "key"));
            assert!(matches!(m[3].1, Json::Bool(false)));
            assert!(matches!(&m[4].1, Json::Str(t) if t == "entry-key"));
        }
        _ => panic!("not an object"),
    }
}

#[test]
fn entry_document_decodes_the_payload_of_the_entry() {
    let raw = b"\x08\x0a\x10\x2a\x1a\x00";
    assert!(matches!(entry_document(raw, false), Some(Json::Object(_))));
    match entry_document(raw, true) {
        Some(Json::Object(members)) => {
            assert_eq!(members.len(), 1);
            assert_eq!(members[0].0, "wal_entry");
            assert!(matches!(&members[0].1, Json::Str(t) if t.starts_with("WalEntry")));
        }
        _ => panic!("no raw document"),
    }
    assert!(entry_document(b"\x22\x01\xff", false).is_none());
    assert!(entry_document(b"no payload", false).is_none());
}
