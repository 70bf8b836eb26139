use std::sync::Arc;

use arrow_array::{ArrayRef, Float64Array, RecordBatch, StringArray, TimestampMillisecondArray};
use arrow_flight::utils::batches_to_flight_data;
use arrow_flight::{FlightData, SchemaAsIpc};
use arrow_ipc::writer::{
    CompressionContext, DictionaryTracker, IpcDataGenerator, IpcWriteOptions,
};
use arrow_ipc::CompressionType;
use arrow_schema::{DataType, Field, Schema, TimeUnit, UnionFields, UnionMode};
use greptime_proto::v1::value::ValueData;
use greptime_proto::v1::{
    bulk_wal_entry, ArrowIpc, BulkWalEntry, ColumnSchema, Mutation, Row, Rows, Value, WalEntry,
};
use prost::Message;
use raft_engine_strings::wal::{
    bulk_rows_json, cell_json, decode_wal_entry_debug_document, decode_wal_entry_document,
    extract_wal_entry_strings, format_date, format_timestamp, mutation_json, row_json,
    timestamp_parts, ArrowIpcBody, Cell, Json, MutationModel, MutationRows,
};
use raft_engine_strings::ipc::{body_readable, decode_ipc_batches, schema_has_no_unions};
use serde_json::Number;

/// A document as a serde_json value, members inserted in order.
fn to_value(doc: Json) -> serde_json::Value {
    match doc {
        Json::Null => serde_json::Value::Null,
        Json::Bool(b) => serde_json::Value::Bool(b),
        Json::Int(v) => serde_json::Value::from(v),
        Json::UInt(v) => serde_json::Value::from(v),
        Json::Float(data) => {
            let number = match data {
                ValueData::F32Value(v) => Number::from_f64(f64::from(v)),
                ValueData::F64Value(v) => Number::from_f64(v),
                _ => None,
            };
            number.map(serde_json::Value::Number).unwrap_or(serde_json::Value::Null)
        }
        Json::Str(s) => serde_json::Value::String(s),
        Json::Array(items) => serde_json::Value::Array(items.into_iter().map(to_value).collect()),
        Json::Object(members) => {
            let mut object = serde_json::Map::new();
            for (key, value) in members {
                object.insert(key, to_value(value));
            }
            serde_json::Value::Object(object)
        }
        Json::Text(text) => serde_json::from_slice(&text).unwrap_or(serde_json::Value::Null),
    }
}

fn decode_wal_entry_json(bytes: &[u8]) -> Option<String> {
    let doc = decode_wal_entry_debug_document(bytes)?;
    serde_json::to_string(&to_value(doc)).ok()
}

fn decode_wal_entry_pretty_json(bytes: &[u8]) -> Option<String> {
    let doc = decode_wal_entry_document(bytes)?;
    serde_json::to_string_pretty(&to_value(doc)).ok()
}

fn obj(members: Vec<(&str, serde_json::Value)>) -> serde_json::Value {
    let mut object = serde_json::Map::new();
    for (key, value) in members {
        object.insert(key.to_owned(), value);
    }
    serde_json::Value::Object(object)
}

fn arr(items: Vec<serde_json::Value>) -> serde_json::Value {
    serde_json::Value::Array(items)
}

fn text_of(doc: Json) -> String {
    match doc {
        Json::Str(s) => s,
        _ => panic!("not a JSON string"),
    }
}

#[test]
fn decodes_wal_entry_before_extracting_strings() {
    let wal_entry = WalEntry {
        mutations: vec![Mutation {
            sequence: 42,
            ..Default::default()
        }],
        ..Default::default()
    };
    let bytes = wal_entry.encode_to_vec();

    let strings = extract_wal_entry_strings(&bytes, 4).unwrap();

    assert!(strings.iter().any(|s| s.contains("mutations")));
    assert!(strings.iter().any(|s| s.contains("sequence")));

    let json = decode_wal_entry_json(&bytes).unwrap();
    assert!(json.starts_with("{"));
    assert!(json.contains("\"wal_entry\""));
    assert!(json.contains("sequence: 42"));
}

#[test]
fn decodes_bulk_wal_entry_rows_as_json() {
    let schema = Arc::new(Schema::new(vec![
        Field::new("host", DataType::Utf8, false),
        Field::new(
            "ts",
            DataType::Timestamp(TimeUnit::Millisecond, None),
            false,
        ),
        Field::new("value", DataType::Float64, true),
    ]));
    let batch = RecordBatch::try_new(
        schema.clone(),
        vec![
            Arc::new(StringArray::from(vec!["host-a", "host-b"])) as ArrayRef,
            Arc::new(TimestampMillisecondArray::from(vec![
                1_700_000_000_000,
                1_700_000_001_000,
            ])) as ArrayRef,
            Arc::new(Float64Array::from(vec![Some(1.5), None])) as ArrayRef,
        ],
    )
    .unwrap();
    let flight_data = batches_to_flight_data(schema.as_ref(), [&batch]).unwrap();
    let wal_entry = WalEntry {
        bulk_entries: vec![BulkWalEntry {
            sequence: 10,
            min_ts: 1_700_000_000_000,
            max_ts: 1_700_000_001_000,
            timestamp_index: 1,
            body: Some(bulk_wal_entry::Body::ArrowIpc(ArrowIpc {
                schema: flight_data[0].data_header.clone(),
                data_header: flight_data[1].data_header.clone(),
                payload: flight_data[1].data_body.clone(),
            })),
        }],
        ..Default::default()
    };

    let json = decode_wal_entry_pretty_json(&wal_entry.encode_to_vec()).unwrap();

    assert!(json.contains(r#""sequence": 10"#), "{json}");
    assert!(json.contains(r#""host": "host-a""#), "{json}");
    assert!(json.contains(r#""ts": "2023-11-14T22:13:20Z""#), "{json}");
    assert!(json.contains(r#""value": null"#), "{json}");
}

#[test]
fn decodes_lz4_compressed_bulk_wal_entry_rows_as_json() {
    let schema = Arc::new(Schema::new(vec![
        Field::new(
            "greptime_timestamp",
            DataType::Timestamp(TimeUnit::Millisecond, None),
            false,
        ),
        Field::new("greptime_value", DataType::Float64, false),
    ]));
    let batch = RecordBatch::try_new(
        schema.clone(),
        vec![
            Arc::new(TimestampMillisecondArray::from(vec![1_735_689_600_000])) as ArrayRef,
            Arc::new(Float64Array::from(vec![1.0])) as ArrayRef,
        ],
    )
    .unwrap();
    let options = IpcWriteOptions::default()
        .try_with_compression(Some(CompressionType::LZ4_FRAME))
        .unwrap();
    let schema_data = FlightData::from(SchemaAsIpc::new(schema.as_ref(), &options));
    let data_gen = IpcDataGenerator::default();
    let mut dictionary_tracker = DictionaryTracker::new(false);
    let mut compression_context = CompressionContext::default();
    let (dictionaries, batch_data) = data_gen
        .encode(
            &batch,
            &mut dictionary_tracker,
            &options,
            &mut compression_context,
        )
        .unwrap();
    assert!(dictionaries.is_empty());
    let batch_data = FlightData::from(batch_data);
    let wal_entry = WalEntry {
        bulk_entries: vec![BulkWalEntry {
            sequence: 10,
            min_ts: 1_735_689_600_000,
            max_ts: 1_735_689_600_000,
            timestamp_index: 0,
            body: Some(bulk_wal_entry::Body::ArrowIpc(ArrowIpc {
                schema: schema_data.data_header,
                data_header: batch_data.data_header,
                payload: batch_data.data_body,
            })),
        }],
        ..Default::default()
    };

    let json = decode_wal_entry_pretty_json(&wal_entry.encode_to_vec()).unwrap();

    assert!(
        json.contains(r#""greptime_timestamp": "2025-01-01T00:00:00Z""#),
        "{json}"
    );
    assert!(json.contains(r#""greptime_value": 1.0"#), "{json}");
    assert!(!json.contains("failed to decode Arrow IPC rows"), "{json}");
}

#[test]
fn bytes_that_are_no_wal_entry_decode_to_nothing() {
    let bytes = [0xffu8];
    assert!(decode_wal_entry_document(&bytes).is_none());
    assert!(decode_wal_entry_debug_document(&bytes).is_none());
    assert!(extract_wal_entry_strings(&bytes, 4).is_none());
}

#[test]
fn empty_wal_entry_renders_empty_lists() {
    let bytes = WalEntry::default().encode_to_vec();
    let json = decode_wal_entry_pretty_json(&bytes).unwrap();
    let value: serde_json::Value = serde_json::from_str(&json).unwrap();
    assert_eq!(
        value,
        obj(vec![("wal_entry", obj(vec![("mutations", arr(vec![])), ("bulk_entries", arr(vec![]))]))])
    );
    assert!(json.contains("\"mutations\": []"), "{json}");
}

#[test]
fn mutation_rows_render_as_objects_keyed_by_column() {
    let wal_entry = WalEntry {
        mutations: vec![Mutation {
            op_type: 1,
            sequence: 42,
            rows: Some(Rows {
                schema: vec![
                    ColumnSchema {
                        column_name: "message".to_owned(),
                        ..Default::default()
                    },
                    ColumnSchema {
                        column_name: "timestamp".to_owned(),
                        ..Default::default()
                    },
                ],
                rows: vec![Row {
                    values: vec![
                        Value {
                            value_data: Some(ValueData::StringValue("hello".to_owned())),
                        },
                        Value {
                            value_data: Some(ValueData::TimestampNanosecondValue(1_000_000_000)),
                        },
                    ],
                }],
            }),
            ..Default::default()
        }],
        ..Default::default()
    };

    let json = decode_wal_entry_pretty_json(&wal_entry.encode_to_vec()).unwrap();

    assert!(json.contains("\"rows\": ["), "{json}");
    assert!(json.contains("\"message\": \"hello\""), "{json}");
    assert!(json.contains("\"timestamp\": \"1970-01-01T00:00:01Z\""), "{json}");
    assert!(json.contains("\"op_type\": \"PUT\""), "{json}");
    assert!(json.contains("\"sequence\": 42"), "{json}");
    assert!(!json.contains("\"schema\""), "{json}");
    assert!(!json.contains("\"values\""), "{json}");
}

#[test]
fn mutation_json_names_operation_types() {
    for (op_type, name) in [(0, "DELETE"), (1, "PUT"), (7, "UNKNOWN")] {
        let doc = mutation_json(MutationModel {
            op_type,
            sequence: 5,
            rows: None,
        });
        let value = to_value(doc);
        assert_eq!(value["op_type"], name);
        assert_eq!(value["sequence"], 5);
        assert_eq!(value["rows"], arr(vec![]));
    }
}

#[test]
fn row_json_pairs_columns_with_cells_as_far_as_both_go() {
    let columns = vec!["a".to_owned(), "b".to_owned(), "c".to_owned()];
    let doc = row_json(&columns, vec![Cell::Int(-3), Cell::Bool(true)]);
    let value = to_value(doc);
    assert_eq!(value, obj(vec![("a", serde_json::Value::from(-3)), ("b", serde_json::Value::from(true))]));

    let rows = MutationRows {
        columns: vec!["x".to_owned()],
        rows: vec![vec![Cell::UInt(1), Cell::UInt(2)], vec![Cell::Null]],
    };
    let doc = mutation_json(MutationModel {
        op_type: 0,
        sequence: 0,
        rows: Some(rows),
    });
    assert_eq!(
        to_value(doc)["rows"],
        arr(vec![obj(vec![("x", serde_json::Value::from(1))]), obj(vec![("x", serde_json::Value::Null)])])
    );
}

#[test]
fn cells_render_as_json_values() {
    assert_eq!(text_of(cell_json(Cell::Binary(vec![0xde, 0xad, 0xbe, 0xef]))), "deadbeef");
    assert_eq!(text_of(cell_json(Cell::Text("hi".to_owned()))), "hi");
    assert_eq!(text_of(cell_json(Cell::Date(0))), "1970-01-01");
    assert_eq!(
        text_of(cell_json(Cell::Datetime(1_700_000_000_000))),
        "2023-11-14T22:13:20Z"
    );
    assert_eq!(text_of(cell_json(Cell::TimestampSecond(1))), "1970-01-01T00:00:01Z");
    assert_eq!(
        text_of(cell_json(Cell::TimestampMicrosecond(1_500_000))),
        "1970-01-01T00:00:01.500Z"
    );
    assert_eq!(text_of(cell_json(Cell::Other("Decimal".to_owned()))), "Decimal");
    assert!(matches!(cell_json(Cell::Null), Json::Null));
    assert!(matches!(cell_json(Cell::UInt(7)), Json::UInt(7)));
    assert!(matches!(cell_json(Cell::Int(-7)), Json::Int(-7)));
    let float = cell_json(Cell::Float(ValueData::F64Value(2.5)));
    assert_eq!(to_value(float), serde_json::Value::from(2.5));
}

#[test]
fn dates_render_as_calendar_days_or_their_number() {
    assert_eq!(format_date(0), "1970-01-01");
    assert_eq!(format_date(19_723), "2024-01-01");
    assert_eq!(format_date(-1), "1969-12-31");
    assert_eq!(format_date(i32::MAX), "2147483647");
    assert_eq!(format_date(i32::MIN), "-2147483648");
}

#[test]
fn timestamps_render_in_utc_or_as_their_number() {
    assert_eq!(format_timestamp(1_700_000_000_000, 1_000), "2023-11-14T22:13:20Z");
    assert_eq!(format_timestamp(1_500, 1_000), "1970-01-01T00:00:01.500Z");
    assert_eq!(format_timestamp(-1, 1_000), "1969-12-31T23:59:59.999Z");
    assert_eq!(format_timestamp(1_000_000_000, 1_000_000_000), "1970-01-01T00:00:01Z");
    assert_eq!(format_timestamp(i64::MAX, 1), "9223372036854775807");
    assert_eq!(format_timestamp(i64::MIN, 1), "-9223372036854775808");
}

#[test]
fn timestamps_split_into_floored_seconds_and_nanoseconds() {
    assert_eq!(timestamp_parts(1_500, 1_000), (1, 500_000_000));
    assert_eq!(timestamp_parts(-1, 1_000), (-1, 999_000_000));
    assert_eq!(timestamp_parts(-2_000, 1_000), (-2, 0));
    assert_eq!(timestamp_parts(i64::MIN, 1_000_000_000), (-9_223_372_037, 145_224_192));
    assert_eq!(timestamp_parts(7, 3), (2, 333_333_333));
}

#[test]
fn bulk_rows_report_missing_or_undecodable_bodies() {
    let value = to_value(bulk_rows_json(None));
    assert_eq!(value, obj(vec![("error", serde_json::Value::from("missing Arrow IPC body"))]));

    let body = ArrowIpcBody {
        schema: vec![1, 2, 3],
        data_header: vec![4, 5, 6],
        payload: vec![7, 8, 9],
    };
    let value = to_value(bulk_rows_json(Some(body)));
    assert_eq!(
        value,
        obj(vec![("error", serde_json::Value::from("failed to decode Arrow IPC rows"))])
    );
}

#[test]
fn bulk_entry_without_body_keeps_its_fields() {
    let wal_entry = WalEntry {
        bulk_entries: vec![BulkWalEntry {
            sequence: 3,
            min_ts: -5,
            max_ts: 9,
            timestamp_index: 2,
            body: None,
        }],
        ..Default::default()
    };
    let doc = decode_wal_entry_document(&wal_entry.encode_to_vec()).unwrap();
    let value = to_value(doc);
    assert_eq!(
        value["wal_entry"]["bulk_entries"][0],
        obj(vec![
            ("sequence", serde_json::Value::from(3)),
            ("min_ts", serde_json::Value::from(-5)),
            ("max_ts", serde_json::Value::from(9)),
            ("timestamp_index", serde_json::Value::from(2)),
            (
                "rows",
                obj(vec![("error", serde_json::Value::from("missing Arrow IPC body"))]),
            ),
        ])
    );
}

fn host_batch_flight_data() -> Vec<FlightData> {
    let schema = Arc::new(Schema::new(vec![
        Field::new("host", DataType::Utf8, false),
        Field::new("value", DataType::Float64, true),
    ]));
    let batch = RecordBatch::try_new(
        schema.clone(),
        vec![
            Arc::new(StringArray::from(vec!["host-a", "host-b"])) as ArrayRef,
            Arc::new(Float64Array::from(vec![Some(1.5), None])) as ArrayRef,
        ],
    )
    .unwrap();
    batches_to_flight_data(schema.as_ref(), [&batch]).unwrap()
}

#[test]
fn body_shorter_than_its_buffers_is_refused_without_reading() {
    let flight_data = host_batch_flight_data();
    let header = flight_data[1].data_header.to_vec();
    let payload = flight_data[1].data_body.to_vec();
    assert!(body_readable(&header, &payload));
    assert!(!body_readable(&header, &payload[..4]));
    assert!(decode_ipc_batches(&flight_data[0].data_header, &header, &payload).is_some());
    assert!(decode_ipc_batches(&flight_data[0].data_header, &header, &payload[..4]).is_none());

    let body = ArrowIpcBody {
        schema: flight_data[0].data_header.to_vec(),
        data_header: header,
        payload: payload[..4].to_vec(),
    };
    assert_eq!(
        to_value(bulk_rows_json(Some(body))),
        obj(vec![("error", serde_json::Value::from("failed to decode Arrow IPC rows"))])
    );
}

#[test]
fn header_that_is_no_batch_message_leaves_the_body_unchecked() {
    assert!(body_readable(&[1, 2, 3], &[]));
}

#[test]
fn decodable_body_renders_its_rows() {
    let flight_data = host_batch_flight_data();
    let body = ArrowIpcBody {
        schema: flight_data[0].data_header.to_vec(),
        data_header: flight_data[1].data_header.to_vec(),
        payload: flight_data[1].data_body.to_vec(),
    };
    let rows = to_value(bulk_rows_json(Some(body)));
    assert_eq!(rows[0]["host"], "host-a");
    assert_eq!(rows[0]["value"], 1.5);
    assert_eq!(rows[1]["value"], serde_json::Value::Null);
}

fn entry_with_mutation(op_type: i32, sequence: u64) -> Vec<u8> {
    WalEntry {
        mutations: vec![Mutation {
            op_type,
            sequence,
            ..Default::default()
        }],
        ..Default::default()
    }
    .encode_to_vec()
}

#[test]
fn debug_document_begins_with_the_first_mutation() {
    let json = decode_wal_entry_json(&entry_with_mutation(0, 42)).unwrap();
    assert!(
        json.starts_with(r#"{"wal_entry":"WalEntry { mutations: [Mutation { op_type: Delete, sequence: 42,"#),
        "{json}"
    );
    let json = decode_wal_entry_json(&entry_with_mutation(1, 7)).unwrap();
    assert!(json.contains("op_type: Put, sequence: 7,"), "{json}");
    let json = decode_wal_entry_json(&entry_with_mutation(-3, 0)).unwrap();
    assert!(json.contains("op_type: -3, sequence: 0,"), "{json}");
    let json = decode_wal_entry_json(&WalEntry::default().encode_to_vec()).unwrap();
    assert!(
        json.starts_with(r#"{"wal_entry":"WalEntry { mutations: [], bulk_entries: ["#),
        "{json}"
    );
}

#[test]
fn first_extracted_string_begins_with_the_debug_opening() {
    let strings = extract_wal_entry_strings(&entry_with_mutation(1, 42), 4).unwrap();
    assert!(strings[0].starts_with("WalEntry { mutations: [Mutation { op_type: Put, sequence: 42,"));
    let strings = extract_wal_entry_strings(&WalEntry::default().encode_to_vec(), 23).unwrap();
    assert!(strings[0].starts_with("WalEntry { mutations: [], bulk_entries: ["));
}

#[test]
fn union_columns_are_refused_before_decoding() {
    let plain = host_batch_flight_data();
    assert!(schema_has_no_unions(&plain[0].data_header));
    assert!(schema_has_no_unions(&[0xff, 0x00]));

    let union_type = DataType::Union(
        UnionFields::try_new(vec![0i8], vec![Field::new("a", DataType::Int32, true)]).unwrap(),
        UnionMode::Sparse,
    );
    let schema = Schema::new(vec![Field::new("u", union_type, true)]);
    let options = IpcWriteOptions::default();
    let schema_data = FlightData::from(SchemaAsIpc::new(&schema, &options));
    assert!(!schema_has_no_unions(&schema_data.data_header));
    let body = ArrowIpcBody {
        schema: schema_data.data_header.to_vec(),
        data_header: plain[1].data_header.to_vec(),
        payload: plain[1].data_body.to_vec(),
    };
    assert_eq!(
        to_value(bulk_rows_json(Some(body))),
        obj(vec![("error", serde_json::Value::from("failed to decode Arrow IPC rows"))])
    );
}

#[test]
fn rows_keep_arrow_json_text() {
    let flight_data = host_batch_flight_data();
    let body = ArrowIpcBody {
        schema: flight_data[0].data_header.to_vec(),
        data_header: flight_data[1].data_header.to_vec(),
        payload: flight_data[1].data_body.to_vec(),
    };
    match bulk_rows_json(Some(body)) {
        Json::Text(text) => {
            let text = String::from_utf8(text).unwrap();
            assert!(text.contains(r#""host":"host-a""#), "{text}");
        }
        _ => panic!("rows are not arrow-json text"),
    }
}
