use raft_engine_strings::{
    encode_hex, extract_log_store_entry_data, extract_raft_entry_data, extract_readable_strings,
};

#[test]
fn extracts_printable_ascii_runs_from_binary_data() {
    let input = b"\x00\x01hello raft\x02\xffworld\nline";

    let strings = extract_readable_strings(input, 4);

    assert_eq!(strings, vec!["hello raft", "world", "line"]);
}

#[test]
fn extracts_valid_utf8_words() {
    let input = b"prefix \xe6\x95\xb0\xe6\x8d\xae suffix";

    let strings = extract_readable_strings(input, 2);

    assert_eq!(strings, vec!["prefix 数据 suffix"]);
}

#[test]
fn ignores_short_runs() {
    let input = b"ab\x00cde\x00long";

    let strings = extract_readable_strings(input, 4);

    assert_eq!(strings, vec!["long"]);
}

#[test]
fn encodes_bytes_as_lowercase_hex() {
    assert_eq!(encode_hex(&[0x00, 0xab, 0xff]), "00abff");
}

#[test]
fn extracts_raft_entry_data_field_without_validating_other_fields() {
    let bytes = b"\x08\xff\x01\x18\x0a\x22\x05hello";

    assert_eq!(extract_raft_entry_data(bytes), Some(&b"hello"[..]));
}

#[test]
fn extracts_log_store_entry_data_field() {
    let bytes = b"\x08\x2a\x10\x07\x1a\x05hello";

    assert_eq!(extract_log_store_entry_data(bytes), Some(&b"hello"[..]));
}
