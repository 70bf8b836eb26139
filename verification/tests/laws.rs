use raft_engine_strings::cli::{inspect_entry_usage, parse_args, parse_u64_value, Command};
use raft_engine_strings::decimal::{i64_decimal, u64_decimal};
use raft_engine_strings::namespaces::namespace_listing;
use raft_engine_strings::records::filter_entry_range;
use raft_engine_strings::text::{decode_readable_char, push_if_long_enough};
use raft_engine_strings::varint::read_varint;
use raft_engine_strings::wire::extract_length_delimited_field;
use raft_engine_strings::wal::timestamp_parts;
use raft_engine_strings::{
    encode_hex, extract_log_store_entry_data, extract_raft_entry_data, extract_readable_strings,
};

#[test]
fn hex_of_concatenation_is_concatenation_of_hex() {
    let a = [0x01u8, 0x02];
    let b = [0x03u8, 0xff, 0x7a];
    let mut ab = a.to_vec();
    ab.extend_from_slice(&b);
    assert_eq!(encode_hex(&ab), format!("{}{}", encode_hex(&a), encode_hex(&b)));
    assert_eq!(encode_hex(&[]), "");
}

#[test]
fn hex_has_two_lowercase_digits_per_byte() {
    let bytes: Vec<u8> = (0..=255u8).collect();
    let hex = encode_hex(&bytes);
    assert_eq!(hex.len(), 2 * bytes.len());
    assert!(hex.chars().all(|c| c.is_ascii_digit() || ('a'..='f').contains(&c)));
    assert_eq!(&hex[2 * 0xab..2 * 0xab + 2], "ab");
}

#[test]
fn break_byte_splits_extraction() {
    let a = b"hello world  ";
    let b = "  second run \u{00e9}t\u{00e9}".as_bytes();
    for z in [0x00u8, 0x0a, 0x7f, 0xff, 0x80] {
        let mut whole = a.to_vec();
        whole.push(z);
        whole.extend_from_slice(b);
        let mut expected = extract_readable_strings(a, 4);
        expected.extend(extract_readable_strings(b, 4));
        assert_eq!(extract_readable_strings(&whole, 4), expected);
    }
    assert_eq!(
        extract_readable_strings(&whole_with_break(), 4),
        vec!["hello world", "second run \u{00e9}t\u{00e9}"]
    );
}

fn whole_with_break() -> Vec<u8> {
    let mut whole = b"hello world  ".to_vec();
    whole.push(0);
    whole.extend_from_slice("  second run \u{00e9}t\u{00e9}".as_bytes());
    whole
}

#[test]
fn extracted_strings_are_trimmed_long_and_readable() {
    let input = b"  a\x01  spaced  out  \x02\tx\t\x03\xe6\x95\xb0\xe6\x8d\xae\xe6\x95\xb0\xe6\x8d\xae\xc2\x85more";
    let strings = extract_readable_strings(input, 3);
    assert_eq!(strings, vec!["spaced  out", "数据数据", "more"]);
    for s in &strings {
        assert_eq!(s.trim(), s);
        assert!(s.chars().count() >= 3);
        assert!(s.chars().all(|c| !c.is_control() || c == '\t'));
    }
    assert!(extract_readable_strings(b"", 1).is_empty());
    assert_eq!(extract_readable_strings(b"", 0), vec![""]);
    assert_eq!(extract_readable_strings(b"   ", 0), vec![""]);
    assert_eq!(extract_readable_strings(b"\x00", 0), vec!["", ""]);
}

#[test]
fn varint_encoding_reads_back() {
    assert_eq!(read_varint(&[0xac, 0x02, 0x05]), Some((300, 2)));
    assert_eq!(read_varint(&[0x00]), Some((0, 1)));
    let max = [0xff, 0xff, 0xff, 0xff, 0xff, 0xff, 0xff, 0xff, 0xff, 0x01, 0x00];
    assert_eq!(read_varint(&max), Some((u64::MAX, 10)));
    assert_eq!(read_varint(&[0x80, 0x80]), None);
    assert_eq!(read_varint(&[]), None);
    assert_eq!(read_varint(&[0x80; 11]), None);
}

#[test]
fn leading_length_delimited_field_is_found() {
    let bytes = [0x22, 0x03, b'a', b'b', b'c', 0xff, 0xff];
    assert_eq!(extract_raft_entry_data(&bytes), Some(&b"abc"[..]));
    let bytes = [0x1a, 0x00];
    assert_eq!(extract_log_store_entry_data(&bytes), Some(&b""[..]));
}

#[test]
fn other_fields_are_skipped() {
    let bytes = [0x1a, 0x01, b'z', 0x22, 0x02, b'x', b'y'];
    assert_eq!(extract_raft_entry_data(&bytes), Some(&b"xy"[..]));
    let bytes = [0x08, 0x96, 0x01, 0x22, 0x01, b'q'];
    assert_eq!(extract_raft_entry_data(&bytes), Some(&b"q"[..]));
    let bytes = [0x09, 1, 2, 3, 4, 5, 6, 7, 8, 0x0d, 1, 2, 3, 4, 0x1a, 0x01, b'k'];
    assert_eq!(extract_log_store_entry_data(&bytes), Some(&b"k"[..]));
}

#[test]
fn malformed_fields_stop_the_search() {
    assert_eq!(extract_raft_entry_data(&[0x22, 0x05, b'a']), None);
    assert_eq!(extract_raft_entry_data(&[0x23, 0x01]), None);
    assert_eq!(extract_raft_entry_data(&[0x09, 1, 2]), None);
    assert_eq!(extract_raft_entry_data(&[0x1a, 0x01, b'z']), None);
    assert_eq!(extract_raft_entry_data(&[]), None);
}

#[test]
fn decimal_text_parses_back() {
    for n in [0u64, 7, 10, 42, 1_000_000, u64::MAX] {
        assert_eq!(parse_u64_value(&u64_decimal(n), "entry-id"), Ok(n));
        assert_eq!(u64_decimal(n), n.to_string());
    }
    for v in [0i64, -1, 42, i64::MIN, i64::MAX] {
        assert_eq!(i64_decimal(v), v.to_string());
    }
}

#[test]
fn inspect_command_round_trips_path_and_namespace() {
    for (path, namespace) in [("/wal", 0u64), ("relative dir", 4_398_046_511_104), ("", u64::MAX)] {
        let argv = vec![
            "inspect-entry".to_owned(),
            "--path".to_owned(),
            path.to_owned(),
            "--namespace".to_owned(),
            u64_decimal(namespace),
        ];
        match parse_args(&argv) {
            Ok(Command::InspectEntry(opts)) => {
                assert_eq!(opts.path, path);
                assert_eq!(opts.namespace, namespace);
                assert_eq!(opts.min_len, 4);
                assert!(opts.entry_id.is_none() && opts.output.is_none());
                assert!(!opts.raw && !opts.json);
            }
            _ => panic!("not parsed"),
        }
    }
}

#[test]
fn unknown_inspect_argument_is_refused_whatever_follows() {
    for arg in ["--verbose", "42", "", "--PATH"] {
        let argv = vec![
            "inspect-entry".to_owned(),
            arg.to_owned(),
            "--path".to_owned(),
            "/wal".to_owned(),
        ];
        match parse_args(&argv) {
            Err(e) => assert_eq!(e, format!("unknown argument: {arg}\n{}", inspect_entry_usage())),
            Ok(_) => panic!("accepted {arg}"),
        }
    }
}

#[test]
fn filtered_range_respects_every_bound() {
    let values = [None, Some(0u64), Some(5), Some(10), Some(11), Some(20), Some(u64::MAX)];
    for actual in [None, Some((5u64, 15u64)), Some((0, u64::MAX))] {
        for entry_id in values {
            for min in values {
                for max in values {
                    let Some((first, last)) = filter_entry_range(actual, entry_id, min, max) else {
                        continue;
                    };
                    assert!(first <= last);
                    if let Some(id) = entry_id {
                        assert_eq!((first, last), (id, id));
                    } else {
                        let (a, b) = actual.unwrap();
                        assert!(a <= first && last <= b);
                    }
                    assert!(min.map_or(true, |m| m <= first));
                    assert!(max.map_or(true, |m| last <= m));
                }
            }
        }
    }
    assert_eq!(filter_entry_range(Some((3, 9)), None, None, None), Some((3, 9)));
}

#[test]
fn timestamp_parts_give_the_value_back() {
    for units in [1i64, 1_000, 1_000_000, 1_000_000_000, 7] {
        for value in [0i64, 1, -1, 1_499, -1_501, i64::MIN, i64::MAX] {
            let (secs, nanos) = timestamp_parts(value, units);
            let rem = i128::from(value) - i128::from(secs) * i128::from(units);
            assert!(0 <= rem && rem < i128::from(units));
            assert!(nanos < 1_000_000_000);
            if 1_000_000_000 % units == 0 {
                assert_eq!(i128::from(nanos) * i128::from(units), rem * 1_000_000_000);
            }
        }
    }
}

#[test]
fn listing_ignores_the_order_namespaces_come_in() {
    let a = namespace_listing(vec![3, 1, 2, 1]);
    let b = namespace_listing(vec![1, 2, 1, 3]);
    assert_eq!(a, b);
    assert_eq!(a, "1\n1\n2\n3\n");
}

#[test]
fn larger_minimum_length_only_filters() {
    let input = b"ab\x00abc\x00  abcd  \x00abcde";
    let short = extract_readable_strings(input, 2);
    for m in 2..7 {
        let expected: Vec<String> = short
            .iter()
            .filter(|s| s.chars().count() >= m)
            .cloned()
            .collect();
        assert_eq!(extract_readable_strings(input, m), expected);
    }
}

#[test]
fn printable_input_comes_back_whole() {
    let input = b"key,with,comma!~";
    assert_eq!(extract_readable_strings(input, input.len()), vec!["key,with,comma!~"]);
    assert_eq!(extract_readable_strings(b"x", 0), vec!["x"]);
}

#[test]
fn located_payload_is_part_of_the_message() {
    let bytes = [0x08, 0x01, 0x1a, 0x02, b'z', b'z', 0x22, 0x03, b'a', b'b', b'c', 0x00];
    let payload = extract_raft_entry_data(&bytes).unwrap();
    let start = payload.as_ptr() as usize - bytes.as_ptr() as usize;
    assert_eq!(&bytes[start..start + payload.len()], payload);
    assert_eq!(payload, b"abc");
}

#[test]
fn varint_ends_at_first_clear_byte() {
    assert_eq!(read_varint(&[0x81, 0x81, 0x01, 0x7f]), Some((1 + 128 + 16_384, 3)));
    assert_eq!(read_varint(&[0x80; 10]), None);
    let mut ten = vec![0x80u8; 9];
    ten.push(0x00);
    assert_eq!(read_varint(&ten), Some((0, 10)));
}

#[test]
fn list_namespace_command_round_trips_its_path() {
    let argv = vec!["list-namespace".to_owned(), "--path".to_owned(), "/wal dir".to_owned()];
    match parse_args(&argv) {
        Ok(Command::ListNamespace { path }) => assert_eq!(path, "/wal dir"),
        _ => panic!("not list-namespace"),
    }
    let argv = vec!["list-namespace".to_owned(), "--raw".to_owned(), "x".to_owned()];
    assert!(matches!(parse_args(&argv), Err(e) if e.starts_with("unknown argument: --raw\n")));
}

#[test]
fn extracted_strings_occur_in_the_input() {
    let input = b"\x00\x01hello raft\x02\xffworld\nline  \t prefix \xe6\x95\xb0\xe6\x8d\xae suffix ";
    let strings = extract_readable_strings(input, 2);
    assert_eq!(strings, vec!["hello raft", "world", "line  \t prefix 数据 suffix"]);
    for s in &strings {
        let bytes = s.as_bytes();
        assert!(input.windows(bytes.len()).any(|w| w == bytes), "{s:?}");
    }
}

#[test]
fn hex_reads_back_to_the_bytes() {
    let bytes: Vec<u8> = vec![0x00, 0x0f, 0x10, 0xab, 0xff];
    let hex = encode_hex(&bytes);
    let back: Vec<u8> = (0..bytes.len())
        .map(|i| u8::from_str_radix(&hex[2 * i..2 * i + 2], 16).unwrap())
        .collect();
    assert_eq!(back, bytes);
    assert_ne!(encode_hex(&[0x01, 0x10]), encode_hex(&[0x11, 0x00]));
}

#[test]
fn private_steps_behave_as_stated() {
    use_steps();
}

fn use_steps() {
    assert_eq!(decode_readable_char(b"a\x00"), Some(('a', 1)));
    assert_eq!(decode_readable_char("数".as_bytes()), Some(('数', 3)));
    assert_eq!(decode_readable_char(b"\x7f"), None);
    assert_eq!(decode_readable_char(b"\xc2\x85"), None);
    let mut out = Vec::new();
    let mut current = "  hi there \t".to_owned();
    push_if_long_enough(&mut out, &mut current, 8);
    assert_eq!(out, vec!["hi there"]);
    assert!(current.is_empty());
    let mut current = " ab ".to_owned();
    push_if_long_enough(&mut out, &mut current, 3);
    assert_eq!(out, vec!["hi there"]);
    assert!(current.is_empty());
    assert_eq!(extract_length_delimited_field(b"\x3a\x01q", 7), Some(&b"q"[..]));
    assert_eq!(extract_length_delimited_field(b"\x3a\x01q", 8), None);
}
