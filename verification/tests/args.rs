use raft_engine_strings::cli::{
    inspect_entry_usage, list_namespace_usage, next_value, parse_args, parse_inspect_entry_args,
    parse_list_namespace_args, parse_u64_value, usage, Command, InspectEntryOpts,
    DEFAULT_MIN_LEN,
};

fn args(items: &[&str]) -> Vec<String> {
    items.iter().map(|s| (*s).to_owned()).collect()
}

fn inspect_opts(items: &[&str]) -> InspectEntryOpts {
    match parse_args(&args(items)) {
        Ok(Command::InspectEntry(opts)) => opts,
        Ok(Command::ListNamespace { .. }) => panic!("parsed as list-namespace"),
        Err(e) => panic!("refused: {e}"),
    }
}

fn refusal(items: &[&str]) -> String {
    match parse_args(&args(items)) {
        Ok(_) => panic!("accepted"),
        Err(e) => e,
    }
}

#[test]
fn inspect_entry_needs_only_path_and_namespace() {
    let opts = inspect_opts(&["inspect-entry", "--path", "/wal", "--namespace", "42"]);
    assert_eq!(opts.path, "/wal");
    assert_eq!(opts.namespace, 42);
    assert_eq!(opts.entry_id, None);
    assert_eq!(opts.min_entry_id, None);
    assert_eq!(opts.max_entry_id, None);
    assert_eq!(opts.min_len, DEFAULT_MIN_LEN);
    assert_eq!(opts.min_len, 4);
    assert_eq!(opts.output, None);
    assert!(!opts.raw);
    assert!(!opts.json);
    assert!(opts.scans_raw_messages());
}

#[test]
fn inspect_entry_reads_every_option() {
    let opts = inspect_opts(&[
        "inspect-entry",
        "-p",
        "/wal",
        "-n",
        "18446744073709551615",
        "--entry-id",
        "11",
        "--min-entry-id",
        "+10",
        "--max-entry-id",
        "12",
        "--min-len",
        "2",
        "-o",
        "out.txt",
        "--raw",
        "--json",
    ]);
    assert_eq!(opts.path, "/wal");
    assert_eq!(opts.namespace, u64::MAX);
    assert_eq!(opts.entry_id, Some(11));
    assert_eq!(opts.min_entry_id, Some(10));
    assert_eq!(opts.max_entry_id, Some(12));
    assert_eq!(opts.min_len, 2);
    assert_eq!(opts.output.as_deref(), Some("out.txt"));
    assert!(opts.raw);
    assert!(opts.json);
    assert!(!opts.scans_raw_messages());
}

#[test]
fn later_option_overrides_earlier_one() {
    let opts = inspect_opts(&[
        "inspect-entry",
        "--path",
        "/a",
        "--namespace",
        "1",
        "--path",
        "/b",
        "--namespace",
        "2",
    ]);
    assert_eq!(opts.path, "/b");
    assert_eq!(opts.namespace, 2);
}

#[test]
fn rejects_removed_pretty_print_flag_as_unknown_argument() {
    let e = refusal(&[
        "inspect-entry",
        "--path",
        "/wal",
        "--namespace",
        "42",
        "--pretty-print",
    ]);
    assert!(e.contains("unknown argument: --pretty-print"));
    assert!(!e.contains("--pretty-print]"));
    assert_eq!(e, format!("unknown argument: --pretty-print\n{}", inspect_entry_usage()));
}

#[test]
fn namespace_must_be_u64() {
    let e = refusal(&["inspect-entry", "--path", "/wal", "--namespace", "-1"]);
    assert!(e.contains("namespace must be a u64"));
    assert!(e.contains("--namespace <U64>"));
    let e = refusal(&["inspect-entry", "--path", "/wal", "--namespace", "18446744073709551616"]);
    assert!(e.starts_with("namespace must be a u64\n"));
    let e = refusal(&["inspect-entry", "--entry-id", "x"]);
    assert!(e.starts_with("entry-id must be a u64\n"));
}

#[test]
fn min_len_must_be_unsigned() {
    let e = refusal(&["inspect-entry", "--min-len", "-3"]);
    assert_eq!(e, "min-len must be an unsigned integer");
}

#[test]
fn flag_without_value_is_reported() {
    let e = refusal(&["inspect-entry", "--namespace", "1", "--path"]);
    assert_eq!(e, format!("missing value for --path\n{}", inspect_entry_usage()));
    let e = refusal(&["list-namespace", "-p"]);
    assert_eq!(e, format!("missing value for -p\n{}", list_namespace_usage()));
}

#[test]
fn missing_path_or_namespace_gives_usage() {
    assert_eq!(refusal(&["inspect-entry", "--path", "/wal"]), inspect_entry_usage());
    assert_eq!(refusal(&["inspect-entry", "--namespace", "3"]), inspect_entry_usage());
    assert_eq!(refusal(&["list-namespace"]), list_namespace_usage());
}

#[test]
fn help_and_unknown_subcommands() {
    assert_eq!(refusal(&[]), usage());
    assert_eq!(refusal(&["--help"]), usage());
    assert_eq!(refusal(&["-h"]), usage());
    assert_eq!(refusal(&["inspect-entry", "-h"]), inspect_entry_usage());
    assert_eq!(refusal(&["list-namespace", "--help"]), list_namespace_usage());
    assert_eq!(refusal(&["bogus"]), format!("unknown subcommand: bogus\n{}", usage()));
    assert_eq!(
        refusal(&["list-namespace", "--path", "/wal", "--json"]),
        format!("unknown argument: --json\n{}", list_namespace_usage())
    );
}

#[test]
fn list_namespace_reads_its_path() {
    match parse_args(&args(&["list-namespace", "--path", "/wal"])) {
        Ok(Command::ListNamespace { path }) => assert_eq!(path, "/wal"),
        _ => panic!("not list-namespace"),
    }
    match parse_list_namespace_args(&args(&["x", "-p", "/a"]), 1) {
        Ok(Command::ListNamespace { path }) => assert_eq!(path, "/a"),
        _ => panic!("not list-namespace"),
    }
}

#[test]
fn option_parsers_start_where_told() {
    match parse_inspect_entry_args(&args(&["skip", "--path", "/w", "-n", "9"]), 1) {
        Ok(Command::InspectEntry(opts)) => {
            assert_eq!(opts.path, "/w");
            assert_eq!(opts.namespace, 9);
        }
        _ => panic!("not inspect-entry"),
    }
    assert_eq!(
        next_value(&args(&["--path", "/w"]), 0, usage()),
        Ok("/w".to_owned())
    );
    assert_eq!(parse_u64_value("77", "entry-id"), Ok(77));
    assert_eq!(
        parse_u64_value("", "entry-id"),
        Err(format!("entry-id must be a u64\n{}", inspect_entry_usage()))
    );
}

#[test]
fn usage_texts() {
    assert_eq!(
        usage(),
        "usage: wal-reader <SUBCOMMAND> [OPTIONS]\nsubcommands:\n  list-namespace\n  inspect-entry"
    );
    assert_eq!(
        list_namespace_usage(),
        "usage: wal-reader list-namespace --path <RAFT_ENGINE_DIR>"
    );
    assert!(inspect_entry_usage().contains("[--raw] [--json]"));
}
