//! Command-line arguments: the two subcommands, their options and their error messages.
use vstd::prelude::*;
use crate::decimal::{decimal_digits, law_decimal_roundtrip, parsed_unsigned, parse_u64, parse_usize};
use crate::strbuf::{concat3, concat4, text_eq};

verus! {

/// Minimum printable string length used when `--min-len` is not given.
pub const DEFAULT_MIN_LEN: usize = 4;

/// Options of `inspect-entry`.
pub struct InspectEntryOpts {
    pub path: String,
    pub namespace: u64,
    pub entry_id: Option<u64>,
    pub min_entry_id: Option<u64>,
    pub max_entry_id: Option<u64>,
    pub min_len: usize,
    pub output: Option<String>,
    pub raw: bool,
    pub json: bool,
}

/// Options of `inspect-entry`, with text as character sequences.
pub struct InspectEntryOptsView {
    pub path: Seq<char>,
    pub namespace: u64,
    pub entry_id: Option<u64>,
    pub min_entry_id: Option<u64>,
    pub max_entry_id: Option<u64>,
    pub min_len: usize,
    pub output: Option<Seq<char>>,
    pub raw: bool,
    pub json: bool,
}

impl View for InspectEntryOpts {
    type V = InspectEntryOptsView;

    open spec fn view(&self) -> InspectEntryOptsView {
        InspectEntryOptsView {
            path: self.path@,
            namespace: self.namespace,
            entry_id: self.entry_id,
            min_entry_id: self.min_entry_id,
            max_entry_id: self.max_entry_id,
            min_len: self.min_len,
            output: self.output.deep_view(),
            raw: self.raw,
            json: self.json,
        }
    }
}

impl InspectEntryOpts {
    /// Whether the raw key/value messages of the namespace are listed too: only when no entry
    /// id filter is given.
    pub fn scans_raw_messages(&self) -> (res: bool)
        ensures
            res == (self.entry_id is None && self.min_entry_id is None && self.max_entry_id is None),
    {
        self.entry_id.is_none() && self.min_entry_id.is_none() && self.max_entry_id.is_none()
    }
}

/// A parsed command line.
pub enum Command {
    ListNamespace { path: String },
    InspectEntry(InspectEntryOpts),
}

/// A parsed command line, with text as character sequences.
pub enum CommandView {
    ListNamespace { path: Seq<char> },
    InspectEntry(InspectEntryOptsView),
}

impl View for Command {
    type V = CommandView;

    open spec fn view(&self) -> CommandView {
        match self {
            Command::ListNamespace { path } => CommandView::ListNamespace { path: path@ },
            Command::InspectEntry(opts) => CommandView::InspectEntry(opts@),
        }
    }
}

/// The outcome of parsing, with text as character sequences.
pub open spec fn parse_result_view(r: Result<Command, String>) -> Result<CommandView, Seq<char>> {
    match r {
        Ok(c) => Ok(c@),
        Err(e) => Err(e@),
    }
}

/// Text of the general usage message.
pub open spec fn usage_text() -> Seq<char> {
    "usage: wal-reader <SUBCOMMAND> [OPTIONS]\nsubcommands:\n  list-namespace\n  inspect-entry"@
}

/// Text of the usage message of `list-namespace`.
pub open spec fn list_namespace_usage_text() -> Seq<char> {
    "usage: wal-reader list-namespace --path <RAFT_ENGINE_DIR>"@
}

/// Text of the usage message of `inspect-entry`.
pub open spec fn inspect_entry_usage_text() -> Seq<char> {
    "usage: wal-reader inspect-entry --path <RAFT_ENGINE_DIR> --namespace <U64> [--entry-id <U64>] [--min-entry-id <U64>] [--max-entry-id <U64>] [--min-len <N>] [--output <FILE>] [--raw] [--json]"@
}

/// The message for a flag given last, without its value.
pub open spec fn missing_value_message(flag: Seq<char>, usage: Seq<char>) -> Seq<char> {
    "missing value for "@ + flag + "\n"@ + usage
}

/// The message for an argument that the subcommand does not know.
pub open spec fn unknown_argument_message(arg: Seq<char>, usage: Seq<char>) -> Seq<char> {
    "unknown argument: "@ + arg + "\n"@ + usage
}

/// The message for a subcommand that does not exist.
pub open spec fn unknown_subcommand_message(command: Seq<char>) -> Seq<char> {
    "unknown subcommand: "@ + command + "\n"@ + usage_text()
}

/// The message for a value that should have been a `u64`.
pub open spec fn not_u64_message(name: Seq<char>) -> Seq<char> {
    name + " must be a u64\n"@ + inspect_entry_usage_text()
}

/// The message for a `--min-len` value that is not an unsigned integer.
pub open spec fn bad_min_len_message() -> Seq<char> {
    "min-len must be an unsigned integer"@
}

/// The value after the flag at `i`, or the message for its absence.
pub open spec fn value_after(args: Seq<Seq<char>>, i: int, usage: Seq<char>) -> Result<
    Seq<char>,
    Seq<char>,
> {
    if i + 1 < args.len() {
        Ok(args[i + 1])
    } else {
        Err(missing_value_message(args[i], usage))
    }
}

/// A `u64` option value, or the message for a malformed one.
pub open spec fn u64_value(text: Seq<char>, name: Seq<char>) -> Result<u64, Seq<char>> {
    match parsed_unsigned(text, u64::MAX as nat) {
        Some(v) => Ok(v as u64),
        None => Err(not_u64_message(name)),
    }
}

/// What the options of `list-namespace` from position `i` on make, the path so far being
/// `path`.
pub open spec fn list_namespace_from(
    args: Seq<Seq<char>>,
    i: int,
    path: Option<Seq<char>>,
) -> Result<CommandView, Seq<char>>
    decreases args.len() - i,
{
    if i < 0 || i >= args.len() {
        match path {
            Some(p) => Ok(CommandView::ListNamespace { path: p }),
            None => Err(list_namespace_usage_text()),
        }
    } else {
        let arg = args[i];
        if arg == "-p"@ || arg == "--path"@ {
            match value_after(args, i, list_namespace_usage_text()) {
                Ok(v) => list_namespace_from(args, i + 2, Some(v)),
                Err(e) => Err(e),
            }
        } else if arg == "-h"@ || arg == "--help"@ {
            Err(list_namespace_usage_text())
        } else {
            Err(unknown_argument_message(arg, list_namespace_usage_text()))
        }
    }
}

/// The options of `inspect-entry` gathered so far.
pub struct InspectDraft {
    pub path: Option<Seq<char>>,
    pub namespace: Option<u64>,
    pub entry_id: Option<u64>,
    pub min_entry_id: Option<u64>,
    pub max_entry_id: Option<u64>,
    pub min_len: usize,
    pub output: Option<Seq<char>>,
    pub raw: bool,
    pub json: bool,
}

/// No option given yet.
pub open spec fn empty_draft() -> InspectDraft {
    InspectDraft {
        path: None,
        namespace: None,
        entry_id: None,
        min_entry_id: None,
        max_entry_id: None,
        min_len: DEFAULT_MIN_LEN,
        output: None,
        raw: false,
        json: false,
    }
}

/// The options once all are read: the path and the namespace are required.
pub open spec fn finish_draft(d: InspectDraft) -> Result<CommandView, Seq<char>> {
    match (d.path, d.namespace) {
        (Some(path), Some(namespace)) => Ok(
            CommandView::InspectEntry(
                InspectEntryOptsView {
                    path,
                    namespace,
                    entry_id: d.entry_id,
                    min_entry_id: d.min_entry_id,
                    max_entry_id: d.max_entry_id,
                    min_len: d.min_len,
                    output: d.output,
                    raw: d.raw,
                    json: d.json,
                },
            ),
        ),
        _ => Err(inspect_entry_usage_text()),
    }
}

/// What the options of `inspect-entry` from position `i` on make, given those gathered so
/// far. A later occurrence of an option overrides an earlier one.
pub open spec fn inspect_entry_from(args: Seq<Seq<char>>, i: int, d: InspectDraft) -> Result<
    CommandView,
    Seq<char>,
>
    decreases args.len() - i,
{
    if i < 0 || i >= args.len() {
        finish_draft(d)
    } else {
        let arg = args[i];
        let usage = inspect_entry_usage_text();
        if arg == "-p"@ || arg == "--path"@ {
            match value_after(args, i, usage) {
                Ok(v) => inspect_entry_from(args, i + 2, InspectDraft { path: Some(v), ..d }),
                Err(e) => Err(e),
            }
        } else if arg == "-n"@ || arg == "--namespace"@ {
            match value_after(args, i, usage) {
                Ok(v) => match u64_value(v, "namespace"@) {
                    Ok(n) => inspect_entry_from(args, i + 2, InspectDraft { namespace: Some(n), ..d }),
                    Err(e) => Err(e),
                },
                Err(e) => Err(e),
            }
        } else if arg == "--entry-id"@ {
            match value_after(args, i, usage) {
                Ok(v) => match u64_value(v, "entry-id"@) {
                    Ok(n) => inspect_entry_from(args, i + 2, InspectDraft { entry_id: Some(n), ..d }),
                    Err(e) => Err(e),
                },
                Err(e) => Err(e),
            }
        } else if arg == "--min-entry-id"@ {
            match value_after(args, i, usage) {
                Ok(v) => match u64_value(v, "min-entry-id"@) {
                    Ok(n) => inspect_entry_from(
                        args,
                        i + 2,
                        InspectDraft { min_entry_id: Some(n), ..d },
                    ),
                    Err(e) => Err(e),
                },
                Err(e) => Err(e),
            }
        } else if arg == "--max-entry-id"@ {
            match value_after(args, i, usage) {
                Ok(v) => match u64_value(v, "max-entry-id"@) {
                    Ok(n) => inspect_entry_from(
                        args,
                        i + 2,
                        InspectDraft { max_entry_id: Some(n), ..d },
                    ),
                    Err(e) => Err(e),
                },
                Err(e) => Err(e),
            }
        } else if arg == "--min-len"@ {
            match value_after(args, i, usage) {
                Ok(v) => match parsed_unsigned(v, usize::MAX as nat) {
                    Some(n) => inspect_entry_from(
                        args,
                        i + 2,
                        InspectDraft { min_len: n as usize, ..d },
                    ),
                    None => Err(bad_min_len_message()),
                },
                Err(e) => Err(e),
            }
        } else if arg == "-o"@ || arg == "--output"@ {
            match value_after(args, i, usage) {
                Ok(v) => inspect_entry_from(args, i + 2, InspectDraft { output: Some(v), ..d }),
                Err(e) => Err(e),
            }
        } else if arg == "--raw"@ {
            inspect_entry_from(args, i + 1, InspectDraft { raw: true, ..d })
        } else if arg == "--json"@ {
            inspect_entry_from(args, i + 1, InspectDraft { json: true, ..d })
        } else if arg == "-h"@ || arg == "--help"@ {
            Err(usage)
        } else {
            Err(unknown_argument_message(arg, usage))
        }
    }
}

/// What a command line (without the program name) makes.
pub open spec fn parsed_command(args: Seq<Seq<char>>) -> Result<CommandView, Seq<char>> {
    if args.len() == 0 {
        Err(usage_text())
    } else {
        let command = args[0];
        if command == "list-namespace"@ {
            list_namespace_from(args, 1, None)
        } else if command == "inspect-entry"@ {
            inspect_entry_from(args, 1, empty_draft())
        } else if command == "-h"@ || command == "--help"@ {
            Err(usage_text())
        } else {
            Err(unknown_subcommand_message(command))
        }
    }
}

/// The general usage message.
pub fn usage() -> (res: String)
    ensures
        res@ == usage_text(),
{
    "usage: wal-reader <SUBCOMMAND> [OPTIONS]\nsubcommands:\n  list-namespace\n  inspect-entry".to_owned()
}

/// The usage message of `list-namespace`.
pub fn list_namespace_usage() -> (res: String)
    ensures
        res@ == list_namespace_usage_text(),
{
    "usage: wal-reader list-namespace --path <RAFT_ENGINE_DIR>".to_owned()
}

/// The usage message of `inspect-entry`.
pub fn inspect_entry_usage() -> (res: String)
    ensures
        res@ == inspect_entry_usage_text(),
{
    "usage: wal-reader inspect-entry --path <RAFT_ENGINE_DIR> --namespace <U64> [--entry-id <U64>] [--min-entry-id <U64>] [--max-entry-id <U64>] [--min-len <N>] [--output <FILE>] [--raw] [--json]".to_owned()
}

/// The argument after the flag at `flag_index`.
pub fn next_value(args: &Vec<String>, flag_index: usize, usage: String) -> (res: Result<
    String,
    String,
>)
    requires
        flag_index < args@.len(),
    ensures
        match (res, value_after(args.deep_view(), flag_index as int, usage@)) {
            (Ok(v), Ok(w)) => v@ == w,
            (Err(e), Err(f)) => e@ == f,
            _ => false,
        },
{
    if flag_index < args.len() - 1 {
        Ok(args[flag_index + 1].clone())
    } else {
        Err(concat4("missing value for ", args[flag_index].as_str(), "\n", usage.as_str()))
    }
}

/// `value` read as a `u64`, or the message that names the option it was given for.
pub fn parse_u64_value(value: &str, name: &str) -> (res: Result<u64, String>)
    ensures
        match (res, u64_value(value@, name@)) {
            (Ok(v), Ok(w)) => v == w,
            (Err(e), Err(f)) => e@ == f,
            _ => false,
        },
{
    match parse_u64(value) {
        Some(v) => Ok(v),
        None => {
            let usage = inspect_entry_usage();
            Err(concat3(name, " must be a u64\n", usage.as_str()))
        },
    }
}

/// Parses the options of `list-namespace`, which start at position `start` of `args`.
pub fn parse_list_namespace_args(args: &Vec<String>, start: usize) -> (res: Result<
    Command,
    String,
>)
    requires
        start <= args@.len(),
    ensures
        parse_result_view(res) == list_namespace_from(args.deep_view(), start as int, None),
{
    let ghost argv = args.deep_view();
    let mut path: Option<String> = None;
    let mut i = start;
    while i < args.len()
        invariant
            argv == args.deep_view(),
            start <= i <= args@.len(),
            list_namespace_from(argv, start as int, None) == list_namespace_from(
                argv,
                i as int,
                path.deep_view(),
            ),
        decreases args@.len() - i,
    {
        let arg = args[i].as_str();
        if text_eq(arg, "-p") || text_eq(arg, "--path") {
            match next_value(args, i, list_namespace_usage()) {
                Ok(v) => {
                    path = Some(v);
                    i = i + 2;
                },
                Err(e) => return Err(e),
            }
        } else if text_eq(arg, "-h") || text_eq(arg, "--help") {
            return Err(list_namespace_usage());
        } else {
            let usage = list_namespace_usage();
            return Err(concat4("unknown argument: ", arg, "\n", usage.as_str()));
        }
    }
    match path {
        Some(path) => Ok(Command::ListNamespace { path }),
        None => Err(list_namespace_usage()),
    }
}

/// Parses the options of `inspect-entry`, which start at position `start` of `args`.
pub fn parse_inspect_entry_args(args: &Vec<String>, start: usize) -> (res: Result<
    Command,
    String,
>)
    requires
        start <= args@.len(),
    ensures
        parse_result_view(res) == inspect_entry_from(args.deep_view(), start as int, empty_draft()),
{
    let ghost argv = args.deep_view();
    let mut path: Option<String> = None;
    let mut namespace: Option<u64> = None;
    let mut entry_id: Option<u64> = None;
    let mut min_entry_id: Option<u64> = None;
    let mut max_entry_id: Option<u64> = None;
    let mut min_len: usize = DEFAULT_MIN_LEN;
    let mut output: Option<String> = None;
    let mut raw = false;
    let mut json = false;
    let mut i = start;
    while i < args.len()
        invariant
            argv == args.deep_view(),
            start <= i <= args@.len(),
            inspect_entry_from(argv, start as int, empty_draft()) == inspect_entry_from(
                argv,
                i as int,
                InspectDraft {
                    path: path.deep_view(),
                    namespace,
                    entry_id,
                    min_entry_id,
                    max_entry_id,
                    min_len,
                    output: output.deep_view(),
                    raw,
                    json,
                },
            ),
        decreases args@.len() - i,
    {
        let arg = args[i].as_str();
        if text_eq(arg, "-p") || text_eq(arg, "--path") {
            let v = next_value(args, i, inspect_entry_usage())?;
            path = Some(v);
            i = i + 2;
        } else if text_eq(arg, "-n") || text_eq(arg, "--namespace") {
            let v = next_value(args, i, inspect_entry_usage())?;
            namespace = Some(parse_u64_value(v.as_str(), "namespace")?);
            i = i + 2;
        } else if text_eq(arg, "--entry-id") {
            let v = next_value(args, i, inspect_entry_usage())?;
            entry_id = Some(parse_u64_value(v.as_str(), "entry-id")?);
            i = i + 2;
        } else if text_eq(arg, "--min-entry-id") {
            let v = next_value(args, i, inspect_entry_usage())?;
            min_entry_id = Some(parse_u64_value(v.as_str(), "min-entry-id")?);
            i = i + 2;
        } else if text_eq(arg, "--max-entry-id") {
            let v = next_value(args, i, inspect_entry_usage())?;
            max_entry_id = Some(parse_u64_value(v.as_str(), "max-entry-id")?);
            i = i + 2;
        } else if text_eq(arg, "--min-len") {
            let v = next_value(args, i, inspect_entry_usage())?;
            match parse_usize(v.as_str()) {
                Some(n) => min_len = n,
                None => return Err("min-len must be an unsigned integer".to_owned()),
            }
            i = i + 2;
        } else if text_eq(arg, "-o") || text_eq(arg, "--output") {
            let v = next_value(args, i, inspect_entry_usage())?;
            output = Some(v);
            i = i + 2;
        } else if text_eq(arg, "--raw") {
            raw = true;
            i = i + 1;
        } else if text_eq(arg, "--json") {
            json = true;
            i = i + 1;
        } else if text_eq(arg, "-h") || text_eq(arg, "--help") {
            return Err(inspect_entry_usage());
        } else {
            let usage = inspect_entry_usage();
            return Err(concat4("unknown argument: ", arg, "\n", usage.as_str()));
        }
    }
    let path = match path {
        Some(p) => p,
        None => return Err(inspect_entry_usage()),
    };
    let namespace = match namespace {
        Some(n) => n,
        None => return Err(inspect_entry_usage()),
    };
    Ok(
        Command::InspectEntry(
            InspectEntryOpts {
                path,
                namespace,
                entry_id,
                min_entry_id,
                max_entry_id,
                min_len,
                output,
                raw,
                json,
            },
        ),
    )
}

/// Parses a command line given without the program name.
pub fn parse_args(args: &Vec<String>) -> (res: Result<Command, String>)
    ensures
        parse_result_view(res) == parsed_command(args.deep_view()),
{
    if args.len() == 0 {
        return Err(usage());
    }
    let command = args[0].as_str();
    if text_eq(command, "list-namespace") {
        parse_list_namespace_args(args, 1)
    } else if text_eq(command, "inspect-entry") {
        parse_inspect_entry_args(args, 1)
    } else if text_eq(command, "-h") || text_eq(command, "--help") {
        Err(usage())
    } else {
        let general = usage();
        Err(concat4("unknown subcommand: ", command, "\n", general.as_str()))
    }
}

/// The flags that `inspect-entry` knows.
pub open spec fn is_inspect_entry_flag(arg: Seq<char>) -> bool {
    ||| arg == "-p"@
    ||| arg == "--path"@
    ||| arg == "-n"@
    ||| arg == "--namespace"@
    ||| arg == "--entry-id"@
    ||| arg == "--min-entry-id"@
    ||| arg == "--max-entry-id"@
    ||| arg == "--min-len"@
    ||| arg == "-o"@
    ||| arg == "--output"@
    ||| arg == "--raw"@
    ||| arg == "--json"@
    ||| arg == "-h"@
    ||| arg == "--help"@
}

/// Naming a path and, as `list-namespace` prints it, a namespace is enough: the command line
/// parses to inspecting that namespace with every other option at its default.
pub proof fn law_inspect_command_roundtrip(path: Seq<char>, namespace: u64)
    ensures
        parsed_command(
            seq!["inspect-entry"@, "--path"@, path, "--namespace"@, decimal_digits(namespace as nat)],
        ) == Ok::<CommandView, Seq<char>>(
            CommandView::InspectEntry(
                InspectEntryOptsView {
                    path,
                    namespace,
                    entry_id: None,
                    min_entry_id: None,
                    max_entry_id: None,
                    min_len: DEFAULT_MIN_LEN,
                    output: None,
                    raw: false,
                    json: false,
                },
            ),
        ),
{
    reveal_strlit("inspect-entry");
    reveal_strlit("list-namespace");
    reveal_strlit("--path");
    reveal_strlit("-p");
    reveal_strlit("-n");
    reveal_strlit("--namespace");
    law_decimal_roundtrip(namespace as nat, u64::MAX as nat);
    let args = seq!["inspect-entry"@, "--path"@, path, "--namespace"@, decimal_digits(namespace as nat)];
    let d1 = InspectDraft { path: Some(path), ..empty_draft() };
    let d2 = InspectDraft { namespace: Some(namespace), ..d1 };
    assert(inspect_entry_from(args, 5, d2) == finish_draft(d2));
    assert(args[3] == "--namespace"@);
    assert(args[4] == decimal_digits(namespace as nat));
    assert("--namespace"@.len() == 11 && "-p"@.len() == 2 && "--path"@.len() == 6 && "-n"@.len()
        == 2);
    assert("inspect-entry"@.len() == 13 && "list-namespace"@.len() == 14);
    assert("--namespace"@ != "-p"@ && "--namespace"@ != "--path"@ && "--namespace"@ != "-n"@);
    assert("--path"@ != "-p"@);
    assert("inspect-entry"@ != "list-namespace"@);
    assert(value_after(args, 3, inspect_entry_usage_text()) == Ok::<Seq<char>, Seq<char>>(
        decimal_digits(namespace as nat),
    ));
    assert(u64_value(decimal_digits(namespace as nat), "namespace"@) == Ok::<u64, Seq<char>>(
        namespace,
    ));
    assert(inspect_entry_from(args, 3, d1) == inspect_entry_from(args, 5, d2));
    assert(inspect_entry_from(args, 1, empty_draft()) == inspect_entry_from(args, 3, d1));
}

/// An argument that `inspect-entry` does not know is refused, with a message naming it
/// followed by the usage.
pub proof fn law_unknown_inspect_argument(arg: Seq<char>, rest: Seq<Seq<char>>)
    requires
        !is_inspect_entry_flag(arg),
    ensures
        parsed_command(seq!["inspect-entry"@, arg] + rest) == Err::<CommandView, Seq<char>>(
            unknown_argument_message(arg, inspect_entry_usage_text()),
        ),
{
    reveal_strlit("inspect-entry");
    reveal_strlit("list-namespace");
    let args = seq!["inspect-entry"@, arg] + rest;
    assert("inspect-entry"@.len() == 13 && "list-namespace"@.len() == 14);
    assert("inspect-entry"@ != "list-namespace"@);
    assert(args[0] == "inspect-entry"@);
    assert(args[1] == arg);
}

/// Naming a path is all that `list-namespace` needs: the command line parses to listing
/// the namespaces of that directory.
pub proof fn law_list_namespace_roundtrip(path: Seq<char>)
    ensures
        parsed_command(seq!["list-namespace"@, "--path"@, path]) == Ok::<CommandView, Seq<char>>(
            CommandView::ListNamespace { path },
        ),
{
    reveal_strlit("list-namespace");
    reveal_strlit("--path");
    let args = seq!["list-namespace"@, "--path"@, path];
    assert(args[0] == "list-namespace"@);
    assert(args[1] == "--path"@);
    assert(value_after(args, 1, list_namespace_usage_text()) == Ok::<Seq<char>, Seq<char>>(path));
    assert(list_namespace_from(args, 3, Some(path)) == Ok::<CommandView, Seq<char>>(
        CommandView::ListNamespace { path },
    ));
    assert(list_namespace_from(args, 1, None) == list_namespace_from(args, 3, Some(path)));
}

/// An argument that `list-namespace` does not know is refused, with a message naming it
/// followed by the usage.
pub proof fn law_unknown_list_namespace_argument(arg: Seq<char>, rest: Seq<Seq<char>>)
    requires
        arg != "-p"@,
        arg != "--path"@,
        arg != "-h"@,
        arg != "--help"@,
    ensures
        parsed_command(seq!["list-namespace"@, arg] + rest) == Err::<CommandView, Seq<char>>(
            unknown_argument_message(arg, list_namespace_usage_text()),
        ),
{
    reveal_strlit("list-namespace");
    let args = seq!["list-namespace"@, arg] + rest;
    assert(args[0] == "list-namespace"@);
    assert(args[1] == arg);
}

/// `--json` asks for JSON output and leaves the content structured; `--raw` asks for the
/// `Debug` content and leaves the output plain text. Neither flag sets the other.
pub proof fn law_output_flags(path: Seq<char>, namespace: u64)
    ensures
        parsed_command(
            seq![
                "inspect-entry"@,
                "--path"@,
                path,
                "--namespace"@,
                decimal_digits(namespace as nat),
                "--json"@,
            ],
        ) matches Ok(CommandView::InspectEntry(o)) && o.json && !o.raw && o.path == path
            && o.namespace == namespace,
        parsed_command(
            seq![
                "inspect-entry"@,
                "--path"@,
                path,
                "--namespace"@,
                decimal_digits(namespace as nat),
                "--raw"@,
            ],
        ) matches Ok(CommandView::InspectEntry(o)) && o.raw && !o.json && o.path == path
            && o.namespace == namespace,
{
    reveal_strlit("inspect-entry");
    reveal_strlit("list-namespace");
    reveal_strlit("--path");
    reveal_strlit("-p");
    reveal_strlit("-n");
    reveal_strlit("--namespace");
    reveal_strlit("--entry-id");
    reveal_strlit("--min-entry-id");
    reveal_strlit("--max-entry-id");
    reveal_strlit("--min-len");
    reveal_strlit("-o");
    reveal_strlit("--output");
    reveal_strlit("--raw");
    reveal_strlit("--json");
    reveal_strlit("-h");
    reveal_strlit("--help");
    law_decimal_roundtrip(namespace as nat, u64::MAX as nat);
    let digits = decimal_digits(namespace as nat);
    assert("--namespace"@.len() == 11 && "-p"@.len() == 2 && "--path"@.len() == 6 && "-n"@.len()
        == 2);
    assert("inspect-entry"@.len() == 13 && "list-namespace"@.len() == 14);
    assert("--entry-id"@.len() == 10 && "--min-entry-id"@.len() == 14 && "--max-entry-id"@.len()
        == 14 && "--min-len"@.len() == 9 && "-o"@.len() == 2 && "--output"@.len() == 8);
    assert("--raw"@.len() == 5 && "--json"@.len() == 6 && "--path"@[2] == 'p');
    assert("inspect-entry"@ != "list-namespace"@);
    assert("--namespace"@ != "-p"@ && "--namespace"@ != "--path"@ && "--namespace"@ != "-n"@);
    assert("--path"@ != "-p"@);
    assert(u64_value(digits, "namespace"@) == Ok::<u64, Seq<char>>(namespace));
    let d1 = InspectDraft { path: Some(path), ..empty_draft() };
    let d2 = InspectDraft { namespace: Some(namespace), ..d1 };
    let flag = "--json"@;
    assert(flag[2] == 'j');
    assert(flag != "-p"@ && flag != "--path"@ && flag != "-n"@ && flag != "--namespace"@);
    assert(flag != "--entry-id"@ && flag != "--min-entry-id"@ && flag != "--max-entry-id"@);
    assert(flag != "--min-len"@ && flag != "-o"@ && flag != "--output"@ && flag != "--raw"@);
    let args = seq!["inspect-entry"@, "--path"@, path, "--namespace"@, digits, flag];
    assert(args[3] == "--namespace"@ && args[4] == digits && args[5] == flag);
    assert(inspect_entry_from(args, 6, InspectDraft { json: true, ..d2 }) == finish_draft(
        InspectDraft { json: true, ..d2 },
    ));
    assert(inspect_entry_from(args, 5, d2) == inspect_entry_from(
        args,
        6,
        InspectDraft { json: true, ..d2 },
    ));
    assert(value_after(args, 3, inspect_entry_usage_text()) == Ok::<Seq<char>, Seq<char>>(digits));
    assert(inspect_entry_from(args, 3, d1) == inspect_entry_from(args, 5, d2));
    assert(inspect_entry_from(args, 1, empty_draft()) == inspect_entry_from(args, 3, d1));
    let flag = "--raw"@;
    assert(flag[2] == 'r');
    assert(flag != "-p"@ && flag != "--path"@ && flag != "-n"@ && flag != "--namespace"@);
    assert(flag != "--entry-id"@ && flag != "--min-entry-id"@ && flag != "--max-entry-id"@);
    assert(flag != "--min-len"@ && flag != "-o"@ && flag != "--output"@);
    let args = seq!["inspect-entry"@, "--path"@, path, "--namespace"@, digits, flag];
    assert(args[3] == "--namespace"@ && args[4] == digits && args[5] == flag);
    assert(inspect_entry_from(args, 6, InspectDraft { raw: true, ..d2 }) == finish_draft(
        InspectDraft { raw: true, ..d2 },
    ));
    assert(inspect_entry_from(args, 5, d2) == inspect_entry_from(
        args,
        6,
        InspectDraft { raw: true, ..d2 },
    ));
    assert(value_after(args, 3, inspect_entry_usage_text()) == Ok::<Seq<char>, Seq<char>>(digits));
    assert(inspect_entry_from(args, 3, d1) == inspect_entry_from(args, 5, d2));
    assert(inspect_entry_from(args, 1, empty_draft()) == inspect_entry_from(args, 3, d1));
}

} // verus!
