//! Output records of `inspect-entry` and their plain-text rendering.
use vstd::prelude::*;
use vstd::string::StringExecFns;
use crate::decimal::{decimal_digits, u64_decimal};
use crate::hex::{encode_hex, hex_encoding};
use crate::text::{extract_readable_strings, readable_strings, string_views};
use crate::text::starts_with;
use crate::wal::{
    debug_document_is, debug_opening, single_rendering, wal_entry_model, decode_wal_entry_debug_document, decode_wal_entry_document, is_text,
    structured_document_is, wal_entry_decodes, Json,
};
use crate::wire::{
    extract_log_store_entry_data, extract_raft_entry_data, field_payload,
    LOG_STORE_ENTRY_DATA_FIELD, RAFT_ENTRY_DATA_FIELD,
};

verus! {

/// One unit of `inspect-entry` output.
pub enum OutputRecord {
    /// The raft entry id range that is inspected, if any.
    EntryRange(Option<(u64, u64)>),
    /// The rendered content of one field of one entry.
    Field { entry_id: u64, field: String, precise: bool, content: String },
}

/// An output record, with text as character sequences.
pub enum OutputRecordView {
    EntryRange(Option<(u64, u64)>),
    Field { entry_id: u64, field: Seq<char>, precise: bool, content: Seq<char> },
}

impl View for OutputRecord {
    type V = OutputRecordView;

    open spec fn view(&self) -> OutputRecordView {
        match self {
            OutputRecord::EntryRange(r) => OutputRecordView::EntryRange(*r),
            OutputRecord::Field { entry_id, field, precise, content } => OutputRecordView::Field {
                entry_id: *entry_id,
                field: field@,
                precise: *precise,
                content: content@,
            },
        }
    }
}

/// The views of a sequence of records.
pub open spec fn record_views(records: Seq<OutputRecord>) -> Seq<OutputRecordView> {
    records.map_values(|r: OutputRecord| r@)
}

/// The entry id range to inspect: the namespace's actual range, replaced by the single id
/// `entry_id` when one is given, then narrowed by the lower and upper bounds. None when the
/// namespace has no entries or nothing is left.
pub open spec fn filtered_range(
    actual: Option<(u64, u64)>,
    entry_id: Option<u64>,
    min_entry_id: Option<u64>,
    max_entry_id: Option<u64>,
) -> Option<(u64, u64)> {
    match actual {
        None => None,
        Some((first, last)) => {
            let (first, last) = match entry_id {
                Some(id) => (id, id),
                None => (first, last),
            };
            let first = match min_entry_id {
                Some(m) => if m > first {
                    m
                } else {
                    first
                },
                None => first,
            };
            let last = match max_entry_id {
                Some(m) => if m < last {
                    m
                } else {
                    last
                },
                None => last,
            };
            if first <= last {
                Some((first, last))
            } else {
                None
            }
        },
    }
}

/// The entry id range to inspect, as `filtered_range` describes it.
pub fn filter_entry_range(
    actual: Option<(u64, u64)>,
    entry_id: Option<u64>,
    min_entry_id: Option<u64>,
    max_entry_id: Option<u64>,
) -> (res: Option<(u64, u64)>)
    ensures
        res == filtered_range(actual, entry_id, min_entry_id, max_entry_id),
{
    let (mut first, mut last) = match actual {
        Some(range) => range,
        None => return None,
    };
    if let Some(entry_id) = entry_id {
        first = entry_id;
        last = entry_id;
    }
    if let Some(min_entry_id) = min_entry_id {
        if min_entry_id > first {
            first = min_entry_id;
        }
    }
    if let Some(max_entry_id) = max_entry_id {
        if max_entry_id < last {
            last = max_entry_id;
        }
    }
    if first <= last {
        Some((first, last))
    } else {
        None
    }
}

/// What the inspected range respects: it is never empty; `--entry-id` selects exactly that
/// id; the range starts at or after `--min-entry-id` and ends at or before `--max-entry-id`;
/// without `--entry-id` it lies within the namespace's actual range.
pub proof fn law_filtered_range_bounds(
    actual: Option<(u64, u64)>,
    entry_id: Option<u64>,
    min_entry_id: Option<u64>,
    max_entry_id: Option<u64>,
)
    ensures
        filtered_range(actual, entry_id, min_entry_id, max_entry_id) matches Some((first, last))
            ==> {
            &&& first <= last
            &&& entry_id matches Some(id) ==> first == id && last == id
            &&& min_entry_id matches Some(m) ==> m <= first
            &&& max_entry_id matches Some(m) ==> last <= m
            &&& entry_id is None ==> (actual matches Some((a, b)) && a <= first && last <= b)
        },
        actual is None ==> filtered_range(actual, entry_id, min_entry_id, max_entry_id) is None,
{
}

/// The inspected range is an intersection of intervals: the namespace's range `[a, b]` (or
/// the single id of `--entry-id`) with `[min, max]`, each bound taken when given. A lower
/// bound never moves the upper end, nor an upper bound the lower end.
pub proof fn law_range_is_intersection(
    a: u64,
    b: u64,
    entry_id: Option<u64>,
    min_entry_id: Option<u64>,
    max_entry_id: Option<u64>,
)
    ensures
        ({
            let (from, to) = match entry_id {
                Some(id) => (id, id),
                None => (a, b),
            };
            let lo = match min_entry_id {
                Some(m) => if m >= from {
                    m
                } else {
                    from
                },
                None => from,
            };
            let hi = match max_entry_id {
                Some(m) => if m <= to {
                    m
                } else {
                    to
                },
                None => to,
            };
            &&& filtered_range(Some((a, b)), entry_id, min_entry_id, max_entry_id) is Some <==> lo
                <= hi
            &&& lo <= hi ==> filtered_range(Some((a, b)), entry_id, min_entry_id, max_entry_id)
                == Some((lo, hi))
        }),
{
}

/// Without filters the inspected range is the namespace's actual range.
pub proof fn law_unfiltered_range(actual: Option<(u64, u64)>)
    requires
        actual matches Some((first, last)) ==> first <= last,
    ensures
        filtered_range(actual, None, None, None) == actual,
{
}

/// The range that a raft-engine namespace holds, from its first and last entry index.
pub fn actual_entry_range(first: Option<u64>, last: Option<u64>) -> (res: Option<(u64, u64)>)
    ensures
        res == match (first, last) {
            (Some(f), Some(l)) => Some((f, l)),
            _ => None,
        },
{
    match (first, last) {
        (Some(f), Some(l)) => Some((f, l)),
        _ => None,
    }
}

/// The parts joined, with `sep` between each two.
pub open spec fn joined(parts: Seq<Seq<char>>, sep: Seq<char>) -> Seq<char>
    decreases parts.len(),
{
    if parts.len() == 0 {
        Seq::empty()
    } else if parts.len() == 1 {
        parts[0]
    } else {
        joined(parts.drop_last(), sep) + sep + parts.last()
    }
}

/// The separator between extracted strings in a record's content.
pub open spec fn string_separator() -> Seq<char> {
    " | "@
}

/// The record for a field rendered on a best-effort basis: its readable strings joined by
/// `" | "`, or, when it has none, its bytes in hexadecimal under the field name with `_hex`
/// appended.
pub open spec fn fallback_record(
    entry_id: u64,
    field: Seq<char>,
    bytes: Seq<u8>,
    min_len: nat,
) -> OutputRecordView {
    let strings = readable_strings(bytes, min_len);
    if strings.len() == 0 {
        OutputRecordView::Field {
            entry_id,
            field: field + "_hex"@,
            precise: false,
            content: hex_encoding(bytes),
        }
    } else {
        OutputRecordView::Field {
            entry_id,
            field,
            precise: false,
            content: joined(strings, string_separator()),
        }
    }
}

fn join_strings(parts: &Vec<String>, sep: &str) -> (res: String)
    ensures
        res@ == joined(string_views(parts@), sep@),
{
    let ghost views = string_views(parts@);
    let mut out = String::new();
    let mut i: usize = 0;
    while i < parts.len()
        invariant
            views == string_views(parts@),
            i <= parts@.len(),
            out@ == joined(views.take(i as int), sep@),
        decreases parts@.len() - i,
    {
        if i > 0 {
            out.append(sep);
        }
        out.append(parts[i].as_str());
        proof {
            let next = views.take(i + 1);
            assert(next.drop_last() =~= views.take(i as int));
            if i == 0 {
                assert(out@ =~= next[0]);
            }
        }
        i = i + 1;
    }
    assert(views.take(parts@.len() as int) =~= views);
    out
}

/// The best-effort record for one field of one entry.
pub fn field_record(entry_id: u64, field: &str, bytes: &[u8], min_len: usize) -> (res:
    OutputRecord)
    ensures
        res@ == fallback_record(entry_id, field@, bytes@, min_len as nat),
{
    let strings = extract_readable_strings(bytes, min_len);
    if strings.len() == 0 {
        let mut hex_field = field.to_owned();
        hex_field.append("_hex");
        return OutputRecord::Field {
            entry_id,
            field: hex_field,
            precise: false,
            content: encode_hex(bytes),
        };
    }
    OutputRecord::Field {
        entry_id,
        field: field.to_owned(),
        precise: false,
        content: join_strings(&strings, " | "),
    }
}

/// Appends the records of one raw key/value message of a namespace, numbered `entry_id`: the
/// key's record, then the value's.
pub fn push_message_records(
    records: &mut Vec<OutputRecord>,
    entry_id: u64,
    key: &[u8],
    value: &[u8],
    min_len: usize,
)
    ensures
        record_views(final(records)@) == record_views(old(records)@) + seq![
            fallback_record(entry_id, "key"@, key@, min_len as nat),
            fallback_record(entry_id, "value"@, value@, min_len as nat),
        ],
{
    let ghost before = records@;
    let key_record = field_record(entry_id, "key", key, min_len);
    let value_record = field_record(entry_id, "value", value, min_len);
    records.push(key_record);
    records.push(value_record);
    assert(record_views(records@) =~= record_views(before) + seq![
        fallback_record(entry_id, "key"@, key@, min_len as nat),
        fallback_record(entry_id, "value"@, value@, min_len as nat),
    ]);
}

/// The WAL payload of a raft entry: the data of a GreptimeDB log-store entry when the bytes
/// hold one, else the data of a raft entry.
pub open spec fn wal_payload(raw_entry: Seq<u8>) -> Option<Seq<u8>> {
    match field_payload(raw_entry, LOG_STORE_ENTRY_DATA_FIELD) {
        Some(data) => Some(data),
        None => field_payload(raw_entry, RAFT_ENTRY_DATA_FIELD),
    }
}

/// The WAL payload of a raft entry, as `wal_payload` describes it.
pub fn entry_payload(raw_entry: &[u8]) -> (res: Option<&[u8]>)
    ensures
        match res {
            Some(d) => wal_payload(raw_entry@) == Some(d@),
            None => wal_payload(raw_entry@) is None,
        },
{
    match extract_log_store_entry_data(raw_entry) {
        Some(data) => Some(data),
        None => extract_raft_entry_data(raw_entry),
    }
}

/// The record for a raft entry: precise when its WAL payload was decoded to `decoded`,
/// best-effort otherwise.
pub open spec fn entry_record(
    entry_id: u64,
    raw_entry: Seq<u8>,
    min_len: nat,
    decoded: Option<Seq<char>>,
) -> OutputRecordView {
    match decoded {
        Some(content) => OutputRecordView::Field {
            entry_id,
            field: "entry"@,
            precise: true,
            content,
        },
        None => fallback_record(entry_id, "entry"@, raw_entry, min_len),
    }
}

/// The document of a raft entry's WAL payload: the `Debug` rendering of the decoded entry
/// when `raw`, else its structured document. None when the entry holds no payload or the
/// payload is no `WalEntry`.
pub fn entry_document(raw_entry: &[u8], raw: bool) -> (res: Option<Json>)
    ensures
        res is Some <==> (wal_payload(raw_entry@) matches Some(d) && wal_entry_decodes(d)),
        res matches Some(doc) ==> (wal_payload(raw_entry@) matches Some(d) && if raw {
            exists|text: Seq<char>|
                starts_with(text, debug_opening(wal_entry_model(d)->0)) && single_rendering(text)
                    && debug_document_is(text, doc)
        } else {
            structured_document_is(d, doc)
        }),
{
    let data = match entry_payload(raw_entry) {
        Some(d) => d,
        None => return None,
    };
    if raw {
        decode_wal_entry_debug_document(data)
    } else {
        decode_wal_entry_document(data)
    }
}

/// The record for a raft entry whose WAL payload decoded to `decoded`, if it did: the text
/// of the entry's document (see `entry_document`).
pub fn entry_field_record(entry_id: u64, raw_entry: &[u8], min_len: usize, decoded: Option<String>) -> (res: OutputRecord)
    ensures
        res@ == entry_record(entry_id, raw_entry@, min_len as nat, decoded.deep_view()),
{
    match decoded {
        Some(json) => OutputRecord::Field {
            entry_id,
            field: "entry".to_owned(),
            precise: true,
            content: json,
        },
        None => field_record(entry_id, "entry", raw_entry, min_len),
    }
}

/// The range of the first range record, if the first range record has one.
pub open spec fn first_entry_range(records: Seq<OutputRecordView>) -> Option<(u64, u64)>
    decreases records.len(),
{
    if records.len() == 0 {
        None
    } else {
        match records[0] {
            OutputRecordView::EntryRange(range) => range,
            OutputRecordView::Field { .. } => first_entry_range(records.drop_first()),
        }
    }
}

/// `"true"` or `"false"`.
pub open spec fn bool_text(b: bool) -> Seq<char> {
    if b {
        "true"@
    } else {
        "false"@
    }
}

/// The first line of the plain-text output.
pub open spec fn header_line(namespace: u64, range: Option<(u64, u64)>) -> Seq<char> {
    match range {
        Some((first, last)) => "namespace: "@ + decimal_digits(namespace as nat)
            + ", entry id range: "@ + decimal_digits(first as nat) + " ~ "@ + decimal_digits(
            last as nat,
        ) + "\n"@,
        None => "namespace: "@ + decimal_digits(namespace as nat) + ", entry id range: none\n"@,
    }
}

/// The plain-text block of a field record.
pub open spec fn field_block(
    entry_id: u64,
    field: Seq<char>,
    precise: bool,
    content: Seq<char>,
) -> Seq<char> {
    "Entry ID:     "@ + decimal_digits(entry_id as nat) + "\n"@ + "Message type: "@ + field
        + "\n"@ + "Precise:      "@ + bool_text(precise) + "\n"@ + "Content:\n"@ + content
        + "\n"@ + "---\n"@
}

/// The blocks of all field records, in order.
pub open spec fn field_blocks(records: Seq<OutputRecordView>) -> Seq<char>
    decreases records.len(),
{
    if records.len() == 0 {
        Seq::empty()
    } else {
        field_blocks(records.drop_last()) + match records.last() {
            OutputRecordView::Field { entry_id, field, precise, content } => field_block(
                entry_id,
                field,
                precise,
                content,
            ),
            OutputRecordView::EntryRange(_) => Seq::empty(),
        }
    }
}

/// The plain-text output of `inspect-entry`.
pub open spec fn plain_text(namespace: u64, records: Seq<OutputRecordView>) -> Seq<char> {
    header_line(namespace, first_entry_range(records)) + field_blocks(records)
}

/// The range of the first range record, if it has one.
fn entry_range_of(records: &Vec<OutputRecord>) -> (res: Option<(u64, u64)>)
    ensures
        res == first_entry_range(record_views(records@)),
{
    let ghost views = record_views(records@);
    let mut k: usize = 0;
    assert(views.skip(0) =~= views);
    while k < records.len()
        invariant
            views == record_views(records@),
            k <= records@.len(),
            first_entry_range(views) == first_entry_range(views.skip(k as int)),
        decreases records@.len() - k,
    {
        assert(views.skip(k as int).drop_first() =~= views.skip(k + 1));
        match &records[k] {
            OutputRecord::EntryRange(r) => {
                return *r;
            },
            OutputRecord::Field { .. } => {},
        }
        k = k + 1;
    }
    assert(views.skip(k as int).len() == 0);
    None
}

/// Renders the records as plain text.
pub fn render_plain_text(namespace: u64, records: &Vec<OutputRecord>) -> (res: String)
    ensures
        res@ == plain_text(namespace, record_views(records@)),
{
    let ghost views = record_views(records@);
    let range = entry_range_of(records);
    let ns = u64_decimal(namespace);
    let mut out = "namespace: ".to_owned();
    out.append(ns.as_str());
    match range {
        Some((first, last)) => {
            out.append(", entry id range: ");
            out.append(u64_decimal(first).as_str());
            out.append(" ~ ");
            out.append(u64_decimal(last).as_str());
            out.append("\n");
        },
        None => {
            out.append(", entry id range: none\n");
        },
    }
    let ghost header = out@;
    assert(header =~= header_line(namespace, first_entry_range(views)));
    let mut i: usize = 0;
    while i < records.len()
        invariant
            views == record_views(records@),
            i <= records@.len(),
            out@ == header + field_blocks(views.take(i as int)),
        decreases records@.len() - i,
    {
        let ghost before = out@;
        match &records[i] {
            OutputRecord::Field { entry_id, field, precise, content } => {
                out.append("Entry ID:     ");
                out.append(u64_decimal(*entry_id).as_str());
                out.append("\n");
                out.append("Message type: ");
                out.append(field.as_str());
                out.append("\n");
                out.append("Precise:      ");
                if *precise {
                    out.append("true");
                } else {
                    out.append("false");
                }
                out.append("\n");
                out.append("Content:\n");
                out.append(content.as_str());
                out.append("\n");
                out.append("---\n");
                assert(out@ =~= before + field_block(*entry_id, field@, *precise, content@));
            },
            OutputRecord::EntryRange(_) => {
                assert(out@ =~= before + Seq::<char>::empty());
            },
        }
        assert(views.take(i + 1).drop_last() =~= views.take(i as int));
        assert(views.take(i + 1).last() == records@[i as int]@);
        i = i + 1;
    }
    assert(views.take(records@.len() as int) =~= views);
    out
}

/// `j` is the JSON object of a record: a range record by its `type` and its `range` (an
/// object of `first` and `last`, or null); a field record by its `type`, entry id, field
/// name, precision and content.
pub open spec fn record_json_is(r: OutputRecordView, j: Json) -> bool {
    &&& j matches Json::Object(members)
    &&& members@.len() >= 1
    &&& members@[0].0@ == "type"@
    &&& match r {
        OutputRecordView::EntryRange(range) => {
            &&& is_text(members@[0].1, "entry_range"@)
            &&& members@.len() == 2
            &&& members@[1].0@ == "range"@
            &&& match range {
                Some((first, last)) => {
                    &&& members@[1].1 matches Json::Object(bounds)
                    &&& bounds@.len() == 2
                    &&& bounds@[0].0@ == "first"@
                    &&& bounds@[0].1 == Json::UInt(first)
                    &&& bounds@[1].0@ == "last"@
                    &&& bounds@[1].1 == Json::UInt(last)
                },
                None => members@[1].1 is Null,
            }
        },
        OutputRecordView::Field { entry_id, field, precise, content } => {
            &&& is_text(members@[0].1, "field"@)
            &&& members@.len() == 5
            &&& members@[1].0@ == "entry_id"@
            &&& members@[1].1 == Json::UInt(entry_id)
            &&& members@[2].0@ == "field"@
            &&& is_text(members@[2].1, field)
            &&& members@[3].0@ == "precise"@
            &&& members@[3].1 == Json::Bool(precise)
            &&& members@[4].0@ == "content"@
            &&& is_text(members@[4].1, content)
        },
    }
}

/// `j` is the JSON array of the records, in order.
pub open spec fn records_json_is(records: Seq<OutputRecordView>, j: Json) -> bool {
    &&& j matches Json::Array(items)
    &&& items@.len() == records.len()
    &&& forall|i: int| 0 <= i < records.len() ==> record_json_is(records[i], #[trigger] items@[i])
}

fn record_json(record: &OutputRecord) -> (j: Json)
    ensures
        record_json_is(record@, j),
{
    let mut members: Vec<(String, Json)> = Vec::new();
    match record {
        OutputRecord::EntryRange(range) => {
            members.push(("type".to_owned(), Json::Str("entry_range".to_owned())));
            let range_json = match range {
                Some((first, last)) => {
                    let mut bounds: Vec<(String, Json)> = Vec::new();
                    bounds.push(("first".to_owned(), Json::UInt(*first)));
                    bounds.push(("last".to_owned(), Json::UInt(*last)));
                    Json::Object(bounds)
                },
                None => Json::Null,
            };
            members.push(("range".to_owned(), range_json));
        },
        OutputRecord::Field { entry_id, field, precise, content } => {
            members.push(("type".to_owned(), Json::Str("field".to_owned())));
            members.push(("entry_id".to_owned(), Json::UInt(*entry_id)));
            members.push(("field".to_owned(), Json::Str(field.clone())));
            members.push(("precise".to_owned(), Json::Bool(*precise)));
            members.push(("content".to_owned(), Json::Str(content.clone())));
        },
    }
    Json::Object(members)
}

/// The records as a JSON array of objects, for `--json` output.
pub fn records_document(records: &Vec<OutputRecord>) -> (j: Json)
    ensures
        records_json_is(record_views(records@), j),
{
    let ghost views = record_views(records@);
    let mut items: Vec<Json> = Vec::new();
    let mut i: usize = 0;
    while i < records.len()
        invariant
            views == record_views(records@),
            i <= records@.len(),
            items@.len() == i,
            forall|k: int| 0 <= k < i ==> record_json_is(views[k], #[trigger] items@[k]),
        decreases records@.len() - i,
    {
        items.push(record_json(&records[i]));
        i = i + 1;
    }
    Json::Array(items)
}

} // verus!
