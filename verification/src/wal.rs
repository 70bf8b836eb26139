//! GreptimeDB `WalEntry` payloads: decoding them and describing them as JSON documents.
//!
//! A decoded entry is first turned into plain values (`MutationModel`, `BulkEntryModel`,
//! `Cell`); the JSON document is then built from those by verified functions. Turning a
//! document into text is left to the caller's JSON serializer.
use vstd::prelude::*;
use crate::ipc::{
    arrow_ipc_decodes, arrow_rows_json_text, batches_json_text, decode_ipc_batches,
    ipc_batch_layout, ipc_schema_union_flags, ipc_stream_readable, le_value,
};
use chrono::{DateTime, NaiveDate, SecondsFormat, Utc};
use greptime_proto::v1::{BulkWalEntry, ColumnSchema, Mutation, Row, Rows, Value, WalEntry};
use greptime_proto::v1::bulk_wal_entry::Body;
use greptime_proto::v1::value::ValueData;
use prost::Message;
use crate::decimal::{decimal_digits, i64_decimal, lemma_decimal_digits_shape, signed_decimal};
use crate::hex::{encode_hex, hex_encoding};
use crate::text::{
    extract_readable_strings, is_plain_ascii, is_white_space, law_first_string_keeps_plain_opening,
    readable_strings, starts_with, string_views,
};

verus! {

#[verifier::external_type_specification]
#[verifier::external_body]
pub struct ExWalEntry(WalEntry);

#[verifier::external_type_specification]
#[verifier::external_body]
pub struct ExMutation(Mutation);

#[verifier::external_type_specification]
#[verifier::external_body]
pub struct ExRows(Rows);

#[verifier::external_type_specification]
#[verifier::external_body]
pub struct ExColumnSchema(ColumnSchema);

#[verifier::external_type_specification]
#[verifier::external_body]
pub struct ExRow(Row);

#[verifier::external_type_specification]
#[verifier::external_body]
pub struct ExValue(Value);

#[verifier::external_type_specification]
#[verifier::external_body]
pub struct ExValueData(ValueData);

#[verifier::external_type_specification]
#[verifier::external_body]
pub struct ExBulkWalEntry(BulkWalEntry);

/// A cell of a mutation row, as plain values. Floating-point cells keep their protobuf value.
pub enum Cell {
    Null,
    Int(i64),
    UInt(u64),
    Float(ValueData),
    Bool(bool),
    Binary(Vec<u8>),
    Text(String),
    Date(i32),
    Datetime(i64),
    TimestampSecond(i64),
    TimestampMillisecond(i64),
    TimestampMicrosecond(i64),
    TimestampNanosecond(i64),
    /// Any other kind of value, by the text of its `Debug` rendering.
    Other(String),
}

/// The rows of a mutation: column names and, per row, its cells.
pub struct MutationRows {
    pub columns: Vec<String>,
    pub rows: Vec<Vec<Cell>>,
}

/// A mutation of a WAL entry, as plain values.
pub struct MutationModel {
    pub op_type: i32,
    pub sequence: u64,
    pub rows: Option<MutationRows>,
}

/// The Arrow IPC body of a bulk entry.
pub struct ArrowIpcBody {
    pub schema: Vec<u8>,
    pub data_header: Vec<u8>,
    pub payload: Vec<u8>,
}

/// A bulk insert entry of a WAL entry, as plain values.
pub struct BulkEntryModel {
    pub sequence: u64,
    pub min_ts: i64,
    pub max_ts: i64,
    pub timestamp_index: u32,
    pub body: Option<ArrowIpcBody>,
}

/// What a cell of a mutation row holds; a floating-point cell is viewed without its value.
pub enum CellView {
    Null,
    Int(i64),
    UInt(u64),
    Float,
    Bool(bool),
    Binary(Seq<u8>),
    Text(Seq<char>),
    Date(i32),
    Datetime(i64),
    TimestampSecond(i64),
    TimestampMillisecond(i64),
    TimestampMicrosecond(i64),
    TimestampNanosecond(i64),
    Other(Seq<char>),
}

/// What the rows of a mutation hold: column names and, per row, its cells.
pub struct RowsView {
    pub columns: Seq<Seq<char>>,
    pub rows: Seq<Seq<CellView>>,
}

/// What a mutation holds.
pub struct MutationView {
    pub op_type: i32,
    pub sequence: u64,
    pub rows: Option<RowsView>,
}

/// What a bulk entry holds; its Arrow IPC body as schema message, batch header and body.
pub struct BulkEntryView {
    pub sequence: u64,
    pub min_ts: i64,
    pub max_ts: i64,
    pub timestamp_index: u32,
    pub body: Option<(Seq<u8>, Seq<u8>, Seq<u8>)>,
}

/// What a WAL entry holds.
pub struct WalEntryView {
    pub mutations: Seq<MutationView>,
    pub bulk_entries: Seq<BulkEntryView>,
}

impl View for Cell {
    type V = CellView;

    open spec fn view(&self) -> CellView {
        match self {
            Cell::Null => CellView::Null,
            Cell::Int(v) => CellView::Int(*v),
            Cell::UInt(v) => CellView::UInt(*v),
            Cell::Float(_) => CellView::Float,
            Cell::Bool(b) => CellView::Bool(*b),
            Cell::Binary(b) => CellView::Binary(b@),
            Cell::Text(t) => CellView::Text(t@),
            Cell::Date(d) => CellView::Date(*d),
            Cell::Datetime(v) => CellView::Datetime(*v),
            Cell::TimestampSecond(v) => CellView::TimestampSecond(*v),
            Cell::TimestampMillisecond(v) => CellView::TimestampMillisecond(*v),
            Cell::TimestampMicrosecond(v) => CellView::TimestampMicrosecond(*v),
            Cell::TimestampNanosecond(v) => CellView::TimestampNanosecond(*v),
            Cell::Other(t) => CellView::Other(t@),
        }
    }
}

/// The views of a row's cells.
pub open spec fn cell_views(cells: Seq<Cell>) -> Seq<CellView> {
    cells.map_values(|c: Cell| c@)
}

/// The views of rows of cells.
pub open spec fn row_views(rows: Seq<Vec<Cell>>) -> Seq<Seq<CellView>> {
    rows.map_values(|r: Vec<Cell>| cell_views(r@))
}

impl View for MutationRows {
    type V = RowsView;

    open spec fn view(&self) -> RowsView {
        RowsView { columns: string_views(self.columns@), rows: row_views(self.rows@) }
    }
}

impl View for MutationModel {
    type V = MutationView;

    open spec fn view(&self) -> MutationView {
        MutationView {
            op_type: self.op_type,
            sequence: self.sequence,
            rows: match self.rows {
                Some(r) => Some(r@),
                None => None,
            },
        }
    }
}

impl View for BulkEntryModel {
    type V = BulkEntryView;

    open spec fn view(&self) -> BulkEntryView {
        BulkEntryView {
            sequence: self.sequence,
            min_ts: self.min_ts,
            max_ts: self.max_ts,
            timestamp_index: self.timestamp_index,
            body: match self.body {
                Some(b) => Some((b.schema@, b.data_header@, b.payload@)),
                None => None,
            },
        }
    }
}

/// The views of mutations.
pub open spec fn mutation_views(ms: Seq<MutationModel>) -> Seq<MutationView> {
    ms.map_values(|m: MutationModel| m@)
}

/// The views of bulk entries.
pub open spec fn bulk_entry_views(bs: Seq<BulkEntryModel>) -> Seq<BulkEntryView> {
    bs.map_values(|b: BulkEntryModel| b@)
}

/// A decoded greptime-proto message together with what it holds. Only the wrappers that
/// take messages apart make one.
pub struct Decoded<T, V> {
    value: T,
    model: Ghost<V>,
}

impl<T, V> View for Decoded<T, V> {
    type V = V;

    closed spec fn view(&self) -> V {
        self.model@
    }
}

/// What decoded messages hold, in order.
pub open spec fn decoded_views<T, V>(s: Seq<Decoded<T, V>>) -> Seq<V> {
    s.map_values(|d: Decoded<T, V>| d@)
}

/// A JSON document before serialization. Object members keep the order in which they are
/// inserted; a serializer inserting them in that order resolves repeated keys.
pub enum Json {
    Null,
    Bool(bool),
    Int(i64),
    UInt(u64),
    /// A floating-point cell; the serializer writes its number, or `null` when it is not finite.
    Float(ValueData),
    Str(String),
    Array(Vec<Json>),
    Object(Vec<(String, Json)>),
    /// JSON text that serde_json reads; a serializer embeds the value it reads.
    Text(Vec<u8>),
}

/* Names of what outside functions compute. */

/// What prost decodes from `bytes` as a `WalEntry` of greptime-proto, if they are one.
pub uninterp spec fn wal_entry_model(bytes: Seq<u8>) -> Option<WalEntryView>;

/// chrono's text of the date `days` days after 1970-01-01, if chrono can represent it.
pub uninterp spec fn chrono_epoch_date_text(days: i32) -> Option<Seq<char>>;

/// chrono's RFC 3339 text, in UTC with `Z`, of the instant `secs` seconds and `nanos`
/// nanoseconds after the Unix epoch, if chrono can represent it.
pub uninterp spec fn chrono_rfc3339_text(secs: i64, nanos: u32) -> Option<Seq<char>>;

/// Whether serde_json reads `bytes` as one JSON value: well-formed JSON text, nested at most
/// 128 levels deep.
pub uninterp spec fn json_text_parses(bytes: Seq<u8>) -> bool;

/// Where a scan of `Debug` text stands: the depth of brackets outside string literals,
/// whether it is inside a string literal, and whether the character before was a backslash
/// there.
pub struct DebugScan {
    pub depth: int,
    pub in_string: bool,
    pub escaped: bool,
}

/// One character of the scan.
pub open spec fn scan_step(s: DebugScan, c: char) -> DebugScan {
    if s.in_string {
        if s.escaped {
            DebugScan { escaped: false, ..s }
        } else if c == '\\' {
            DebugScan { escaped: true, ..s }
        } else if c == '"' {
            DebugScan { in_string: false, ..s }
        } else {
            s
        }
    } else if c == '"' {
        DebugScan { in_string: true, ..s }
    } else if c == '{' || c == '[' || c == '(' {
        DebugScan { depth: s.depth + 1, ..s }
    } else if c == '}' || c == ']' || c == ')' {
        DebugScan { depth: s.depth - 1, ..s }
    } else {
        s
    }
}

/// The scan of the whole of `t`.
pub open spec fn debug_scan(t: Seq<char>) -> DebugScan
    decreases t.len(),
{
    if t.len() == 0 {
        DebugScan { depth: 0, in_string: false, escaped: false }
    } else {
        scan_step(debug_scan(t.drop_last()), t.last())
    }
}

/// `t` is a single rendering of a `WalEntry`: from the brace after the name on, its brackets
/// outside string literals stay open until its last character closes them.
pub open spec fn single_rendering(t: Seq<char>) -> bool {
    &&& t.len() > 10
    &&& debug_scan(t).depth == 0
    &&& !debug_scan(t).in_string
    &&& forall|k: int| 10 <= k < t.len() ==> #[trigger] debug_scan(t.take(k)).depth > 0
}

/// A single rendering is never followed by more: text that continues past a rendering is not
/// one, so the rendering of an entry cannot be repeated or extended.
pub proof fn law_single_rendering_ends_the_text(t: Seq<char>, rest: Seq<char>)
    requires
        single_rendering(t),
        rest.len() > 0,
    ensures
        !single_rendering(t + rest),
{
    let whole = t + rest;
    assert(whole.take(t.len() as int) =~= t);
    assert(debug_scan(whole.take(t.len() as int)).depth == 0);
}

/// How greptime-proto's derived `Debug` writes an operation type: its variant's name, or
/// the number when no variant has it.
pub open spec fn op_type_debug(op_type: i32) -> Seq<char> {
    if op_type == 0 {
        "Delete"@
    } else if op_type == 1 {
        "Put"@
    } else {
        signed_decimal(op_type as int)
    }
}

/// How the `Debug` rendering of a WAL entry holding `model` begins: with its list of
/// mutations, and with the operation type and sequence of the first mutation when there is
/// one.
pub open spec fn debug_opening(model: WalEntryView) -> Seq<char> {
    if model.mutations.len() == 0 {
        "WalEntry { mutations: [], bulk_entries: ["@
    } else {
        "WalEntry { mutations: [Mutation { op_type: "@ + op_type_debug(
            model.mutations[0].op_type,
        ) + ", sequence: "@ + decimal_digits(model.mutations[0].sequence as nat) + ","@
    }
}

proof fn lemma_plain_concat(a: Seq<char>, b: Seq<char>)
    requires
        forall|i: int| 0 <= i < a.len() ==> is_plain_ascii(#[trigger] a[i]),
        forall|i: int| 0 <= i < b.len() ==> is_plain_ascii(#[trigger] b[i]),
    ensures
        forall|i: int| 0 <= i < (a + b).len() ==> is_plain_ascii(#[trigger] (a + b)[i]),
{
    assert forall|i: int| 0 <= i < (a + b).len() implies is_plain_ascii(#[trigger] (a + b)[i]) by {
        if i < a.len() {
            assert((a + b)[i] == a[i]);
        } else {
            assert((a + b)[i] == b[i - a.len()]);
        }
    }
}

proof fn lemma_digits_plain(n: nat)
    ensures
        forall|i: int|
            0 <= i < decimal_digits(n).len() ==> is_plain_ascii(#[trigger] decimal_digits(n)[i]),
        decimal_digits(n).len() > 0,
{
    lemma_decimal_digits_shape(n);
    assert forall|i: int| 0 <= i < decimal_digits(n).len() implies is_plain_ascii(
        #[trigger] decimal_digits(n)[i],
    ) by {
        assert(crate::decimal::is_ascii_digit(decimal_digits(n)[i]));
    }
}

/// The opening of a `Debug` rendering is plain ASCII that neither starts nor ends with white
/// space, and is at least as long as `WalEntry { mutations: [`.
proof fn lemma_debug_opening_plain(model: WalEntryView)
    ensures
        debug_opening(model).len() >= 23,
        forall|i: int|
            0 <= i < debug_opening(model).len() ==> is_plain_ascii(#[trigger] debug_opening(model)[i]),
        !is_white_space(debug_opening(model)[0]),
        !is_white_space(debug_opening(model).last()),
{
    reveal_strlit("WalEntry { mutations: [], bulk_entries: [");
    reveal_strlit("WalEntry { mutations: [Mutation { op_type: ");
    reveal_strlit(", sequence: ");
    reveal_strlit(",");
    reveal_strlit("Delete");
    reveal_strlit("Put");
    let e = "WalEntry { mutations: [], bulk_entries: ["@;
    let m = "WalEntry { mutations: [Mutation { op_type: "@;
    let q = ", sequence: "@;
    let c = ","@;
    assert(forall|i: int| 0 <= i < e.len() ==> is_plain_ascii(#[trigger] e[i]));
    assert(forall|i: int| 0 <= i < m.len() ==> is_plain_ascii(#[trigger] m[i]));
    assert(forall|i: int| 0 <= i < q.len() ==> is_plain_ascii(#[trigger] q[i]));
    assert(forall|i: int| 0 <= i < c.len() ==> is_plain_ascii(#[trigger] c[i]));
    if model.mutations.len() > 0 {
        let first = model.mutations[0];
        let op = op_type_debug(first.op_type);
        if first.op_type == 0 {
            assert(forall|i: int| 0 <= i < op.len() ==> is_plain_ascii(#[trigger] op[i]));
        } else if first.op_type == 1 {
            assert(forall|i: int| 0 <= i < op.len() ==> is_plain_ascii(#[trigger] op[i]));
        } else {
            let v = first.op_type as int;
            if v < 0 {
                lemma_digits_plain((-v) as nat);
                lemma_plain_concat(seq!['-'], decimal_digits((-v) as nat));
            } else {
                lemma_digits_plain(v as nat);
            }
        }
        let d = decimal_digits(first.sequence as nat);
        lemma_digits_plain(first.sequence as nat);
        lemma_plain_concat(m, op);
        lemma_plain_concat(m + op, q);
        lemma_plain_concat(m + op + q, d);
        lemma_plain_concat(m + op + q + d, c);
        assert((m + op + q + d + c)[0] == m[0]);
        assert((m + op + q + d + c).last() == ',');
    }
}

/* Calls into outside crates. */

/// Decodes a `WalEntry`.
///
/// Calls `prost::Message::decode` for the `WalEntry` message of greptime-proto, which
/// depends on the bytes alone.
#[verifier::external_body]
fn decode_wal_entry(bytes: &[u8]) -> (res: Option<Decoded<WalEntry, WalEntryView>>)
    ensures
        match res {
            Some(e) => wal_entry_model(bytes@) == Some(e@),
            None => wal_entry_model(bytes@) is None,
        },
{
    let entry = WalEntry::decode(bytes).ok()?;
    Some(Decoded { value: entry, model: Ghost(vstd::pervasive::arbitrary()) })
}

/// The `Debug` rendering of a `WalEntry`, as greptime-proto derives it with prost.
///
/// prost-derive writes a message as `debug_struct` with its fields in tag order, repeated
/// message fields as lists and enumeration fields by their variant's name (or the number,
/// when no variant has it). Every part of it is a struct (`Name { .. }`), a list (`[..]`), an
/// option or enum variant (`Some(..)`), a map (`{..}`), a number, a name, or a string or
/// byte-string literal whose quotes and backslashes are escaped; so its brackets outside
/// literals balance and close only at its end. The rest of the text follows the iteration
/// order of the hash maps in column options, so beyond that only how it begins is described
/// here.
#[verifier::external_body]
fn wal_entry_debug_text(entry: &Decoded<WalEntry, WalEntryView>) -> (res: String)
    ensures
        starts_with(res@, debug_opening(entry@)),
        single_rendering(res@),
{
    format!("{:?}", entry.value)
}

/// The `Debug` rendering of a protobuf value of a kind that no other cell holds, as
/// greptime-proto derives it.
#[verifier::external_body]
fn value_debug_text(data: &Decoded<ValueData, CellView>) -> (res: String)
    ensures
        data@ matches CellView::Other(text) ==> res@ == text,
{
    format!("{:?}", data.value)
}

/// The mutations and bulk entries of a `WalEntry`, moved out of it.
#[verifier::external_body]
fn wal_entry_parts(entry: Decoded<WalEntry, WalEntryView>) -> (res: (
    Vec<Decoded<Mutation, MutationView>>,
    Vec<Decoded<BulkWalEntry, BulkEntryView>>,
))
    ensures
        decoded_views(res.0@) == entry@.mutations,
        decoded_views(res.1@) == entry@.bulk_entries,
{
    let WalEntry { mutations, bulk_entries } = entry.value;
    let mutations = mutations.into_iter().map(|m| Decoded { value: m, model: Ghost(vstd::pervasive::arbitrary()) });
    let bulk_entries = bulk_entries.into_iter().map(|b| Decoded { value: b, model: Ghost(vstd::pervasive::arbitrary()) });
    (mutations.collect(), bulk_entries.collect())
}

/// The operation type, sequence and rows of a `Mutation`, moved out of it.
#[verifier::external_body]
fn mutation_parts(mutation: Decoded<Mutation, MutationView>) -> (res: (
    i32,
    u64,
    Option<Decoded<Rows, RowsView>>,
))
    ensures
        res.0 == mutation@.op_type,
        res.1 == mutation@.sequence,
        match res.2 {
            Some(r) => mutation@.rows == Some(r@),
            None => mutation@.rows is None,
        },
{
    let m = mutation.value;
    let rows = m.rows.map(|r| Decoded { value: r, model: Ghost(vstd::pervasive::arbitrary()) });
    (m.op_type, m.sequence, rows)
}

/// The column names and the rows of a `Rows`, moved out of it.
#[verifier::external_body]
fn rows_parts(rows: Decoded<Rows, RowsView>) -> (res: (Vec<String>, Vec<Decoded<Row, Seq<CellView>>>))
    ensures
        string_views(res.0@) == rows@.columns,
        decoded_views(res.1@) == rows@.rows,
{
    let Rows { schema, rows } = rows.value;
    let columns = schema.into_iter().map(|c| c.column_name).collect();
    (columns, rows.into_iter().map(|r| Decoded { value: r, model: Ghost(vstd::pervasive::arbitrary()) }).collect())
}

/// The values of a `Row`, moved out of it.
#[verifier::external_body]
fn row_values(row: Decoded<Row, Seq<CellView>>) -> (res: Vec<Decoded<Value, CellView>>)
    ensures
        decoded_views(res@) == row@,
{
    row.value.values.into_iter().map(|v| Decoded { value: v, model: Ghost(vstd::pervasive::arbitrary()) }).collect()
}

/// The data of a `Value`, moved out of it; `None` for a null value.
#[verifier::external_body]
fn value_data(value: Decoded<Value, CellView>) -> (res: Option<Decoded<ValueData, CellView>>)
    ensures
        match res {
            Some(d) => d@ == value@ && !(value@ is Null),
            None => value@ is Null,
        },
{
    value.value.value_data.map(|d| Decoded { value: d, model: Ghost(vstd::pervasive::arbitrary()) })
}

/// An integer or boolean value as a cell of the same number; any other value is handed
/// back.
#[verifier::external_body]
fn integer_cell(data: Decoded<ValueData, CellView>) -> (res: Result<Cell, Decoded<ValueData, CellView>>)
    ensures
        match res {
            Ok(cell) => cell@ == data@ && (data@ is Int || data@ is UInt || data@ is Bool),
            Err(d) => d@ == data@ && !(data@ is Int || data@ is UInt || data@ is Bool),
        },
{
    match data.value {
        ValueData::I8Value(v) | ValueData::I16Value(v) | ValueData::I32Value(v) => Ok(
            Cell::Int(i64::from(v)),
        ),
        ValueData::I64Value(v) => Ok(Cell::Int(v)),
        ValueData::U8Value(v) | ValueData::U16Value(v) | ValueData::U32Value(v) => Ok(
            Cell::UInt(u64::from(v)),
        ),
        ValueData::U64Value(v) => Ok(Cell::UInt(v)),
        ValueData::BoolValue(v) => Ok(Cell::Bool(v)),
        other => Err(Decoded { value: other, model: data.model }),
    }
}

/// A binary, string, date or timestamp value as a cell with the same content; any other
/// value is handed back.
#[verifier::external_body]
fn text_like_cell(data: Decoded<ValueData, CellView>) -> (res: Result<Cell, Decoded<ValueData, CellView>>)
    ensures
        match res {
            Ok(cell) => cell@ == data@ && is_text_like(data@),
            Err(d) => d@ == data@ && !is_text_like(data@),
        },
{
    match data.value {
        ValueData::BinaryValue(v) => Ok(Cell::Binary(v)),
        ValueData::StringValue(v) => Ok(Cell::Text(v)),
        ValueData::DateValue(v) => Ok(Cell::Date(v)),
        ValueData::DatetimeValue(v) => Ok(Cell::Datetime(v)),
        ValueData::TimestampSecondValue(v) => Ok(Cell::TimestampSecond(v)),
        ValueData::TimestampMillisecondValue(v) => Ok(Cell::TimestampMillisecond(v)),
        ValueData::TimestampMicrosecondValue(v) => Ok(Cell::TimestampMicrosecond(v)),
        ValueData::TimestampNanosecondValue(v) => Ok(Cell::TimestampNanosecond(v)),
        other => Err(Decoded { value: other, model: data.model }),
    }
}

/// Whether a value is one of the two floating-point kinds.
#[verifier::external_body]
fn is_float_value(data: &Decoded<ValueData, CellView>) -> (res: bool)
    ensures
        res == data@ is Float,
{
    matches!(data.value, ValueData::F32Value(_) | ValueData::F64Value(_))
}

/// The sequence, timestamp bounds, timestamp column index and Arrow IPC body of a
/// `BulkWalEntry`, moved out of it, the body's byte buffers copied into vectors.
#[verifier::external_body]
fn bulk_entry_parts(entry: Decoded<BulkWalEntry, BulkEntryView>) -> (res: BulkEntryModel)
    ensures
        res@ == entry@,
{
    let entry = entry.value;
    let body = match entry.body {
        Some(Body::ArrowIpc(ipc)) => Some(ArrowIpcBody {
            schema: ipc.schema.to_vec(),
            data_header: ipc.data_header.to_vec(),
            payload: ipc.payload.to_vec(),
        }),
        None => None,
    };
    BulkEntryModel { sequence: entry.sequence, min_ts: entry.min_ts, max_ts: entry.max_ts, timestamp_index: entry.timestamp_index, body }
}

/// Whether serde_json reads the bytes as JSON.
///
/// Calls `serde_json::from_slice` into a `serde_json::Value`, which depends on the bytes
/// alone.
#[verifier::external_body]
fn json_text_reads(bytes: &[u8]) -> (res: bool)
    ensures
        res == json_text_parses(bytes@),
{
    serde_json::from_slice::<serde_json::Value>(bytes).is_ok()
}

/// chrono's text of a date given in days since 1970-01-01.
///
/// Calls `NaiveDate::from_epoch_days`, which gives `None` for a date out of its range, and
/// writes the date with its `Display` (`YYYY-MM-DD`).
#[verifier::external_body]
fn epoch_date_text(days: i32) -> (res: Option<String>)
    ensures
        res.deep_view() == chrono_epoch_date_text(days),
{
    match NaiveDate::from_epoch_days(days) {
        Some(date) => Some(date.to_string()),
        None => None,
    }
}

/// chrono's RFC 3339 text of a Unix timestamp.
///
/// Calls `DateTime::<Utc>::from_timestamp`, which gives `None` for an instant out of its
/// range or invalid nanoseconds, and writes the instant with `to_rfc3339_opts` using the
/// automatic sub-second precision and `Z` for UTC.
#[verifier::external_body]
fn rfc3339_text(secs: i64, nanos: u32) -> (res: Option<String>)
    ensures
        res.deep_view() == chrono_rfc3339_text(secs, nanos),
{
    match DateTime::<Utc>::from_timestamp(secs, nanos) {
        Some(instant) => Some(instant.to_rfc3339_opts(SecondsFormat::AutoSi, true)),
        None => None,
    }
}

/* Verified rendering of plain values. */

/// The name of a mutation's operation type, as greptime-proto's `OpType` names it.
pub open spec fn op_type_text(op_type: i32) -> Seq<char> {
    if op_type == 0 {
        "DELETE"@
    } else if op_type == 1 {
        "PUT"@
    } else {
        "UNKNOWN"@
    }
}

fn op_type_name(op_type: i32) -> (res: String)
    ensures
        res@ == op_type_text(op_type),
{
    if op_type == 0 {
        "DELETE".to_owned()
    } else if op_type == 1 {
        "PUT".to_owned()
    } else {
        "UNKNOWN".to_owned()
    }
}

/// The text of a date cell: chrono's date `days` days after 1970-01-01, or the decimal
/// number of days when chrono cannot represent that date.
pub open spec fn date_text(days: i32) -> Seq<char> {
    match chrono_epoch_date_text(days) {
        Some(t) => t,
        None => signed_decimal(days as int),
    }
}

/// Renders a date cell.
pub fn format_date(days_since_epoch: i32) -> (res: String)
    ensures
        res@ == date_text(days_since_epoch),
{
    match epoch_date_text(days_since_epoch) {
        Some(t) => t,
        None => i64_decimal(days_since_epoch as i64),
    }
}

/// Whole seconds of a timestamp of `value` units, `units` to the second: rounded down.
pub open spec fn timestamp_secs(value: i64, units: i64) -> int {
    value as int / units as int
}

/// Nanoseconds past the whole seconds of a timestamp of `value` units, `units` to the
/// second.
pub open spec fn timestamp_nanos(value: i64, units: i64) -> int {
    (value as int % units as int) * (1_000_000_000int / units as int)
}

/// The text of a timestamp cell: chrono's RFC 3339 UTC text of the instant, or the decimal
/// value when chrono cannot represent it.
pub open spec fn timestamp_text(value: i64, units: i64) -> Seq<char> {
    match chrono_rfc3339_text(timestamp_secs(value, units) as i64, timestamp_nanos(value, units) as u32) {
        Some(t) => t,
        None => signed_decimal(value as int),
    }
}

/// Splits a timestamp of `value` units, `units` to the second, into whole seconds (rounded
/// down) and nanoseconds.
pub fn timestamp_parts(value: i64, units_per_second: i64) -> (res: (i64, u32))
    requires
        units_per_second > 0,
    ensures
        res.0 == timestamp_secs(value, units_per_second),
        res.1 == timestamp_nanos(value, units_per_second),
        0 <= timestamp_nanos(value, units_per_second) < 1_000_000_000,
{
    let units = units_per_second;
    let (secs, sub): (i64, i64) = if value >= 0 {
        (value / units, value % units)
    } else {
        let m: i128 = -(value as i128);
        let u: i128 = units as i128;
        let mq = m / u;
        let mr = m % u;
        proof {
            vstd::arithmetic::div_mod::lemma_fundamental_div_mod(m as int, u as int);
        }
        assert(mq <= m && mq * u <= m && (mr > 0 ==> mq < m)) by (nonlinear_arith)
            requires
                m == u * mq + mr,
                0 <= mr < u,
                mq >= 0,
                u >= 1,
        ;
        if mr == 0 {
            assert(value == (-mq) * units + 0) by (nonlinear_arith)
                requires
                    m == u * mq + mr,
                    mr == 0,
                    value == -m,
                    u == units,
            ;
            proof {
                vstd::arithmetic::div_mod::lemma_fundamental_div_mod_converse(
                    value as int,
                    units as int,
                    -mq,
                    0,
                );
            }
            ((-mq) as i64, 0)
        } else {
            assert(value == (-mq - 1) * units + (u - mr)) by (nonlinear_arith)
                requires
                    m == u * mq + mr,
                    value == -m,
                    u == units,
            ;
            proof {
                vstd::arithmetic::div_mod::lemma_fundamental_div_mod_converse(
                    value as int,
                    units as int,
                    -mq - 1,
                    u - mr,
                );
            }
            ((-mq - 1) as i64, (u - mr) as i64)
        }
    };
    assert(secs == value as int / units as int && sub == value as int % units as int);
    let scale = 1_000_000_000 / units;
    assert(0 <= sub * scale < 1_000_000_000) by (nonlinear_arith)
        requires
            0 <= sub < units,
            scale == 1_000_000_000i64 / units,
            units > 0,
    ;
    let nanos = (sub * scale) as u32;
    (secs, nanos)
}

/// A timestamp splits into whole seconds, rounded down, and a remainder below one second
/// that together give it back; when the unit divides a second evenly, the nanoseconds are
/// exactly that remainder.
pub proof fn law_timestamp_split(value: i64, units: i64)
    requires
        units > 0,
    ensures
        timestamp_secs(value, units) * units + (value as int) % (units as int) == value,
        0 <= (value as int) % (units as int) < units,
        (1_000_000_000int % (units as int) == 0) ==> timestamp_nanos(value, units) * units == ((
        value as int) % (units as int)) * 1_000_000_000,
{
    vstd::arithmetic::div_mod::lemma_fundamental_div_mod(value as int, units as int);
    vstd::arithmetic::mul::lemma_mul_is_commutative(units as int, (value as int) / (units as int));
    let r = (value as int) % (units as int);
    let scale = 1_000_000_000int / (units as int);
    vstd::arithmetic::div_mod::lemma_fundamental_div_mod(1_000_000_000int, units as int);
    assert(1_000_000_000int % (units as int) == 0 ==> r * scale * units == r * 1_000_000_000)
        by (nonlinear_arith)
        requires
            1_000_000_000int == units * scale + 1_000_000_000int % (units as int),
    ;
}

proof fn lemma_scaled_division(x: int, y: int, k: int)
    requires
        y > 0,
        k > 0,
    ensures
        (k * x) / (k * y) == x / y,
        (k * x) % (k * y) == k * (x % y),
{
    vstd::arithmetic::div_mod::lemma_fundamental_div_mod(x, y);
    let q = x / y;
    let r = x % y;
    assert(k * x == (k * y) * q + k * r && 0 <= k * r < k * y) by (nonlinear_arith)
        requires
            x == y * q + r,
            0 <= r < y,
            k > 0,
    ;
    vstd::arithmetic::div_mod::lemma_fundamental_div_mod_converse(k * x, k * y, q, k * r);
}

/// A timestamp of `value` units, `units` to the second, names the same instant as one of
/// `1000 * value` units with a thousand times as many to the second: the same whole seconds
/// and the same nanoseconds.
proof fn lemma_thousandfold(value: i64, units: i64)
    requires
        units == 1 || units == 1000 || units == 1_000_000,
        i64::MIN <= 1000 * value <= i64::MAX,
    ensures
        timestamp_secs((1000 * value) as i64, (units * 1000) as i64) == timestamp_secs(value, units),
        timestamp_nanos((1000 * value) as i64, (units * 1000) as i64) == timestamp_nanos(
            value,
            units,
        ),
{
    let v = value as int;
    let u = units as int;
    lemma_scaled_division(v, u, 1000);
    assert(1000 * u == (units * 1000) as int);
    let r = v % u;
    if units == 1 {
        assert(1_000_000_000int / 1000 == 1_000_000);
        assert((1000 * r) * 1_000_000 == r * 1_000_000_000);
    } else if units == 1000 {
        assert(1_000_000_000int / 1_000_000 == 1000);
        assert(1_000_000_000int / 1000 == 1_000_000);
        assert((1000 * r) * 1000 == r * 1_000_000);
    } else {
        assert(1_000_000_000int / 1_000_000_000 == 1);
        assert(1_000_000_000int / 1_000_000 == 1000);
        assert((1000 * r) * 1 == r * 1000);
    }
}

/// Two cells that name one instant render alike.
pub open spec fn same_instant_text(j1: Json, v1: int, j2: Json, v2: int) -> bool {
    &&& j1 matches Json::Str(a)
    &&& j2 matches Json::Str(b)
    &&& (a@ == b@ || (a@ == signed_decimal(v1) && b@ == signed_decimal(v2)))
}

/// Timestamp cells of the four precisions render alike when they name the same instant (each
/// as its own number when chrono cannot represent that instant): a millisecond cell of
/// `1000 * s` as a second cell of `s`, a microsecond cell of `1000 * m` as a millisecond cell
/// of `m`, a nanosecond cell of `1000 * m` as a microsecond cell of `m`; and a datetime cell
/// exactly as a millisecond cell of the same value.
pub proof fn law_timestamp_cells_agree(v: i64, j1: Json, j2: Json)
    ensures
        (i64::MIN <= 1000 * v <= i64::MAX && cell_json_is(Cell::TimestampSecond(v), j1)
            && cell_json_is(Cell::TimestampMillisecond((1000 * v) as i64), j2)) ==> same_instant_text(
            j1,
            v as int,
            j2,
            1000 * v,
        ),
        (i64::MIN <= 1000 * v <= i64::MAX && cell_json_is(Cell::TimestampMillisecond(v), j1)
            && cell_json_is(Cell::TimestampMicrosecond((1000 * v) as i64), j2)) ==> same_instant_text(
            j1,
            v as int,
            j2,
            1000 * v,
        ),
        (i64::MIN <= 1000 * v <= i64::MAX && cell_json_is(Cell::TimestampMicrosecond(v), j1)
            && cell_json_is(Cell::TimestampNanosecond((1000 * v) as i64), j2)) ==> same_instant_text(
            j1,
            v as int,
            j2,
            1000 * v,
        ),
        (cell_json_is(Cell::Datetime(v), j1) && cell_json_is(Cell::TimestampMillisecond(v), j2))
            ==> (j1 matches Json::Str(a) && j2 matches Json::Str(b) && a@ == b@),
{
    if i64::MIN <= 1000 * v <= i64::MAX {
        lemma_thousandfold(v, 1);
        lemma_thousandfold(v, 1000);
        lemma_thousandfold(v, 1_000_000);
    }
}

/// A millisecond cell of `v` renders as chrono's text of the instant `v` milliseconds after
/// the epoch: whole seconds rounded down, the remaining milliseconds as nanoseconds; or as
/// the decimal `v` when chrono cannot represent it.
pub proof fn law_millisecond_cell_text(v: i64, j: Json)
    requires
        cell_json_is(Cell::TimestampMillisecond(v), j),
    ensures
        is_text(
            j,
            match chrono_rfc3339_text(
                (v as int / 1000) as i64,
                ((v as int % 1000) * 1_000_000) as u32,
            ) {
                Some(t) => t,
                None => signed_decimal(v as int),
            },
        ),
{
}

/// Renders a timestamp cell of `value` units, `units` to the second.
pub fn format_timestamp(value: i64, units_per_second: i64) -> (res: String)
    requires
        units_per_second > 0,
    ensures
        res@ == timestamp_text(value, units_per_second),
{
    let (secs, nanos) = timestamp_parts(value, units_per_second);
    match rfc3339_text(secs, nanos) {
        Some(t) => t,
        None => i64_decimal(value),
    }
}

/// `j` is a JSON string holding `t`.
pub open spec fn is_text(j: Json, t: Seq<char>) -> bool {
    j matches Json::Str(s) && s@ == t
}

/// `j` is the JSON rendering of the cell `c`.
pub open spec fn cell_json_is(c: Cell, j: Json) -> bool {
    match c {
        Cell::Null => j is Null,
        Cell::Int(v) => j == Json::Int(v),
        Cell::UInt(v) => j == Json::UInt(v),
        Cell::Float(d) => j == Json::Float(d),
        Cell::Bool(b) => j == Json::Bool(b),
        Cell::Binary(b) => is_text(j, hex_encoding(b@)),
        Cell::Text(t) => is_text(j, t@),
        Cell::Date(d) => is_text(j, date_text(d)),
        Cell::Datetime(v) => is_text(j, timestamp_text(v, 1_000)),
        Cell::TimestampSecond(v) => is_text(j, timestamp_text(v, 1)),
        Cell::TimestampMillisecond(v) => is_text(j, timestamp_text(v, 1_000)),
        Cell::TimestampMicrosecond(v) => is_text(j, timestamp_text(v, 1_000_000)),
        Cell::TimestampNanosecond(v) => is_text(j, timestamp_text(v, 1_000_000_000)),
        Cell::Other(t) => is_text(j, t@),
    }
}

/// The JSON rendering of a cell: numbers and booleans as themselves, binary data as
/// lower-case hexadecimal, dates and timestamps as chrono's text, other kinds as text.
pub fn cell_json(cell: Cell) -> (j: Json)
    ensures
        cell_json_is(cell, j),
{
    match cell {
        Cell::Null => Json::Null,
        Cell::Int(v) => Json::Int(v),
        Cell::UInt(v) => Json::UInt(v),
        Cell::Float(d) => Json::Float(d),
        Cell::Bool(b) => Json::Bool(b),
        Cell::Binary(b) => Json::Str(encode_hex(b.as_slice())),
        Cell::Text(t) => Json::Str(t),
        Cell::Date(d) => Json::Str(format_date(d)),
        Cell::Datetime(v) => Json::Str(format_timestamp(v, 1_000)),
        Cell::TimestampSecond(v) => Json::Str(format_timestamp(v, 1)),
        Cell::TimestampMillisecond(v) => Json::Str(format_timestamp(v, 1_000)),
        Cell::TimestampMicrosecond(v) => Json::Str(format_timestamp(v, 1_000_000)),
        Cell::TimestampNanosecond(v) => Json::Str(format_timestamp(v, 1_000_000_000)),
        Cell::Other(t) => Json::Str(t),
    }
}

/// `j` is the JSON object of a row: the cells under their column names, pairing the `i`-th
/// column with the `i`-th cell as far as both go.
pub open spec fn row_json_is(columns: Seq<String>, cells: Seq<Cell>, j: Json) -> bool {
    &&& j matches Json::Object(members)
    &&& members@.len() == if columns.len() <= cells.len() {
        columns.len()
    } else {
        cells.len()
    }
    &&& forall|i: int|
        0 <= i < members@.len() ==> #[trigger] members@[i].0@ == columns[i]@ && cell_json_is(
            cells[i],
            members@[i].1,
        )
}

/// The JSON object of a row.
pub fn row_json(columns: &Vec<String>, cells: Vec<Cell>) -> (j: Json)
    ensures
        row_json_is(columns@, cells@, j),
{
    let ghost all = cells@;
    let mut rest = cells;
    let mut members: Vec<(String, Json)> = Vec::new();
    let mut i: usize = 0;
    while i < columns.len() && rest.len() > 0
        invariant
            i <= columns@.len(),
            i <= all.len(),
            rest@ == all.skip(i as int),
            members@.len() == i,
            forall|k: int|
                0 <= k < i ==> #[trigger] members@[k].0@ == columns@[k]@ && cell_json_is(
                    all[k],
                    members@[k].1,
                ),
        decreases columns@.len() - i,
    {
        let cell = rest.remove(0);
        assert(cell == all[i as int]);
        assert(rest@ =~= all.skip(i + 1));
        let name = columns[i].clone();
        members.push((name, cell_json(cell)));
        i = i + 1;
    }
    Json::Object(members)
}

/// `j` is the JSON array of a mutation's rows; empty when the mutation has none.
pub open spec fn rows_json_is(rows: Option<MutationRows>, j: Json) -> bool {
    &&& j matches Json::Array(items)
    &&& match rows {
        None => items@.len() == 0,
        Some(r) => items@.len() == r.rows@.len() && forall|i: int|
            0 <= i < items@.len() ==> row_json_is(r.columns@, r.rows@[i]@, #[trigger] items@[i]),
    }
}

/// `j` is the JSON object of a mutation: its operation type name, its sequence and its rows.
pub open spec fn mutation_json_is(m: MutationModel, j: Json) -> bool {
    &&& j matches Json::Object(members)
    &&& members@.len() == 3
    &&& members@[0].0@ == "op_type"@
    &&& is_text(members@[0].1, op_type_text(m.op_type))
    &&& members@[1].0@ == "sequence"@
    &&& members@[1].1 == Json::UInt(m.sequence)
    &&& members@[2].0@ == "rows"@
    &&& rows_json_is(m.rows, members@[2].1)
}

fn rows_json(rows: Option<MutationRows>) -> (j: Json)
    ensures
        rows_json_is(rows, j),
{
    let mut items: Vec<Json> = Vec::new();
    match rows {
        None => {},
        Some(r) => {
            let MutationRows { columns, rows: all_rows } = r;
            let ghost all = all_rows@;
            let mut rest = all_rows;
            let count = rest.len();
            let mut i: usize = 0;
            while rest.len() > 0
                invariant
                    i <= all.len(),
                    all.len() == count,
                    rest@ == all.skip(i as int),
                    items@.len() == i,
                    forall|k: int|
                        0 <= k < i ==> row_json_is(columns@, all[k]@, #[trigger] items@[k]),
                decreases rest@.len(),
            {
                let row = rest.remove(0);
                assert(row == all[i as int]);
                assert(rest@ =~= all.skip(i + 1));
                items.push(row_json(&columns, row));
                i = i + 1;
            }
            assert(all.skip(i as int).len() == 0);
        },
    }
    Json::Array(items)
}

/// The JSON object of a mutation.
pub fn mutation_json(m: MutationModel) -> (j: Json)
    ensures
        mutation_json_is(m, j),
{
    let MutationModel { op_type, sequence, rows } = m;
    let mut members: Vec<(String, Json)> = Vec::new();
    members.push(("op_type".to_owned(), Json::Str(op_type_name(op_type))));
    members.push(("sequence".to_owned(), Json::UInt(sequence)));
    members.push(("rows".to_owned(), rows_json(rows)));
    Json::Object(members)
}

/// `j` is a JSON object whose only member, `error`, holds `message`.
pub open spec fn error_json_is(j: Json, message: Seq<char>) -> bool {
    &&& j matches Json::Object(members)
    &&& members@.len() == 1
    &&& members@[0].0@ == "error"@
    &&& is_text(members@[0].1, message)
}

/// The timestamp format of the rows of bulk entries: RFC 3339 in UTC.
pub open spec fn row_timestamp_format() -> Seq<char> {
    "%Y-%m-%dT%H:%M:%S%.fZ"@
}

/// `j` is what the rows of a bulk entry render to: an error object when there is no Arrow
/// IPC body or it does not decode (or arrow-ipc could not read it); else the JSON text that
/// arrow-json writes for the rows, when serde_json reads it, or an error object when writing
/// or reading that text fails.
pub open spec fn bulk_rows_json_is(body: Option<ArrowIpcBody>, j: Json) -> bool {
    match body {
        None => error_json_is(j, "missing Arrow IPC body"@),
        Some(b) => if !(ipc_stream_readable(b.schema@, b.data_header@, b.payload@) && arrow_ipc_decodes(
            b.schema@,
            b.data_header@,
            b.payload@,
        )) {
            error_json_is(j, "failed to decode Arrow IPC rows"@)
        } else {
            match arrow_rows_json_text(b.schema@, b.data_header@, b.payload@, row_timestamp_format()) {
                None => error_json_is(j, "failed to encode Arrow rows as JSON"@),
                Some(text) => if json_text_parses(text) {
                    j matches Json::Text(t) && t@ == text
                } else {
                    error_json_is(j, "failed to parse Arrow row JSON"@)
                },
            }
        },
    }
}

/// A bulk body that arrow-ipc decodes, with no union column, buffers within the body and
/// compressed buffers announcing no more than LZ4 can produce, renders its rows: never the
/// decoding error, and the text arrow-json writes for them whenever serde_json reads it.
pub proof fn law_decodable_body_renders_rows(b: ArrowIpcBody, j: Json)
    requires
        bulk_rows_json_is(Some(b), j),
        arrow_ipc_decodes(b.schema@, b.data_header@, b.payload@),
        ipc_schema_union_flags(b.schema@) matches Some(flags) ==> forall|i: int|
            0 <= i < flags.len() ==> !#[trigger] flags[i],
        ipc_batch_layout(b.data_header@) matches Some((compressed, buffers)) && forall|i: int|
            0 <= i < buffers.len() ==> {
                let (offset, length) = #[trigger] buffers[i];
                &&& 0 <= offset
                &&& 0 <= length
                &&& offset + length <= b.payload@.len()
                &&& (compressed && length >= 8) ==> le_value(
                    b.payload@.subrange(offset as int, offset + 8),
                ) <= 255 * length
            },
    ensures
        !error_json_is(j, "failed to decode Arrow IPC rows"@),
        arrow_rows_json_text(b.schema@, b.data_header@, b.payload@, row_timestamp_format())
            matches Some(text) ==> (json_text_parses(text) ==> (j matches Json::Text(t) && t@
            == text)),
{
    crate::ipc::law_lz4_sized_body_readable(b.data_header@, b.payload@);
    reveal_strlit("failed to decode Arrow IPC rows");
    reveal_strlit("failed to encode Arrow rows as JSON");
    reveal_strlit("failed to parse Arrow row JSON");
    assert("failed to decode Arrow IPC rows"@.len() == 31);
    assert("failed to encode Arrow rows as JSON"@.len() == 35);
    assert("failed to parse Arrow row JSON"@.len() == 30);
}

fn error_json(message: &str) -> (j: Json)
    ensures
        error_json_is(j, message@),
{
    let mut members: Vec<(String, Json)> = Vec::new();
    members.push(("error".to_owned(), Json::Str(message.to_owned())));
    Json::Object(members)
}

/// The rows of a bulk entry as JSON.
pub fn bulk_rows_json(body: Option<ArrowIpcBody>) -> (j: Json)
    ensures
        bulk_rows_json_is(body, j),
{
    let ipc = match body {
        Some(ipc) => ipc,
        None => return error_json("missing Arrow IPC body"),
    };
    let batches = match decode_ipc_batches(
        ipc.schema.as_slice(),
        ipc.data_header.as_slice(),
        ipc.payload.as_slice(),
    ) {
        Some(b) => b,
        None => return error_json("failed to decode Arrow IPC rows"),
    };
    let format = "%Y-%m-%dT%H:%M:%S%.fZ";
    assert(format@ == row_timestamp_format());
    let text = match batches_json_text(&batches, format) {
        Some(t) => t,
        None => return error_json("failed to encode Arrow rows as JSON"),
    };
    assert(text.deep_view() =~= text@);
    if json_text_reads(text.as_slice()) {
        Json::Text(text)
    } else {
        error_json("failed to parse Arrow row JSON")
    }
}

/// `j` is the JSON object of a bulk entry: its sequence, timestamp bounds, timestamp column
/// index and rows.
pub open spec fn bulk_entry_json_is(b: BulkEntryModel, j: Json) -> bool {
    &&& j matches Json::Object(members)
    &&& members@.len() == 5
    &&& members@[0].0@ == "sequence"@
    &&& members@[0].1 == Json::UInt(b.sequence)
    &&& members@[1].0@ == "min_ts"@
    &&& members@[1].1 == Json::Int(b.min_ts)
    &&& members@[2].0@ == "max_ts"@
    &&& members@[2].1 == Json::Int(b.max_ts)
    &&& members@[3].0@ == "timestamp_index"@
    &&& members@[3].1 == Json::UInt(b.timestamp_index as u64)
    &&& members@[4].0@ == "rows"@
    &&& bulk_rows_json_is(b.body, members@[4].1)
}

/// The JSON object of a bulk entry.
pub fn bulk_entry_json(b: BulkEntryModel) -> (j: Json)
    ensures
        bulk_entry_json_is(b, j),
{
    let BulkEntryModel { sequence, min_ts, max_ts, timestamp_index, body } = b;
    let mut members: Vec<(String, Json)> = Vec::new();
    members.push(("sequence".to_owned(), Json::UInt(sequence)));
    members.push(("min_ts".to_owned(), Json::Int(min_ts)));
    members.push(("max_ts".to_owned(), Json::Int(max_ts)));
    members.push(("timestamp_index".to_owned(), Json::UInt(timestamp_index as u64)));
    members.push(("rows".to_owned(), bulk_rows_json(body)));
    Json::Object(members)
}

/// `j` is the structured document of a WAL entry: under `wal_entry`, its mutations and its
/// bulk entries, in order.
pub open spec fn wal_document_is(
    mutations: Seq<MutationModel>,
    bulk_entries: Seq<BulkEntryModel>,
    j: Json,
) -> bool {
    &&& j matches Json::Object(top)
    &&& top@.len() == 1
    &&& top@[0].0@ == "wal_entry"@
    &&& top@[0].1 matches Json::Object(inner)
    &&& inner@.len() == 2
    &&& inner@[0].0@ == "mutations"@
    &&& inner@[0].1 matches Json::Array(ms)
    &&& ms@.len() == mutations.len()
    &&& forall|i: int| 0 <= i < ms@.len() ==> mutation_json_is(mutations[i], #[trigger] ms@[i])
    &&& inner@[1].0@ == "bulk_entries"@
    &&& inner@[1].1 matches Json::Array(bs)
    &&& bs@.len() == bulk_entries.len()
    &&& forall|i: int|
        0 <= i < bs@.len() ==> bulk_entry_json_is(bulk_entries[i], #[trigger] bs@[i])
}

/// The structured document of a WAL entry.
pub fn wal_document(mutations: Vec<MutationModel>, bulk_entries: Vec<BulkEntryModel>) -> (j: Json)
    ensures
        wal_document_is(mutations@, bulk_entries@, j),
{
    let ghost all_m = mutations@;
    let ghost all_b = bulk_entries@;
    let mut rest_m = mutations;
    let mut ms: Vec<Json> = Vec::new();
    let mutation_count = rest_m.len();
    let mut i: usize = 0;
    while rest_m.len() > 0
        invariant
            i <= all_m.len(),
            all_m.len() == mutation_count,
            rest_m@ == all_m.skip(i as int),
            ms@.len() == i,
            forall|k: int| 0 <= k < i ==> mutation_json_is(all_m[k], #[trigger] ms@[k]),
        decreases rest_m@.len(),
    {
        let m = rest_m.remove(0);
        assert(m == all_m[i as int]);
        assert(rest_m@ =~= all_m.skip(i + 1));
        ms.push(mutation_json(m));
        i = i + 1;
    }
    assert(all_m.skip(i as int).len() == 0);
    let mut rest_b = bulk_entries;
    let mut bs: Vec<Json> = Vec::new();
    let bulk_count = rest_b.len();
    let mut k: usize = 0;
    while rest_b.len() > 0
        invariant
            k <= all_b.len(),
            all_b.len() == bulk_count,
            rest_b@ == all_b.skip(k as int),
            bs@.len() == k,
            forall|t: int| 0 <= t < k ==> bulk_entry_json_is(all_b[t], #[trigger] bs@[t]),
        decreases rest_b@.len(),
    {
        let b = rest_b.remove(0);
        assert(b == all_b[k as int]);
        assert(rest_b@ =~= all_b.skip(k + 1));
        bs.push(bulk_entry_json(b));
        k = k + 1;
    }
    assert(all_b.skip(k as int).len() == 0);
    let mut inner: Vec<(String, Json)> = Vec::new();
    inner.push(("mutations".to_owned(), Json::Array(ms)));
    inner.push(("bulk_entries".to_owned(), Json::Array(bs)));
    let mut top: Vec<(String, Json)> = Vec::new();
    top.push(("wal_entry".to_owned(), Json::Object(inner)));
    Json::Object(top)
}

/// `j` is the raw document of a WAL entry: `text` under `wal_entry`.
pub open spec fn debug_document_is(text: Seq<char>, j: Json) -> bool {
    &&& j matches Json::Object(top)
    &&& top@.len() == 1
    &&& top@[0].0@ == "wal_entry"@
    &&& is_text(top@[0].1, text)
}

/// The raw document of a WAL entry whose `Debug` rendering is `text`.
pub fn debug_document(text: String) -> (j: Json)
    ensures
        debug_document_is(text@, j),
{
    let mut top: Vec<(String, Json)> = Vec::new();
    top.push(("wal_entry".to_owned(), Json::Str(text)));
    Json::Object(top)
}

/* From decoded protobuf values to plain values. */

/// Whether a cell view is of a binary, string, date or timestamp value.
pub open spec fn is_text_like(c: CellView) -> bool {
    ||| c is Binary
    ||| c is Text
    ||| c is Date
    ||| c is Datetime
    ||| c is TimestampSecond
    ||| c is TimestampMillisecond
    ||| c is TimestampMicrosecond
    ||| c is TimestampNanosecond
}

/// The cell of a protobuf value: null, an integer or boolean, a binary, string, date or
/// timestamp value, a floating-point value, or the `Debug` text of any other kind.
fn cell_from_value(value: Decoded<Value, CellView>) -> (res: Cell)
    ensures
        res@ == value@,
{
    let data = match value_data(value) {
        Some(d) => d,
        None => return Cell::Null,
    };
    let data = match integer_cell(data) {
        Ok(cell) => return cell,
        Err(d) => d,
    };
    let data = match text_like_cell(data) {
        Ok(cell) => return cell,
        Err(d) => d,
    };
    if is_float_value(&data) {
        Cell::Float(data.value)
    } else {
        Cell::Other(value_debug_text(&data))
    }
}

/// The cells of a row, in order.
fn row_cells(row: Decoded<Row, Seq<CellView>>) -> (res: Vec<Cell>)
    ensures
        cell_views(res@) == row@,
{
    let ghost all = row@;
    let mut values = row_values(row);
    let mut cells: Vec<Cell> = Vec::new();
    while values.len() > 0
        invariant
            cell_views(cells@) + decoded_views(values@) == all,
        decreases values@.len(),
    {
        let ghost before = values@;
        let value = values.remove(0);
        assert(decoded_views(before) =~= seq![value@] + decoded_views(values@));
        let cell = cell_from_value(value);
        let ghost done = cells@;
        cells.push(cell);
        assert(cell_views(cells@) =~= cell_views(done) + seq![cell@]);
    }
    assert(decoded_views(values@) =~= Seq::<CellView>::empty());
    assert(cell_views(cells@) + Seq::<CellView>::empty() =~= cell_views(cells@));
    cells
}

/// The column names and the cells of each row of a `Rows`, in order.
fn rows_model(rows: Decoded<Rows, RowsView>) -> (res: MutationRows)
    ensures
        res@ == rows@,
{
    let ghost model = rows@;
    let (columns, all_rows) = rows_parts(rows);
    let mut out: Vec<Vec<Cell>> = Vec::new();
    let mut rest = all_rows;
    while rest.len() > 0
        invariant
            row_views(out@) + decoded_views(rest@) == model.rows,
        decreases rest@.len(),
    {
        let ghost before = rest@;
        let row = rest.remove(0);
        assert(decoded_views(before) =~= seq![row@] + decoded_views(rest@));
        let cells = row_cells(row);
        let ghost done = out@;
        out.push(cells);
        assert(row_views(out@) =~= row_views(done) + seq![row@]);
    }
    assert(decoded_views(rest@) =~= Seq::<Seq<CellView>>::empty());
    assert(row_views(out@) + Seq::<Seq<CellView>>::empty() =~= row_views(out@));
    MutationRows { columns, rows: out }
}

/// The operation type, sequence and rows of a `Mutation` as plain values.
fn mutation_model(mutation: Decoded<Mutation, MutationView>) -> (res: MutationModel)
    ensures
        res@ == mutation@,
{
    let (op_type, sequence, rows) = mutation_parts(mutation);
    let rows = match rows {
        Some(r) => Some(rows_model(r)),
        None => None,
    };
    MutationModel { op_type, sequence, rows }
}

/// The fields and Arrow IPC body of a `BulkWalEntry` as plain values.
fn bulk_entry_model(entry: Decoded<BulkWalEntry, BulkEntryView>) -> (res: BulkEntryModel)
    ensures
        res@ == entry@,
{
    bulk_entry_parts(entry)
}

/// The mutations and bulk entries of a decoded WAL entry as plain values.
fn wal_entry_models(entry: Decoded<WalEntry, WalEntryView>) -> (res: (
    Vec<MutationModel>,
    Vec<BulkEntryModel>,
))
    ensures
        mutation_views(res.0@) == entry@.mutations,
        bulk_entry_views(res.1@) == entry@.bulk_entries,
{
    let ghost model = entry@;
    let (mutations, bulk_entries) = wal_entry_parts(entry);
    let mut ms: Vec<MutationModel> = Vec::new();
    let mut rest = mutations;
    while rest.len() > 0
        invariant
            mutation_views(ms@) + decoded_views(rest@) == model.mutations,
        decreases rest@.len(),
    {
        let ghost before = rest@;
        let m = rest.remove(0);
        assert(decoded_views(before) =~= seq![m@] + decoded_views(rest@));
        let mm = mutation_model(m);
        let ghost done = ms@;
        ms.push(mm);
        assert(mutation_views(ms@) =~= mutation_views(done) + seq![mm@]);
    }
    assert(decoded_views(rest@) =~= Seq::<MutationView>::empty());
    assert(mutation_views(ms@) + Seq::<MutationView>::empty() =~= mutation_views(ms@));
    let mut bs: Vec<BulkEntryModel> = Vec::new();
    let mut rest_b = bulk_entries;
    while rest_b.len() > 0
        invariant
            bulk_entry_views(bs@) + decoded_views(rest_b@) == model.bulk_entries,
        decreases rest_b@.len(),
    {
        let ghost before = rest_b@;
        let b = rest_b.remove(0);
        assert(decoded_views(before) =~= seq![b@] + decoded_views(rest_b@));
        let bm = bulk_entry_model(b);
        let ghost done = bs@;
        bs.push(bm);
        assert(bulk_entry_views(bs@) =~= bulk_entry_views(done) + seq![bm@]);
    }
    assert(decoded_views(rest_b@) =~= Seq::<BulkEntryView>::empty());
    assert(bulk_entry_views(bs@) + Seq::<BulkEntryView>::empty() =~= bulk_entry_views(bs@));
    (ms, bs)
}

/// Whether `bytes` is a well-formed protobuf encoding of a `WalEntry`.
pub open spec fn wal_entry_decodes(bytes: Seq<u8>) -> bool {
    wal_entry_model(bytes) is Some
}

/// `doc` is the structured document of the WAL entry that `bytes` encode: the document of
/// mutations and bulk entries that hold what the decoded entry holds (floating-point cells
/// being left open).
pub open spec fn structured_document_is(bytes: Seq<u8>, doc: Json) -> bool {
    exists|ms: Seq<MutationModel>, bs: Seq<BulkEntryModel>|
        {
            &&& wal_entry_model(bytes) matches Some(model)
            &&& mutation_views(ms) == model.mutations
            &&& bulk_entry_views(bs) == model.bulk_entries
            &&& #[trigger] wal_document_is(ms, bs, doc)
        }
}

/// Decodes a WAL entry and describes it as a structured JSON document: its mutations with
/// their rows as objects keyed by column name, and its bulk entries with their Arrow rows.
/// None when `bytes` is no `WalEntry`.
pub fn decode_wal_entry_document(bytes: &[u8]) -> (res: Option<Json>)
    ensures
        res is Some <==> wal_entry_decodes(bytes@),
        res matches Some(doc) ==> structured_document_is(bytes@, doc),
{
    let entry = match decode_wal_entry(bytes) {
        Some(e) => e,
        None => return None,
    };
    let (ms, bs) = wal_entry_models(entry);
    let ghost models = (ms@, bs@);
    let doc = wal_document(ms, bs);
    assert(wal_document_is(models.0, models.1, doc));
    assert(structured_document_is(bytes@, doc));
    Some(doc)
}

/// Decodes a WAL entry and describes it as its `Debug` rendering under `wal_entry`. None
/// when `bytes` is no `WalEntry`.
pub fn decode_wal_entry_debug_document(bytes: &[u8]) -> (res: Option<Json>)
    ensures
        res is Some <==> wal_entry_decodes(bytes@),
        res matches Some(doc) ==> exists|text: Seq<char>|
            starts_with(text, debug_opening(wal_entry_model(bytes@)->0)) && single_rendering(text)
                && debug_document_is(text, doc),
{
    let entry = match decode_wal_entry(bytes) {
        Some(e) => e,
        None => return None,
    };
    let text = wal_entry_debug_text(&entry);
    let ghost t = text@;
    let doc = debug_document(text);
    assert(debug_document_is(t, doc));
    assert(starts_with(t, debug_opening(wal_entry_model(bytes@)->0)));
    assert(single_rendering(t));
    Some(doc)
}

/// The readable strings of the `Debug` rendering of the `WalEntry` that `bytes` encodes;
/// none when `bytes` is no `WalEntry`.
pub fn extract_wal_entry_strings(bytes: &[u8], min_len: usize) -> (res: Option<Vec<String>>)
    ensures
        res is Some <==> wal_entry_decodes(bytes@),
        res matches Some(strings) ==> exists|text: Seq<char>|
            starts_with(text, debug_opening(wal_entry_model(bytes@)->0)) && single_rendering(text)
                && string_views(strings@) == readable_strings(
                vstd::utf8::encode_utf8(text),
                min_len as nat,
            ),
        res matches Some(strings) ==> (min_len <= debug_opening(wal_entry_model(bytes@)->0).len()
            ==> strings@.len() > 0 && starts_with(
            strings@[0]@,
            debug_opening(wal_entry_model(bytes@)->0),
        )),
{
    let entry = match decode_wal_entry(bytes) {
        Some(e) => e,
        None => return None,
    };
    let text = wal_entry_debug_text(&entry);
    let strings = extract_readable_strings(text.as_str().as_bytes(), min_len);
    let ghost opening = debug_opening(wal_entry_model(bytes@)->0);
    assert(string_views(strings@) == readable_strings(
        vstd::utf8::encode_utf8(text@),
        min_len as nat,
    ));
    assert(starts_with(text@, opening));
    assert(single_rendering(text@));
    proof {
        if min_len <= opening.len() {
            lemma_debug_opening_plain(wal_entry_model(bytes@)->0);
            law_first_string_keeps_plain_opening(text@, opening, min_len as nat);
            assert(string_views(strings@)[0] == strings@[0]@);
        }
    }
    Some(strings)
}

} // verus!
