//! Arrow IPC bodies of bulk entries: checking that a batch's buffers lie within its body,
//! decoding the batches and writing their rows as JSON text.
use vstd::prelude::*;
use arrow_array::RecordBatch;
use arrow_flight::FlightData;
use arrow_flight::utils::flight_data_to_batches;
use arrow_json::ArrayWriter;
use arrow_json::writer::WriterBuilder;

verus! {

/// Decoded Arrow record batches, held opaque: Verus refuses a declaration of arrow-array's
/// `RecordBatch`.
#[verifier::external_body]
pub struct RecordBatches(Vec<RecordBatch>);

/// Record batches with the schema message, batch header and body they were decoded from.
pub struct IpcBatches {
    batches: RecordBatches,
    source: Ghost<(Seq<u8>, Seq<u8>, Seq<u8>)>,
}

impl View for IpcBatches {
    type V = (Seq<u8>, Seq<u8>, Seq<u8>);

    closed spec fn view(&self) -> (Seq<u8>, Seq<u8>, Seq<u8>) {
        self.source@
    }
}

/* Names of what outside functions compute. */

/// Whether arrow-flight decodes the schema message and the record batch message (header
/// and body) of an Arrow IPC stream.
pub uninterp spec fn arrow_ipc_decodes(schema: Seq<u8>, data_header: Seq<u8>, payload: Seq<u8>) -> bool;

/// The buffers that a record batch message lays out in its body, as offset and length, and
/// whether the body is compressed; none when the bytes are no record batch message.
pub uninterp spec fn ipc_batch_layout(data_header: Seq<u8>) -> Option<(bool, Seq<(i64, i64)>)>;

/// The JSON text that arrow-json writes for the record batches decoded from an Arrow IPC
/// stream, with explicit nulls and the given timestamp format; none when writing fails.
pub uninterp spec fn arrow_rows_json_text(
    schema: Seq<u8>,
    data_header: Seq<u8>,
    payload: Seq<u8>,
    timestamp_format: Seq<char>,
) -> Option<Seq<u8>>;

/// For each field of the schema message, nested fields included, whether its type is a
/// union; none when the bytes are no schema message that arrow-ipc converts.
pub uninterp spec fn ipc_schema_union_flags(schema: Seq<u8>) -> Option<Seq<bool>>;

/* What arrow-ipc needs of a body before it reads it. */

/// The number that bytes spell in little-endian order.
pub open spec fn le_value(s: Seq<u8>) -> nat
    decreases s.len(),
{
    if s.len() == 0 {
        0
    } else {
        (s[0] + 256 * le_value(s.drop_first())) as nat
    }
}

/// A buffer lies within a body of `body_len` bytes.
pub open spec fn buffer_in_body(buffer: (i64, i64), body_len: nat) -> bool {
    0 <= buffer.0 && 0 <= buffer.1 && buffer.0 + buffer.1 <= body_len
}

/// A compressed buffer of at least eight bytes starts with its uncompressed size, a 64-bit
/// little-endian signed integer. arrow-ipc reserves memory for that size before
/// decompressing; the size must not exceed what LZ4 can produce from the buffer, 255 bytes
/// per byte. Negative sizes (unset, or uncompressed data) are read without reserving.
pub open spec fn compressed_size_plausible(buffer: (i64, i64), body: Seq<u8>) -> bool {
    buffer.1 >= 8 ==> {
        let size = le_value(body.subrange(buffer.0 as int, buffer.0 + 8));
        size >= 0x8000_0000_0000_0000 || size <= 255 * buffer.1
    }
}

/// arrow-ipc can read the body of the record batch message `data_header` without running
/// past it or reserving implausible memory: each buffer lies within the body and, when the
/// body is compressed, advertises a plausible uncompressed size. A header that is no record
/// batch message is refused by arrow-ipc before it reads the body.
pub open spec fn ipc_body_readable(data_header: Seq<u8>, payload: Seq<u8>) -> bool {
    match ipc_batch_layout(data_header) {
        None => true,
        Some((compressed, buffers)) => forall|i: int|
            0 <= i < buffers.len() ==> {
                &&& buffer_in_body(#[trigger] buffers[i], payload.len())
                &&& compressed ==> compressed_size_plausible(buffers[i], payload)
            },
    }
}

/// The schema declares no union column, at any depth. arrow-ipc slices a union's type ids
/// and offsets out of their buffers by the union's length with an assertion, so a union is
/// refused rather than read.
pub open spec fn schema_without_unions(schema: Seq<u8>) -> bool {
    match ipc_schema_union_flags(schema) {
        None => true,
        Some(flags) => forall|i: int| 0 <= i < flags.len() ==> !#[trigger] flags[i],
    }
}

/// arrow-ipc can read the stream without an assertion failing or an implausible reservation:
/// no union column, and a readable body.
pub open spec fn ipc_stream_readable(schema: Seq<u8>, data_header: Seq<u8>, payload: Seq<u8>) -> bool {
    schema_without_unions(schema) && ipc_body_readable(data_header, payload)
}

/* Calls into outside crates. */

/// The buffer layout of a record batch message.
///
/// Calls `arrow_ipc::root_as_message`, which checks the flatbuffer, then reads the record
/// batch header's buffers (offset and length) and whether it declares a body compression;
/// a message without buffers has none.
#[verifier::external_body]
fn ipc_batch_buffers(data_header: &[u8]) -> (res: Option<(bool, Vec<(i64, i64)>)>)
    ensures
        match res {
            Some((compressed, buffers)) => ipc_batch_layout(data_header@) == Some(
                (compressed, buffers@),
            ),
            None => ipc_batch_layout(data_header@) is None,
        },
{
    let message = arrow_ipc::root_as_message(data_header).ok()?;
    let batch = message.header_as_record_batch()?;
    let buffers = match batch.buffers() {
        Some(buffers) => buffers.iter().map(|b| (b.offset(), b.length())).collect(),
        None => Vec::new(),
    };
    Some((batch.compression().is_some(), buffers))
}

/// Which fields of a schema message are unions.
///
/// Calls `arrow_ipc::root_as_message`, then `arrow_ipc::convert::try_fb_to_schema` on its
/// schema header, and reports for each of `Schema::flattened_fields` (every field, nested
/// fields included) whether its type is `DataType::Union`.
#[verifier::external_body]
fn schema_union_flags(schema: &[u8]) -> (res: Option<Vec<bool>>)
    ensures
        match res {
            Some(flags) => ipc_schema_union_flags(schema@) == Some(flags@),
            None => ipc_schema_union_flags(schema@) is None,
        },
{
    let message = arrow_ipc::root_as_message(schema).ok()?;
    let converted = arrow_ipc::convert::try_fb_to_schema(message.header_as_schema()?).ok()?;
    let fields = converted.flattened_fields();
    Some(fields.iter().map(|f| matches!(f.data_type(), arrow_schema::DataType::Union(..))).collect())
}

/// Decodes the record batches of an Arrow IPC stream.
///
/// Calls `arrow_flight::utils::flight_data_to_batches` on two flight messages: the schema,
/// then the batch header with its body. Whether it succeeds depends on the three byte
/// strings alone; the batches are not described here beyond the bytes they came from.
/// arrow-ipc slices each buffer out of the body with an assertion, slices a union's type
/// ids and offsets by the union's length with an assertion, and reserves memory for the
/// uncompressed size of a compressed buffer; so the stream must have no union column and a
/// readable body.
#[verifier::external_body]
fn ipc_record_batches(schema: &[u8], data_header: &[u8], payload: &[u8]) -> (res: Option<
    IpcBatches,
>)
    requires
        ipc_stream_readable(schema@, data_header@, payload@),
    ensures
        res is Some <==> arrow_ipc_decodes(schema@, data_header@, payload@),
        res matches Some(b) ==> b@ == (schema@, data_header@, payload@),
{
    let flight_data = [
        FlightData::new().with_data_header(schema.to_vec()),
        FlightData::new().with_data_header(data_header.to_vec()).with_data_body(payload.to_vec()),
    ];
    let batches = flight_data_to_batches(&flight_data).ok()?;
    Some(IpcBatches { batches: RecordBatches(batches), source: Ghost((schema@, data_header@, payload@)) })
}

/// Writes record batches as a JSON array of row objects.
///
/// Uses the `ArrayWriter` of arrow-json with explicit nulls and the given timestamp format;
/// `None` when writing or finishing fails (arrow-cast reports a timestamp that chrono cannot
/// represent as an error). The text depends on the batches alone, and so on the bytes they
/// were decoded from.
#[verifier::external_body]
pub(crate) fn batches_json_text(batches: &IpcBatches, timestamp_format: &str) -> (res: Option<Vec<u8>>)
    ensures
        res.deep_view() == arrow_rows_json_text(
            batches@.0,
            batches@.1,
            batches@.2,
            timestamp_format@,
        ),
{
    let batch_refs = batches.batches.0.iter().collect::<Vec<_>>();
    let mut writer: ArrayWriter<Vec<u8>> = WriterBuilder::new().with_explicit_nulls(
        true,
    ).with_timestamp_format(timestamp_format.to_owned()).build(Vec::new());
    match writer.write_batches(&batch_refs).and_then(|_| writer.finish()) {
        Ok(()) => Some(writer.get_ref().clone()),
        Err(_) => None,
    }
}

/* Verified checks and the decoding that they guard. */

fn le_u64(bytes: &[u8], start: usize) -> (res: u128)
    requires
        start + 8 <= bytes@.len(),
    ensures
        res == le_value(bytes@.subrange(start as int, start + 8)),
{
    let ghost s = bytes@.subrange(start as int, start + 8);
    let mut v: u128 = 0;
    let mut k: usize = 8;
    assert(s.subrange(8, 8) =~= Seq::<u8>::empty());
    proof {
        lemma_pow256_small(0);
    }
    while k > 0
        invariant
            k <= 8,
            start + 8 <= bytes.len(),
            s == bytes@.subrange(start as int, start + 8),
            v == le_value(s.subrange(k as int, 8)),
            v < pow256((8 - k) as nat),
            pow256((8 - k) as nat) <= pow256(8),
        decreases k,
    {
        let b = bytes[start + k - 1];
        assert(s.subrange(k - 1, 8).drop_first() =~= s.subrange(k as int, 8));
        assert(s.subrange(k - 1, 8)[0] == b);
        proof {
            lemma_pow256_small((8 - k) as nat);
            lemma_pow256_small((8 - k + 1) as nat);
        }
        assert(v * 256 + b < pow256((8 - k + 1) as nat)) by (nonlinear_arith)
            requires
                v < pow256((8 - k) as nat),
                b < 256,
                pow256((8 - k + 1) as nat) == 256 * pow256((8 - k) as nat),
        ;
        v = v * 256 + b as u128;
        k = k - 1;
    }
    assert(s.subrange(0, 8) =~= s);
    v
}

spec fn pow256(n: nat) -> nat
    decreases n,
{
    if n == 0 {
        1
    } else {
        256 * pow256((n - 1) as nat)
    }
}

proof fn lemma_pow256_small(n: nat)
    requires
        n <= 8,
    ensures
        pow256(n) <= pow256(8),
        pow256(8) == 0x1_0000_0000_0000_0000,
        n >= 1 ==> pow256(n) == 256 * pow256((n - 1) as nat),
{
    reveal_with_fuel(pow256, 9);
    assert(pow256(8) == 0x1_0000_0000_0000_0000);
    if n == 0 {
    } else if n == 1 {
    } else if n == 2 {
    } else if n == 3 {
    } else if n == 4 {
    } else if n == 5 {
    } else if n == 6 {
    } else if n == 7 {
    } else {
    }
}

proof fn lemma_unreadable_at(
    data_header: Seq<u8>,
    payload: Seq<u8>,
    compressed: bool,
    buffers: Seq<(i64, i64)>,
    i: int,
)
    requires
        ipc_batch_layout(data_header) == Some((compressed, buffers)),
        0 <= i < buffers.len(),
        !buffer_in_body(buffers[i], payload.len()) || (compressed && !compressed_size_plausible(
            buffers[i],
            payload,
        )),
    ensures
        !ipc_body_readable(data_header, payload),
{
    if ipc_body_readable(data_header, payload) {
        let b = buffers[i];
        let layout = ipc_batch_layout(data_header);
        assert(layout matches Some((c, bs)) && c == compressed && bs == buffers);
        assert(forall|j: int| 0 <= j < buffers.len() ==> buffer_in_body(#[trigger] buffers[j], payload.len()));
        assert(buffer_in_body(b, payload.len()));
        assert(compressed ==> compressed_size_plausible(b, payload));
    }
}

/// Whether arrow-ipc can read the body of the record batch message `data_header`, as
/// `ipc_body_readable` describes it.
pub fn body_readable(data_header: &[u8], payload: &[u8]) -> (res: bool)
    ensures
        res == ipc_body_readable(data_header@, payload@),
{
    let (compressed, buffers) = match ipc_batch_buffers(data_header) {
        Some(layout) => layout,
        None => return true,
    };
    let n = payload.len();
    let mut i: usize = 0;
    while i < buffers.len()
        invariant
            ipc_batch_layout(data_header@) == Some((compressed, buffers@)),
            n == payload@.len(),
            i <= buffers@.len(),
            forall|j: int|
                0 <= j < i ==> {
                    &&& buffer_in_body(#[trigger] buffers@[j], payload@.len())
                    &&& compressed ==> compressed_size_plausible(buffers@[j], payload@)
                },
        decreases buffers@.len() - i,
    {
        let (offset, length) = buffers[i];
        if offset < 0 || length < 0 || length as u64 > n as u64 || offset as u64 > (n as u64
            - length as u64) {
            proof {
                lemma_unreadable_at(data_header@, payload@, compressed, buffers@, i as int);
            }
            return false;
        }
        assert(buffer_in_body(buffers@[i as int], payload@.len()));
        if compressed && length >= 8 {
            let size = le_u64(payload, offset as usize);
            if size < 0x8000_0000_0000_0000 && size > 255 * (length as u128) {
                assert(!compressed_size_plausible(buffers@[i as int], payload@));
                proof {
                    lemma_unreadable_at(data_header@, payload@, compressed, buffers@, i as int);
                }
                return false;
            }
        }
        i = i + 1;
    }
    true
}

/// Whether the schema declares no union column, as `schema_without_unions` describes it.
pub fn schema_has_no_unions(schema: &[u8]) -> (res: bool)
    ensures
        res == schema_without_unions(schema@),
{
    let flags = match schema_union_flags(schema) {
        Some(flags) => flags,
        None => return true,
    };
    let mut i: usize = 0;
    while i < flags.len()
        invariant
            ipc_schema_union_flags(schema@) == Some(flags@),
            i <= flags@.len(),
            forall|j: int| 0 <= j < i ==> !#[trigger] flags@[j],
        decreases flags@.len() - i,
    {
        if flags[i] {
            proof {
                let f = ipc_schema_union_flags(schema@);
                assert(f matches Some(fl) && fl == flags@);
                assert(flags@[i as int]);
            }
            return false;
        }
        i = i + 1;
    }
    true
}

/// Decodes the record batches of an Arrow IPC stream, when arrow-ipc can read it.
pub fn decode_ipc_batches(schema: &[u8], data_header: &[u8], payload: &[u8]) -> (res: Option<
    IpcBatches,
>)
    ensures
        res is Some <==> (ipc_stream_readable(schema@, data_header@, payload@) && arrow_ipc_decodes(
            schema@,
            data_header@,
            payload@,
        )),
        res matches Some(b) ==> b@ == (schema@, data_header@, payload@),
{
    if schema_has_no_unions(schema) && body_readable(data_header, payload) {
        ipc_record_batches(schema, data_header, payload)
    } else {
        None
    }
}

/// arrow-ipc can read a body whose buffers all lie within it and whose compressed buffers
/// announce no more than LZ4 can produce, 255 bytes per byte of the buffer: such a body is
/// never refused, however much its data shrank.
pub proof fn law_lz4_sized_body_readable(data_header: Seq<u8>, payload: Seq<u8>)
    requires
        ipc_batch_layout(data_header) matches Some((compressed, buffers)) && forall|i: int|
            0 <= i < buffers.len() ==> {
                let (offset, length) = #[trigger] buffers[i];
                &&& 0 <= offset
                &&& 0 <= length
                &&& offset + length <= payload.len()
                &&& (compressed && length >= 8) ==> le_value(
                    payload.subrange(offset as int, offset + 8),
                ) <= 255 * length
            },
    ensures
        ipc_body_readable(data_header, payload),
{
    let (compressed, buffers) = ipc_batch_layout(data_header)->0;
    assert forall|i: int| 0 <= i < buffers.len() implies {
        &&& buffer_in_body(#[trigger] buffers[i], payload.len())
        &&& compressed ==> compressed_size_plausible(buffers[i], payload)
    } by {
        let (offset, length) = buffers[i];
    }
}

} // verus!
