//! Locating a length-delimited field in a protobuf message without decoding the message.
//!
//! A message is a sequence of fields; each starts with a varint tag whose low three bits give
//! the wire type and whose remaining bits give the field number. Varint fields carry one more
//! varint, fixed64 fields eight bytes, fixed32 fields four bytes, and length-delimited fields a
//! varint length followed by that many bytes.
use vstd::prelude::*;
use vstd::slice::slice_subrange;
use crate::varint::{varint, read_varint, lemma_varint_len, varint_encoding, law_varint_roundtrip};

verus! {

/// Wire type of a varint field.
pub const WIRE_VARINT: u64 = 0;

/// Wire type of an eight-byte field.
pub const WIRE_FIXED64: u64 = 1;

/// Wire type of a length-delimited field.
pub const WIRE_LEN: u64 = 2;

/// Wire type of a four-byte field.
pub const WIRE_FIXED32: u64 = 5;

/// Field number of `data` in a raft `Entry`.
pub const RAFT_ENTRY_DATA_FIELD: u64 = 4;

/// Field number of `data` in a GreptimeDB log-store entry.
pub const LOG_STORE_ENTRY_DATA_FIELD: u64 = 3;

/// The payload of the first length-delimited field numbered `target` in the message `s`.
///
/// Fields are read in order. Fields of other numbers or of the varint, fixed64 and fixed32
/// wire types are stepped over without looking at their contents. There is no payload when
/// the scan reaches the end of `s` first, when a tag or a varint is malformed, when a field
/// runs past the end of `s`, or when a tag names a wire type other than those four.
pub open spec fn field_payload(s: Seq<u8>, target: u64) -> Option<Seq<u8>>
    decreases s.len(),
{
    if s.len() == 0 {
        None
    } else {
        match varint(s) {
            None => None,
            Some((tag, n)) => {
                proof {
                    lemma_varint_len(s);
                }
                let rest = s.skip(n as int);
                if tag % 8 == WIRE_VARINT {
                    match varint(rest) {
                        None => None,
                        Some((_, m)) => {
                            proof {
                                lemma_varint_len(rest);
                            }
                            field_payload(rest.skip(m as int), target)
                        },
                    }
                } else if tag % 8 == WIRE_FIXED64 {
                    if rest.len() < 8 {
                        None
                    } else {
                        field_payload(rest.skip(8), target)
                    }
                } else if tag % 8 == WIRE_LEN {
                    match varint(rest) {
                        None => None,
                        Some((len, m)) => {
                            proof {
                                lemma_varint_len(rest);
                            }
                            let body = rest.skip(m as int);
                            if body.len() < len {
                                None
                            } else if tag / 8 == target {
                                Some(body.take(len as int))
                            } else {
                                field_payload(body.skip(len as int), target)
                            }
                        },
                    }
                } else if tag % 8 == WIRE_FIXED32 {
                    if rest.len() < 4 {
                        None
                    } else {
                        field_payload(rest.skip(4), target)
                    }
                } else {
                    None
                }
            },
        }
    }
}

/// `found` is the slice that `field_payload` describes: present exactly when the payload
/// exists, and holding its bytes.
pub open spec fn is_payload(found: Option<&[u8]>, expected: Option<Seq<u8>>) -> bool {
    match found {
        Some(r) => expected == Some(r@),
        None => expected is None,
    }
}

/// The payload of the first length-delimited field numbered `target_field_number`, as a
/// slice of `bytes`.
pub fn extract_length_delimited_field(bytes: &[u8], target_field_number: u64) -> (res: Option<
    &[u8],
>)
    ensures
        is_payload(res, field_payload(bytes@, target_field_number)),
{
    let mut i: usize = 0;
    assert(bytes@.skip(0) =~= bytes@);
    while i < bytes.len()
        invariant
            i <= bytes@.len(),
            field_payload(bytes@, target_field_number) == field_payload(
                bytes@.skip(i as int),
                target_field_number,
            ),
        decreases bytes@.len() - i,
    {
        let ghost s = bytes@.skip(i as int);
        let tail = slice_subrange(bytes, i, bytes.len());
        assert(tail@ =~= s);
        let (tag, tag_len) = match read_varint(tail) {
            Some(r) => r,
            None => return None,
        };
        proof {
            lemma_varint_len(s);
        }
        i = i + tag_len;
        assert(s.skip(tag_len as int) =~= bytes@.skip(i as int));
        let field_number = tag >> 3;
        let wire_type = tag & 0x07;
        assert(tag >> 3 == tag / 8 && tag & 0x07 == tag % 8) by (bit_vector);
        if wire_type == WIRE_VARINT {
            let ghost r = bytes@.skip(i as int);
            let tail = slice_subrange(bytes, i, bytes.len());
            assert(tail@ =~= r);
            let len = match read_varint(tail) {
                Some((_, len)) => len,
                None => return None,
            };
            proof {
                lemma_varint_len(r);
            }
            i = i + len;
            assert(r.skip(len as int) =~= bytes@.skip(i as int));
        } else if wire_type == WIRE_FIXED64 {
            if bytes.len() - i < 8 {
                return None;
            }
            assert(bytes@.skip(i as int).skip(8) =~= bytes@.skip(i + 8));
            i = i + 8;
        } else if wire_type == WIRE_LEN {
            let ghost r = bytes@.skip(i as int);
            let tail = slice_subrange(bytes, i, bytes.len());
            assert(tail@ =~= r);
            let (len, len_len) = match read_varint(tail) {
                Some(v) => v,
                None => return None,
            };
            proof {
                lemma_varint_len(r);
            }
            i = i + len_len;
            assert(r.skip(len_len as int) =~= bytes@.skip(i as int));
            if len > (bytes.len() - i) as u64 {
                return None;
            }
            let end = i + len as usize;
            if field_number == target_field_number {
                let found = slice_subrange(bytes, i, end);
                assert(found@ =~= bytes@.skip(i as int).take(len as int));
                return Some(found);
            }
            assert(bytes@.skip(i as int).skip(len as int) =~= bytes@.skip(end as int));
            i = end;
        } else if wire_type == WIRE_FIXED32 {
            if bytes.len() - i < 4 {
                return None;
            }
            assert(bytes@.skip(i as int).skip(4) =~= bytes@.skip(i + 4));
            i = i + 4;
        } else {
            return None;
        }
    }
    assert(bytes@.skip(i as int).len() == 0);
    None
}

/// The `data` field of a raft `Entry` message, located without validating the entry's other
/// fields.
pub fn extract_raft_entry_data(bytes: &[u8]) -> (res: Option<&[u8]>)
    ensures
        is_payload(res, field_payload(bytes@, RAFT_ENTRY_DATA_FIELD)),
{
    extract_length_delimited_field(bytes, RAFT_ENTRY_DATA_FIELD)
}

/// The `data` field of a GreptimeDB log-store entry message.
pub fn extract_log_store_entry_data(bytes: &[u8]) -> (res: Option<&[u8]>)
    ensures
        is_payload(res, field_payload(bytes@, LOG_STORE_ENTRY_DATA_FIELD)),
{
    extract_length_delimited_field(bytes, LOG_STORE_ENTRY_DATA_FIELD)
}

/// The encoding of a length-delimited field: its tag, the payload's length, the payload.
pub open spec fn length_delimited_field(field_number: u64, payload: Seq<u8>) -> Seq<u8> {
    varint_encoding((field_number * 8 + WIRE_LEN) as u64) + varint_encoding(payload.len() as u64)
        + payload
}

/// The encoding of a varint field: its tag and its value.
pub open spec fn varint_field(field_number: u64, value: u64) -> Seq<u8> {
    varint_encoding((field_number * 8 + WIRE_VARINT) as u64) + varint_encoding(value)
}

/// A length-delimited field numbered `field_number` at the start of a message is found, and
/// its payload given back, whatever follows it.
pub proof fn law_leading_field_found(field_number: u64, payload: Seq<u8>, rest: Seq<u8>)
    requires
        field_number < 0x2000_0000_0000_0000,
        payload.len() <= u64::MAX,
    ensures
        field_payload(length_delimited_field(field_number, payload) + rest, field_number) == Some(
            payload,
        ),
{
    let tag = (field_number * 8 + WIRE_LEN) as u64;
    let len = payload.len() as u64;
    let s = length_delimited_field(field_number, payload) + rest;
    let after_tag = varint_encoding(len) + (payload + rest);
    assert(s =~= varint_encoding(tag) + after_tag);
    law_varint_roundtrip(tag, after_tag);
    law_varint_roundtrip(len, payload + rest);
    assert(s.skip(varint_encoding(tag).len() as int) =~= after_tag);
    assert(after_tag.skip(varint_encoding(len).len() as int) =~= payload + rest);
    assert((payload + rest).take(len as int) =~= payload);
}

/// A length-delimited field with another number is stepped over: the search goes on in what
/// follows it.
pub proof fn law_other_field_skipped(
    other: u64,
    field_number: u64,
    payload: Seq<u8>,
    rest: Seq<u8>,
)
    requires
        other < 0x2000_0000_0000_0000,
        other != field_number,
        payload.len() <= u64::MAX,
    ensures
        field_payload(length_delimited_field(other, payload) + rest, field_number)
            == field_payload(rest, field_number),
{
    let tag = (other * 8 + WIRE_LEN) as u64;
    let len = payload.len() as u64;
    let s = length_delimited_field(other, payload) + rest;
    let after_tag = varint_encoding(len) + (payload + rest);
    assert(s =~= varint_encoding(tag) + after_tag);
    law_varint_roundtrip(tag, after_tag);
    law_varint_roundtrip(len, payload + rest);
    assert(s.skip(varint_encoding(tag).len() as int) =~= after_tag);
    assert(after_tag.skip(varint_encoding(len).len() as int) =~= payload + rest);
    assert((payload + rest).skip(len as int) =~= rest);
}

/// A varint field is stepped over whatever its number, its value left unexamined.
pub proof fn law_varint_field_skipped(other: u64, value: u64, field_number: u64, rest: Seq<u8>)
    requires
        other < 0x2000_0000_0000_0000,
    ensures
        field_payload(varint_field(other, value) + rest, field_number) == field_payload(
            rest,
            field_number,
        ),
{
    let tag = (other * 8 + WIRE_VARINT) as u64;
    let s = varint_field(other, value) + rest;
    let after_tag = varint_encoding(value) + rest;
    assert(s =~= varint_encoding(tag) + after_tag);
    law_varint_roundtrip(tag, after_tag);
    law_varint_roundtrip(value, rest);
    assert(s.skip(varint_encoding(tag).len() as int) =~= after_tag);
    assert(after_tag.skip(varint_encoding(value).len() as int) =~= rest);
}

/// Where the payload that `field_payload` finds begins in the message.
proof fn lemma_payload_offset(s: Seq<u8>, target: u64) -> (at: int)
    requires
        field_payload(s, target) is Some,
    ensures
        0 <= at,
        at + field_payload(s, target)->0.len() <= s.len(),
        field_payload(s, target)->0 == s.subrange(at, at + field_payload(s, target)->0.len()),
    decreases s.len(),
{
    let (tag, n) = varint(s)->0;
    lemma_varint_len(s);
    let rest = s.skip(n as int);
    let d = field_payload(s, target)->0;
    if tag % 8 == WIRE_VARINT {
        let (_, m) = varint(rest)->0;
        lemma_varint_len(rest);
        let next = rest.skip(m as int);
        let j = lemma_payload_offset(next, target);
        assert(next.subrange(j, j + d.len()) =~= s.subrange(n + m + j, n + m + j + d.len()));
        n + m + j
    } else if tag % 8 == WIRE_FIXED64 {
        let next = rest.skip(8);
        let j = lemma_payload_offset(next, target);
        assert(next.subrange(j, j + d.len()) =~= s.subrange(n + 8 + j, n + 8 + j + d.len()));
        n + 8 + j
    } else if tag % 8 == WIRE_LEN {
        let (len, m) = varint(rest)->0;
        lemma_varint_len(rest);
        let body = rest.skip(m as int);
        if tag / 8 == target {
            assert(body.take(len as int) =~= s.subrange((n + m) as int, n + m + len));
            (n + m) as int
        } else {
            let next = body.skip(len as int);
            let j = lemma_payload_offset(next, target);
            assert(next.subrange(j, j + d.len()) =~= s.subrange(
                n + m + len + j,
                n + m + len + j + d.len(),
            ));
            n + m + len + j
        }
    } else {
        let next = rest.skip(4);
        let j = lemma_payload_offset(next, target);
        assert(next.subrange(j, j + d.len()) =~= s.subrange(n + 4 + j, n + 4 + j + d.len()));
        n + 4 + j
    }
}

/// The payload found is a contiguous part of the message.
pub proof fn law_payload_is_part_of_message(s: Seq<u8>, target: u64)
    ensures
        field_payload(s, target) matches Some(d) ==> exists|at: int|
            0 <= at && at + d.len() <= s.len() && d == #[trigger] s.subrange(at, at + d.len()),
{
    if field_payload(s, target) is Some {
        let at = lemma_payload_offset(s, target);
        let d = field_payload(s, target)->0;
        assert(d == s.subrange(at, at + d.len()));
    }
}

} // verus!
