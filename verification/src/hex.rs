//! Lower-case hexadecimal rendering of byte strings.
use vstd::prelude::*;
use crate::strbuf::string_push;

verus! {

/// The lower-case hexadecimal digit for a value below 16.
pub open spec fn hex_digit(n: u8) -> char
    recommends
        n < 16,
{
    if n < 10 {
        (('0' as u8) + n) as char
    } else {
        (('a' as u8) + (n - 10)) as char
    }
}

/// Two hexadecimal digits per byte, high nibble first, in the order of the bytes.
pub open spec fn hex_encoding(bytes: Seq<u8>) -> Seq<char>
    decreases bytes.len(),
{
    if bytes.len() == 0 {
        Seq::empty()
    } else {
        let b = bytes.last();
        hex_encoding(bytes.drop_last()).push(hex_digit(b / 16)).push(hex_digit(b % 16))
    }
}

fn nibble_char(n: u8) -> (c: char)
    requires
        n < 16,
    ensures
        c == hex_digit(n),
{
    if n < 10 {
        (48u8 + n) as char
    } else {
        (97u8 + (n - 10)) as char
    }
}

/// Renders `bytes` as lower-case hexadecimal, two digits per byte.
pub fn encode_hex(bytes: &[u8]) -> (out: String)
    ensures
        out@ == hex_encoding(bytes@),
{
    let mut out = String::new();
    let mut i: usize = 0;
    while i < bytes.len()
        invariant
            i <= bytes@.len(),
            out@ == hex_encoding(bytes@.subrange(0, i as int)),
        decreases bytes@.len() - i,
    {
        let b = bytes[i];
        assert(b >> 4 == b / 16 && b & 0x0f == b % 16) by (bit_vector);
        string_push(&mut out, nibble_char(b >> 4));
        string_push(&mut out, nibble_char(b & 0x0f));
        assert(bytes@.subrange(0, i + 1).drop_last() =~= bytes@.subrange(0, i as int));
        i = i + 1;
    }
    assert(bytes@.subrange(0, bytes@.len() as int) =~= bytes@);
    out
}

/// The encoding of two byte strings side by side is the two encodings side by side.
pub proof fn law_hex_of_concat(a: Seq<u8>, b: Seq<u8>)
    ensures
        hex_encoding(a + b) == hex_encoding(a) + hex_encoding(b),
    decreases b.len(),
{
    if b.len() == 0 {
        assert(a + b =~= a);
        assert(hex_encoding(a) + hex_encoding(b) =~= hex_encoding(a));
    } else {
        assert((a + b).drop_last() =~= a + b.drop_last());
        law_hex_of_concat(a, b.drop_last());
        assert(hex_encoding(a + b) =~= hex_encoding(a) + hex_encoding(b));
    }
}

/// Every byte becomes exactly two lower-case hexadecimal digits: the digit pair at position
/// `2 * i` spells byte `i`, high nibble first.
pub proof fn law_hex_digits(bytes: Seq<u8>)
    ensures
        hex_encoding(bytes).len() == 2 * bytes.len(),
        forall|i: int|
            0 <= i < bytes.len() ==> #[trigger] hex_encoding(bytes)[2 * i] == hex_digit(
                bytes[i] / 16,
            ) && hex_encoding(bytes)[2 * i + 1] == hex_digit(bytes[i] % 16),
        forall|k: int|
            0 <= k < hex_encoding(bytes).len() ==> ('0' <= #[trigger] hex_encoding(bytes)[k] <= '9'
                || 'a' <= hex_encoding(bytes)[k] <= 'f'),
    decreases bytes.len(),
{
    if bytes.len() > 0 {
        law_hex_digits(bytes.drop_last());
        let prev = hex_encoding(bytes.drop_last());
        assert forall|i: int| 0 <= i < bytes.len() implies #[trigger] hex_encoding(bytes)[2 * i]
            == hex_digit(bytes[i] / 16) && hex_encoding(bytes)[2 * i + 1] == hex_digit(
            bytes[i] % 16,
        ) by {
            if i < bytes.len() - 1 {
                assert(bytes.drop_last()[i] == bytes[i]);
                assert(prev[2 * i] == hex_digit(bytes.drop_last()[i] / 16));
            }
        }
        assert forall|k: int| 0 <= k < hex_encoding(bytes).len() implies ('0' <= #[trigger] hex_encoding(
            bytes,
        )[k] <= '9' || 'a' <= hex_encoding(bytes)[k] <= 'f') by {
            if k < prev.len() {
                assert(hex_encoding(bytes)[k] == prev[k]);
            }
        }
    }
}

/// The value of a lower-case hexadecimal digit.
pub open spec fn hex_value(c: char) -> int {
    if '0' <= c <= '9' {
        c as int - '0' as int
    } else {
        c as int - 'a' as int + 10
    }
}

proof fn lemma_hex_digit_value(n: u8)
    requires
        n < 16,
    ensures
        hex_value(hex_digit(n)) == n,
{
}

/// The encoding reads back: each pair of digits spells its byte, so different byte strings
/// never encode alike.
pub proof fn law_hex_reads_back(bytes: Seq<u8>)
    ensures
        forall|i: int|
            0 <= i < bytes.len() ==> 16 * hex_value(#[trigger] hex_encoding(bytes)[2 * i])
                + hex_value(hex_encoding(bytes)[2 * i + 1]) == bytes[i],
{
    law_hex_digits(bytes);
    assert forall|i: int| 0 <= i < bytes.len() implies 16 * hex_value(
        #[trigger] hex_encoding(bytes)[2 * i],
    ) + hex_value(hex_encoding(bytes)[2 * i + 1]) == bytes[i] by {
        lemma_hex_digit_value(bytes[i] / 16);
        lemma_hex_digit_value(bytes[i] % 16);
    }
}

/// Different byte strings have different encodings.
pub proof fn law_hex_injective(a: Seq<u8>, b: Seq<u8>)
    requires
        hex_encoding(a) == hex_encoding(b),
    ensures
        a == b,
{
    law_hex_digits(a);
    law_hex_digits(b);
    law_hex_reads_back(a);
    law_hex_reads_back(b);
    assert forall|i: int| 0 <= i < a.len() implies a[i] == b[i] by {
        assert(a.len() == b.len());
        let h = hex_encoding(a)[2 * i];
        let l = hex_encoding(a)[2 * i + 1];
        assert(16 * hex_value(h) + hex_value(l) == a[i]);
        assert(hex_encoding(b)[2 * i] == h);
        assert(hex_encoding(b)[2 * i + 1] == l);
        assert(16 * hex_value(hex_encoding(b)[2 * i]) + hex_value(hex_encoding(b)[2 * i + 1])
            == b[i]);
    }
    assert(a =~= b);
}

} // verus!
