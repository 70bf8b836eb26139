//! Decimal text for integers: writing it and reading it back.
use vstd::prelude::*;
use crate::strbuf::string_push;

verus! {

/// The ASCII digit for a value below ten.
pub open spec fn digit_char(d: nat) -> char
    recommends
        d < 10,
{
    (('0' as u32) + d) as char
}

/// Whether `c` is an ASCII digit.
pub open spec fn is_ascii_digit(c: char) -> bool {
    '0' <= c && c <= '9'
}

/// The value of an ASCII digit.
pub open spec fn digit_value(c: char) -> nat {
    ((c as u32) - ('0' as u32)) as nat
}

/// The shortest decimal notation of `n`: no sign, no leading zeros.
pub open spec fn decimal_digits(n: nat) -> Seq<char>
    decreases n,
{
    if n < 10 {
        seq![digit_char(n)]
    } else {
        decimal_digits(n / 10).push(digit_char(n % 10))
    }
}

/// Decimal notation of a signed value: a minus sign before the digits of a negative one.
pub open spec fn signed_decimal(v: int) -> Seq<char> {
    if v < 0 {
        seq!['-'] + decimal_digits((-v) as nat)
    } else {
        decimal_digits(v as nat)
    }
}

/// The number that a sequence of ASCII digits spells, most significant first.
pub open spec fn digits_value(ds: Seq<char>) -> nat
    decreases ds.len(),
{
    if ds.len() == 0 {
        0
    } else {
        digits_value(ds.drop_last()) * 10 + digit_value(ds.last())
    }
}

/// The number that `cs` spells as an unsigned decimal: an optional `+`, then one or more
/// ASCII digits, the value not above `max`.
pub open spec fn parsed_unsigned(cs: Seq<char>, max: nat) -> Option<nat> {
    let ds = if cs.len() > 0 && cs[0] == '+' {
        cs.drop_first()
    } else {
        cs
    };
    if ds.len() > 0 && (forall|i: int| 0 <= i < ds.len() ==> is_ascii_digit(#[trigger] ds[i]))
        && digits_value(ds) <= max {
        Some(digits_value(ds))
    } else {
        None
    }
}

/// Parses `s` as a `u64`.
///
/// Calls `<u64 as FromStr>::from_str`, which accepts an optional `+` followed by at least one
/// ASCII digit and nothing else, and fails when the value does not fit in a `u64`.
#[verifier::external_body]
pub(crate) fn parse_u64(s: &str) -> (res: Option<u64>)
    ensures
        match res {
            Some(v) => parsed_unsigned(s@, u64::MAX as nat) == Some(v as nat),
            None => parsed_unsigned(s@, u64::MAX as nat) is None,
        },
{
    s.parse::<u64>().ok()
}

/// Parses `s` as a `usize`.
///
/// Calls `<usize as FromStr>::from_str`, which accepts an optional `+` followed by at least
/// one ASCII digit and nothing else, and fails when the value does not fit in a `usize`.
#[verifier::external_body]
pub(crate) fn parse_usize(s: &str) -> (res: Option<usize>)
    ensures
        match res {
            Some(v) => parsed_unsigned(s@, usize::MAX as nat) == Some(v as nat),
            None => parsed_unsigned(s@, usize::MAX as nat) is None,
        },
{
    s.parse::<usize>().ok()
}

fn digit(d: u64) -> (c: char)
    requires
        d < 10,
    ensures
        c == digit_char(d as nat),
{
    let b = (48 + d) as u8;
    b as char
}

fn push_decimal(s: &mut String, n: u64)
    ensures
        final(s)@ == old(s)@ + decimal_digits(n as nat),
    decreases n,
{
    if n >= 10 {
        push_decimal(s, n / 10);
    }
    string_push(s, digit(n % 10));
    proof {
        if n >= 10 {
            assert(old(s)@ + decimal_digits(n as nat) =~= old(s)@ + decimal_digits((n / 10) as nat)
                + seq![digit_char((n % 10) as nat)]);
        }
    }
}

/// The decimal notation of `n`.
pub fn u64_decimal(n: u64) -> (res: String)
    ensures
        res@ == decimal_digits(n as nat),
{
    let mut s = String::new();
    push_decimal(&mut s, n);
    assert(Seq::<char>::empty() + decimal_digits(n as nat) =~= decimal_digits(n as nat));
    s
}

/// The decimal notation of `v`, with a leading minus sign when it is negative.
pub fn i64_decimal(v: i64) -> (res: String)
    ensures
        res@ == signed_decimal(v as int),
{
    let mut s = String::new();
    if v < 0 {
        string_push(&mut s, '-');
        let magnitude: u64 = if v == i64::MIN {
            9223372036854775808
        } else {
            (-v) as u64
        };
        push_decimal(&mut s, magnitude);
        assert(s@ =~= seq!['-'] + decimal_digits((-v) as nat));
    } else {
        push_decimal(&mut s, v as u64);
        assert(s@ =~= decimal_digits(v as nat));
    }
    s
}

proof fn lemma_digit_char(d: nat)
    requires
        d < 10,
    ensures
        is_ascii_digit(digit_char(d)),
        digit_value(digit_char(d)) == d,
        digit_char(d) != '+',
{
    assert(vstd::utf8::is_scalar((48 + d) as u32));
    assert((((48 + d) as u32) as char) as u32 == 48 + d);
}

pub proof fn lemma_decimal_digits_shape(n: nat)
    ensures
        decimal_digits(n).len() > 0,
        forall|i: int| 0 <= i < decimal_digits(n).len() ==> is_ascii_digit(
            #[trigger] decimal_digits(n)[i],
        ),
        digits_value(decimal_digits(n)) == n,
        decimal_digits(n)[0] != '+',
    decreases n,
{
    lemma_digit_char(n % 10);
    if n < 10 {
        let e = Seq::<char>::empty();
        assert(decimal_digits(n).drop_last() =~= e);
        assert(digits_value(e) == 0);
        assert(digits_value(decimal_digits(n)) == digits_value(e) * 10 + digit_value(
            digit_char(n),
        ));
    }
    if n >= 10 {
        lemma_decimal_digits_shape(n / 10);
        let prev = decimal_digits(n / 10);
        assert(decimal_digits(n).drop_last() =~= prev);
        assert forall|i: int| 0 <= i < decimal_digits(n).len() implies is_ascii_digit(
            #[trigger] decimal_digits(n)[i],
        ) by {
            if i < prev.len() {
                assert(decimal_digits(n)[i] == prev[i]);
            }
        }
        assert(decimal_digits(n)[0] == prev[0]);
        assert(decimal_digits(n).last() == digit_char(n % 10));
        assert(digits_value(decimal_digits(n)) == digits_value(prev) * 10 + digit_value(
            digit_char(n % 10),
        ));
        assert(n == (n / 10) * 10 + n % 10);
    }
}

/// Reading back the decimal notation of a number gives the number.
pub proof fn law_decimal_roundtrip(n: nat, max: nat)
    requires
        n <= max,
    ensures
        parsed_unsigned(decimal_digits(n), max) == Some(n),
{
    lemma_decimal_digits_shape(n);
}

} // verus!
