//! Protobuf base-128 varints: at most ten bytes, seven payload bits per byte,
//! least significant group first, the high bit set on every byte but the last.
use vstd::prelude::*;
use vstd::arithmetic::power2::{pow2, lemma_pow2_adds, lemma_pow2_pos, lemma2_to64, lemma2_to64_rest};
use vstd::bits::lemma_u64_shl_is_mul;

verus! {

/// The most bytes a varint may occupy.
pub const MAX_VARINT_LEN: usize = 10;

/// The number carried by the low seven bits of the first `n` bytes of `s`,
/// the first byte holding the least significant group.
pub open spec fn base128_value(s: Seq<u8>, n: nat) -> nat
    decreases n,
{
    if n == 0 {
        0
    } else {
        base128_value(s, (n - 1) as nat) + (s[n - 1] % 128) as nat * pow2(7 * (n - 1) as nat)
    }
}

/// Index of the first byte, at or after `from`, whose high bit is clear, provided it lies
/// within the first ten bytes of `s`.
pub open spec fn varint_terminator(s: Seq<u8>, from: nat) -> Option<nat>
    decreases MAX_VARINT_LEN - from,
{
    if from >= MAX_VARINT_LEN || from >= s.len() {
        None
    } else if s[from as int] < 128 {
        Some(from)
    } else {
        varint_terminator(s, from + 1)
    }
}

/// The varint at the start of `s`: its value, wrapped to 64 bits, and its length in bytes.
/// There is none when no byte among the first ten (or among all of `s`, if shorter) ends it.
pub open spec fn varint(s: Seq<u8>) -> Option<(u64, nat)> {
    match varint_terminator(s, 0) {
        Some(k) => Some(((base128_value(s, k + 1) % 0x1_0000_0000_0000_0000) as u64, k + 1)),
        None => None,
    }
}

/// The shortest varint encoding of `v`.
pub open spec fn varint_encoding(v: u64) -> Seq<u8>
    decreases v,
{
    if v < 128 {
        seq![v as u8]
    } else {
        seq![(v % 128 + 128) as u8] + varint_encoding(v / 128)
    }
}

proof fn lemma_terminator_bounds(s: Seq<u8>, from: nat)
    ensures
        varint_terminator(s, from) matches Some(k) ==> {
            &&& from <= k < MAX_VARINT_LEN
            &&& k < s.len()
            &&& s[k as int] < 128
            &&& forall|j: int| from <= j < k ==> s[j] >= 128
        },
    decreases MAX_VARINT_LEN - from,
{
    if from < MAX_VARINT_LEN && from < s.len() && s[from as int] >= 128 {
        lemma_terminator_bounds(s, from + 1);
    }
}

/// A varint's length lies between one byte and the length of the input.
pub proof fn lemma_varint_len(s: Seq<u8>)
    ensures
        varint(s) matches Some((_, n)) ==> 1 <= n <= s.len() && n <= MAX_VARINT_LEN,
{
    lemma_terminator_bounds(s, 0);
}

/// One step of the accumulation: OR-ing in the next group equals adding it, while the groups
/// so far stay below the next group's place value.
proof fn lemma_accumulate(acc: u64, x: u64, i: nat)
    requires
        i <= 8,
        x < 128,
        acc < pow2(7 * i),
    ensures
        (acc | (x << (7 * i) as u64)) == acc + x * pow2(7 * i),
        acc + x * pow2(7 * i) < pow2(7 * (i + 1)),
{
    let sh: u64 = (7 * i) as u64;
    lemma2_to64();
    lemma2_to64_rest();
    lemma_pow2_pos(7 * i);
    lemma_pow2_adds(7 * i, 7);
    assert(7 * (i + 1) == 7 * i + 7);
    assert(pow2(7 * i + 7) <= pow2(63)) by {
        if 7 * i + 7 < 63 {
            vstd::arithmetic::power2::lemma_pow2_strictly_increases(7 * i + 7, 63);
        }
    }
    assert(x * pow2(7 * i) <= 127 * pow2(7 * i)) by (nonlinear_arith)
        requires
            x < 128,
            pow2(7 * i) > 0,
    ;
    assert(x * pow2(sh as nat) <= u64::MAX);
    lemma_u64_shl_is_mul(x, sh);
    lemma_u64_shl_is_mul(1, sh);
    assert(1u64 << sh == pow2(sh as nat));
    assert((acc | (x << sh)) == acc + (x << sh)) by (bit_vector)
        requires
            acc < (1u64 << sh),
            x < 128,
            sh <= 56,
    ;
}

/// The tenth byte contributes only its lowest bit, at the top of the 64-bit value.
proof fn lemma_accumulate_last(acc: u64, x: u64)
    requires
        x < 128,
        acc < pow2(63),
    ensures
        (acc | (x << 63u64)) as nat == (acc + x * pow2(63)) % 0x1_0000_0000_0000_0000,
{
    lemma2_to64_rest();
    assert(pow2(63) == 0x8000_0000_0000_0000);
    assert((acc | (x << 63u64)) == acc + (x % 2) * 0x8000_0000_0000_0000u64) by (bit_vector)
        requires
            acc < 0x8000_0000_0000_0000u64,
            x < 128,
    ;
    assert((acc + x * 0x8000_0000_0000_0000) % 0x1_0000_0000_0000_0000 == acc + (x % 2)
        * 0x8000_0000_0000_0000) by (nonlinear_arith)
        requires
            acc < 0x8000_0000_0000_0000,
            x < 128,
    ;
}

proof fn lemma_terminator_found(s: Seq<u8>, from: nat, k: nat)
    requires
        from <= k < MAX_VARINT_LEN,
        k < s.len(),
        s[k as int] < 128,
        forall|j: int| from <= j < k ==> s[j] >= 128,
    ensures
        varint_terminator(s, from) == Some(k),
    decreases k - from,
{
    if from < k {
        lemma_terminator_found(s, from + 1, k);
    }
}

proof fn lemma_base128_prefix(s: Seq<u8>, t: Seq<u8>, n: nat)
    requires
        n <= s.len(),
        n <= t.len(),
        forall|j: int| 0 <= j < n ==> s[j] == t[j],
    ensures
        base128_value(s, n) == base128_value(t, n),
    decreases n,
{
    if n > 0 {
        lemma_base128_prefix(s, t, (n - 1) as nat);
    }
}

proof fn lemma_base128_cons(b: u8, t: Seq<u8>, n: nat)
    requires
        n <= t.len(),
    ensures
        base128_value(seq![b] + t, n + 1) == (b % 128) as nat + 128 * base128_value(t, n),
    decreases n,
{
    let s = seq![b] + t;
    lemma2_to64();
    if n == 0 {
        assert(base128_value(s, 1) == base128_value(s, 0) + (s[0] % 128) as nat * pow2(0));
    } else {
        lemma_base128_cons(b, t, (n - 1) as nat);
        assert(s[n as int] == t[n - 1]);
        lemma_pow2_adds(7, 7 * (n - 1) as nat);
        assert(7 * n == 7 + 7 * (n - 1) as nat);
        let x = (t[n - 1] % 128) as nat;
        let p = pow2(7 * (n - 1) as nat);
        let prev = base128_value(t, (n - 1) as nat);
        assert(base128_value(s, n + 1) == base128_value(s, n) + x * pow2(7 * n));
        assert(base128_value(t, n) == prev + x * p);
        assert(x * pow2(7 * n) == 128 * (x * p) && 128 * (prev + x * p) == 128 * prev + 128 * (x
            * p)) by (nonlinear_arith)
            requires
                pow2(7 * n) == 128 * p,
        ;
    }
}

proof fn lemma_encoding_shape(v: u64, k: nat)
    requires
        (v as nat) < pow2(7 * k),
    ensures
        1 <= varint_encoding(v).len() <= k || (k == 0 && varint_encoding(v).len() == 1),
        varint_encoding(v)[varint_encoding(v).len() - 1] < 128,
        forall|j: int| 0 <= j < varint_encoding(v).len() - 1 ==> varint_encoding(v)[j] >= 128,
        base128_value(varint_encoding(v), varint_encoding(v).len()) == v,
    decreases v,
{
    lemma2_to64();
    let e = varint_encoding(v);
    if v < 128 {
        assert(base128_value(e, 1) == base128_value(e, 0) + (e[0] % 128) as nat * pow2(0));
    } else {
        let t = varint_encoding(v / 128);
        let b = (v % 128 + 128) as u8;
        assert(k > 1) by {
            if k == 1 {
                assert(7 * k == 7);
            }
        }
        lemma_pow2_adds(7, 7 * (k - 1) as nat);
        assert(7 * k == 7 + 7 * (k - 1) as nat);
        assert(((v / 128) as nat) < pow2(7 * (k - 1) as nat)) by (nonlinear_arith)
            requires
                v < pow2(7 * k),
                pow2(7 * k) == 128 * pow2(7 * (k - 1) as nat),
        ;
        lemma_encoding_shape(v / 128, (k - 1) as nat);
        assert(e == seq![b] + t);
        assert forall|j: int| 0 <= j < e.len() - 1 implies e[j] >= 128 by {
            if j > 0 {
                assert(e[j] == t[j - 1]);
            }
        }
        lemma_base128_cons(b, t, t.len());
    }
}

/// Reading a varint gives back the value and length of its shortest encoding, whatever
/// bytes follow it.
pub proof fn law_varint_roundtrip(v: u64, rest: Seq<u8>)
    ensures
        varint(varint_encoding(v) + rest) == Some((v, varint_encoding(v).len())),
        varint_encoding(v).len() <= MAX_VARINT_LEN,
{
    let e = varint_encoding(v);
    let s = e + rest;
    lemma2_to64();
    lemma2_to64_rest();
    vstd::arithmetic::power2::lemma_pow2_strictly_increases(64, 70);
    lemma_encoding_shape(v, 10);
    lemma_terminator_found(s, 0, (e.len() - 1) as nat);
    lemma_base128_prefix(s, e, e.len());
}

/// Reads the varint at the start of `bytes`.
pub fn read_varint(bytes: &[u8]) -> (res: Option<(u64, usize)>)
    ensures
        match res {
            Some((v, n)) => varint(bytes@) == Some((v, n as nat)),
            None => varint(bytes@) is None,
        },
{
    let mut value: u64 = 0;
    let mut i: usize = 0;
    proof {
        lemma2_to64();
    }
    while i < bytes.len()
        invariant
            i <= MAX_VARINT_LEN,
            i <= bytes@.len(),
            i < MAX_VARINT_LEN ==> value as nat == base128_value(bytes@, i as nat),
            i < MAX_VARINT_LEN ==> base128_value(bytes@, i as nat) < pow2(7 * i as nat),
            varint_terminator(bytes@, 0) == varint_terminator(bytes@, i as nat),
        decreases bytes@.len() - i,
    {
        if i == MAX_VARINT_LEN {
            return None;
        }
        let b = bytes[i];
        let x: u64 = (b & 0x7f) as u64;
        assert(b & 0x7f == b % 128) by (bit_vector);
        assert(b & 0x80 == 0 <==> b < 128) by (bit_vector);
        let shift: u64 = (i as u64) * 7;
        proof {
            lemma_pow2_pos(7 * i as nat);
        }
        if i < 9 {
            proof {
                lemma_accumulate(value, x, i as nat);
            }
        } else {
            proof {
                lemma_accumulate_last(value, x);
            }
        }
        value = value | (x << shift);
        if b & 0x80 == 0 {
            proof {
                if i < 9 {
                    lemma_pow2_adds(7 * i as nat, 7);
                    assert(base128_value(bytes@, (i + 1) as nat) < pow2(63)) by {
                        lemma2_to64_rest();
                        if 7 * (i + 1) < 63 {
                            vstd::arithmetic::power2::lemma_pow2_strictly_increases(
                                7 * (i + 1) as nat,
                                63,
                            );
                        }
                    }
                    lemma2_to64_rest();
                }
            }
            return Some((value, i + 1));
        }
        i = i + 1;
    }
    None
}

proof fn lemma_terminator_some(s: Seq<u8>, from: nat, j: nat)
    requires
        from <= j < MAX_VARINT_LEN,
        j < s.len(),
        s[j as int] < 128,
    ensures
        varint_terminator(s, from) is Some,
    decreases j - from,
{
    if from < j && s[from as int] >= 128 {
        lemma_terminator_some(s, from + 1, j);
    }
}

/// A varint ends at the first byte whose high bit is clear: there is one exactly when such a
/// byte lies among the first ten bytes; its length is then that byte's position plus one,
/// every earlier byte has its high bit set, and its value is the seven-bit groups of those
/// bytes, least significant first, wrapped to 64 bits.
pub proof fn law_varint_ends_at_first_clear_byte(s: Seq<u8>)
    ensures
        varint(s) is None <==> (forall|j: int|
            0 <= j < s.len() && j < MAX_VARINT_LEN ==> #[trigger] s[j] >= 128),
        varint(s) matches Some((v, n)) ==> {
            &&& 1 <= n <= MAX_VARINT_LEN
            &&& n <= s.len()
            &&& s[n - 1] < 128
            &&& forall|j: int| 0 <= j < n - 1 ==> #[trigger] s[j] >= 128
            &&& v == base128_value(s, n) % 0x1_0000_0000_0000_0000
        },
{
    lemma_terminator_bounds(s, 0);
    if exists|j: int| 0 <= j < s.len() && j < MAX_VARINT_LEN && s[j] < 128 {
        let j = choose|j: int| 0 <= j < s.len() && j < MAX_VARINT_LEN && s[j] < 128;
        lemma_terminator_some(s, 0, j as nat);
    }
}

} // verus!
