//! Extraction of human-readable text from arbitrary bytes.
//!
//! The bytes are read as a stream of readable characters (printable ASCII, space, tab, and
//! well-formed UTF-8 encodings of non-control characters); every other byte ends the current
//! run. Each run is trimmed of white space and kept when it has enough characters.
use vstd::prelude::*;
use vstd::slice::slice_subrange;
use vstd::string::StrSliceExecFns;
use vstd::utf8::{valid_utf8, decode_utf8, valid_first_scalar, decode_first_scalar,
    length_of_first_scalar, pop_first_scalar, is_scalar, encode_utf8};
use crate::strbuf::string_push;

verus! {

/// Printable ASCII other than space: `!` through `~`.
pub open spec fn is_ascii_graphic(c: char) -> bool {
    '!' <= c && c <= '~'
}

/// Unicode general category Cc: U+0000 to U+001F and U+007F to U+009F.
pub open spec fn is_control(c: char) -> bool {
    c <= '\u{1f}' || ('\u{7f}' <= c && c <= '\u{9f}')
}

/// The Unicode `White_Space` property.
pub open spec fn is_white_space(c: char) -> bool {
    ||| ('\t' <= c && c <= '\r')
    ||| c == ' '
    ||| c == '\u{85}'
    ||| c == '\u{a0}'
    ||| c == '\u{1680}'
    ||| ('\u{2000}' <= c && c <= '\u{200a}')
    ||| c == '\u{2028}'
    ||| c == '\u{2029}'
    ||| c == '\u{202f}'
    ||| c == '\u{205f}'
    ||| c == '\u{3000}'
}

/// A character that may appear in extracted text.
pub open spec fn is_readable(c: char) -> bool {
    ||| is_ascii_graphic(c)
    ||| c == ' '
    ||| c == '\t'
    ||| ('\u{80}' <= c && !is_control(c))
}

/// The readable character that `s` starts with, and the number of bytes that encode it.
///
/// An ASCII byte is readable when it is printable, a space or a tab. Any other byte must
/// begin a well-formed UTF-8 encoding of a character that is not a control character.
pub open spec fn readable_char(s: Seq<u8>) -> Option<(char, nat)> {
    if s.len() == 0 {
        None
    } else if s[0] < 128 {
        let c = s[0] as char;
        if is_ascii_graphic(c) || c == ' ' || c == '\t' {
            Some((c, 1))
        } else {
            None
        }
    } else if valid_first_scalar(s) && !is_control(decode_first_scalar(s) as char) {
        Some((decode_first_scalar(s) as char, length_of_first_scalar(s) as nat))
    } else {
        None
    }
}

/// A well-formed leading scalar is a Unicode scalar value, at least U+0080 when its first
/// byte is not ASCII.
proof fn lemma_first_scalar_range(s: Seq<u8>)
    requires
        valid_first_scalar(s),
    ensures
        is_scalar(decode_first_scalar(s)),
        (decode_first_scalar(s) as char) as u32 == decode_first_scalar(s),
        s[0] >= 128 ==> decode_first_scalar(s) >= 0x80,
{
    let b1 = s[0];
    if 0xc0 <= b1 <= 0xdf {
        let b2 = s[1];
        assert((((b1 & 0x1F) as u32) << 6u32) | ((b2 & 0x3f) as u32) <= 0x7ff) by (bit_vector);
    } else if 0xe0 <= b1 <= 0xef {
        let b2 = s[1];
        let b3 = s[2];
        assert((((b1 & 0x0F) as u32) << 12u32) | (((b2 & 0x3f) as u32) << 6u32) | ((b3 & 0x3f)
            as u32) <= 0xffff) by (bit_vector);
    }
}

/// A readable character occupies between one and four bytes of its input.
pub proof fn lemma_readable_char_len(s: Seq<u8>)
    ensures
        readable_char(s) matches Some((c, n)) ==> 1 <= n <= 4 && n <= s.len() && is_readable(c),
{
    if s.len() > 0 && s[0] >= 128 && valid_first_scalar(s) {
        lemma_first_scalar_range(s);
    }
}

/// The runs of consecutive readable characters in `s`, in order, separated by the bytes that
/// do not start a readable character. Runs may be empty; there is always at least one.
pub open spec fn readable_runs(s: Seq<u8>) -> Seq<Seq<char>>
    decreases s.len(),
{
    if s.len() == 0 {
        seq![Seq::<char>::empty()]
    } else {
        match readable_char(s) {
            Some((c, n)) => {
                proof {
                    lemma_readable_char_len(s);
                }
                let runs = readable_runs(s.skip(n as int));
                runs.update(0, seq![c] + runs[0])
            },
            None => seq![Seq::<char>::empty()] + readable_runs(s.skip(1)),
        }
    }
}

/// `cs` without its leading white space.
pub open spec fn trim_start(cs: Seq<char>) -> Seq<char>
    decreases cs.len(),
{
    if cs.len() > 0 && is_white_space(cs[0]) {
        trim_start(cs.drop_first())
    } else {
        cs
    }
}

/// `cs` without its trailing white space.
pub open spec fn trim_end(cs: Seq<char>) -> Seq<char>
    decreases cs.len(),
{
    if cs.len() > 0 && is_white_space(cs.last()) {
        trim_end(cs.drop_last())
    } else {
        cs
    }
}

/// `cs` without leading and trailing white space.
pub open spec fn trim(cs: Seq<char>) -> Seq<char> {
    trim_end(trim_start(cs))
}

/// The trimmed runs that keep at least `min_len` characters, in order.
pub open spec fn long_trimmed_runs(runs: Seq<Seq<char>>, min_len: nat) -> Seq<Seq<char>>
    decreases runs.len(),
{
    if runs.len() == 0 {
        Seq::empty()
    } else {
        let t = trim(runs.last());
        long_trimmed_runs(runs.drop_last(), min_len) + if t.len() >= min_len {
            seq![t]
        } else {
            Seq::<Seq<char>>::empty()
        }
    }
}

/// The strings that `extract_readable_strings` finds in `s`.
pub open spec fn readable_strings(s: Seq<u8>, min_len: nat) -> Seq<Seq<char>> {
    long_trimmed_runs(readable_runs(s), min_len)
}

/// The characters of each string, in order.
pub open spec fn string_views(v: Seq<String>) -> Seq<Seq<char>> {
    v.map_values(|s: String| s@)
}

/// Views `bytes` as a string slice.
///
/// Calls `std::str::from_utf8`, which succeeds exactly when the bytes are well-formed UTF-8;
/// the characters of the resulting string are then the scalars that the bytes encode.
#[verifier::external_body]
fn utf8_str(bytes: &[u8]) -> (res: Option<&str>)
    ensures
        res is Some <==> valid_utf8(bytes@),
        res matches Some(s) ==> s@ == decode_utf8(bytes@),
{
    std::str::from_utf8(bytes).ok()
}

fn is_ascii_graphic_char(c: char) -> (res: bool)
    ensures
        res == is_ascii_graphic(c),
{
    '!' <= c && c <= '~'
}

fn is_control_char(c: char) -> (res: bool)
    ensures
        res == is_control(c),
{
    c <= '\u{1f}' || ('\u{7f}' <= c && c <= '\u{9f}')
}

fn is_white_space_char(c: char) -> (res: bool)
    ensures
        res == is_white_space(c),
{
    ('\t' <= c && c <= '\r') || c == ' ' || c == '\u{85}' || c == '\u{a0}' || c == '\u{1680}'
        || ('\u{2000}' <= c && c <= '\u{200a}') || c == '\u{2028}' || c == '\u{2029}' || c
        == '\u{202f}' || c == '\u{205f}' || c == '\u{3000}'
}

/// For a prefix of two to four bytes that starts with a non-ASCII byte: it is well-formed
/// UTF-8 encoding exactly one character precisely when the whole input starts with a
/// well-formed scalar of that length.
proof fn lemma_single_scalar_prefix(s: Seq<u8>, len: int)
    requires
        2 <= len <= 4,
        len <= s.len(),
        s[0] >= 128,
    ensures
        (valid_utf8(s.take(len)) && decode_utf8(s.take(len)).len() == 1) <==> (valid_first_scalar(
            s,
        ) && length_of_first_scalar(s) == len),
        valid_utf8(s.take(len)) && decode_utf8(s.take(len)).len() == 1 ==> decode_utf8(
            s.take(len),
        )[0] == decode_first_scalar(s) as char,
{
    let t = s.take(len);
    assert(forall|k: int| 0 <= k < len ==> t[k] == s[k]);
    reveal_with_fuel(valid_utf8, 2);
    reveal_with_fuel(decode_utf8, 2);
    if valid_first_scalar(s) && length_of_first_scalar(s) == len {
        assert(valid_first_scalar(t));
        assert(pop_first_scalar(t).len() == 0);
        assert(decode_utf8(t) =~= seq![decode_first_scalar(s) as char]);
    }
    if valid_utf8(t) && decode_utf8(t).len() == 1 {
        assert(valid_first_scalar(t));
        if pop_first_scalar(t).len() != 0 {
            assert(valid_utf8(pop_first_scalar(t)));
            assert(decode_utf8(pop_first_scalar(t)).len() >= 1);
        }
        assert(valid_first_scalar(s));
    }
}

/// The readable character at the start of `bytes`, with the number of bytes encoding it.
pub fn decode_readable_char(bytes: &[u8]) -> (res: Option<(char, usize)>)
    ensures
        match res {
            Some((c, n)) => readable_char(bytes@) == Some((c, n as nat)),
            None => readable_char(bytes@) is None,
        },
{
    if bytes.len() == 0 {
        return None;
    }
    let first = bytes[0];
    if first < 128 {
        let ch = first as char;
        if is_ascii_graphic_char(ch) || ch == ' ' || ch == '\t' {
            return Some((ch, 1));
        }
        return None;
    }
    let mut len: usize = 2;
    while len <= 4
        invariant
            2 <= len <= 5,
            bytes@.len() >= 1,
            bytes@[0] >= 128,
            valid_first_scalar(bytes@) && !is_control(decode_first_scalar(bytes@) as char)
                ==> length_of_first_scalar(bytes@) >= len,
        ensures
            len == 5 || bytes@.len() < len,
            valid_first_scalar(bytes@) && !is_control(decode_first_scalar(bytes@) as char)
                ==> length_of_first_scalar(bytes@) >= len,
        decreases 5 - len,
    {
        if bytes.len() < len {
            break;
        }
        let prefix = slice_subrange(bytes, 0, len);
        assert(prefix@ =~= bytes@.take(len as int));
        proof {
            lemma_single_scalar_prefix(bytes@, len as int);
        }
        if let Some(s) = utf8_str(prefix) {
            if s.unicode_len() == 1 {
                let ch = s.get_char(0);
                if !is_control_char(ch) {
                    return Some((ch, len));
                }
            }
        }
        len = len + 1;
    }
    None
}

proof fn lemma_runs_nonempty(s: Seq<u8>)
    ensures
        readable_runs(s).len() >= 1,
    decreases s.len(),
{
    if s.len() > 0 {
        lemma_readable_char_len(s);
        match readable_char(s) {
            Some((c, n)) => lemma_runs_nonempty(s.skip(n as int)),
            None => lemma_runs_nonempty(s.skip(1)),
        }
    }
}

/// Pushes the trimmed `current` onto `out` when it keeps at least `min_len` characters,
/// then empties `current`.
pub fn push_if_long_enough(out: &mut Vec<String>, current: &mut String, min_len: usize)
    ensures
        string_views(final(out)@) == string_views(old(out)@) + if trim(old(current)@).len()
            >= min_len {
            seq![trim(old(current)@)]
        } else {
            Seq::<Seq<char>>::empty()
        },
        final(current)@ == Seq::<char>::empty(),
{
    let ghost cs = current@;
    let s = current.as_str();
    let n = s.unicode_len();
    let mut a: usize = 0;
    assert(cs.skip(0) =~= cs);
    while a < n && is_white_space_char(s.get_char(a))
        invariant
            n == cs.len(),
            s@ == cs,
            a <= n,
            trim_start(cs) == trim_start(cs.skip(a as int)),
        decreases n - a,
    {
        assert(cs.skip(a as int).drop_first() =~= cs.skip(a + 1));
        a = a + 1;
    }
    let ghost started = cs.skip(a as int);
    assert(trim_start(cs) == started);
    let mut b: usize = n;
    assert(started =~= cs.subrange(a as int, n as int));
    while b > a && is_white_space_char(s.get_char(b - 1))
        invariant
            n == cs.len(),
            s@ == cs,
            a <= b <= n,
            trim_end(started) == trim_end(cs.subrange(a as int, b as int)),
        decreases b - a,
    {
        assert(cs.subrange(a as int, b as int).drop_last() =~= cs.subrange(
            a as int,
            b - 1,
        ));
        b = b - 1;
    }
    assert(trim(cs) == cs.subrange(a as int, b as int));
    if b - a >= min_len {
        let trimmed = s.substring_char(a, b).to_owned();
        let ghost before = out@;
        out.push(trimmed);
        assert(string_views(out@) =~= string_views(before).push(trimmed@));
    } else {
        assert(string_views(out@) =~= string_views(old(out)@) + Seq::<Seq<char>>::empty());
    }
    *current = String::new();
}

/// The trimmed runs of readable text in `bytes` that keep at least `min_len` characters.
///
/// Printable ASCII, spaces, tabs and well-formed UTF-8 encodings of non-control characters
/// are readable; every other byte ends a run.
pub fn extract_readable_strings(bytes: &[u8], min_len: usize) -> (out: Vec<String>)
    ensures
        string_views(out@) == readable_strings(bytes@, min_len as nat),
{
    let mut out: Vec<String> = Vec::new();
    let mut current = String::new();
    let mut i: usize = 0;
    let ghost mut done: Seq<Seq<char>> = Seq::empty();
    assert(bytes@.skip(0) =~= bytes@);
    proof {
        lemma_runs_nonempty(bytes@);
    }
    assert(readable_runs(bytes@) =~= done + seq![current@ + readable_runs(bytes@.skip(0))[0]]
        + readable_runs(bytes@.skip(0)).drop_first());
    assert(string_views(out@) =~= Seq::<Seq<char>>::empty());
    while i < bytes.len()
        invariant
            i <= bytes@.len(),
            readable_runs(bytes@) == done + seq![
                current@ + readable_runs(bytes@.skip(i as int))[0],
            ] + readable_runs(bytes@.skip(i as int)).drop_first(),
            string_views(out@) == long_trimmed_runs(done, min_len as nat),
        decreases bytes@.len() - i,
    {
        let ghost rest = bytes@.skip(i as int);
        let tail = slice_subrange(bytes, i, bytes.len());
        assert(tail@ =~= rest);
        proof {
            lemma_readable_char_len(rest);
        }
        match decode_readable_char(tail) {
            Some((ch, len)) => {
                let ghost next = rest.skip(len as int);
                let ghost before = current@;
                proof {
                    lemma_runs_nonempty(next);
                    assert(readable_runs(rest) == readable_runs(next).update(
                        0,
                        seq![ch] + readable_runs(next)[0],
                    ));
                    assert(readable_runs(rest).drop_first() =~= readable_runs(next).drop_first());
                }
                assert(next =~= bytes@.skip(i + len));
                string_push(&mut current, ch);
                assert(current@ + readable_runs(next)[0] =~= before + readable_runs(rest)[0]);
                i = i + len;
                assert(readable_runs(bytes@) =~= done + seq![
                    current@ + readable_runs(bytes@.skip(i as int))[0],
                ] + readable_runs(bytes@.skip(i as int)).drop_first());
            },
            None => {
                let ghost next = rest.skip(1);
                proof {
                    lemma_runs_nonempty(next);
                    assert(readable_runs(rest) == seq![Seq::<char>::empty()] + readable_runs(next));
                    assert(readable_runs(rest)[0] =~= Seq::<char>::empty());
                    assert(readable_runs(rest).drop_first() =~= readable_runs(next));
                    assert(current@ + readable_runs(rest)[0] =~= current@);
                }
                assert(next =~= bytes@.skip(i + 1));
                let ghost finished = current@;
                push_if_long_enough(&mut out, &mut current, min_len);
                proof {
                    assert(done.push(finished).drop_last() =~= done);
                    done = done.push(finished);
                }
                i = i + 1;
                assert(readable_runs(bytes@) =~= done + seq![
                    current@ + readable_runs(bytes@.skip(i as int))[0],
                ] + readable_runs(bytes@.skip(i as int)).drop_first());
            },
        }
    }
    let ghost finished = current@;
    assert(bytes@.skip(i as int).len() == 0);
    assert(readable_runs(bytes@) =~= done.push(finished));
    push_if_long_enough(&mut out, &mut current, min_len);
    assert(done.push(finished).drop_last() =~= done);
    out
}

proof fn lemma_runs_readable(s: Seq<u8>)
    ensures
        forall|i: int, j: int|
            0 <= i < readable_runs(s).len() && 0 <= j < readable_runs(s)[i].len() ==> is_readable(
                #[trigger] readable_runs(s)[i][j],
            ),
    decreases s.len(),
{
    if s.len() > 0 {
        lemma_readable_char_len(s);
        match readable_char(s) {
            Some((c, n)) => {
                let next = s.skip(n as int);
                lemma_runs_readable(next);
                lemma_runs_nonempty(next);
                let runs = readable_runs(next);
                assert forall|i: int, j: int|
                    0 <= i < readable_runs(s).len() && 0 <= j < readable_runs(
                        s,
                    )[i].len() implies is_readable(#[trigger] readable_runs(s)[i][j]) by {
                    if i == 0 {
                        if j > 0 {
                            assert(readable_runs(s)[0][j] == runs[0][j - 1]);
                        }
                    } else {
                        assert(readable_runs(s)[i] == runs[i]);
                    }
                }
            },
            None => {
                let next = s.skip(1);
                lemma_runs_readable(next);
                assert forall|i: int, j: int|
                    0 <= i < readable_runs(s).len() && 0 <= j < readable_runs(
                        s,
                    )[i].len() implies is_readable(#[trigger] readable_runs(s)[i][j]) by {
                    assert(readable_runs(s)[i] == (seq![Seq::<char>::empty()] + readable_runs(
                        next,
                    ))[i]);
                    if i > 0 {
                        assert(readable_runs(s)[i] == readable_runs(next)[i - 1]);
                    }
                }
            },
        }
    }
}

proof fn lemma_trim_start(cs: Seq<char>)
    ensures
        trim_start(cs).len() <= cs.len(),
        trim_start(cs) == cs.skip(cs.len() - trim_start(cs).len()),
        trim_start(cs).len() > 0 ==> !is_white_space(trim_start(cs)[0]),
    decreases cs.len(),
{
    if cs.len() > 0 && is_white_space(cs[0]) {
        lemma_trim_start(cs.drop_first());
        assert(cs.drop_first().skip(cs.drop_first().len() - trim_start(cs).len()) =~= cs.skip(
            cs.len() - trim_start(cs).len(),
        ));
    } else {
        assert(cs.skip(0) =~= cs);
    }
}

proof fn lemma_trim_end(cs: Seq<char>)
    ensures
        trim_end(cs).len() <= cs.len(),
        trim_end(cs) == cs.take(trim_end(cs).len() as int),
        trim_end(cs).len() > 0 ==> !is_white_space(trim_end(cs).last()),
    decreases cs.len(),
{
    if cs.len() > 0 && is_white_space(cs.last()) {
        lemma_trim_end(cs.drop_last());
        assert(cs.drop_last().take(trim_end(cs).len() as int) =~= cs.take(
            trim_end(cs).len() as int,
        ));
    } else {
        assert(cs.take(cs.len() as int) =~= cs);
    }
}

/// What every extracted string satisfies.
pub open spec fn well_shaped(t: Seq<char>, min_len: nat) -> bool {
    &&& t.len() >= min_len
    &&& t.len() > 0 ==> !is_white_space(t[0]) && !is_white_space(t.last())
    &&& forall|j: int| 0 <= j < t.len() ==> is_readable(#[trigger] t[j])
}

proof fn lemma_trim_shape(cs: Seq<char>, min_len: nat)
    requires
        forall|j: int| 0 <= j < cs.len() ==> is_readable(#[trigger] cs[j]),
        trim(cs).len() >= min_len,
    ensures
        well_shaped(trim(cs), min_len),
{
    lemma_trim_start(cs);
    let st = trim_start(cs);
    lemma_trim_end(st);
    let t = trim(cs);
    assert forall|j: int| 0 <= j < t.len() implies is_readable(#[trigger] t[j]) by {
        assert(t[j] == st[j]);
        assert(st[j] == cs[cs.len() - st.len() + j]);
    }
    if t.len() > 0 {
        assert(t[0] == st[0]);
    }
}

proof fn lemma_long_trimmed_shape(runs: Seq<Seq<char>>, min_len: nat)
    requires
        forall|i: int, j: int|
            0 <= i < runs.len() && 0 <= j < runs[i].len() ==> is_readable(#[trigger] runs[i][j]),
    ensures
        forall|k: int|
            0 <= k < long_trimmed_runs(runs, min_len).len() ==> well_shaped(
                #[trigger] long_trimmed_runs(runs, min_len)[k],
                min_len,
            ),
    decreases runs.len(),
{
    if runs.len() > 0 {
        let init = runs.drop_last();
        assert forall|i: int, j: int|
            0 <= i < init.len() && 0 <= j < init[i].len() implies is_readable(
                #[trigger] init[i][j],
            ) by {
            assert(init[i] == runs[i]);
        }
        lemma_long_trimmed_shape(init, min_len);
        let last = runs.last();
        assert forall|j: int| 0 <= j < last.len() implies is_readable(#[trigger] last[j]) by {
            assert(last[j] == runs[runs.len() - 1][j]);
        }
        if trim(last).len() >= min_len {
            lemma_trim_shape(last, min_len);
        }
        let prev = long_trimmed_runs(init, min_len);
        assert forall|k: int|
            0 <= k < long_trimmed_runs(runs, min_len).len() implies well_shaped(
            #[trigger] long_trimmed_runs(runs, min_len)[k],
            min_len,
        ) by {
            if k < prev.len() {
                assert(long_trimmed_runs(runs, min_len)[k] == prev[k]);
            }
        }
    }
}

/// Every extracted string has at least `min_len` characters, neither starts nor ends with
/// white space, and holds only readable characters.
pub proof fn law_extracted_strings_shape(s: Seq<u8>, min_len: nat)
    ensures
        forall|k: int|
            0 <= k < readable_strings(s, min_len).len() ==> well_shaped(
                #[trigger] readable_strings(s, min_len)[k],
                min_len,
            ),
{
    lemma_runs_readable(s);
    lemma_long_trimmed_shape(readable_runs(s), min_len);
}

/// An ASCII byte that is neither printable, a space nor a tab (a NUL, a newline, any other
/// control byte).
pub open spec fn is_run_break(z: u8) -> bool {
    z < 128 && !(is_ascii_graphic(z as char) || z as char == ' ' || z as char == '\t')
}

proof fn lemma_readable_char_before_break(a: Seq<u8>, z: u8, b: Seq<u8>)
    requires
        a.len() > 0,
        is_run_break(z),
    ensures
        readable_char(a + seq![z] + b) == readable_char(a),
{
    let s = a + seq![z] + b;
    assert(s[0] == a[0]);
    if a[0] >= 128 {
        assert(forall|k: int| 0 <= k < a.len() ==> s[k] == a[k]);
        assert(s[a.len() as int] == z);
        if a.len() >= 4 {
            assert(valid_first_scalar(s) == valid_first_scalar(a));
        } else if a.len() == 3 {
            assert(valid_first_scalar(s) == valid_first_scalar(a));
        } else if a.len() == 2 {
            assert(valid_first_scalar(s) == valid_first_scalar(a));
        } else {
            assert(valid_first_scalar(s) == valid_first_scalar(a));
        }
        if valid_first_scalar(a) {
            assert(decode_first_scalar(s) == decode_first_scalar(a));
            assert(length_of_first_scalar(s) == length_of_first_scalar(a));
        }
    }
}

proof fn lemma_runs_around_break(a: Seq<u8>, z: u8, b: Seq<u8>)
    requires
        is_run_break(z),
    ensures
        readable_runs(a + seq![z] + b) == readable_runs(a) + readable_runs(b),
    decreases a.len(),
{
    let s = a + seq![z] + b;
    if a.len() == 0 {
        assert(s =~= seq![z] + b);
        assert(s.skip(1) =~= b);
        assert(readable_char(s) is None);
        assert(readable_runs(s) =~= readable_runs(a) + readable_runs(b));
    } else {
        lemma_readable_char_before_break(a, z, b);
        lemma_readable_char_len(a);
        match readable_char(a) {
            Some((c, n)) => {
                assert(s.skip(n as int) =~= a.skip(n as int) + seq![z] + b);
                lemma_runs_around_break(a.skip(n as int), z, b);
                lemma_runs_nonempty(a.skip(n as int));
                let r = readable_runs(a.skip(n as int));
                assert(readable_runs(s) =~= readable_runs(a) + readable_runs(b)) by {
                    assert((r + readable_runs(b)).update(0, seq![c] + r[0]) =~= r.update(
                        0,
                        seq![c] + r[0],
                    ) + readable_runs(b));
                }
            },
            None => {
                assert(s.skip(1) =~= a.skip(1) + seq![z] + b);
                lemma_runs_around_break(a.skip(1), z, b);
                assert(readable_runs(s) =~= readable_runs(a) + readable_runs(b));
            },
        }
    }
}

proof fn lemma_long_trimmed_concat(x: Seq<Seq<char>>, y: Seq<Seq<char>>, min_len: nat)
    ensures
        long_trimmed_runs(x + y, min_len) == long_trimmed_runs(x, min_len) + long_trimmed_runs(
            y,
            min_len,
        ),
    decreases y.len(),
{
    if y.len() == 0 {
        assert(x + y =~= x);
        assert(long_trimmed_runs(x, min_len) + long_trimmed_runs(y, min_len) =~= long_trimmed_runs(
            x,
            min_len,
        ));
    } else {
        assert((x + y).drop_last() =~= x + y.drop_last());
        assert((x + y).last() == y.last());
        lemma_long_trimmed_concat(x, y.drop_last(), min_len);
        assert(long_trimmed_runs(x + y, min_len) =~= long_trimmed_runs(x, min_len)
            + long_trimmed_runs(y, min_len));
    }
}

/// A control byte (or any other unreadable ASCII byte) splits the input: what is extracted
/// from both sides of it together is what is extracted from each side, in order.
pub proof fn law_break_byte_splits(a: Seq<u8>, z: u8, b: Seq<u8>, min_len: nat)
    requires
        is_run_break(z),
    ensures
        readable_strings(a + seq![z] + b, min_len) == readable_strings(a, min_len)
            + readable_strings(b, min_len),
{
    lemma_runs_around_break(a, z, b);
    lemma_long_trimmed_concat(readable_runs(a), readable_runs(b), min_len);
}

/// Whether a string keeps at least `m` characters.
pub open spec fn keeps_length(m: nat) -> spec_fn(Seq<char>) -> bool {
    |t: Seq<char>| t.len() >= m
}

proof fn lemma_long_runs_filter(runs: Seq<Seq<char>>, m1: nat, m2: nat)
    requires
        m1 <= m2,
    ensures
        long_trimmed_runs(runs, m2) == long_trimmed_runs(runs, m1).filter(keeps_length(m2)),
    decreases runs.len(),
{
    if runs.len() > 0 {
        let p = keeps_length(m2);
        lemma_long_runs_filter(runs.drop_last(), m1, m2);
        let t = trim(runs.last());
        let x = long_trimmed_runs(runs.drop_last(), m1);
        let y = long_trimmed_runs(runs.drop_last(), m2);
        assert(y == x.filter(p));
        assert(x.push(t) =~= x + seq![t]);
        Seq::filter_distributes_over_add(x, seq![t], p);
        assert(seq![t].drop_last() =~= Seq::<Seq<char>>::empty());
        assert(Seq::<Seq<char>>::empty().filter(p) =~= Seq::<Seq<char>>::empty());
        if t.len() >= m2 {
            assert(long_trimmed_runs(runs, m2) =~= y.push(t));
            assert(long_trimmed_runs(runs, m1) =~= x.push(t));
            assert(p(t));
            assert(seq![t].filter(p) =~= seq![t]) by {
                reveal_with_fuel(Seq::filter, 2);
            }
            assert(x.push(t).filter(p) =~= x.filter(p).push(t));
        } else if t.len() >= m1 {
            assert(long_trimmed_runs(runs, m2) =~= y);
            assert(long_trimmed_runs(runs, m1) =~= x.push(t));
            assert(!p(t));
            assert(seq![t].filter(p) =~= Seq::<Seq<char>>::empty()) by {
                reveal_with_fuel(Seq::filter, 2);
            }
            assert(x.push(t).filter(p) =~= x.filter(p));
        } else {
            assert(long_trimmed_runs(runs, m2) =~= y);
            assert(long_trimmed_runs(runs, m1) =~= x);
        }
    }
}

/// A larger minimum length only drops strings: the strings kept with `m2` are those kept
/// with a smaller `m1` that have at least `m2` characters, in the same order.
pub proof fn law_longer_minimum_filters(s: Seq<u8>, m1: nat, m2: nat)
    requires
        m1 <= m2,
    ensures
        readable_strings(s, m2) == readable_strings(s, m1).filter(keeps_length(m2)),
{
    lemma_long_runs_filter(readable_runs(s), m1, m2);
}

/// The characters that the bytes of ASCII text stand for.
pub open spec fn ascii_chars(s: Seq<u8>) -> Seq<char> {
    s.map_values(|b: u8| b as char)
}

proof fn lemma_printable_runs(s: Seq<u8>)
    requires
        forall|i: int| 0 <= i < s.len() ==> 0x21 <= #[trigger] s[i] <= 0x7e,
    ensures
        readable_runs(s) == seq![ascii_chars(s)],
    decreases s.len(),
{
    if s.len() == 0 {
        assert(ascii_chars(s) =~= Seq::<char>::empty());
    } else {
        let c = s[0] as char;
        assert(readable_char(s) == Some((c, 1nat)));
        let rest = s.skip(1);
        assert(forall|i: int| 0 <= i < rest.len() ==> rest[i] == s[i + 1]);
        lemma_printable_runs(rest);
        assert(seq![c] + ascii_chars(rest) =~= ascii_chars(s));
        assert(seq![ascii_chars(rest)].update(0, seq![c] + ascii_chars(rest)) =~= seq![
            ascii_chars(s),
        ]);
    }
}

/// Input made only of printable ASCII other than space comes back whole, as one string,
/// when it is long enough: nothing is dropped, trimmed or split.
pub proof fn law_printable_input_whole(s: Seq<u8>, min_len: nat)
    requires
        s.len() >= 1,
        s.len() >= min_len,
        forall|i: int| 0 <= i < s.len() ==> 0x21 <= #[trigger] s[i] <= 0x7e,
    ensures
        readable_strings(s, min_len) == seq![ascii_chars(s)],
{
    lemma_printable_runs(s);
    let t = ascii_chars(s);
    assert(t[0] == s[0] as char);
    assert(t.last() == s[s.len() - 1] as char);
    assert(!is_white_space(t[0]));
    assert(!is_white_space(t.last()));
    assert(trim_start(t) == t);
    assert(trim_end(t) == t);
    let runs = seq![t];
    assert(runs.last() == t);
    assert(trim(runs.last()) == t);
    assert(runs.drop_last() =~= Seq::<Seq<char>>::empty());
    assert(long_trimmed_runs(runs.drop_last(), min_len) == Seq::<Seq<char>>::empty());
    assert(t.len() == s.len());
    assert(long_trimmed_runs(runs, min_len) =~= seq![t]);
}

/// The encoding of a concatenation is the concatenation of the encodings.
proof fn lemma_encode_concat(a: Seq<char>, b: Seq<char>)
    ensures
        encode_utf8(a + b) == encode_utf8(a) + encode_utf8(b),
    decreases a.len(),
{
    if a.len() == 0 {
        assert(a + b =~= b);
        assert(encode_utf8(a) =~= Seq::<u8>::empty());
        assert(Seq::<u8>::empty() + encode_utf8(b) =~= encode_utf8(b));
    } else {
        assert((a + b).drop_first() =~= a.drop_first() + b);
        lemma_encode_concat(a.drop_first(), b);
        assert((a + b)[0] == a[0]);
    }
}

/// The bytes of a readable character encode it.
proof fn lemma_readable_char_bytes(s: Seq<u8>)
    ensures
        readable_char(s) matches Some((c, n)) ==> encode_utf8(seq![c]) == s.take(n as int),
{
    if let Some((c, n)) = readable_char(s) {
        lemma_readable_char_len(s);
        let t = s.take(n as int);
        if s[0] < 128 {
            let b = s[0];
            assert(t =~= seq![b]);
            reveal_with_fuel(valid_utf8, 2);
            reveal_with_fuel(decode_utf8, 2);
            assert((b & 0x7f) as u32 == b as u32) by (bit_vector)
                requires
                    b < 128,
            ;
            assert(decode_first_scalar(t) == b as u32);
            assert((b as u32) as char == b as char);
            assert(pop_first_scalar(t) =~= Seq::<u8>::empty());
            assert(valid_utf8(t));
            assert(decode_utf8(t) =~= seq![c]);
            vstd::utf8::decode_utf8_encode_utf8(t);
        } else {
            lemma_single_scalar_prefix(s, n as int);
            assert(decode_utf8(t).len() == 1);
            assert(decode_utf8(t) =~= seq![c]);
            vstd::utf8::decode_utf8_encode_utf8(t);
        }
    }
}

/// The runs of `s`, each with where its bytes begin: the first run begins at the start.
proof fn lemma_runs_in_input(s: Seq<u8>) -> (starts: Seq<int>)
    ensures
        starts.len() == readable_runs(s).len(),
        starts[0] == 0,
        forall|k: int|
            0 <= k < starts.len() ==> 0 <= #[trigger] starts[k] && starts[k] + encode_utf8(
                readable_runs(s)[k],
            ).len() <= s.len() && encode_utf8(readable_runs(s)[k]) == s.subrange(
                starts[k],
                starts[k] + encode_utf8(readable_runs(s)[k]).len(),
            ),
    decreases s.len(),
{
    lemma_runs_nonempty(s);
    if s.len() == 0 {
        assert(encode_utf8(Seq::<char>::empty()) =~= Seq::<u8>::empty());
        assert(s.subrange(0, 0) =~= Seq::<u8>::empty());
        seq![0int]
    } else {
        lemma_readable_char_len(s);
        match readable_char(s) {
            Some((c, n)) => {
                let rest = s.skip(n as int);
                let inner = lemma_runs_in_input(rest);
                let runs = readable_runs(rest);
                lemma_runs_nonempty(rest);
                let starts = inner.map_values(|a: int| a + n).update(0, 0);
                lemma_readable_char_bytes(s);
                lemma_encode_concat(seq![c], runs[0]);
                assert forall|k: int| 0 <= k < starts.len() implies 0 <= #[trigger] starts[k]
                    && starts[k] + encode_utf8(readable_runs(s)[k]).len() <= s.len()
                    && encode_utf8(readable_runs(s)[k]) == s.subrange(
                    starts[k],
                    starts[k] + encode_utf8(readable_runs(s)[k]).len(),
                ) by {
                    if k == 0 {
                        let e0 = encode_utf8(runs[0]);
                        assert(e0 == rest.subrange(0, e0.len() as int));
                        assert(readable_runs(s)[0] == seq![c] + runs[0]);
                        assert(s.take(n as int) + rest.subrange(0, e0.len() as int) =~= s.subrange(
                            0,
                            (n + e0.len()) as int,
                        ));
                    } else {
                        let ek = encode_utf8(runs[k]);
                        assert(readable_runs(s)[k] == runs[k]);
                        assert(rest.subrange(inner[k], inner[k] + ek.len()) =~= s.subrange(
                            inner[k] + n,
                            inner[k] + n + ek.len(),
                        ));
                    }
                }
                starts
            },
            None => {
                let rest = s.skip(1);
                let inner = lemma_runs_in_input(rest);
                let starts = seq![0int] + inner.map_values(|a: int| a + 1);
                assert(encode_utf8(Seq::<char>::empty()) =~= Seq::<u8>::empty());
                assert forall|k: int| 0 <= k < starts.len() implies 0 <= #[trigger] starts[k]
                    && starts[k] + encode_utf8(readable_runs(s)[k]).len() <= s.len()
                    && encode_utf8(readable_runs(s)[k]) == s.subrange(
                    starts[k],
                    starts[k] + encode_utf8(readable_runs(s)[k]).len(),
                ) by {
                    if k == 0 {
                        assert(readable_runs(s)[0] == Seq::<char>::empty());
                        assert(s.subrange(0, 0) =~= Seq::<u8>::empty());
                    } else {
                        let ek = encode_utf8(readable_runs(rest)[k - 1]);
                        assert(readable_runs(s)[k] == readable_runs(rest)[k - 1]);
                        assert(rest.subrange(inner[k - 1], inner[k - 1] + ek.len()) =~= s.subrange(
                            inner[k - 1] + 1,
                            inner[k - 1] + 1 + ek.len(),
                        ));
                    }
                }
                starts
            },
        }
    }
}

/// Trimming keeps a contiguous part of the characters.
proof fn lemma_trim_part(cs: Seq<char>) -> (at: int)
    ensures
        0 <= at,
        at + trim(cs).len() <= cs.len(),
        trim(cs) == cs.subrange(at, at + trim(cs).len()),
{
    let i = lemma_trim_start_part(cs);
    lemma_trim_end_part(trim_start(cs));
    let t = trim_start(cs);
    assert(trim(cs) == t.take(trim(cs).len() as int));
    assert(t.take(trim(cs).len() as int) =~= cs.subrange(i, i + trim(cs).len()));
    i
}

proof fn lemma_trim_start_part(cs: Seq<char>) -> (at: int)
    ensures
        0 <= at <= cs.len(),
        trim_start(cs) == cs.skip(at),
    decreases cs.len(),
{
    if cs.len() > 0 && is_white_space(cs[0]) {
        let j = lemma_trim_start_part(cs.drop_first());
        assert(cs.drop_first().skip(j) =~= cs.skip(j + 1));
        j + 1
    } else {
        assert(cs.skip(0) =~= cs);
        0
    }
}

proof fn lemma_trim_end_part(cs: Seq<char>)
    ensures
        trim_end(cs).len() <= cs.len(),
        trim_end(cs) == cs.take(trim_end(cs).len() as int),
    decreases cs.len(),
{
    if cs.len() > 0 && is_white_space(cs.last()) {
        lemma_trim_end_part(cs.drop_last());
        assert(cs.drop_last().take(trim_end(cs).len() as int) =~= cs.take(
            trim_end(cs).len() as int,
        ));
    } else {
        assert(cs.take(cs.len() as int) =~= cs);
    }
}

/// Each kept string is the trimmed form of one of the runs.
proof fn lemma_kept_are_trimmed_runs(runs: Seq<Seq<char>>, min_len: nat, k: int) -> (r: int)
    requires
        0 <= k < long_trimmed_runs(runs, min_len).len(),
    ensures
        0 <= r < runs.len(),
        long_trimmed_runs(runs, min_len)[k] == trim(runs[r]),
    decreases runs.len(),
{
    let x = long_trimmed_runs(runs.drop_last(), min_len);
    let t = trim(runs.last());
    if k < x.len() {
        if t.len() >= min_len {
            assert(long_trimmed_runs(runs, min_len) == x + seq![t]);
        } else {
            assert(long_trimmed_runs(runs, min_len) =~= x);
        }
        lemma_kept_are_trimmed_runs(runs.drop_last(), min_len, k)
    } else {
        if t.len() < min_len {
            assert(long_trimmed_runs(runs, min_len) =~= x);
        }
        assert(long_trimmed_runs(runs, min_len) == x + seq![t]);
        runs.len() - 1
    }
}

/// Each extracted string is a contiguous part of the input: its UTF-8 encoding occurs in
/// the bytes as they stand.
pub proof fn law_extracted_strings_are_parts_of_input(s: Seq<u8>, min_len: nat, k: int)
    requires
        0 <= k < readable_strings(s, min_len).len(),
    ensures
        exists|at: int|
            0 <= at && at + encode_utf8(readable_strings(s, min_len)[k]).len() <= s.len()
                && encode_utf8(readable_strings(s, min_len)[k]) == #[trigger] s.subrange(
                at,
                at + encode_utf8(readable_strings(s, min_len)[k]).len(),
            ),
{
    let runs = readable_runs(s);
    let starts = lemma_runs_in_input(s);
    let r = lemma_kept_are_trimmed_runs(runs, min_len, k);
    let run = runs[r];
    let t = readable_strings(s, min_len)[k];
    let i = lemma_trim_part(run);
    assert(run =~= run.subrange(0, i) + t + run.subrange(i + t.len(), run.len() as int));
    lemma_encode_concat(run.subrange(0, i), t);
    lemma_encode_concat(run.subrange(0, i) + t, run.subrange(i + t.len(), run.len() as int));
    let p: int = encode_utf8(run.subrange(0, i)).len() as int;
    let e = encode_utf8(t);
    let er = encode_utf8(run);
    assert(er.subrange(p, p + e.len()) =~= e);
    let at = starts[r] + p;
    assert(s.subrange(starts[r], starts[r] + er.len()).subrange(p, p + e.len()) =~= s.subrange(
        at,
        at + e.len(),
    ));
    assert(e == s.subrange(at, at + e.len()));
}

/// A character that the scan reads as one ASCII byte and keeps: printable, or a space.
pub open spec fn is_plain_ascii(c: char) -> bool {
    is_ascii_graphic(c) || c == ' '
}

/// `t` begins with `p`.
pub open spec fn starts_with(t: Seq<char>, p: Seq<char>) -> bool {
    p.len() <= t.len() && t.take(p.len() as int) == p
}

proof fn lemma_encode_plain_first(text: Seq<char>)
    requires
        text.len() > 0,
        is_plain_ascii(text[0]),
    ensures
        encode_utf8(text) == seq![text[0] as u8] + encode_utf8(text.drop_first()),
        readable_char(encode_utf8(text)) == Some((text[0], 1nat)),
{
    let c = text[0];
    let u = c as u32;
    assert(u <= 0x7f);
    assert((u & 0x7f) as u8 == u as u8) by (bit_vector)
        requires
            u <= 0x7f,
    ;
    assert(vstd::utf8::encode_scalar(u) == seq![u as u8]);
    assert((u as u8) == c as u8);
    assert(((c as u8) as char) == c);
    let e = encode_utf8(text);
    assert(e[0] == c as u8);
}

/// Text that begins with plain ASCII characters `p` has a first run beginning with `p`.
proof fn lemma_first_run_starts_with(text: Seq<char>, p: Seq<char>)
    requires
        starts_with(text, p),
        forall|i: int| 0 <= i < p.len() ==> is_plain_ascii(#[trigger] p[i]),
    ensures
        starts_with(readable_runs(encode_utf8(text))[0], p),
    decreases p.len(),
{
    let bytes = encode_utf8(text);
    lemma_runs_nonempty(bytes);
    if p.len() > 0 {
        assert(text[0] == p[0]);
        lemma_encode_plain_first(text);
        let rest = text.drop_first();
        assert(bytes.skip(1) =~= encode_utf8(rest));
        assert(starts_with(rest, p.drop_first())) by {
            assert(rest.take(p.len() - 1) =~= p.drop_first());
        }
        lemma_first_run_starts_with(rest, p.drop_first());
        let inner = readable_runs(encode_utf8(rest));
        lemma_runs_nonempty(encode_utf8(rest));
        assert(readable_runs(bytes)[0] == seq![p[0]] + inner[0]);
        let q = p.drop_first();
        assert(inner[0].take(q.len() as int) == q);
        assert forall|k: int| 0 <= k < p.len() implies (seq![p[0]] + inner[0])[k] == p[k] by {
            if k > 0 {
                assert(inner[0].take(q.len() as int)[k - 1] == q[k - 1]);
            }
        }
        assert((seq![p[0]] + inner[0]).take(p.len() as int) =~= p);
    } else {
        assert(readable_runs(bytes)[0].take(0) =~= p);
    }
}

/// Trimming keeps a beginning that neither starts nor ends with white space.
proof fn lemma_trim_keeps_start(t: Seq<char>, p: Seq<char>)
    requires
        starts_with(t, p),
        p.len() > 0,
        !is_white_space(p[0]),
        !is_white_space(p.last()),
    ensures
        starts_with(trim(t), p),
{
    assert(t[0] == p[0]);
    assert(trim_start(t) == t);
    lemma_trim_end_keeps_start(t, p);
}

proof fn lemma_trim_end_keeps_start(t: Seq<char>, p: Seq<char>)
    requires
        starts_with(t, p),
        p.len() > 0,
        !is_white_space(p.last()),
    ensures
        starts_with(trim_end(t), p),
    decreases t.len(),
{
    if t.len() > p.len() && is_white_space(t.last()) {
        assert(t.drop_last().take(p.len() as int) =~= t.take(p.len() as int));
        lemma_trim_end_keeps_start(t.drop_last(), p);
    } else if t.len() == p.len() {
        assert(t.take(p.len() as int) =~= t);
        assert(t.last() == p.last());
    }
}

/// When the first run keeps enough characters after trimming, the first kept string is it.
proof fn lemma_first_kept(runs: Seq<Seq<char>>, min_len: nat)
    requires
        runs.len() > 0,
        trim(runs[0]).len() >= min_len,
    ensures
        long_trimmed_runs(runs, min_len).len() > 0,
        long_trimmed_runs(runs, min_len)[0] == trim(runs[0]),
    decreases runs.len(),
{
    let x = long_trimmed_runs(runs.drop_last(), min_len);
    let t = trim(runs.last());
    if runs.len() == 1 {
        assert(runs.drop_last() =~= Seq::<Seq<char>>::empty());
        assert(x =~= Seq::<Seq<char>>::empty());
        assert(long_trimmed_runs(runs, min_len) =~= seq![t]);
    } else {
        lemma_first_kept(runs.drop_last(), min_len);
        if t.len() >= min_len {
            assert(long_trimmed_runs(runs, min_len) == x + seq![t]);
        } else {
            assert(long_trimmed_runs(runs, min_len) =~= x);
        }
    }
}

/// Text that begins with plain ASCII characters `p`, neither starting nor ending with white
/// space, yields a first string that begins with `p` whenever `p` is long enough to be kept.
pub proof fn law_first_string_keeps_plain_opening(text: Seq<char>, p: Seq<char>, min_len: nat)
    requires
        starts_with(text, p),
        p.len() > 0,
        p.len() >= min_len,
        forall|i: int| 0 <= i < p.len() ==> is_plain_ascii(#[trigger] p[i]),
        !is_white_space(p[0]),
        !is_white_space(p.last()),
    ensures
        readable_strings(encode_utf8(text), min_len).len() > 0,
        starts_with(readable_strings(encode_utf8(text), min_len)[0], p),
{
    let runs = readable_runs(encode_utf8(text));
    lemma_runs_nonempty(encode_utf8(text));
    lemma_first_run_starts_with(text, p);
    lemma_trim_keeps_start(runs[0], p);
    lemma_first_kept(runs, min_len);
}

} // verus!
