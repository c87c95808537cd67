//! The on-disk form of the store: one JSON document mapping decimal
//! identifier keys to task objects.
//!
//! The document text is fixed, character by character, by spec functions;
//! the emitter produces exactly that text and the parser is specified as a
//! total function of the input. Reloading an emitted document yields the
//! original collection again.

use vstd::prelude::*;

use crate::store::ids_strictly_increasing;
use crate::task::{Priority, Status, TaskView, Timestamp};
use crate::task::Task;
use crate::text::{chars_vec, dec_digits, digit_char, digit_char_exec, push_dec};

verus! {

// ---------------------------------------------------------------------------
// Digits and numbers
// ---------------------------------------------------------------------------

/// Is `c` a decimal digit?
pub open spec fn is_digit(c: char) -> bool {
    '0' <= c && c <= '9'
}

/// Numeric value of a decimal digit character.
pub open spec fn digit_val(c: char) -> nat {
    (c as int - '0' as int) as nat
}

/// Value of a digit string, most significant digit first, as a `u64`;
/// `None` when the value does not fit.
pub open spec fn dec_val_u64(d: Seq<char>) -> Option<u64>
    decreases d.len(),
{
    if d.len() == 0 {
        Some(0u64)
    } else {
        match dec_val_u64(d.drop_last()) {
            None => None,
            Some(v) => {
                let dv = digit_val(d.last());
                if v > (u64::MAX - dv) / 10 {
                    None
                } else {
                    Some((v * 10 + dv) as u64)
                }
            },
        }
    }
}

/// Every character of a decimal rendering is a digit.
pub proof fn lemma_dec_digits_are_digits(n: nat)
    ensures
        forall|i: int| 0 <= i < dec_digits(n).len() ==> is_digit(#[trigger] dec_digits(n)[i]),
        dec_digits(n).len() >= 1,
    decreases n,
{
    if n >= 10 {
        lemma_dec_digits_are_digits(n / 10);
    }
}

/// The digit character of `d` reads back as `d`.
pub proof fn lemma_digit_char_val(d: nat)
    requires
        d < 10,
    ensures
        is_digit(digit_char(d)),
        digit_val(digit_char(d)) == d,
{
}

/// Reading back the decimal rendering of a `u64` yields the number again.
pub proof fn lemma_dec_val_of_digits(n: u64)
    ensures
        dec_val_u64(dec_digits(n as nat)) == Some(n),
    decreases n,
{
    if n < 10 {
        lemma_digit_char_val(n as nat);
        assert(dec_digits(n as nat) =~= seq![digit_char(n as nat)]);
        assert(dec_digits(n as nat).drop_last() =~= Seq::<char>::empty());
        assert(dec_val_u64(dec_digits(n as nat).drop_last()) == Some(0u64));
        assert(dec_digits(n as nat).last() == digit_char(n as nat));
    } else {
        lemma_dec_val_of_digits(n / 10);
        lemma_digit_char_val((n % 10) as nat);
        assert(dec_digits(n as nat).drop_last() =~= dec_digits((n / 10) as nat));
        assert(dec_digits(n as nat).last() == digit_char((n % 10) as nat));
        let v = n / 10;
        let dv = (n % 10) as nat;
        assert(v <= (u64::MAX - dv) / 10 && v * 10 + dv == n) by (nonlinear_arith)
            requires
                v == n / 10,
                dv == n % 10,
                n >= 10,
        ;
    }
}

// ---------------------------------------------------------------------------
// Fixed-width numbers and timestamps
// ---------------------------------------------------------------------------

/// The stored form of a timestamp: `YYYY-MM-DDThh:mm:ssZ`, 20 characters,
/// every numeric field zero-padded.
pub open spec fn timestamp_chars(t: Timestamp) -> Seq<char> {
    seq![
        digit_char(((t.year as nat) / 1000) % 10),
        digit_char(((t.year as nat) / 100) % 10),
        digit_char(((t.year as nat) / 10) % 10),
        digit_char((t.year as nat) % 10),
        '-',
        digit_char(((t.month as nat) / 10) % 10),
        digit_char((t.month as nat) % 10),
        '-',
        digit_char(((t.day as nat) / 10) % 10),
        digit_char((t.day as nat) % 10),
        'T',
        digit_char(((t.hour as nat) / 10) % 10),
        digit_char((t.hour as nat) % 10),
        ':',
        digit_char(((t.minute as nat) / 10) % 10),
        digit_char((t.minute as nat) % 10),
        ':',
        digit_char(((t.second as nat) / 10) % 10),
        digit_char((t.second as nat) % 10),
        'Z',
    ]
}

/// Value of two digit characters.
pub open spec fn val2(s: Seq<char>, i: int) -> nat {
    digit_val(s[i]) * 10 + digit_val(s[i + 1])
}

/// Value of four digit characters.
pub open spec fn val4(s: Seq<char>, i: int) -> nat {
    digit_val(s[i]) * 1000 + digit_val(s[i + 1]) * 100 + digit_val(s[i + 2]) * 10 + digit_val(
        s[i + 3],
    )
}

/// Parses the 20-character stored form of a timestamp at position `i`:
/// digits and separators in place, fields within their calendar ranges.
pub open spec fn p_timestamp(s: Seq<char>, i: int) -> Option<(Timestamp, int)> {
    if i + 20 <= s.len() && is_digit(s[i]) && is_digit(s[i + 1]) && is_digit(s[i + 2]) && is_digit(
        s[i + 3],
    ) && s[i + 4] == '-' && is_digit(s[i + 5]) && is_digit(s[i + 6]) && s[i + 7] == '-' && is_digit(
        s[i + 8],
    ) && is_digit(s[i + 9]) && s[i + 10] == 'T' && is_digit(s[i + 11]) && is_digit(s[i + 12]) && s[i
        + 13] == ':' && is_digit(s[i + 14]) && is_digit(s[i + 15]) && s[i + 16] == ':' && is_digit(
        s[i + 17],
    ) && is_digit(s[i + 18]) && s[i + 19] == 'Z' {
        let t = Timestamp {
            year: val4(s, i) as u16,
            month: val2(s, i + 5) as u8,
            day: val2(s, i + 8) as u8,
            hour: val2(s, i + 11) as u8,
            minute: val2(s, i + 14) as u8,
            second: val2(s, i + 17) as u8,
        };
        if 1 <= t.month <= 12 && 1 <= t.day <= 31 && t.hour <= 23 && t.minute <= 59 && t.second
            <= 59 {
            Some((t, i + 20))
        } else {
            None
        }
    } else {
        None
    }
}

/// Helper: two adjacent characters that render `n < 100` zero-padded read
/// back as `n`.
#[verifier::rlimit(60)]
proof fn lemma_two_char_group(s: Seq<char>, pos: int, n: nat)
    requires
        n < 100,
        0 <= pos,
        pos + 1 < s.len(),
        s[pos] == digit_char((n / 10) % 10),
        s[pos + 1] == digit_char(n % 10),
    ensures
        is_digit(s[pos]),
        is_digit(s[pos + 1]),
        val2(s, pos) == n,
{
    lemma_digit_char_val((n / 10) % 10);
    lemma_digit_char_val(n % 10);
}

/// Helper: four adjacent characters that render `n < 10000` zero-padded
/// read back as `n`.
#[verifier::rlimit(100)]
proof fn lemma_four_char_group(s: Seq<char>, pos: int, n: nat)
    requires
        n < 10000,
        0 <= pos,
        pos + 3 < s.len(),
        s[pos] == digit_char((n / 1000) % 10),
        s[pos + 1] == digit_char((n / 100) % 10),
        s[pos + 2] == digit_char((n / 10) % 10),
        s[pos + 3] == digit_char(n % 10),
    ensures
        is_digit(s[pos]),
        is_digit(s[pos + 1]),
        is_digit(s[pos + 2]),
        is_digit(s[pos + 3]),
        val4(s, pos) == n,
{
    lemma_digit_char_val((n / 1000) % 10);
    lemma_digit_char_val((n / 100) % 10);
    lemma_digit_char_val((n / 10) % 10);
    lemma_digit_char_val(n % 10);
}

/// Reading back the stored form of a well-formed timestamp yields the
/// timestamp again: the 20 characters at `i` determine the fields.
pub proof fn lemma_timestamp_round_trip(s: Seq<char>, i: int, t: Timestamp)
    requires
        t.wf(),
        0 <= i,
        i + 20 <= s.len(),
        s.subrange(i, i + 20) == timestamp_chars(t),
    ensures
        p_timestamp(s, i) == Some((t, i + 20)),
{
    let w = timestamp_chars(t);
    assert(s[i + 0] == w[0]) by {
        assert(s.subrange(i, i + 20)[0] == s[i + 0]);
    }
    assert(s[i + 1] == w[1]) by {
        assert(s.subrange(i, i + 20)[1] == s[i + 1]);
    }
    assert(s[i + 2] == w[2]) by {
        assert(s.subrange(i, i + 20)[2] == s[i + 2]);
    }
    assert(s[i + 3] == w[3]) by {
        assert(s.subrange(i, i + 20)[3] == s[i + 3]);
    }
    assert(s[i + 4] == w[4]) by {
        assert(s.subrange(i, i + 20)[4] == s[i + 4]);
    }
    assert(s[i + 5] == w[5]) by {
        assert(s.subrange(i, i + 20)[5] == s[i + 5]);
    }
    assert(s[i + 6] == w[6]) by {
        assert(s.subrange(i, i + 20)[6] == s[i + 6]);
    }
    assert(s[i + 7] == w[7]) by {
        assert(s.subrange(i, i + 20)[7] == s[i + 7]);
    }
    assert(s[i + 8] == w[8]) by {
        assert(s.subrange(i, i + 20)[8] == s[i + 8]);
    }
    assert(s[i + 9] == w[9]) by {
        assert(s.subrange(i, i + 20)[9] == s[i + 9]);
    }
    assert(s[i + 10] == w[10]) by {
        assert(s.subrange(i, i + 20)[10] == s[i + 10]);
    }
    assert(s[i + 11] == w[11]) by {
        assert(s.subrange(i, i + 20)[11] == s[i + 11]);
    }
    assert(s[i + 12] == w[12]) by {
        assert(s.subrange(i, i + 20)[12] == s[i + 12]);
    }
    assert(s[i + 13] == w[13]) by {
        assert(s.subrange(i, i + 20)[13] == s[i + 13]);
    }
    assert(s[i + 14] == w[14]) by {
        assert(s.subrange(i, i + 20)[14] == s[i + 14]);
    }
    assert(s[i + 15] == w[15]) by {
        assert(s.subrange(i, i + 20)[15] == s[i + 15]);
    }
    assert(s[i + 16] == w[16]) by {
        assert(s.subrange(i, i + 20)[16] == s[i + 16]);
    }
    assert(s[i + 17] == w[17]) by {
        assert(s.subrange(i, i + 20)[17] == s[i + 17]);
    }
    assert(s[i + 18] == w[18]) by {
        assert(s.subrange(i, i + 20)[18] == s[i + 18]);
    }
    assert(s[i + 19] == w[19]) by {
        assert(s.subrange(i, i + 20)[19] == s[i + 19]);
    }
    lemma_four_char_group(s, i, t.year as nat);
    lemma_two_char_group(s, i + 5, t.month as nat);
    lemma_two_char_group(s, i + 8, t.day as nat);
    lemma_two_char_group(s, i + 11, t.hour as nat);
    lemma_two_char_group(s, i + 14, t.minute as nat);
    lemma_two_char_group(s, i + 17, t.second as nat);
    assert(p_timestamp(s, i) == Some((t, i + 20)));
}



// ---------------------------------------------------------------------------
// Number runs
// ---------------------------------------------------------------------------

/// First position at or after `i` that does not hold a digit.
pub open spec fn digits_end(s: Seq<char>, i: int) -> int
    decreases s.len() - i,
{
    if i < s.len() && is_digit(s[i]) {
        digits_end(s, i + 1)
    } else {
        i
    }
}

/// Parses a run of digits at `i` as a `u64`: at least one digit, value in
/// range, maximal munch.
pub open spec fn p_u64(s: Seq<char>, i: int) -> Option<(u64, int)> {
    let e = digits_end(s, i);
    if e == i {
        None
    } else {
        match dec_val_u64(s.subrange(i, e)) {
            Some(v) => Some((v, e)),
            None => None,
        }
    }
}

/// A run of digits from `i` to `j`, followed by a non-digit or the end,
/// ends exactly at `j`.
pub proof fn lemma_digits_end_of_run(s: Seq<char>, i: int, j: int)
    requires
        0 <= i <= j <= s.len(),
        forall|k: int| i <= k < j ==> is_digit(#[trigger] s[k]),
        j == s.len() || !is_digit(s[j]),
    ensures
        digits_end(s, i) == j,
    decreases j - i,
{
    if i < j {
        lemma_digits_end_of_run(s, i + 1, j);
    }
}

/// Reading back the decimal rendering of `n`, followed by anything that is
/// not a digit, yields `n` and stops right after the digits.
pub proof fn lemma_p_u64_round_trip(s: Seq<char>, i: int, n: u64)
    requires
        0 <= i,
        i + dec_digits(n as nat).len() <= s.len(),
        s.subrange(i, i + dec_digits(n as nat).len()) == dec_digits(n as nat),
        i + dec_digits(n as nat).len() == s.len() || !is_digit(
            s[i + dec_digits(n as nat).len()],
        ),
    ensures
        p_u64(s, i) == Some((n, i + dec_digits(n as nat).len())),
{
    let w = dec_digits(n as nat);
    let j = i + w.len();
    lemma_dec_digits_are_digits(n as nat);
    assert forall|k: int| i <= k < j implies is_digit(#[trigger] s[k]) by {
        assert(s.subrange(i, j)[k - i] == s[k]);
        assert(w[k - i] == s[k]);
    }
    lemma_digits_end_of_run(s, i, j);
    lemma_dec_val_of_digits(n);
}

// ---------------------------------------------------------------------------
// Strings and escaping
// ---------------------------------------------------------------------------

/// Hexadecimal digit character of `d < 16`, lowercase.
pub open spec fn hex_char(d: nat) -> char {
    if d < 10 {
        digit_char(d)
    } else if d == 10 {
        'a'
    } else if d == 11 {
        'b'
    } else if d == 12 {
        'c'
    } else if d == 13 {
        'd'
    } else if d == 14 {
        'e'
    } else {
        'f'
    }
}

/// Is `c` a lowercase hexadecimal digit?
pub open spec fn is_hex(c: char) -> bool {
    is_digit(c) || ('a' <= c && c <= 'f')
}

/// Numeric value of a lowercase hexadecimal digit.
pub open spec fn hex_val(c: char) -> nat {
    if is_digit(c) {
        digit_val(c)
    } else {
        (c as int - 'a' as int + 10) as nat
    }
}

/// The character with code `v` (meaningful for `v < 32`).
pub open spec fn char_of_code(v: nat) -> char {
    (v as u32) as char
}

/// The stored escape of one character, as JSON requires: quote, backslash
/// and the common control characters by a two-character escape, the
/// remaining control characters by a `\u00..` escape, everything else as
/// itself.
pub open spec fn esc_char(c: char) -> Seq<char> {
    if c == '"' {
        seq!['\\', '"']
    } else if c == '\\' {
        seq!['\\', '\\']
    } else if c == '\n' {
        seq!['\\', 'n']
    } else if c == '\r' {
        seq!['\\', 'r']
    } else if c == '\t' {
        seq!['\\', 't']
    } else if (c as nat) < 32 {
        seq!['\\', 'u', '0', '0', hex_char((c as nat) / 16), hex_char((c as nat) % 16)]
    } else {
        seq![c]
    }
}

/// The stored escape of a whole string body.
pub open spec fn escape(s: Seq<char>) -> Seq<char>
    decreases s.len(),
{
    if s.len() == 0 {
        Seq::<char>::empty()
    } else {
        escape(s.drop_last()) + esc_char(s.last())
    }
}

/// The escape of a string starts with the escape of its first character.
pub proof fn lemma_escape_head(x: Seq<char>)
    requires
        x.len() > 0,
    ensures
        escape(x) == esc_char(x[0]) + escape(x.drop_first()),
    decreases x.len(),
{
    if x.len() == 1 {
        assert(x.drop_last() =~= Seq::<char>::empty());
        assert(x.drop_first() =~= Seq::<char>::empty());
        assert(escape(x) =~= esc_char(x[0]) + escape(x.drop_first()));
    } else {
        lemma_escape_head(x.drop_last());
        assert(x.drop_last().drop_first() =~= x.drop_first().drop_last());
        assert(x.drop_first().last() == x.last());
        assert(escape(x) == (esc_char(x[0]) + escape(x.drop_first().drop_last())) + esc_char(
            x.drop_first().last(),
        ));
        assert((esc_char(x[0]) + escape(x.drop_first().drop_last())) + esc_char(
            x.drop_first().last(),
        ) =~= esc_char(x[0]) + (escape(x.drop_first().drop_last()) + esc_char(
            x.drop_first().last(),
        )));
        assert(escape(x.drop_first()) == escape(x.drop_first().drop_last()) + esc_char(
            x.drop_first().last(),
        ));
    }
}

/// Parses the body of a stored string starting at `i` (after the opening
/// quote) up to and including the closing quote.
#[verifier::opaque]
pub open spec fn p_str_body(s: Seq<char>, i: int) -> Option<(Seq<char>, int)>
    decreases s.len() - i,
{
    if i < 0 || i >= s.len() {
        None
    } else if s[i] == '"' {
        Some((Seq::<char>::empty(), i + 1))
    } else if s[i] == '\\' {
        if i + 2 > s.len() {
            None
        } else {
            let e = s[i + 1];
            if e == '"' || e == '\\' {
                match p_str_body(s, i + 2) {
                    Some((cs, j)) => Some((seq![e] + cs, j)),
                    None => None,
                }
            } else if e == 'n' {
                match p_str_body(s, i + 2) {
                    Some((cs, j)) => Some((seq!['\n'] + cs, j)),
                    None => None,
                }
            } else if e == 'r' {
                match p_str_body(s, i + 2) {
                    Some((cs, j)) => Some((seq!['\r'] + cs, j)),
                    None => None,
                }
            } else if e == 't' {
                match p_str_body(s, i + 2) {
                    Some((cs, j)) => Some((seq!['\t'] + cs, j)),
                    None => None,
                }
            } else if e == 'u' {
                if i + 6 <= s.len() && s[i + 2] == '0' && s[i + 3] == '0' && is_hex(s[i + 4])
                    && is_hex(s[i + 5]) && hex_val(s[i + 4]) * 16 + hex_val(s[i + 5]) < 32 {
                    match p_str_body(s, i + 6) {
                        Some((cs, j)) => Some(
                            (seq![char_of_code(hex_val(s[i + 4]) * 16 + hex_val(s[i + 5]))] + cs, j),
                        ),
                        None => None,
                    }
                } else {
                    None
                }
            } else {
                None
            }
        }
    } else {
        match p_str_body(s, i + 1) {
            Some((cs, j)) => Some((seq![s[i]] + cs, j)),
            None => None,
        }
    }
}

/// The lowercase hexadecimal digit of `d < 16` reads back as `d`.
pub proof fn lemma_hex_char_val(d: nat)
    requires
        d < 16,
    ensures
        is_hex(hex_char(d)),
        hex_val(hex_char(d)) == d,
{
    if d < 10 {
        lemma_digit_char_val(d);
    }
}

/// Reading back an escaped string body followed by its closing quote
/// yields the original characters and stops right after the quote.
pub proof fn lemma_str_body_round_trip(s: Seq<char>, i: int, x: Seq<char>)
    requires
        0 <= i,
        i + escape(x).len() + 1 <= s.len(),
        s.subrange(i, i + escape(x).len()) == escape(x),
        s[i + escape(x).len()] == '"',
    ensures
        p_str_body(s, i) == Some((x, i + escape(x).len() + 1)),
    decreases x.len(),
{
    reveal(p_str_body);
    let el = escape(x).len() as int;
    if x.len() == 0 {
        assert(s[i] == '"');
    } else {
        lemma_escape_head(x);
        let c = x[0];
        let e0 = esc_char(c);
        let rest = x.drop_first();
        let i2 = i + e0.len();
        assert forall|k: int| 0 <= k < e0.len() implies s[i + k] == e0[k] by {
            assert(s.subrange(i, i + el)[k] == s[i + k]);
            assert(escape(x)[k] == e0[k]);
        }
        assert(s.subrange(i2, i2 + escape(rest).len()) =~= escape(rest)) by {
            assert forall|k: int| 0 <= k < escape(rest).len() implies s.subrange(
                i2,
                i2 + escape(rest).len(),
            )[k] == escape(rest)[k] by {
                assert(s.subrange(i, i + el)[e0.len() + k] == s[i2 + k]);
                assert(escape(x)[e0.len() + k] == escape(rest)[k]);
            }
        }
        assert(s[i2 + escape(rest).len()] == '"');
        lemma_str_body_round_trip(s, i2, rest);
        assert(seq![c] + rest =~= x);
        if c == '"' || c == '\\' {
            assert(s[i] == '\\' && s[i + 1] == c);
        } else if c == '\n' {
            assert(s[i] == '\\' && s[i + 1] == 'n');
        } else if c == '\r' {
            assert(s[i] == '\\' && s[i + 1] == 'r');
        } else if c == '\t' {
            assert(s[i] == '\\' && s[i + 1] == 't');
        } else if (c as nat) < 32 {
            let hi = (c as nat) / 16;
            let lo = (c as nat) % 16;
            lemma_hex_char_val(hi);
            lemma_hex_char_val(lo);
            assert(s[i] == '\\' && s[i + 1] == 'u' && s[i + 2] == '0' && s[i + 3] == '0');
            assert(s[i + 4] == hex_char(hi) && s[i + 5] == hex_char(lo));
            assert(hex_val(s[i + 4]) * 16 + hex_val(s[i + 5]) == c as nat);
            assert(char_of_code(c as nat) == c) by {
                vstd::utf8::char_u32_cast(c, c as u32);
                assert((c as nat) as u32 == c as u32);
            }
        } else {
            assert(s[i] == c && c != '"' && c != '\\');
        }
    }
}

// ---------------------------------------------------------------------------
// Tokens: string literals, timestamps, priorities, statuses, options
// ---------------------------------------------------------------------------

/// Does `w` stand at position `i` of `s`?
pub open spec fn starts_with(s: Seq<char>, i: int, w: Seq<char>) -> bool {
    0 <= i && i + w.len() <= s.len() && s.subrange(i, i + w.len()) == w
}

/// Splitting a concatenation found in `s`: each half stands at its place.
pub proof fn lemma_concat_split(s: Seq<char>, i: int, a: Seq<char>, b: Seq<char>)
    requires
        0 <= i,
        i + a.len() + b.len() <= s.len(),
        s.subrange(i, i + a.len() + b.len()) == a + b,
    ensures
        s.subrange(i, i + a.len()) =~= a,
        s.subrange(i + a.len(), i + a.len() + b.len()) =~= b,
{
    assert forall|k: int| 0 <= k < a.len() implies s.subrange(i, i + a.len())[k] == a[k] by {
        assert(s.subrange(i, i + a.len() + b.len())[k] == s[i + k]);
        assert((a + b)[k] == a[k]);
    }
    assert forall|k: int| 0 <= k < b.len() implies s.subrange(
        i + a.len(),
        i + a.len() + b.len(),
    )[k] == b[k] by {
        assert(s.subrange(i, i + a.len() + b.len())[a.len() + k] == s[i + a.len() + k]);
        assert((a + b)[a.len() + k] == b[k]);
    }
}

/// The stored form of a string: quoted and escaped.
pub open spec fn str_lit(x: Seq<char>) -> Seq<char> {
    seq!['"'] + (escape(x) + seq!['"'])
}

/// Parses a stored string at `i`: an opening quote, then the escaped body.
pub open spec fn p_string(s: Seq<char>, i: int) -> Option<(Seq<char>, int)> {
    if 0 <= i < s.len() && s[i] == '"' {
        p_str_body(s, i + 1)
    } else {
        None
    }
}

/// Reading back a stored string yields the original characters.
pub proof fn lemma_string_round_trip(s: Seq<char>, i: int, x: Seq<char>)
    requires
        starts_with(s, i, str_lit(x)),
    ensures
        p_string(s, i) == Some((x, i + str_lit(x).len())),
{
    let w = str_lit(x);
    assert(s[i] == '"') by {
        assert(s.subrange(i, i + w.len())[0] == s[i]);
        assert(w[0] == '"');
    }
    assert forall|k: int| 0 <= k < escape(x).len() implies s.subrange(
        i + 1,
        i + 1 + escape(x).len(),
    )[k] == escape(x)[k] by {
        assert(s.subrange(i, i + w.len())[1 + k] == s[i + 1 + k]);
        assert(w[1 + k] == (escape(x) + seq!['"'])[k]);
    }
    assert(s.subrange(i + 1, i + 1 + escape(x).len()) =~= escape(x));
    assert(s[i + 1 + escape(x).len()] == '"') by {
        assert(s.subrange(i, i + w.len())[1 + escape(x).len() as int] == s[i + 1 + escape(x).len()]);
        assert(w[1 + escape(x).len() as int] == '"');
    }
    lemma_str_body_round_trip(s, i + 1, x);
}

/// The word `null`.
pub open spec fn null_chars() -> Seq<char> {
    seq!['n', 'u', 'l', 'l']
}

/// The stored form of an optional string: `null` or a stored string.
pub open spec fn opt_str_chars(o: Option<Seq<char>>) -> Seq<char> {
    match o {
        None => null_chars(),
        Some(x) => str_lit(x),
    }
}

/// Parses an optional stored string at `i`.
pub open spec fn p_opt_string(s: Seq<char>, i: int) -> Option<(Option<Seq<char>>, int)> {
    if starts_with(s, i, null_chars()) {
        Some((None, i + 4))
    } else {
        match p_string(s, i) {
            Some((x, j)) => Some((Some(x), j)),
            None => None,
        }
    }
}

/// Reading back an optional stored string yields the original value.
pub proof fn lemma_opt_string_round_trip(s: Seq<char>, i: int, o: Option<Seq<char>>)
    requires
        starts_with(s, i, opt_str_chars(o)),
    ensures
        p_opt_string(s, i) == Some((o, i + opt_str_chars(o).len())),
{
    match o {
        None => {
        },
        Some(x) => {
            let w = str_lit(x);
            assert(s[i] == '"') by {
                assert(s.subrange(i, i + w.len())[0] == s[i]);
                assert(w[0] == '"');
            }
            assert(!starts_with(s, i, null_chars())) by {
                if starts_with(s, i, null_chars()) {
                    assert(s.subrange(i, i + 4)[0] == s[i]);
                    assert(null_chars()[0] == 'n');
                }
            }
            lemma_string_round_trip(s, i, x);
        },
    }
}

/// The stored form of a timestamp value: the 20 characters, quoted.
pub open spec fn ts_lit(t: Timestamp) -> Seq<char> {
    seq!['"'] + (timestamp_chars(t) + seq!['"'])
}

/// Parses a quoted timestamp at `i`.
pub open spec fn p_ts_lit(s: Seq<char>, i: int) -> Option<(Timestamp, int)> {
    if 0 <= i < s.len() && s[i] == '"' {
        match p_timestamp(s, i + 1) {
            Some((t, j)) => {
                if j < s.len() && s[j] == '"' {
                    Some((t, j + 1))
                } else {
                    None
                }
            },
            None => None,
        }
    } else {
        None
    }
}

/// Reading back a stored timestamp yields the timestamp again.
pub proof fn lemma_ts_lit_round_trip(s: Seq<char>, i: int, t: Timestamp)
    requires
        t.wf(),
        starts_with(s, i, ts_lit(t)),
    ensures
        p_ts_lit(s, i) == Some((t, i + 22)),
{
    let w = ts_lit(t);
    assert(s[i] == '"') by {
        assert(s.subrange(i, i + w.len())[0] == s[i]);
        assert(w[0] == '"');
    }
    assert forall|k: int| 0 <= k < 20 implies s.subrange(i + 1, i + 21)[k]
        == timestamp_chars(t)[k] by {
        assert(s.subrange(i, i + w.len())[1 + k] == s[i + 1 + k]);
        assert(w[1 + k] == (timestamp_chars(t) + seq!['"'])[k]);
    }
    assert(s.subrange(i + 1, i + 21) =~= timestamp_chars(t));
    lemma_timestamp_round_trip(s, i + 1, t);
    assert(s[i + 21] == '"') by {
        assert(s.subrange(i, i + w.len())[21] == s[i + 21]);
        assert(w[21] == '"');
    }
}

/// The stored form of an optional timestamp.
pub open spec fn opt_ts_chars(o: Option<Timestamp>) -> Seq<char> {
    match o {
        None => null_chars(),
        Some(t) => ts_lit(t),
    }
}

/// Parses an optional stored timestamp at `i`.
pub open spec fn p_opt_ts(s: Seq<char>, i: int) -> Option<(Option<Timestamp>, int)> {
    if starts_with(s, i, null_chars()) {
        Some((None, i + 4))
    } else {
        match p_ts_lit(s, i) {
            Some((t, j)) => Some((Some(t), j)),
            None => None,
        }
    }
}

/// Reading back an optional stored timestamp yields the original value.
pub proof fn lemma_opt_ts_round_trip(s: Seq<char>, i: int, o: Option<Timestamp>)
    requires
        match o {
            Some(t) => t.wf(),
            None => true,
        },
        starts_with(s, i, opt_ts_chars(o)),
    ensures
        p_opt_ts(s, i) == Some((o, i + opt_ts_chars(o).len())),
{
    match o {
        None => {
        },
        Some(t) => {
            let w = ts_lit(t);
            assert(!starts_with(s, i, null_chars())) by {
                if starts_with(s, i, null_chars()) {
                    assert(s.subrange(i, i + 4)[0] == s[i]);
                    assert(s.subrange(i, i + w.len())[0] == s[i]);
                    assert(w[0] == '"');
                }
            }
            lemma_ts_lit_round_trip(s, i, t);
        },
    }
}

/// The stored name of a priority band, quoted.
pub open spec fn prio_lit(p: Priority) -> Seq<char> {
    match p {
        Priority::Low => seq!['"', 'L', 'o', 'w', '"'],
        Priority::Medium => seq!['"', 'M', 'e', 'd', 'i', 'u', 'm', '"'],
        Priority::High => seq!['"', 'H', 'i', 'g', 'h', '"'],
        Priority::Urgent => seq!['"', 'U', 'r', 'g', 'e', 'n', 't', '"'],
    }
}

/// Parses a stored priority name at `i`.
pub open spec fn p_prio(s: Seq<char>, i: int) -> Option<(Priority, int)> {
    if starts_with(s, i, prio_lit(Priority::Low)) {
        Some((Priority::Low, i + 5))
    } else if starts_with(s, i, prio_lit(Priority::Medium)) {
        Some((Priority::Medium, i + 8))
    } else if starts_with(s, i, prio_lit(Priority::High)) {
        Some((Priority::High, i + 6))
    } else if starts_with(s, i, prio_lit(Priority::Urgent)) {
        Some((Priority::Urgent, i + 8))
    } else {
        None
    }
}

/// Reading back a stored priority name yields the band again.
pub proof fn lemma_prio_round_trip(s: Seq<char>, i: int, p: Priority)
    requires
        starts_with(s, i, prio_lit(p)),
    ensures
        p_prio(s, i) == Some((p, i + prio_lit(p).len())),
{
    assert(s.subrange(i, i + prio_lit(p).len())[1] == s[i + 1]);
    if starts_with(s, i, prio_lit(Priority::Low)) {
        assert(s.subrange(i, i + 5)[1] == s[i + 1]);
    }
    if starts_with(s, i, prio_lit(Priority::Medium)) {
        assert(s.subrange(i, i + 8)[1] == s[i + 1]);
    }
    if starts_with(s, i, prio_lit(Priority::High)) {
        assert(s.subrange(i, i + 6)[1] == s[i + 1]);
    }
    if starts_with(s, i, prio_lit(Priority::Urgent)) {
        assert(s.subrange(i, i + 8)[1] == s[i + 1]);
    }
}

/// The stored name of a status, quoted.
pub open spec fn status_lit(st: Status) -> Seq<char> {
    match st {
        Status::Pending => seq!['"', 'P', 'e', 'n', 'd', 'i', 'n', 'g', '"'],
        Status::InProgress => seq!['"', 'I', 'n', 'P', 'r', 'o', 'g', 'r', 'e', 's', 's', '"'],
        Status::Completed => seq!['"', 'C', 'o', 'm', 'p', 'l', 'e', 't', 'e', 'd', '"'],
        Status::Cancelled => seq!['"', 'C', 'a', 'n', 'c', 'e', 'l', 'l', 'e', 'd', '"'],
    }
}

/// Parses a stored status name at `i`.
pub open spec fn p_status(s: Seq<char>, i: int) -> Option<(Status, int)> {
    if starts_with(s, i, status_lit(Status::Pending)) {
        Some((Status::Pending, i + 9))
    } else if starts_with(s, i, status_lit(Status::InProgress)) {
        Some((Status::InProgress, i + 12))
    } else if starts_with(s, i, status_lit(Status::Completed)) {
        Some((Status::Completed, i + 11))
    } else if starts_with(s, i, status_lit(Status::Cancelled)) {
        Some((Status::Cancelled, i + 11))
    } else {
        None
    }
}

/// Reading back a stored status name yields the status again.
pub proof fn lemma_status_round_trip(s: Seq<char>, i: int, st: Status)
    requires
        starts_with(s, i, status_lit(st)),
    ensures
        p_status(s, i) == Some((st, i + status_lit(st).len())),
{
    assert(s.subrange(i, i + status_lit(st).len())[1] == s[i + 1]);
    assert(s.subrange(i, i + status_lit(st).len())[2] == s[i + 2]);
    if starts_with(s, i, status_lit(Status::Pending)) {
        assert(s.subrange(i, i + 9)[1] == s[i + 1]);
    }
    if starts_with(s, i, status_lit(Status::InProgress)) {
        assert(s.subrange(i, i + 12)[1] == s[i + 1]);
    }
    if starts_with(s, i, status_lit(Status::Completed)) {
        assert(s.subrange(i, i + 11)[1] == s[i + 1]);
        assert(s.subrange(i, i + 11)[2] == s[i + 2]);
    }
    if starts_with(s, i, status_lit(Status::Cancelled)) {
        assert(s.subrange(i, i + 11)[1] == s[i + 1]);
        assert(s.subrange(i, i + 11)[2] == s[i + 2]);
    }
}

// ---------------------------------------------------------------------------
// Tag arrays
// ---------------------------------------------------------------------------

/// The stored items of a tag array, comma-separated.
pub open spec fn tags_items(t: Seq<Seq<char>>) -> Seq<char>
    decreases t.len(),
{
    if t.len() == 0 {
        Seq::<char>::empty()
    } else if t.len() == 1 {
        str_lit(t[0])
    } else {
        str_lit(t[0]) + (seq![','] + tags_items(t.drop_first()))
    }
}

/// The stored form of a tag array.
pub open spec fn tags_chars(t: Seq<Seq<char>>) -> Seq<char> {
    seq!['['] + (tags_items(t) + seq![']'])
}

/// Parses one or more comma-separated stored strings, up to and including
/// the closing bracket.
#[verifier::opaque]
pub open spec fn p_tags_items(s: Seq<char>, i: int) -> Option<(Seq<Seq<char>>, int)>
    decreases s.len() - i,
{
    match p_string(s, i) {
        None => None,
        Some((x, j)) => {
            if j < s.len() && s[j] == ',' && i < j {
                match p_tags_items(s, j + 1) {
                    Some((xs, k)) => Some((seq![x] + xs, k)),
                    None => None,
                }
            } else if j < s.len() && s[j] == ']' {
                Some((seq![x], j + 1))
            } else {
                None
            }
        },
    }
}

/// Parses a stored tag array at `i`.
pub open spec fn p_tags(s: Seq<char>, i: int) -> Option<(Seq<Seq<char>>, int)> {
    if 0 <= i && i + 2 <= s.len() && s[i] == '[' {
        if s[i + 1] == ']' {
            Some((Seq::<Seq<char>>::empty(), i + 2))
        } else {
            p_tags_items(s, i + 1)
        }
    } else {
        None
    }
}

/// Reading back stored tag items followed by the closing bracket yields
/// the original tags.
pub proof fn lemma_tags_items_round_trip(s: Seq<char>, i: int, t: Seq<Seq<char>>)
    requires
        t.len() >= 1,
        starts_with(s, i, tags_items(t) + seq![']']),
    ensures
        p_tags_items(s, i) == Some((t, i + tags_items(t).len() + 1)),
    decreases t.len(),
{
    reveal(p_tags_items);
    let w = tags_items(t) + seq![']'];
    if t.len() == 1 {
        lemma_concat_split(s, i, str_lit(t[0]), seq![']']);
        lemma_string_round_trip(s, i, t[0]);
        let j = i + str_lit(t[0]).len() as int;
        assert(s[j] == ']') by {
            assert(s.subrange(j, j + 1)[0] == s[j]);
        }
        assert(seq![t[0]] =~= t);
    } else {
        let t0 = t[0];
        let rest = t.drop_first();
        let sl = str_lit(t0).len() as int;
        assert(w =~= str_lit(t0) + (seq![','] + (tags_items(rest) + seq![']'])));
        lemma_concat_split(s, i, str_lit(t0), seq![','] + (tags_items(rest) + seq![']']));
        lemma_string_round_trip(s, i, t0);
        lemma_concat_split(s, i + sl, seq![','], tags_items(rest) + seq![']']);
        assert(s[i + sl] == ',') by {
            assert(s.subrange(i + sl, i + sl + 1)[0] == s[i + sl]);
        }
        lemma_tags_items_round_trip(s, i + sl + 1, rest);
        assert(seq![t0] + rest =~= t);
    }
}

/// Reading back a stored tag array yields the original tags.
pub proof fn lemma_tags_round_trip(s: Seq<char>, i: int, t: Seq<Seq<char>>)
    requires
        starts_with(s, i, tags_chars(t)),
    ensures
        p_tags(s, i) == Some((t, i + tags_chars(t).len())),
{
    let w = tags_chars(t);
    assert(s[i] == '[') by {
        assert(s.subrange(i, i + w.len())[0] == s[i]);
    }
    if t.len() == 0 {
        assert(s[i + 1] == ']') by {
            assert(s.subrange(i, i + w.len())[1] == s[i + 1]);
        }
    } else {
        lemma_concat_split(s, i, seq!['['], tags_items(t) + seq![']']);
        assert(s[i + 1] == '"') by {
            assert(s.subrange(i + 1, i + w.len())[0] == s[i + 1]);
            assert((tags_items(t) + seq![']'])[0] == tags_items(t)[0]);
            assert(tags_items(t)[0] == str_lit(t[0])[0]);
        }
        lemma_tags_items_round_trip(s, i + 1, t);
    }
}

// ---------------------------------------------------------------------------
// Task objects
// ---------------------------------------------------------------------------

/// Key of the identifier field, with the object's opening brace.
pub open spec fn key_id() -> Seq<char> {
    seq!['{', '"', 'i', 'd', '"', ':']
}

/// Key of the title field.
pub open spec fn key_title() -> Seq<char> {
    seq![',', '"', 't', 'i', 't', 'l', 'e', '"', ':']
}

/// Key of the description field.
pub open spec fn key_description() -> Seq<char> {
    seq![',', '"', 'd', 'e', 's', 'c', 'r', 'i', 'p', 't', 'i', 'o', 'n', '"', ':']
}

/// Key of the priority field.
pub open spec fn key_priority() -> Seq<char> {
    seq![',', '"', 'p', 'r', 'i', 'o', 'r', 'i', 't', 'y', '"', ':']
}

/// Key of the status field.
pub open spec fn key_status() -> Seq<char> {
    seq![',', '"', 's', 't', 'a', 't', 'u', 's', '"', ':']
}

/// Key of the tags field.
pub open spec fn key_tags() -> Seq<char> {
    seq![',', '"', 't', 'a', 'g', 's', '"', ':']
}

/// Key of the creation timestamp field.
pub open spec fn key_created() -> Seq<char> {
    seq![',', '"', 'c', 'r', 'e', 'a', 't', 'e', 'd', '_', 'a', 't', '"', ':']
}

/// Key of the update timestamp field.
pub open spec fn key_updated() -> Seq<char> {
    seq![',', '"', 'u', 'p', 'd', 'a', 't', 'e', 'd', '_', 'a', 't', '"', ':']
}

/// Key of the completion timestamp field.
pub open spec fn key_completed() -> Seq<char> {
    seq![',', '"', 'c', 'o', 'm', 'p', 'l', 'e', 't', 'e', 'd', '_', 'a', 't', '"', ':']
}

/// Key of the due date field.
pub open spec fn key_due() -> Seq<char> {
    seq![',', '"', 'd', 'u', 'e', '_', 'd', 'a', 't', 'e', '"', ':']
}

/// The stored form of a task object from its completion field on.
#[verifier::opaque]
pub open spec fn task_chars_completed(t: TaskView) -> Seq<char> {
    key_completed() + (opt_ts_chars(t.completed_at) + (key_due() + (opt_ts_chars(t.due_date)
        + seq!['}'])))
}

/// The stored form of a task object from its tags field on.
#[verifier::opaque]
pub open spec fn task_chars_tags(t: TaskView) -> Seq<char> {
    key_tags() + (tags_chars(t.tags) + (key_created() + (ts_lit(t.created_at) + (key_updated() + (
    ts_lit(t.updated_at) + task_chars_completed(t))))))
}

/// The stored form of a task object from its description field on.
#[verifier::opaque]
pub open spec fn task_chars_description(t: TaskView) -> Seq<char> {
    key_description() + (opt_str_chars(t.description) + (key_priority() + (prio_lit(t.priority) + (
    key_status() + (status_lit(t.status) + task_chars_tags(t))))))
}

/// The stored form of one task: a JSON object with every field in a fixed
/// order.
#[verifier::opaque]
pub open spec fn task_chars(t: TaskView) -> Seq<char> {
    key_id() + (dec_digits(t.id as nat) + (key_title() + (str_lit(t.title)
        + task_chars_description(t))))
}

/// Parses a stored task object at `i`: the identifier field first.
#[verifier::opaque]
pub open spec fn p_task(s: Seq<char>, i: int) -> Option<(TaskView, int)> {
    if !starts_with(s, i, key_id()) {
        None
    } else {
        match p_u64(s, i + 6) {
            None => None,
            Some((id, j)) => p_task_title(s, j, id),
        }
    }
}

/// Continues a stored task object at its title field.
#[verifier::opaque]
pub open spec fn p_task_title(s: Seq<char>, i: int, id: u64) -> Option<(TaskView, int)> {
    if !starts_with(s, i, key_title()) {
        None
    } else {
        match p_string(s, i + 9) {
            None => None,
            Some((title, j)) => p_task_description(s, j, id, title),
        }
    }
}

/// Continues a stored task object at its description field.
#[verifier::opaque]
pub open spec fn p_task_description(s: Seq<char>, i: int, id: u64, title: Seq<char>) -> Option<
    (TaskView, int),
> {
    if !starts_with(s, i, key_description()) {
        None
    } else {
        match p_opt_string(s, i + 15) {
            None => None,
            Some((description, j)) => p_task_priority(s, j, id, title, description),
        }
    }
}

/// Continues a stored task object at its priority field.
#[verifier::opaque]
pub open spec fn p_task_priority(
    s: Seq<char>,
    i: int,
    id: u64,
    title: Seq<char>,
    description: Option<Seq<char>>,
) -> Option<(TaskView, int)> {
    if !starts_with(s, i, key_priority()) {
        None
    } else {
        match p_prio(s, i + 12) {
            None => None,
            Some((priority, j)) => p_task_status(s, j, id, title, description, priority),
        }
    }
}

/// Continues a stored task object at its status field.
#[verifier::opaque]
pub open spec fn p_task_status(
    s: Seq<char>,
    i: int,
    id: u64,
    title: Seq<char>,
    description: Option<Seq<char>>,
    priority: Priority,
) -> Option<(TaskView, int)> {
    if !starts_with(s, i, key_status()) {
        None
    } else {
        match p_status(s, i + 10) {
            None => None,
            Some((status, j)) => p_task_tags(s, j, id, title, description, priority, status),
        }
    }
}

/// Continues a stored task object at its tags field.
#[verifier::opaque]
pub open spec fn p_task_tags(
    s: Seq<char>,
    i: int,
    id: u64,
    title: Seq<char>,
    description: Option<Seq<char>>,
    priority: Priority,
    status: Status,
) -> Option<(TaskView, int)> {
    if !starts_with(s, i, key_tags()) {
        None
    } else {
        match p_tags(s, i + 8) {
            None => None,
            Some((tags, j)) => p_task_created(s, j, id, title, description, priority, status, tags),
        }
    }
}

/// Continues a stored task object at its creation timestamp field.
#[verifier::opaque]
pub open spec fn p_task_created(
    s: Seq<char>,
    i: int,
    id: u64,
    title: Seq<char>,
    description: Option<Seq<char>>,
    priority: Priority,
    status: Status,
    tags: Seq<Seq<char>>,
) -> Option<(TaskView, int)> {
    if !starts_with(s, i, key_created()) {
        None
    } else {
        match p_ts_lit(s, i + 14) {
            None => None,
            Some((created_at, j)) => p_task_updated(
                s,
                j,
                id,
                title,
                description,
                priority,
                status,
                tags,
                created_at,
            ),
        }
    }
}

/// Continues a stored task object at its update timestamp field.
#[verifier::opaque]
pub open spec fn p_task_updated(
    s: Seq<char>,
    i: int,
    id: u64,
    title: Seq<char>,
    description: Option<Seq<char>>,
    priority: Priority,
    status: Status,
    tags: Seq<Seq<char>>,
    created_at: Timestamp,
) -> Option<(TaskView, int)> {
    if !starts_with(s, i, key_updated()) {
        None
    } else {
        match p_ts_lit(s, i + 14) {
            None => None,
            Some((updated_at, j)) => p_task_completed(
                s,
                j,
                TaskView {
                    id,
                    title,
                    description,
                    priority,
                    status,
                    tags,
                    created_at,
                    updated_at,
                    completed_at: None,
                    due_date: None,
                },
            ),
        }
    }
}

/// Continues a stored task object at its completion timestamp field; the
/// accumulated fields travel in `acc`.
#[verifier::opaque]
pub open spec fn p_task_completed(s: Seq<char>, i: int, acc: TaskView) -> Option<(TaskView, int)> {
    if !starts_with(s, i, key_completed()) {
        None
    } else {
        match p_opt_ts(s, i + 16) {
            None => None,
            Some((completed_at, j)) => p_task_due(
                s,
                j,
                TaskView { completed_at, ..acc },
            ),
        }
    }
}

/// Finishes a stored task object: the due date field and the closing
/// brace.
#[verifier::opaque]
pub open spec fn p_task_due(s: Seq<char>, i: int, acc: TaskView) -> Option<(TaskView, int)> {
    if !starts_with(s, i, key_due()) {
        None
    } else {
        match p_opt_ts(s, i + 12) {
            None => None,
            Some((due_date, j)) => {
                if j < s.len() && s[j] == '}' {
                    Some((TaskView { due_date, ..acc }, j + 1))
                } else {
                    None
                }
            },
        }
    }
}

/// Timestamps of the task are all well-formed.
pub open spec fn stamps_wf(t: TaskView) -> bool {
    &&& t.created_at.wf()
    &&& t.updated_at.wf()
    &&& match t.completed_at {
        Some(u) => u.wf(),
        None => true,
    }
    &&& match t.due_date {
        Some(u) => u.wf(),
        None => true,
    }
}

/// Reading back a stored task object yields the task again.
#[verifier::rlimit(100)]
pub proof fn lemma_task_round_trip(s: Seq<char>, i: int, t: TaskView)
    requires
        stamps_wf(t),
        starts_with(s, i, task_chars(t)),
    ensures
        p_task(s, i) == Some((t, i + task_chars(t).len())),
{
    reveal(task_chars);
    reveal(p_task);
    reveal(p_task_title);
    lemma_dec_digits_are_digits(t.id as nat);
    let tail = task_chars_description(t);
    let r4 = str_lit(t.title) + tail;
    let r3 = key_title() + r4;
    let r2 = dec_digits(t.id as nat) + r3;
    lemma_concat_split(s, i, key_id(), r2);
    let i1 = i + 6;
    lemma_concat_split(s, i1, dec_digits(t.id as nat), r3);
    let j1 = i1 + dec_digits(t.id as nat).len() as int;
    assert(s[j1] == ',') by {
        assert(s.subrange(j1, j1 + r3.len())[0] == s[j1]);
        assert(r3[0] == ',');
    }
    lemma_p_u64_round_trip(s, i1, t.id);
    lemma_concat_split(s, j1, key_title(), r4);
    let i2 = j1 + 9;
    lemma_concat_split(s, i2, str_lit(t.title), tail);
    lemma_string_round_trip(s, i2, t.title);
    let j2 = i2 + str_lit(t.title).len() as int;
    lemma_task_mid_round_trip(s, j2, t);
    assert(i + task_chars(t).len() == j2 + tail.len());
}

/// Reading back the middle of a stored task object: description, priority
/// and status.
#[verifier::rlimit(100)]
proof fn lemma_task_mid_round_trip(s: Seq<char>, i: int, t: TaskView)
    requires
        stamps_wf(t),
        starts_with(s, i, task_chars_description(t)),
    ensures
        p_task_description(s, i, t.id, t.title) == Some(
            (t, i + task_chars_description(t).len()),
        ),
{
    reveal(task_chars_description);
    reveal(p_task_description);
    reveal(p_task_priority);
    reveal(p_task_status);
    let tail = task_chars_tags(t);
    let r10 = status_lit(t.status) + tail;
    let r9 = key_status() + r10;
    let r8 = prio_lit(t.priority) + r9;
    let r7 = key_priority() + r8;
    let r6 = opt_str_chars(t.description) + r7;
    lemma_concat_split(s, i, key_description(), r6);
    let i3 = i + 15;
    lemma_concat_split(s, i3, opt_str_chars(t.description), r7);
    lemma_opt_string_round_trip(s, i3, t.description);
    let j3 = i3 + opt_str_chars(t.description).len() as int;
    lemma_concat_split(s, j3, key_priority(), r8);
    let i4 = j3 + 12;
    lemma_concat_split(s, i4, prio_lit(t.priority), r9);
    lemma_prio_round_trip(s, i4, t.priority);
    let j4 = i4 + prio_lit(t.priority).len() as int;
    lemma_concat_split(s, j4, key_status(), r10);
    let i5 = j4 + 10;
    lemma_concat_split(s, i5, status_lit(t.status), tail);
    lemma_status_round_trip(s, i5, t.status);
    let j5 = i5 + status_lit(t.status).len() as int;
    lemma_task_tail_round_trip(s, j5, t);
}

/// Reading back the tail of a stored task object: tags and the two
/// mandatory timestamps.
#[verifier::rlimit(100)]
proof fn lemma_task_tail_round_trip(s: Seq<char>, i: int, t: TaskView)
    requires
        stamps_wf(t),
        starts_with(s, i, task_chars_tags(t)),
    ensures
        p_task_tags(s, i, t.id, t.title, t.description, t.priority, t.status) == Some(
            (t, i + task_chars_tags(t).len()),
        ),
{
    reveal(task_chars_tags);
    reveal(p_task_tags);
    reveal(p_task_created);
    reveal(p_task_updated);
    let tail = task_chars_completed(t);
    let r16 = ts_lit(t.updated_at) + tail;
    let r15 = key_updated() + r16;
    let r14 = ts_lit(t.created_at) + r15;
    let r13 = key_created() + r14;
    let r12 = tags_chars(t.tags) + r13;
    lemma_concat_split(s, i, key_tags(), r12);
    let i6 = i + 8;
    lemma_concat_split(s, i6, tags_chars(t.tags), r13);
    lemma_tags_round_trip(s, i6, t.tags);
    let j6 = i6 + tags_chars(t.tags).len() as int;
    lemma_concat_split(s, j6, key_created(), r14);
    let i7 = j6 + 14;
    lemma_concat_split(s, i7, ts_lit(t.created_at), r15);
    lemma_ts_lit_round_trip(s, i7, t.created_at);
    let j7 = i7 + 22;
    lemma_concat_split(s, j7, key_updated(), r16);
    let i8 = j7 + 14;
    lemma_concat_split(s, i8, ts_lit(t.updated_at), tail);
    lemma_ts_lit_round_trip(s, i8, t.updated_at);
    let j8 = i8 + 22;
    lemma_task_close_round_trip(s, j8, t);
}

/// Reading back the close of a stored task object: the two optional
/// timestamps and the closing brace.
proof fn lemma_task_close_round_trip(s: Seq<char>, i: int, t: TaskView)
    requires
        stamps_wf(t),
        starts_with(s, i, task_chars_completed(t)),
    ensures
        p_task_completed(s, i, TaskView { completed_at: None, due_date: None, ..t }) == Some(
            (t, i + task_chars_completed(t).len()),
        ),
{
    reveal(task_chars_completed);
    reveal(p_task_completed);
    reveal(p_task_due);
    let r21 = seq!['}'];
    let r20 = opt_ts_chars(t.due_date) + r21;
    let r19 = key_due() + r20;
    let r18 = opt_ts_chars(t.completed_at) + r19;
    lemma_concat_split(s, i, key_completed(), r18);
    let i9 = i + 16;
    lemma_concat_split(s, i9, opt_ts_chars(t.completed_at), r19);
    lemma_opt_ts_round_trip(s, i9, t.completed_at);
    let j9 = i9 + opt_ts_chars(t.completed_at).len() as int;
    lemma_concat_split(s, j9, key_due(), r20);
    let i10 = j9 + 12;
    lemma_concat_split(s, i10, opt_ts_chars(t.due_date), r21);
    lemma_opt_ts_round_trip(s, i10, t.due_date);
    let j10 = i10 + opt_ts_chars(t.due_date).len() as int;
    assert(s[j10] == '}') by {
        assert(s.subrange(j10, j10 + 1)[0] == s[j10]);
    }
    let acc = TaskView { completed_at: None, due_date: None, ..t };
    assert(TaskView { due_date: t.due_date, ..(TaskView { completed_at: t.completed_at, ..acc }) }
        =~= t);
}

// ---------------------------------------------------------------------------
// The whole document
// ---------------------------------------------------------------------------

/// The stored form of one map entry: the decimal identifier as key, then
/// the task object.
#[verifier::opaque]
pub open spec fn entry_chars(t: TaskView) -> Seq<char> {
    seq!['"'] + (dec_digits(t.id as nat) + (seq!['"', ':'] + task_chars(t)))
}

/// The stored entries of a non-empty store, comma-separated, in identifier
/// order.
#[verifier::opaque]
pub open spec fn entries_chars(ts: Seq<TaskView>) -> Seq<char>
    decreases ts.len(),
{
    if ts.len() == 0 {
        Seq::<char>::empty()
    } else if ts.len() == 1 {
        entry_chars(ts[0])
    } else {
        entry_chars(ts[0]) + (seq![','] + entries_chars(ts.drop_first()))
    }
}

/// The stored form of the whole store: one JSON object mapping decimal
/// identifier keys to task objects.
#[verifier::opaque]
pub open spec fn store_chars(ts: Seq<TaskView>) -> Seq<char> {
    if ts.len() == 0 {
        seq!['{', '}']
    } else {
        seq!['{'] + (entries_chars(ts) + seq!['}'])
    }
}

/// Parses one or more stored entries at `i`, up to and including the
/// closing brace. Keys must match the task identifiers, and identifiers
/// must strictly increase (`lo` is the bound from the previous entry).
#[verifier::opaque]
pub open spec fn p_entries(s: Seq<char>, i: int, lo: Option<u64>) -> Option<(Seq<TaskView>, int)>
    decreases s.len() - i,
{
    if !(0 <= i && i < s.len() && s[i] == '"') {
        None
    } else {
        match p_u64(s, i + 1) {
            None => None,
            Some((key, j0)) => {
                if !starts_with(s, j0, seq!['"', ':']) {
                    None
                } else {
                    match p_task(s, j0 + 2) {
                        None => None,
                        Some((t, j)) => {
                            if t.id != key || !(match lo {
                                None => true,
                                Some(b) => t.id > b,
                            }) {
                                None
                            } else if j < s.len() && s[j] == ',' && i < j {
                                match p_entries(s, j + 1, Some(t.id)) {
                                    Some((ts, k)) => Some((seq![t] + ts, k)),
                                    None => None,
                                }
                            } else if j < s.len() && s[j] == '}' {
                                Some((seq![t], j + 1))
                            } else {
                                None
                            }
                        },
                    }
                }
            },
        }
    }
}

/// Parses a whole stored document: braces around the entries, nothing
/// after the closing brace.
pub open spec fn parse_store_spec(s: Seq<char>) -> Option<Seq<TaskView>> {
    if s.len() == 2 && s[0] == '{' && s[1] == '}' {
        Some(Seq::<TaskView>::empty())
    } else if s.len() >= 1 && s[0] == '{' {
        match p_entries(s, 1, None) {
            Some((ts, j)) => {
                if j == s.len() {
                    Some(ts)
                } else {
                    None
                }
            },
            None => None,
        }
    } else {
        None
    }
}

/// Whatever the input, parsed entries have strictly increasing
/// identifiers, all above the bound.
pub proof fn lemma_p_entries_ids(s: Seq<char>, i: int, lo: Option<u64>)
    requires
        p_entries(s, i, lo) is Some,
    ensures
        ids_strictly_increasing(p_entries(s, i, lo)->Some_0.0),
        p_entries(s, i, lo)->Some_0.0.len() >= 1,
        match lo {
            Some(b) => forall|k: int|
                0 <= k < p_entries(s, i, lo)->Some_0.0.len() ==> #[trigger] p_entries(
                    s,
                    i,
                    lo,
                )->Some_0.0[k].id > b,
            None => true,
        },
    decreases s.len() - i,
{
    reveal(p_entries);
    let (key, j0) = p_u64(s, i + 1)->Some_0;
    let (t, j) = p_task(s, j0 + 2)->Some_0;
    if j < s.len() && s[j] == ',' && i < j {
        lemma_p_entries_ids(s, j + 1, Some(t.id));
        let ts = p_entries(s, j + 1, Some(t.id))->Some_0.0;
        let whole = seq![t] + ts;
        assert forall|p: int, q: int| 0 <= p < q < whole.len() implies whole[p].id
            < whole[q].id by {
            if p == 0 {
                assert(whole[q] == ts[q - 1]);
            } else {
                assert(whole[p] == ts[p - 1] && whole[q] == ts[q - 1]);
            }
        }
    }
}

/// Reading back one stored entry standing at `i` with `after` behind it:
/// every piece parses and lands where the emitted lengths say.
proof fn lemma_entry_parts(s: Seq<char>, i: int, t: TaskView, after: Seq<char>)
    requires
        stamps_wf(t),
        starts_with(s, i, entry_chars(t) + after),
    ensures
        0 <= i && i < s.len() && s[i] == '"',
        p_u64(s, i + 1) == Some(
            (t.id, i + 1 + dec_digits(t.id as nat).len() as int),
        ),
        starts_with(s, i + 1 + dec_digits(t.id as nat).len() as int, seq!['"', ':']),
        p_task(s, i + 3 + dec_digits(t.id as nat).len() as int) == Some(
            (t, i + entry_chars(t).len() as int),
        ),
        starts_with(s, i + entry_chars(t).len() as int, after),
{
    reveal(entry_chars);
    lemma_dec_digits_are_digits(t.id as nat);
    let dl = dec_digits(t.id as nat).len() as int;
    let tc = task_chars(t);
    let r3 = seq!['"', ':'] + (tc + after);
    let r2 = dec_digits(t.id as nat) + r3;
    assert(entry_chars(t) + after =~= seq!['"'] + r2);
    lemma_concat_split(s, i, seq!['"'], r2);
    assert(s[i] == '"') by {
        assert(s.subrange(i, i + 1)[0] == s[i]);
    }
    lemma_concat_split(s, i + 1, dec_digits(t.id as nat), r3);
    let j0 = i + 1 + dl;
    assert(s[j0] == '"') by {
        assert(s.subrange(j0, j0 + r3.len())[0] == s[j0]);
    }
    lemma_p_u64_round_trip(s, i + 1, t.id);
    lemma_concat_split(s, j0, seq!['"', ':'], tc + after);
    lemma_concat_split(s, j0 + 2, tc, after);
    lemma_task_round_trip(s, j0 + 2, t);
}

/// Reading back stored entries followed by the closing brace yields the
/// original tasks.
pub proof fn lemma_entries_round_trip(s: Seq<char>, i: int, ts: Seq<TaskView>, lo: Option<u64>)
    requires
        ts.len() >= 1,
        ids_strictly_increasing(ts),
        forall|k: int| 0 <= k < ts.len() ==> stamps_wf(#[trigger] ts[k]),
        match lo {
            Some(b) => ts[0].id > b,
            None => true,
        },
        starts_with(s, i, entries_chars(ts) + seq!['}']),
    ensures
        p_entries(s, i, lo) == Some((ts, i + entries_chars(ts).len() + 1)),
    decreases ts.len(),
{
    reveal(p_entries);
    reveal(entries_chars);
    let t0 = ts[0];
    let el = entry_chars(t0).len() as int;
    if ts.len() == 1 {
        lemma_entry_parts(s, i, t0, seq!['}']);
        let j = i + el;
        assert(s[j] == '}') by {
            assert(s.subrange(j, j + 1)[0] == s[j]);
        }
        assert(seq![t0] =~= ts);
    } else {
        let rest = ts.drop_first();
        let after = seq![','] + (entries_chars(rest) + seq!['}']);
        assert(entries_chars(ts) + seq!['}'] =~= entry_chars(t0) + after);
        lemma_entry_parts(s, i, t0, after);
        let j = i + el;
        lemma_concat_split(s, j, seq![','], entries_chars(rest) + seq!['}']);
        assert(s[j] == ',') by {
            assert(s.subrange(j, j + 1)[0] == s[j]);
        }
        assert forall|k: int| 0 <= k < rest.len() implies stamps_wf(#[trigger] rest[k]) by {
            assert(rest[k] == ts[k + 1]);
        }
        assert forall|p: int, q: int| 0 <= p < q < rest.len() implies rest[p].id < rest[q].id by {
            assert(rest[p] == ts[p + 1] && rest[q] == ts[q + 1]);
        }
        assert(rest[0] == ts[1] && ts[0].id < ts[1].id);
        lemma_entries_round_trip(s, j + 1, rest, Some(t0.id));
        assert(seq![t0] + rest =~= ts);
    }
}

/// Stored documents are faithful: reading back the stored form of any
/// collection with strictly increasing identifiers and well-formed
/// timestamps yields exactly that collection.
pub proof fn lemma_store_round_trip(ts: Seq<TaskView>)
    requires
        ids_strictly_increasing(ts),
        forall|k: int| 0 <= k < ts.len() ==> stamps_wf(#[trigger] ts[k]),
    ensures
        parse_store_spec(store_chars(ts)) == Some(ts),
{
    reveal(store_chars);
    reveal(entries_chars);
    reveal(entry_chars);
    let s = store_chars(ts);
    if ts.len() == 0 {
    } else {
        assert(s =~= seq!['{'] + (entries_chars(ts) + seq!['}']));
        assert(s.subrange(0, 1 + (entries_chars(ts) + seq!['}']).len() as int) =~= s);
        lemma_concat_split(s, 0, seq!['{'], entries_chars(ts) + seq!['}']);
        assert(s[0] == '{') by {
            assert(s.subrange(0, 1)[0] == s[0]);
        }
        lemma_entries_round_trip(s, 1, ts, None);
        lemma_dec_digits_are_digits(ts[0].id as nat);
        assert(entries_chars(ts).len() >= 1) by {
            if ts.len() == 1 {
                assert(entries_chars(ts) == entry_chars(ts[0]));
            }
        }
        assert(s[1] == '"') by {
            assert(s.subrange(1, 1 + entries_chars(ts).len() as int + 1)[0] == s[1]);
            assert((entries_chars(ts) + seq!['}'])[0] == entries_chars(ts)[0]);
            if ts.len() == 1 {
                assert(entries_chars(ts)[0] == entry_chars(ts[0])[0]);
            } else {
                assert(entries_chars(ts)[0] == entry_chars(ts[0])[0]);
            }
        }
        assert(!(s.len() == 2 && s[0] == '{' && s[1] == '}'));
    }
}

// ---------------------------------------------------------------------------
// The emitter
// ---------------------------------------------------------------------------

/// Appends the characters of a literal to the output.
fn push_lit(out: &mut Vec<char>, lit: &str)
    ensures
        final(out)@ == old(out)@ + lit@,
{
    let cs = chars_vec(lit);
    let n = cs.len();
    let mut i: usize = 0;
    while i < n
        invariant
            n == cs.len(),
            cs@ == lit@,
            0 <= i <= n,
            out@ == old(out)@ + lit@.take(i as int),
        decreases n - i,
    {
        out.push(cs[i]);
        proof {
            assert(old(out)@ + lit@.take(i + 1) =~= (old(out)@ + lit@.take(i as int)).push(
                lit@[i as int],
            ));
        }
        i = i + 1;
    }
    proof {
        assert(lit@.take(n as int) =~= lit@);
    }
}

/// Hexadecimal digit of `d < 16`, as executable code.
fn hex_char_exec(d: u32) -> (c: char)
    requires
        d < 16,
    ensures
        c == hex_char(d as nat),
{
    if d == 0 {
        '0'
    } else if d == 1 {
        '1'
    } else if d == 2 {
        '2'
    } else if d == 3 {
        '3'
    } else if d == 4 {
        '4'
    } else if d == 5 {
        '5'
    } else if d == 6 {
        '6'
    } else if d == 7 {
        '7'
    } else if d == 8 {
        '8'
    } else if d == 9 {
        '9'
    } else if d == 10 {
        'a'
    } else if d == 11 {
        'b'
    } else if d == 12 {
        'c'
    } else if d == 13 {
        'd'
    } else if d == 14 {
        'e'
    } else {
        'f'
    }
}

/// Appends the escape of one character to the output.
fn push_escaped(out: &mut Vec<char>, c: char)
    ensures
        final(out)@ == old(out)@ + esc_char(c),
{
    let ghost pre = out@;
    if c == '"' {
        out.push('\\');
        out.push('"');
        proof {
            assert(out@ =~= pre + esc_char(c));
        }
    } else if c == '\\' {
        out.push('\\');
        out.push('\\');
        proof {
            assert(out@ =~= pre + esc_char(c));
        }
    } else if c == '\n' {
        out.push('\\');
        out.push('n');
        proof {
            assert(out@ =~= pre + esc_char(c));
        }
    } else if c == '\r' {
        out.push('\\');
        out.push('r');
        proof {
            assert(out@ =~= pre + esc_char(c));
        }
    } else if c == '\t' {
        out.push('\\');
        out.push('t');
        proof {
            assert(out@ =~= pre + esc_char(c));
        }
    } else {
        let v = c as u32;
        proof {
            vstd::utf8::char_is_scalar(c);
            assert(v as nat == c as nat);
        }
        if v < 32 {
            out.push('\\');
            out.push('u');
            out.push('0');
            out.push('0');
            out.push(hex_char_exec(v / 16));
            out.push(hex_char_exec(v % 16));
            proof {
                assert((v / 16) as nat == (c as nat) / 16 && (v % 16) as nat == (c as nat) % 16);
                assert(out@ =~= pre + esc_char(c));
            }
        } else {
            out.push(c);
            proof {
                assert(out@ =~= pre + esc_char(c));
            }
        }
    }
}

/// Appends a quoted, escaped string to the output.
fn push_str_lit(out: &mut Vec<char>, s: &str)
    ensures
        final(out)@ == old(out)@ + str_lit(s@),
{
    let ghost pre = out@;
    out.push('"');
    let cs = chars_vec(s);
    let n = cs.len();
    let mut i: usize = 0;
    while i < n
        invariant
            n == cs.len(),
            cs@ == s@,
            0 <= i <= n,
            out@ == pre + seq!['"'] + escape(s@.take(i as int)),
        decreases n - i,
    {
        push_escaped(out, cs[i]);
        proof {
            assert(s@.take(i + 1).drop_last() =~= s@.take(i as int));
            assert(s@.take(i + 1).last() == s@[i as int]);
            assert(escape(s@.take(i + 1)) == escape(s@.take(i as int)) + esc_char(s@[i as int]));
            assert(pre + seq!['"'] + escape(s@.take(i + 1)) =~= (pre + seq!['"'] + escape(
                s@.take(i as int),
            )) + esc_char(s@[i as int]));
        }
        i = i + 1;
    }
    out.push('"');
    proof {
        assert(s@.take(n as int) =~= s@);
        assert(out@ =~= pre + str_lit(s@));
    }
}

/// Appends the 20-character stored form of a timestamp to the output.
fn push_timestamp(out: &mut Vec<char>, t: &Timestamp)
    ensures
        final(out)@ == old(out)@ + timestamp_chars(*t),
{
    let ghost pre = out@;
    let ghost w = timestamp_chars(*t);
    let y = t.year as u64;
    out.push(digit_char_exec(y / 1000 % 10));
    out.push(digit_char_exec(y / 100 % 10));
    out.push(digit_char_exec(y / 10 % 10));
    out.push(digit_char_exec(y % 10));
    out.push('-');
    proof {
        assert(out@ =~= pre + w.take(5));
    }
    let mo = t.month as u64;
    out.push(digit_char_exec(mo / 10 % 10));
    out.push(digit_char_exec(mo % 10));
    out.push('-');
    proof {
        assert(out@ =~= pre + w.take(8));
    }
    let d = t.day as u64;
    out.push(digit_char_exec(d / 10 % 10));
    out.push(digit_char_exec(d % 10));
    out.push('T');
    proof {
        assert(out@ =~= pre + w.take(11));
    }
    let h = t.hour as u64;
    out.push(digit_char_exec(h / 10 % 10));
    out.push(digit_char_exec(h % 10));
    out.push(':');
    proof {
        assert(out@ =~= pre + w.take(14));
    }
    let mi = t.minute as u64;
    out.push(digit_char_exec(mi / 10 % 10));
    out.push(digit_char_exec(mi % 10));
    out.push(':');
    proof {
        assert(out@ =~= pre + w.take(17));
    }
    let sec = t.second as u64;
    out.push(digit_char_exec(sec / 10 % 10));
    out.push(digit_char_exec(sec % 10));
    out.push('Z');
    proof {
        assert(out@ =~= pre + w.take(20));
        assert(w.take(20) =~= w);
    }
}

/// Appends a quoted stored timestamp to the output.
fn push_ts_lit(out: &mut Vec<char>, t: &Timestamp)
    ensures
        final(out)@ == old(out)@ + ts_lit(*t),
{
    let ghost pre = out@;
    out.push('"');
    push_timestamp(out, t);
    out.push('"');
    proof {
        assert(out@ =~= pre + ts_lit(*t));
    }
}

/// Appends `null` or a quoted stored timestamp to the output.
fn push_opt_ts(out: &mut Vec<char>, o: &Option<Timestamp>)
    ensures
        final(out)@ == old(out)@ + opt_ts_chars(*o),
{
    let ghost pre = out@;
    match o {
        None => {
            out.push('n');
            out.push('u');
            out.push('l');
            out.push('l');
            proof {
                assert(out@ =~= pre + opt_ts_chars(*o));
            }
        },
        Some(t) => {
            push_ts_lit(out, t);
            proof {
                assert(out@ =~= pre + opt_ts_chars(*o));
            }
        },
    }
}

/// Appends `null` or a quoted, escaped string to the output.
fn push_opt_str(out: &mut Vec<char>, o: &Option<String>)
    ensures
        final(out)@ == old(out)@ + opt_str_chars(match o {
            Some(d) => Some(d@),
            None => None,
        }),
{
    let ghost pre = out@;
    match o {
        None => {
            out.push('n');
            out.push('u');
            out.push('l');
            out.push('l');
            proof {
                assert(out@ =~= pre + null_chars());
            }
        },
        Some(d) => {
            push_str_lit(out, d.as_str());
        },
    }
}

/// Appends the stored name of a priority band to the output.
fn push_prio(out: &mut Vec<char>, p: Priority)
    ensures
        final(out)@ == old(out)@ + prio_lit(p),
{
    let ghost pre = out@;
    out.push('"');
    match p {
        Priority::Low => {
            out.push('L');
            out.push('o');
            out.push('w');
        },
        Priority::Medium => {
            out.push('M');
            out.push('e');
            out.push('d');
            out.push('i');
            out.push('u');
            out.push('m');
        },
        Priority::High => {
            out.push('H');
            out.push('i');
            out.push('g');
            out.push('h');
        },
        Priority::Urgent => {
            out.push('U');
            out.push('r');
            out.push('g');
            out.push('e');
            out.push('n');
            out.push('t');
        },
    }
    out.push('"');
    proof {
        assert(out@ =~= pre + prio_lit(p));
    }
}

/// Appends the stored name of a status to the output.
fn push_status(out: &mut Vec<char>, st: Status)
    ensures
        final(out)@ == old(out)@ + status_lit(st),
{
    let ghost pre = out@;
    out.push('"');
    match st {
        Status::Pending => {
            out.push('P');
            out.push('e');
            out.push('n');
            out.push('d');
            out.push('i');
            out.push('n');
            out.push('g');
        },
        Status::InProgress => {
            out.push('I');
            out.push('n');
            out.push('P');
            out.push('r');
            out.push('o');
            out.push('g');
            out.push('r');
            out.push('e');
            out.push('s');
            out.push('s');
        },
        Status::Completed => {
            out.push('C');
            out.push('o');
            out.push('m');
            out.push('p');
            out.push('l');
            out.push('e');
            out.push('t');
            out.push('e');
            out.push('d');
        },
        Status::Cancelled => {
            out.push('C');
            out.push('a');
            out.push('n');
            out.push('c');
            out.push('e');
            out.push('l');
            out.push('l');
            out.push('e');
            out.push('d');
        },
    }
    out.push('"');
    proof {
        assert(out@ =~= pre + status_lit(st));
    }
}

/// Appends the stored tag items from index `k` on, comma-separated.
fn push_tags_from(out: &mut Vec<char>, tags: &Vec<String>, k: usize)
    requires
        k < tags@.len(),
    ensures
        final(out)@ == old(out)@ + tags_items(
            tags.deep_view().subrange(k as int, tags.deep_view().len() as int),
        ),
    decreases tags@.len() - k,
{
    let ghost pre = out@;
    let ghost dv = tags.deep_view();
    let ghost sub = dv.subrange(k as int, dv.len() as int);
    let n = tags.len();
    push_str_lit(out, tags[k].as_str());
    proof {
        assert(sub[0] == dv[k as int]);
    }
    if k + 1 < n {
        out.push(',');
        push_tags_from(out, tags, k + 1);
        proof {
            assert(sub.drop_first() =~= dv.subrange(k + 1, dv.len() as int));
            assert(out@ =~= pre + (str_lit(dv[k as int]) + (seq![','] + tags_items(
                sub.drop_first(),
            ))));
            assert(tags_items(sub) == str_lit(sub[0]) + (seq![','] + tags_items(sub.drop_first())));
        }
    } else {
        proof {
            assert(sub.len() == 1);
            assert(out@ =~= pre + tags_items(sub));
        }
    }
}

/// Appends a stored tag array to the output.
fn push_tags(out: &mut Vec<char>, tags: &Vec<String>)
    ensures
        final(out)@ == old(out)@ + tags_chars(tags.deep_view()),
{
    let ghost pre = out@;
    out.push('[');
    if tags.len() > 0 {
        push_tags_from(out, tags, 0);
        proof {
            assert(tags.deep_view().subrange(0, tags.deep_view().len() as int) =~= tags.deep_view());
        }
    } else {
        proof {
            assert(tags_items(tags.deep_view()) =~= Seq::<char>::empty());
        }
    }
    out.push(']');
    proof {
        assert(out@ =~= pre + tags_chars(tags.deep_view()));
    }
}

/// Appends the close of a stored task object: the optional timestamps and
/// the closing brace.
fn push_task_completed(out: &mut Vec<char>, t: &Task)
    ensures
        final(out)@ == old(out)@ + task_chars_completed(t@),
{
    let ghost pre = out@;
    push_lit(out, ",\"completed_at\":");
    proof {
        reveal_strlit(",\"completed_at\":");
        assert(",\"completed_at\":"@ =~= key_completed());
    }
    push_opt_ts(out, &t.completed_at);
    push_lit(out, ",\"due_date\":");
    proof {
        reveal_strlit(",\"due_date\":");
        assert(",\"due_date\":"@ =~= key_due());
    }
    push_opt_ts(out, &t.due_date);
    out.push('}');
    proof {
        reveal(task_chars_completed);
        assert(out@ =~= pre + task_chars_completed(t@));
    }
}

/// Appends the tail of a stored task object: tags and the two mandatory
/// timestamps, then the close.
fn push_task_tags(out: &mut Vec<char>, t: &Task)
    ensures
        final(out)@ == old(out)@ + task_chars_tags(t@),
{
    let ghost pre = out@;
    push_lit(out, ",\"tags\":");
    proof {
        reveal_strlit(",\"tags\":");
        assert(",\"tags\":"@ =~= key_tags());
    }
    push_tags(out, &t.tags);
    push_lit(out, ",\"created_at\":");
    proof {
        reveal_strlit(",\"created_at\":");
        assert(",\"created_at\":"@ =~= key_created());
    }
    push_ts_lit(out, &t.created_at);
    push_lit(out, ",\"updated_at\":");
    proof {
        reveal_strlit(",\"updated_at\":");
        assert(",\"updated_at\":"@ =~= key_updated());
    }
    push_ts_lit(out, &t.updated_at);
    push_task_completed(out, t);
    proof {
        reveal(task_chars_tags);
        assert(out@ =~= pre + task_chars_tags(t@));
    }
}

/// Appends the middle of a stored task object: description, priority and
/// status, then the tail.
fn push_task_description(out: &mut Vec<char>, t: &Task)
    ensures
        final(out)@ == old(out)@ + task_chars_description(t@),
{
    let ghost pre = out@;
    push_lit(out, ",\"description\":");
    proof {
        reveal_strlit(",\"description\":");
        assert(",\"description\":"@ =~= key_description());
    }
    push_opt_str(out, &t.description);
    push_lit(out, ",\"priority\":");
    proof {
        reveal_strlit(",\"priority\":");
        assert(",\"priority\":"@ =~= key_priority());
    }
    push_prio(out, t.priority);
    push_lit(out, ",\"status\":");
    proof {
        reveal_strlit(",\"status\":");
        assert(",\"status\":"@ =~= key_status());
    }
    push_status(out, t.status);
    push_task_tags(out, t);
    proof {
        reveal(task_chars_description);
        assert(out@ =~= pre + task_chars_description(t@));
    }
}

/// Appends one whole stored task object to the output.
fn push_task(out: &mut Vec<char>, t: &Task)
    ensures
        final(out)@ == old(out)@ + task_chars(t@),
{
    let ghost pre = out@;
    push_lit(out, "{\"id\":");
    proof {
        reveal_strlit("{\"id\":");
        assert("{\"id\":"@ =~= key_id());
    }
    push_dec(t.id, out);
    push_lit(out, ",\"title\":");
    proof {
        reveal_strlit(",\"title\":");
        assert(",\"title\":"@ =~= key_title());
    }
    push_str_lit(out, t.title.as_str());
    push_task_description(out, t);
    proof {
        reveal(task_chars);
        assert(out@ =~= pre + task_chars(t@));
    }
}

/// Appends the stored entries from index `k` on, comma-separated.
fn push_entries_from(out: &mut Vec<char>, tasks: &Vec<Task>, k: usize)
    requires
        k < tasks@.len(),
    ensures
        final(out)@ == old(out)@ + entries_chars(
            tasks.deep_view().subrange(k as int, tasks.deep_view().len() as int),
        ),
    decreases tasks@.len() - k,
{
    let ghost pre = out@;
    let ghost dv = tasks.deep_view();
    let ghost sub = dv.subrange(k as int, dv.len() as int);
    let n = tasks.len();
    out.push('"');
    push_dec(tasks[k].id, out);
    out.push('"');
    out.push(':');
    push_task(out, &tasks[k]);
    proof {
        assert(sub[0] == dv[k as int]);
        assert(dv[k as int] == tasks@[k as int]@);
        assert(out@ =~= pre + entry_chars(sub[0])) by {
            reveal(entry_chars);
        }
    }
    if k + 1 < n {
        out.push(',');
        push_entries_from(out, tasks, k + 1);
        proof {
            reveal(entries_chars);
            assert(sub.drop_first() =~= dv.subrange(k + 1, dv.len() as int));
            assert(out@ =~= (pre + entry_chars(sub[0])).push(',') + entries_chars(
                sub.drop_first(),
            ));
            assert(out@ =~= pre + (entry_chars(sub[0]) + (seq![','] + entries_chars(
                sub.drop_first(),
            ))));
            assert(entries_chars(sub) == entry_chars(sub[0]) + (seq![','] + entries_chars(
                sub.drop_first(),
            )));
        }
    } else {
        proof {
            reveal(entries_chars);
            assert(sub.len() == 1);
            assert(out@ =~= pre + entries_chars(sub));
        }
    }
}

/// The stored form of a whole collection of tasks, as characters.
pub(crate) fn emit_store(tasks: &Vec<Task>) -> (r: Vec<char>)
    ensures
        r@ == store_chars(tasks.deep_view()),
{
    let mut out: Vec<char> = Vec::new();
    out.push('{');
    if tasks.len() > 0 {
        push_entries_from(&mut out, tasks, 0);
        proof {
            assert(tasks.deep_view().subrange(0, tasks.deep_view().len() as int)
                =~= tasks.deep_view());
        }
    }
    out.push('}');
    proof {
        reveal(store_chars);
        if tasks.deep_view().len() == 0 {
            assert(out@ =~= store_chars(tasks.deep_view()));
        } else {
            assert(out@ =~= store_chars(tasks.deep_view()));
        }
    }
    out
}

// ---------------------------------------------------------------------------
// The parser
// ---------------------------------------------------------------------------

/// Decides `is_digit`.
fn is_digit_exec(c: char) -> (b: bool)
    ensures
        b == is_digit(c),
{
    let u = c as u32;
    48 <= u && u <= 57
}

/// Every character of the digit run starting at `i` is a digit, and the
/// run ends within the sequence.
proof fn lemma_digits_end_props(s: Seq<char>, i: int)
    requires
        0 <= i <= s.len(),
    ensures
        i <= digits_end(s, i) <= s.len(),
        forall|k: int| i <= k < digits_end(s, i) ==> is_digit(#[trigger] s[k]),
        digits_end(s, i) == s.len() || !is_digit(s[digits_end(s, i)]),
    decreases s.len() - i,
{
    if i < s.len() && is_digit(s[i]) {
        lemma_digits_end_props(s, i + 1);
    }
}

/// A digit string with an unrepresentable prefix is itself
/// unrepresentable.
proof fn lemma_dec_val_prefix_none(d: Seq<char>, k: int)
    requires
        0 <= k <= d.len(),
        dec_val_u64(d.take(k)) is None,
    ensures
        dec_val_u64(d) is None,
    decreases d.len() - k,
{
    if k < d.len() {
        assert(d.take(k + 1).drop_last() =~= d.take(k));
        lemma_dec_val_prefix_none(d, k + 1);
    } else {
        assert(d.take(k) =~= d);
    }
}

/// Decides `p_u64`: reads a run of digits as a `u64`.
fn exec_p_u64(v: &Vec<char>, i: usize) -> (r: Option<(u64, usize)>)
    requires
        i <= v.len(),
    ensures
        match r {
            Some(p) => p_u64(v@, i as int) == Some((p.0, p.1 as int)) && i <= p.1 <= v.len(),
            None => p_u64(v@, i as int) is None,
        },
{
    let n = v.len();
    let mut e: usize = i;
    while e < n && is_digit_exec(v[e])
        invariant
            i <= e <= n,
            n == v.len(),
            forall|k: int| i <= k < e ==> is_digit(#[trigger] v@[k]),
        decreases n - e,
    {
        e = e + 1;
    }
    proof {
        lemma_digits_end_of_run(v@, i as int, e as int);
    }
    if e == i {
        return None;
    }
    let ghost digits = v@.subrange(i as int, e as int);
    let mut acc: u64 = 0;
    let mut k: usize = i;
    proof {
        assert(v@.subrange(i as int, i as int) =~= Seq::<char>::empty());
    }
    while k < e
        invariant
            i <= k <= e <= n,
            n == v.len(),
            digits == v@.subrange(i as int, e as int),
            digits_end(v@, i as int) == e as int,
            i < e,
            forall|q: int| i <= q < e ==> is_digit(#[trigger] v@[q]),
            dec_val_u64(v@.subrange(i as int, k as int)) == Some(acc),
        decreases e - k,
    {
        let u = v[k] as u32;
        proof {
            assert(is_digit(v@[k as int]));
            vstd::utf8::char_is_scalar(v@[k as int]);
        }
        let dv = (u - 48) as u64;
        proof {
            assert(dv as nat == digit_val(v@[k as int]));
            assert(v@.subrange(i as int, k + 1).drop_last() =~= v@.subrange(i as int, k as int));
            assert(v@.subrange(i as int, k + 1).last() == v@[k as int]);
        }
        if acc > (u64::MAX - dv) / 10 {
            proof {
                assert(dec_val_u64(v@.subrange(i as int, k + 1)) is None);
                assert(digits.take(k + 1 - i) =~= v@.subrange(i as int, k + 1));
                lemma_dec_val_prefix_none(digits, k + 1 - i);
            }
            return None;
        }
        acc = acc * 10 + dv;
        k = k + 1;
    }
    proof {
        assert(v@.subrange(i as int, e as int) == digits);
    }
    Some((acc, e))
}

/// Decides `is_hex`.
fn is_hex_exec(c: char) -> (b: bool)
    ensures
        b == is_hex(c),
{
    let u = c as u32;
    (48 <= u && u <= 57) || (97 <= u && u <= 102)
}

/// The value of a lowercase hexadecimal digit.
fn hex_val_exec(c: char) -> (d: u32)
    requires
        is_hex(c),
    ensures
        d as nat == hex_val(c),
        d < 16,
{
    let u = c as u32;
    proof {
        vstd::utf8::char_is_scalar(c);
    }
    if u <= 57 {
        u - 48
    } else {
        u - 87
    }
}

/// Relies on `char::from_u32`: below the surrogate range every code is a
/// scalar value, and the conversion yields the character with that code.
#[verifier::external_body]
fn char_from_code(v: u32) -> (c: char)
    requires
        v < 0xD800,
    ensures
        c == char_of_code(v as nat),
{
    char::from_u32(v).unwrap()
}

/// Decides `p_str_body`: reads an escaped string body up to and including
/// the closing quote.
fn exec_p_str_body(v: &Vec<char>, i: usize) -> (r: Option<(Vec<char>, usize)>)
    ensures
        match r {
            Some(p) => p_str_body(v@, i as int) == Some((p.0@, p.1 as int)) && i < p.1 <= v.len(),
            None => p_str_body(v@, i as int) is None,
        },
    decreases v.len() - i,
{
    proof {
        reveal(p_str_body);
    }
    let n = v.len();
    if i >= n {
        return None;
    }
    let c = v[i];
    if c == '"' {
        let cs: Vec<char> = Vec::new();
        proof {
            assert(cs@ =~= Seq::<char>::empty());
        }
        return Some((cs, i + 1));
    }
    if c == '\\' {
        if n - i < 2 {
            return None;
        }
        let e = v[i + 1];
        if e == '"' || e == '\\' {
            match exec_p_str_body(v, i + 2) {
                Some((mut cs, j)) => {
                    let ghost tail = cs@;
                    cs.insert(0, e);
                    proof {
                        assert(cs@ =~= seq![e] + tail);
                    }
                    Some((cs, j))
                },
                None => None,
            }
        } else if e == 'n' {
            match exec_p_str_body(v, i + 2) {
                Some((mut cs, j)) => {
                    let ghost tail = cs@;
                    cs.insert(0, '\n');
                    proof {
                        assert(cs@ =~= seq!['\n'] + tail);
                    }
                    Some((cs, j))
                },
                None => None,
            }
        } else if e == 'r' {
            match exec_p_str_body(v, i + 2) {
                Some((mut cs, j)) => {
                    let ghost tail = cs@;
                    cs.insert(0, '\r');
                    proof {
                        assert(cs@ =~= seq!['\r'] + tail);
                    }
                    Some((cs, j))
                },
                None => None,
            }
        } else if e == 't' {
            match exec_p_str_body(v, i + 2) {
                Some((mut cs, j)) => {
                    let ghost tail = cs@;
                    cs.insert(0, '\t');
                    proof {
                        assert(cs@ =~= seq!['\t'] + tail);
                    }
                    Some((cs, j))
                },
                None => None,
            }
        } else if e == 'u' {
            if n - i >= 6 && v[i + 2] == '0' && v[i + 3] == '0' && is_hex_exec(v[i + 4])
                && is_hex_exec(v[i + 5]) {
                let code = hex_val_exec(v[i + 4]) * 16 + hex_val_exec(v[i + 5]);
                if code < 32 {
                    let ch = char_from_code(code);
                    match exec_p_str_body(v, i + 6) {
                        Some((mut cs, j)) => {
                            let ghost tail = cs@;
                            cs.insert(0, ch);
                            proof {
                                assert(cs@ =~= seq![ch] + tail);
                            }
                            Some((cs, j))
                        },
                        None => None,
                    }
                } else {
                    None
                }
            } else {
                None
            }
        } else {
            None
        }
    } else {
        match exec_p_str_body(v, i + 1) {
            Some((mut cs, j)) => {
                let ghost tail = cs@;
                cs.insert(0, c);
                proof {
                    assert(cs@ =~= seq![c] + tail);
                }
                Some((cs, j))
            },
            None => None,
        }
    }
}

/// Decides `p_string`: a quoted, escaped string.
fn exec_p_string(v: &Vec<char>, i: usize) -> (r: Option<(Vec<char>, usize)>)
    ensures
        match r {
            Some(p) => p_string(v@, i as int) == Some((p.0@, p.1 as int)) && i < p.1 <= v.len(),
            None => p_string(v@, i as int) is None,
        },
{
    let n = v.len();
    if i < n && v[i] == '"' {
        exec_p_str_body(v, i + 1)
    } else {
        None
    }
}

/// Does `w` stand at position `i`?
fn match_chars(v: &Vec<char>, i: usize, w: &str) -> (b: bool)
    ensures
        b == starts_with(v@, i as int, w@),
{
    let cs = chars_vec(w);
    let m = cs.len();
    let n = v.len();
    if i > n || m > n - i {
        proof {
            assert(!starts_with(v@, i as int, w@));
        }
        return false;
    }
    let mut k: usize = 0;
    while k < m
        invariant
            m == cs.len(),
            cs@ == w@,
            n == v.len(),
            i + m <= n,
            0 <= k <= m,
            forall|q: int| 0 <= q < k ==> v@[i + q] == w@[q],
        decreases m - k,
    {
        if v[i + k] != cs[k] {
            proof {
                assert(v@.subrange(i as int, i + w@.len())[k as int] == v@[i + k]);
            }
            return false;
        }
        k = k + 1;
    }
    proof {
        assert(v@.subrange(i as int, i + w@.len()) =~= w@);
    }
    true
}

/// Decides `p_opt_string`: `null` or a quoted string.
fn exec_p_opt_string(v: &Vec<char>, i: usize) -> (r: Option<(Option<String>, usize)>)
    ensures
        match r {
            Some(p) => p_opt_string(v@, i as int) == Some(
                (
                    match p.0 {
                        Some(d) => Some(d@),
                        None => None,
                    },
                    p.1 as int,
                ),
            ) && i < p.1 <= v.len(),
            None => p_opt_string(v@, i as int) is None,
        },
{
    if match_chars(v, i, "null") {
        proof {
            reveal_strlit("null");
            assert("null"@ =~= null_chars());
        }
        return Some((None, i + 4));
    }
    proof {
        reveal_strlit("null");
        assert("null"@ =~= null_chars());
    }
    match exec_p_string(v, i) {
        Some((cs, j)) => {
            let st = crate::text::chars_to_string(&cs);
            Some((Some(st), j))
        },
        None => None,
    }
}

/// Decides `p_timestamp`: the 20-character stored form at `i`.
#[verifier::rlimit(100)]
fn exec_p_timestamp(v: &Vec<char>, i: usize) -> (r: Option<(Timestamp, usize)>)
    ensures
        match r {
            Some(p) => p_timestamp(v@, i as int) == Some((p.0, p.1 as int)) && i < p.1 <= v.len(),
            None => p_timestamp(v@, i as int) is None,
        },
{
    let n = v.len();
    if i > n || n - i < 20 {
        return None;
    }
    let ok = is_digit_exec(v[i]) && is_digit_exec(v[i + 1]) && is_digit_exec(v[i + 2])
        && is_digit_exec(v[i + 3]) && v[i + 4] == '-' && is_digit_exec(v[i + 5]) && is_digit_exec(
        v[i + 6],
    ) && v[i + 7] == '-' && is_digit_exec(v[i + 8]) && is_digit_exec(v[i + 9]) && v[i + 10] == 'T'
        && is_digit_exec(v[i + 11]) && is_digit_exec(v[i + 12]) && v[i + 13] == ':' && is_digit_exec(
        v[i + 14],
    ) && is_digit_exec(v[i + 15]) && v[i + 16] == ':' && is_digit_exec(v[i + 17]) && is_digit_exec(
        v[i + 18],
    ) && v[i + 19] == 'Z';
    if !ok {
        return None;
    }
    let year = digit32(v[i]) * 1000 + digit32(v[i + 1]) * 100 + digit32(v[i + 2]) * 10 + digit32(
        v[i + 3],
    );
    let month = digit32(v[i + 5]) * 10 + digit32(v[i + 6]);
    let day = digit32(v[i + 8]) * 10 + digit32(v[i + 9]);
    let hour = digit32(v[i + 11]) * 10 + digit32(v[i + 12]);
    let minute = digit32(v[i + 14]) * 10 + digit32(v[i + 15]);
    let second = digit32(v[i + 17]) * 10 + digit32(v[i + 18]);
    let t = Timestamp {
        year: year as u16,
        month: month as u8,
        day: day as u8,
        hour: hour as u8,
        minute: minute as u8,
        second: second as u8,
    };
    if 1 <= t.month && t.month <= 12 && 1 <= t.day && t.day <= 31 && t.hour <= 23 && t.minute <= 59
        && t.second <= 59 {
        Some((t, i + 20))
    } else {
        None
    }
}

/// The numeric value of a digit character, as a small integer.
fn digit32(c: char) -> (d: u32)
    requires
        is_digit(c),
    ensures
        d as nat == digit_val(c),
        d <= 9,
{
    proof {
        vstd::utf8::char_is_scalar(c);
    }
    (c as u32) - 48
}

/// Decides `p_ts_lit`: a quoted stored timestamp.
fn exec_p_ts_lit(v: &Vec<char>, i: usize) -> (r: Option<(Timestamp, usize)>)
    ensures
        match r {
            Some(p) => p_ts_lit(v@, i as int) == Some((p.0, p.1 as int)) && i < p.1 <= v.len(),
            None => p_ts_lit(v@, i as int) is None,
        },
{
    let n = v.len();
    if i < n && v[i] == '"' {
        match exec_p_timestamp(v, i + 1) {
            Some((t, j)) => {
                if j < n && v[j] == '"' {
                    Some((t, j + 1))
                } else {
                    None
                }
            },
            None => None,
        }
    } else {
        None
    }
}

/// Decides `p_opt_ts`: `null` or a quoted stored timestamp.
fn exec_p_opt_ts(v: &Vec<char>, i: usize) -> (r: Option<(Option<Timestamp>, usize)>)
    ensures
        match r {
            Some(p) => p_opt_ts(v@, i as int) == Some((p.0, p.1 as int)) && i < p.1 <= v.len(),
            None => p_opt_ts(v@, i as int) is None,
        },
{
    if match_chars(v, i, "null") {
        proof {
            reveal_strlit("null");
            assert("null"@ =~= null_chars());
        }
        return Some((None, i + 4));
    }
    proof {
        reveal_strlit("null");
        assert("null"@ =~= null_chars());
    }
    match exec_p_ts_lit(v, i) {
        Some((t, j)) => Some((Some(t), j)),
        None => None,
    }
}

/// Decides `p_prio`: one of the four stored priority names.
fn exec_p_prio(v: &Vec<char>, i: usize) -> (r: Option<(Priority, usize)>)
    ensures
        match r {
            Some(p) => p_prio(v@, i as int) == Some((p.0, p.1 as int)) && i < p.1 <= v.len(),
            None => p_prio(v@, i as int) is None,
        },
{
    proof {
        reveal_strlit("\"Low\"");
        reveal_strlit("\"Medium\"");
        reveal_strlit("\"High\"");
        reveal_strlit("\"Urgent\"");
        assert("\"Low\""@ =~= prio_lit(Priority::Low));
        assert("\"Medium\""@ =~= prio_lit(Priority::Medium));
        assert("\"High\""@ =~= prio_lit(Priority::High));
        assert("\"Urgent\""@ =~= prio_lit(Priority::Urgent));
    }
    let n = v.len();
    if match_chars(v, i, "\"Low\"") {
        Some((Priority::Low, i + 5))
    } else if match_chars(v, i, "\"Medium\"") {
        Some((Priority::Medium, i + 8))
    } else if match_chars(v, i, "\"High\"") {
        Some((Priority::High, i + 6))
    } else if match_chars(v, i, "\"Urgent\"") {
        Some((Priority::Urgent, i + 8))
    } else {
        None
    }
}

/// Decides `p_status`: one of the four stored status names.
fn exec_p_status(v: &Vec<char>, i: usize) -> (r: Option<(Status, usize)>)
    ensures
        match r {
            Some(p) => p_status(v@, i as int) == Some((p.0, p.1 as int)) && i < p.1 <= v.len(),
            None => p_status(v@, i as int) is None,
        },
{
    proof {
        reveal_strlit("\"Pending\"");
        reveal_strlit("\"InProgress\"");
        reveal_strlit("\"Completed\"");
        reveal_strlit("\"Cancelled\"");
        assert("\"Pending\""@ =~= status_lit(Status::Pending));
        assert("\"InProgress\""@ =~= status_lit(Status::InProgress));
        assert("\"Completed\""@ =~= status_lit(Status::Completed));
        assert("\"Cancelled\""@ =~= status_lit(Status::Cancelled));
    }
    let n = v.len();
    if match_chars(v, i, "\"Pending\"") {
        Some((Status::Pending, i + 9))
    } else if match_chars(v, i, "\"InProgress\"") {
        Some((Status::InProgress, i + 12))
    } else if match_chars(v, i, "\"Completed\"") {
        Some((Status::Completed, i + 11))
    } else if match_chars(v, i, "\"Cancelled\"") {
        Some((Status::Cancelled, i + 11))
    } else {
        None
    }
}

/// Decides `p_tags_items`: comma-separated stored strings up to the
/// closing bracket.
fn exec_p_tags_items(v: &Vec<char>, i: usize) -> (r: Option<(Vec<String>, usize)>)
    ensures
        match r {
            Some(p) => p_tags_items(v@, i as int) == Some((p.0.deep_view(), p.1 as int)) && i
                < p.1 <= v.len(),
            None => p_tags_items(v@, i as int) is None,
        },
    decreases v.len() - i,
{
    proof {
        reveal(p_tags_items);
    }
    let n = v.len();
    match exec_p_string(v, i) {
        None => None,
        Some((cs, j)) => {
            let x = crate::text::chars_to_string(&cs);
            if j < n && v[j] == ',' {
                match exec_p_tags_items(v, j + 1) {
                    Some((mut xs, k)) => {
                        let ghost tail = xs.deep_view();
                        xs.insert(0, x);
                        proof {
                            assert(xs.deep_view() =~= seq![cs@] + tail);
                        }
                        Some((xs, k))
                    },
                    None => None,
                }
            } else if j < n && v[j] == ']' {
                let mut xs: Vec<String> = Vec::new();
                xs.push(x);
                proof {
                    assert(xs.deep_view() =~= seq![cs@]);
                }
                Some((xs, j + 1))
            } else {
                None
            }
        },
    }
}

/// Decides `p_tags`: a stored tag array.
fn exec_p_tags(v: &Vec<char>, i: usize) -> (r: Option<(Vec<String>, usize)>)
    ensures
        match r {
            Some(p) => p_tags(v@, i as int) == Some((p.0.deep_view(), p.1 as int)) && i < p.1
                <= v.len(),
            None => p_tags(v@, i as int) is None,
        },
{
    let n = v.len();
    if i < n && n - i >= 2 && v[i] == '[' {
        if v[i + 1] == ']' {
            let xs: Vec<String> = Vec::new();
            proof {
                assert(xs.deep_view() =~= Seq::<Seq<char>>::empty());
            }
            Some((xs, i + 2))
        } else {
            exec_p_tags_items(v, i + 1)
        }
    } else {
        None
    }
}

/// Decides the tail of a stored task object, from the tags field on.
#[verifier::rlimit(100)]
fn exec_p_task_tail(
    v: &Vec<char>,
    i: usize,
    id: u64,
    title: String,
    description: Option<String>,
    priority: Priority,
    status: Status,
) -> (r: Option<(Task, usize)>)
    ensures
        match r {
            Some(p) => p_task_tags(
                v@,
                i as int,
                id,
                title@,
                match description {
                    Some(d) => Some(d@),
                    None => None,
                },
                priority,
                status,
            ) == Some((p.0@, p.1 as int)) && i < p.1 <= v.len(),
            None => p_task_tags(
                v@,
                i as int,
                id,
                title@,
                match description {
                    Some(d) => Some(d@),
                    None => None,
                },
                priority,
                status,
            ) is None,
        },
{
    proof {
        reveal(p_task_tags);
        reveal(p_task_created);
        reveal(p_task_updated);
        reveal(p_task_completed);
        reveal(p_task_due);
        reveal_strlit(",\"tags\":");
        reveal_strlit(",\"created_at\":");
        reveal_strlit(",\"updated_at\":");
        reveal_strlit(",\"completed_at\":");
        reveal_strlit(",\"due_date\":");
        assert(",\"tags\":"@ =~= key_tags());
        assert(",\"created_at\":"@ =~= key_created());
        assert(",\"updated_at\":"@ =~= key_updated());
        assert(",\"completed_at\":"@ =~= key_completed());
        assert(",\"due_date\":"@ =~= key_due());
    }
    let n = v.len();
    if !match_chars(v, i, ",\"tags\":") {
        return None;
    }
    let (tags, j6) = match exec_p_tags(v, i + 8) {
        Some(p) => p,
        None => {
            return None;
        },
    };
    if !match_chars(v, j6, ",\"created_at\":") {
        return None;
    }
    let (created_at, j7) = match exec_p_ts_lit(v, j6 + 14) {
        Some(p) => p,
        None => {
            return None;
        },
    };
    if !match_chars(v, j7, ",\"updated_at\":") {
        return None;
    }
    let (updated_at, j8) = match exec_p_ts_lit(v, j7 + 14) {
        Some(p) => p,
        None => {
            return None;
        },
    };
    if !match_chars(v, j8, ",\"completed_at\":") {
        return None;
    }
    let (completed_at, j9) = match exec_p_opt_ts(v, j8 + 16) {
        Some(p) => p,
        None => {
            return None;
        },
    };
    if !match_chars(v, j9, ",\"due_date\":") {
        return None;
    }
    let (due_date, j10) = match exec_p_opt_ts(v, j9 + 12) {
        Some(p) => p,
        None => {
            return None;
        },
    };
    if j10 < n && v[j10] == '}' {
        let task = Task {
            id,
            title,
            description,
            priority,
            status,
            tags,
            created_at,
            updated_at,
            completed_at,
            due_date,
        };
        Some((task, j10 + 1))
    } else {
        None
    }
}

/// Decides `p_task`: one whole stored task object.
#[verifier::rlimit(100)]
fn exec_p_task(v: &Vec<char>, i: usize) -> (r: Option<(Task, usize)>)
    ensures
        match r {
            Some(p) => p_task(v@, i as int) == Some((p.0@, p.1 as int)) && i < p.1 <= v.len(),
            None => p_task(v@, i as int) is None,
        },
{
    proof {
        reveal(p_task);
        reveal(p_task_title);
        reveal(p_task_description);
        reveal(p_task_priority);
        reveal(p_task_status);
        reveal_strlit("{\"id\":");
        reveal_strlit(",\"title\":");
        reveal_strlit(",\"description\":");
        reveal_strlit(",\"priority\":");
        reveal_strlit(",\"status\":");
        assert("{\"id\":"@ =~= key_id());
        assert(",\"title\":"@ =~= key_title());
        assert(",\"description\":"@ =~= key_description());
        assert(",\"priority\":"@ =~= key_priority());
        assert(",\"status\":"@ =~= key_status());
    }
    let n = v.len();
    if !match_chars(v, i, "{\"id\":") {
        return None;
    }
    let (id, j1) = match exec_p_u64(v, i + 6) {
        Some(p) => p,
        None => {
            return None;
        },
    };
    if !match_chars(v, j1, ",\"title\":") {
        return None;
    }
    let (title_cs, j2) = match exec_p_string(v, j1 + 9) {
        Some(p) => p,
        None => {
            return None;
        },
    };
    let title = crate::text::chars_to_string(&title_cs);
    if !match_chars(v, j2, ",\"description\":") {
        return None;
    }
    let (description, j3) = match exec_p_opt_string(v, j2 + 15) {
        Some(p) => p,
        None => {
            return None;
        },
    };
    if !match_chars(v, j3, ",\"priority\":") {
        return None;
    }
    let (priority, j4) = match exec_p_prio(v, j3 + 12) {
        Some(p) => p,
        None => {
            return None;
        },
    };
    if !match_chars(v, j4, ",\"status\":") {
        return None;
    }
    let (status, j5) = match exec_p_status(v, j4 + 10) {
        Some(p) => p,
        None => {
            return None;
        },
    };
    exec_p_task_tail(v, j5, id, title, description, priority, status)
}

/// Decides `p_entries`: one or more stored entries up to and including
/// the closing brace.
#[verifier::rlimit(100)]
fn exec_p_entries(v: &Vec<char>, i: usize, lo: Option<u64>) -> (r: Option<(Vec<Task>, usize)>)
    ensures
        match r {
            Some(p) => p_entries(v@, i as int, lo) == Some((p.0.deep_view(), p.1 as int)) && i
                < p.1 <= v.len(),
            None => p_entries(v@, i as int, lo) is None,
        },
    decreases v.len() - i,
{
    proof {
        reveal(p_entries);
    }
    let n = v.len();
    if !(i < n && v[i] == '"') {
        return None;
    }
    let (key, j0) = match exec_p_u64(v, i + 1) {
        Some(p) => p,
        None => {
            return None;
        },
    };
    if !match_chars(v, j0, "\":") {
        proof {
            reveal_strlit("\":");
            assert("\":"@ =~= seq!['"', ':']);
        }
        return None;
    }
    proof {
        reveal_strlit("\":");
        assert("\":"@ =~= seq!['"', ':']);
    }
    let (task, j) = match exec_p_task(v, j0 + 2) {
        Some(p) => p,
        None => {
            return None;
        },
    };
    let bound_ok = match lo {
        None => true,
        Some(b) => task.id > b,
    };
    if task.id != key || !bound_ok {
        return None;
    }
    if j < n && v[j] == ',' {
        let tid = task.id;
        match exec_p_entries(v, j + 1, Some(tid)) {
            Some((mut ts, k)) => {
                let ghost tail = ts.deep_view();
                let ghost tv = task@;
                ts.insert(0, task);
                proof {
                    assert(ts.deep_view() =~= seq![tv] + tail);
                }
                Some((ts, k))
            },
            None => None,
        }
    } else if j < n && v[j] == '}' {
        let ghost tv = task@;
        let mut ts: Vec<Task> = Vec::new();
        ts.push(task);
        proof {
            assert(ts.deep_view() =~= seq![tv]);
        }
        Some((ts, j + 1))
    } else {
        None
    }
}

/// Decides `parse_store_spec`: reads a whole stored document.
pub(crate) fn parse_store_chars(v: &Vec<char>) -> (r: Option<Vec<Task>>)
    ensures
        match r {
            Some(ts) => parse_store_spec(v@) == Some(ts.deep_view()),
            None => parse_store_spec(v@) is None,
        },
{
    let n = v.len();
    if n == 2 && v[0] == '{' && v[1] == '}' {
        let ts: Vec<Task> = Vec::new();
        proof {
            assert(ts.deep_view() =~= Seq::<TaskView>::empty());
        }
        return Some(ts);
    }
    if n >= 1 && v[0] == '{' {
        match exec_p_entries(v, 1, None) {
            Some((ts, j)) => {
                if j == n {
                    Some(ts)
                } else {
                    None
                }
            },
            None => None,
        }
    } else {
        None
    }
}

/// Whatever the input, a parsed document has strictly increasing
/// identifiers.
pub proof fn lemma_parse_store_ids(s: Seq<char>)
    requires
        parse_store_spec(s) is Some,
    ensures
        ids_strictly_increasing(parse_store_spec(s)->Some_0),
{
    if s.len() == 2 && s[0] == '{' && s[1] == '}' {
    } else {
        lemma_p_entries_ids(s, 1, None);
    }
}

} // verus!
