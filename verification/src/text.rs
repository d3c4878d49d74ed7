//! Character-level text helpers: decimal numbers and hexadecimal byte
//! strings, with exact specifications.

use vstd::prelude::*;

verus! {

// ---------------------------------------------------------------------------
// Decimal digits
// ---------------------------------------------------------------------------

/// Whether `c` is an ASCII decimal digit.
pub open spec fn is_digit(c: char) -> bool {
    '0' <= c && c <= '9'
}

/// The numeric value of a decimal digit.
pub open spec fn digit_value(c: char) -> nat
    recommends
        is_digit(c),
{
    (c as int - '0' as int) as nat
}

/// Whether every character of `s` is a decimal digit.
pub open spec fn all_digits(s: Seq<char>) -> bool {
    forall|i: int| 0 <= i < s.len() ==> is_digit(#[trigger] s[i])
}

/// The value of a digit string, read most significant digit first.
pub open spec fn dec_value(s: Seq<char>) -> nat
    decreases s.len(),
{
    if s.len() == 0 {
        0
    } else {
        dec_value(s.drop_last()) * 10 + digit_value(s.last())
    }
}

/// The value of a decimal string, or `None` where the string is empty,
/// holds a non-digit, or does not fit in a `u64`.
pub open spec fn spec_parse_u64(s: Seq<char>) -> Option<u64> {
    if s.len() > 0 && all_digits(s) && dec_value(s) <= u64::MAX {
        Some(dec_value(s) as u64)
    } else {
        None
    }
}

proof fn lemma_dec_value_step(s: Seq<char>, i: int)
    requires
        0 <= i < s.len(),
    ensures
        dec_value(s.subrange(0, i + 1)) == dec_value(s.subrange(0, i)) * 10 + digit_value(s[i]),
{
    let t = s.subrange(0, i + 1);
    assert(t.drop_last() =~= s.subrange(0, i));
    assert(t.last() == s[i]);
}

proof fn lemma_dec_value_grows(s: Seq<char>, i: int, j: int)
    requires
        0 <= i <= j <= s.len(),
    ensures
        dec_value(s.subrange(0, i)) <= dec_value(s.subrange(0, j)),
    decreases j - i,
{
    if i < j {
        lemma_dec_value_grows(s, i, j - 1);
        lemma_dec_value_step(s, j - 1);
    }
}

/// Parses a decimal string of digits into a `u64`; `None` for an empty
/// string, a non-digit character, or a value that does not fit.
pub fn parse_u64(s: &str) -> (r: Option<u64>)
    ensures
        r == spec_parse_u64(s@),
{
    let n = s.unicode_len();
    if n == 0 {
        return None;
    }
    let mut acc: u64 = 0;
    let mut i: usize = 0;
    while i < n
        invariant
            0 < n == s@.len(),
            0 <= i <= n,
            all_digits(s@.subrange(0, i as int)),
            acc == dec_value(s@.subrange(0, i as int)),
        decreases n - i,
    {
        let c = s.get_char(i);
        if c < '0' || c > '9' {
            assert(!is_digit(s@[i as int]));
            return None;
        }
        let d: u64 = (c as u32 as u64) - 48;
        proof {
            lemma_dec_value_step(s@, i as int);
        }
        if acc > (u64::MAX - d) / 10 {
            proof {
                lemma_dec_value_grows(s@, i as int + 1, s@.len() as int);
                assert(s@.subrange(0, s@.len() as int) =~= s@);
                assert(dec_value(s@) > u64::MAX);
            }
            return None;
        }
        acc = acc * 10 + d;
        i = i + 1;
    }
    proof {
        assert(s@.subrange(0, n as int) =~= s@);
    }
    Some(acc)
}

/// The character for a digit value below ten.
pub open spec fn digit_char(d: nat) -> char
    recommends
        d < 10,
{
    ((d + '0' as int) as u8) as char
}

/// The canonical decimal representation of `v`: no sign, no leading zero
/// except for zero itself.
pub open spec fn dec_digits(v: nat) -> Seq<char>
    decreases v,
{
    if v < 10 {
        seq![digit_char(v)]
    } else {
        dec_digits(v / 10).push(digit_char(v % 10))
    }
}

fn digit_str(d: u64) -> (r: &'static str)
    requires
        d < 10,
    ensures
        r@ =~= seq![digit_char(d as nat)],
{
    proof {
        reveal_strlit("0");
        reveal_strlit("1");
        reveal_strlit("2");
        reveal_strlit("3");
        reveal_strlit("4");
        reveal_strlit("5");
        reveal_strlit("6");
        reveal_strlit("7");
        reveal_strlit("8");
        reveal_strlit("9");
    }
    match d {
        0 => "0",
        1 => "1",
        2 => "2",
        3 => "3",
        4 => "4",
        5 => "5",
        6 => "6",
        7 => "7",
        8 => "8",
        _ => "9",
    }
}

/// Writes `v` in canonical decimal.
pub fn u64_to_dec(v: u64) -> (r: String)
    ensures
        r@ == dec_digits(v as nat),
    decreases v,
{
    if v < 10 {
        String::from_str(digit_str(v))
    } else {
        let mut prefix = u64_to_dec(v / 10);
        prefix.append(digit_str(v % 10));
        prefix
    }
}

pub proof fn lemma_dec_digits_all_digits(v: nat)
    ensures
        all_digits(dec_digits(v)),
        dec_digits(v).len() > 0,
    decreases v,
{
    if v >= 10 {
        lemma_dec_digits_all_digits(v / 10);
    }
}

/// Printing and then parsing a decimal number gives the number back.
pub proof fn lemma_dec_digits_roundtrip(v: u64)
    ensures
        spec_parse_u64(dec_digits(v as nat)) == Some(v),
    decreases v,
{
    lemma_dec_digits_all_digits(v as nat);
    if v < 10 {
        assert(digit_value(digit_char(v as nat)) == v) by {
            assert(digit_char(v as nat) as int == v + '0' as int);
        }
        let s = seq![digit_char(v as nat)];
        assert(s.drop_last() =~= Seq::<char>::empty());
        assert(dec_value(s) == dec_value(s.drop_last()) * 10 + digit_value(s.last()));
        assert(dec_value(s) == v);
    } else {
        lemma_dec_digits_roundtrip(v / 10);
        let s = dec_digits((v / 10) as nat);
        assert(dec_digits(v as nat).drop_last() =~= s);
        assert(dec_value(dec_digits(v as nat)) == dec_value(s) * 10 + (v % 10));
    }
}

/// The value of a signed decimal string, as the standard integer parse
/// reads it: an optional leading `+` or `-`, then at least one digit, and
/// a value that fits in an `i64`.
pub open spec fn spec_parse_i64(s: Seq<char>) -> Option<i64> {
    if s.len() > 0 && (s[0] == '+' || s[0] == '-') {
        let mag = s.subrange(1, s.len() as int);
        if mag.len() > 0 && all_digits(mag) {
            if s[0] == '-' {
                if dec_value(mag) <= 0x8000_0000_0000_0000 {
                    Some((-(dec_value(mag) as int)) as i64)
                } else {
                    None
                }
            } else {
                if dec_value(mag) <= 0x7FFF_FFFF_FFFF_FFFF {
                    Some(dec_value(mag) as i64)
                } else {
                    None
                }
            }
        } else {
            None
        }
    } else {
        if s.len() > 0 && all_digits(s) && dec_value(s) <= 0x7FFF_FFFF_FFFF_FFFF {
            Some(dec_value(s) as i64)
        } else {
            None
        }
    }
}

/// Parses a signed decimal string into an `i64`; `None` for an empty
/// string, a non-digit character after the optional sign, or a value out
/// of range.
pub fn parse_i64(s: &str) -> (r: Option<i64>)
    ensures
        r == spec_parse_i64(s@),
{
    let n = s.unicode_len();
    if n == 0 {
        return None;
    }
    let c0 = s.get_char(0);
    if c0 == '+' || c0 == '-' {
        let mag_str = s.substring_char(1, n);
        match parse_u64(mag_str) {
            None => None,
            Some(mag) => {
                if c0 == '-' {
                    if mag <= 0x8000_0000_0000_0000u64 {
                        Some((-(mag as i128)) as i64)
                    } else {
                        None
                    }
                } else {
                    if mag <= 0x7FFF_FFFF_FFFF_FFFFu64 {
                        Some(mag as i64)
                    } else {
                        None
                    }
                }
            },
        }
    } else {
        match parse_u64(s) {
            None => None,
            Some(v) => {
                if v <= 0x7FFF_FFFF_FFFF_FFFFu64 {
                    Some(v as i64)
                } else {
                    None
                }
            },
        }
    }
}

/// The canonical decimal of a signed value: a minus sign for a negative
/// value, then the digits of its magnitude.
pub open spec fn i64_dec_digits(v: i64) -> Seq<char> {
    if v >= 0 {
        dec_digits(v as nat)
    } else {
        seq!['-'] + dec_digits((-(v as int)) as nat)
    }
}

/// Writes `v` in canonical signed decimal.
pub fn i64_to_dec(v: i64) -> (r: String)
    ensures
        r@ == i64_dec_digits(v),
{
    if v >= 0 {
        u64_to_dec(v as u64)
    } else {
        let mag: u64 = (-(v as i128)) as u64;
        let mut s = String::from_str("-");
        let digits = u64_to_dec(mag);
        s.append(digits.as_str());
        proof {
            reveal_strlit("-");
            assert(s@ =~= seq!['-'] + dec_digits(mag as nat));
        }
        s
    }
}

/// Printing and then parsing a signed decimal gives the value back.
pub proof fn lemma_i64_dec_digits_roundtrip(v: i64)
    ensures
        spec_parse_i64(i64_dec_digits(v)) == Some(v),
{
    let s = i64_dec_digits(v);
    if v >= 0 {
        lemma_dec_digits_roundtrip(v as u64);
        lemma_dec_digits_all_digits(v as nat);
        assert(is_digit(s[0]));
        assert(s[0] != '+' && s[0] != '-');
    } else {
        let mag = (-(v as int)) as nat;
        lemma_dec_digits_roundtrip(mag as u64);
        lemma_dec_digits_all_digits(mag);
        assert(s[0] == '-');
        assert(s.subrange(1, s.len() as int) =~= dec_digits(mag));
        assert(dec_value(dec_digits(mag)) == mag);
    }
}

/// A signed 64-bit value has at most twenty-one characters of canonical
/// decimal.
pub proof fn lemma_i64_dec_digits_len(v: i64)
    ensures
        i64_dec_digits(v).len() <= 21,
{
    if v >= 0 {
        lemma_dec_digits_len_u64(v as u64);
    } else {
        lemma_dec_digits_len_u64((-(v as int)) as u64);
    }
}

/// Ten to the power `k`.
pub open spec fn pow10(k: nat) -> nat
    decreases k,
{
    if k == 0 {
        1
    } else {
        10 * pow10((k - 1) as nat)
    }
}

proof fn lemma_pow10_pos(k: nat)
    ensures
        pow10(k) >= 1,
    decreases k,
{
    if k > 0 {
        lemma_pow10_pos((k - 1) as nat);
    }
}

proof fn lemma_dec_digits_len(v: nat, k: nat)
    requires
        1 <= k,
        v < pow10(k),
    ensures
        dec_digits(v).len() <= k,
    decreases k,
{
    if v >= 10 {
        assert(k >= 2) by {
            reveal_with_fuel(pow10, 2);
            if k == 1 {
                assert(pow10(1) == 10);
            }
        }
        let p = pow10((k - 1) as nat);
        lemma_pow10_pos((k - 1) as nat);
        assert(v / 10 < p) by (nonlinear_arith)
            requires
                v < 10 * p,
                p >= 1,
        ;
        lemma_dec_digits_len(v / 10, (k - 1) as nat);
    }
}

/// A `u64` has at most twenty decimal digits.
pub proof fn lemma_dec_digits_len_u64(v: u64)
    ensures
        dec_digits(v as nat).len() <= 20,
{
    reveal_with_fuel(pow10, 21);
    assert(pow10(20) == 100_000_000_000_000_000_000);
    lemma_dec_digits_len(v as nat, 20);
}

// ---------------------------------------------------------------------------
// Hexadecimal byte strings
// ---------------------------------------------------------------------------

/// The value of one hexadecimal digit; upper and lower case are both
/// accepted, as the hex crate accepts them.
pub open spec fn hex_digit_value(c: char) -> Option<u8> {
    if '0' <= c && c <= '9' {
        Some((c as int - '0' as int) as u8)
    } else if 'a' <= c && c <= 'f' {
        Some((c as int - 'a' as int + 10) as u8)
    } else if 'A' <= c && c <= 'F' {
        Some((c as int - 'A' as int + 10) as u8)
    } else {
        None
    }
}

/// The bytes written by a hexadecimal string: two digits for each byte,
/// high digit first. `None` for an odd length or a non-hex character.
pub open spec fn spec_hex_decode(s: Seq<char>) -> Option<Seq<u8>>
    decreases s.len(),
{
    if s.len() % 2 != 0 {
        None
    } else if s.len() == 0 {
        Some(Seq::empty())
    } else {
        match (hex_digit_value(s[0]), hex_digit_value(s[1])) {
            (Some(hi), Some(lo)) => match spec_hex_decode(s.subrange(2, s.len() as int)) {
                Some(rest) => Some(seq![(hi * 16 + lo) as u8] + rest),
                None => None,
            },
            _ => None,
        }
    }
}

/// The lowercase hexadecimal character for a value below sixteen.
pub open spec fn hex_char(d: nat) -> char
    recommends
        d < 16,
{
    if d < 10 {
        ((d + '0' as int) as u8) as char
    } else {
        ((d - 10 + 'a' as int) as u8) as char
    }
}

/// The lowercase hexadecimal representation of a byte string.
pub open spec fn spec_hex_encode(b: Seq<u8>) -> Seq<char>
    decreases b.len(),
{
    if b.len() == 0 {
        Seq::empty()
    } else {
        seq![hex_char((b[0] / 16) as nat), hex_char((b[0] % 16) as nat)] + spec_hex_encode(
            b.subrange(1, b.len() as int),
        )
    }
}

proof fn lemma_hex_char_value(d: nat)
    requires
        d < 16,
    ensures
        hex_digit_value(hex_char(d)) == Some(d as u8),
{
}

/// Every character of an encoded byte string is a hexadecimal digit.
pub proof fn lemma_hex_encode_digits(b: Seq<u8>)
    ensures
        spec_hex_encode(b).len() == 2 * b.len(),
        forall|i: int|
            0 <= i < spec_hex_encode(b).len() ==> hex_digit_value(
                #[trigger] spec_hex_encode(b)[i],
            ) is Some,
    decreases b.len(),
{
    if b.len() > 0 {
        lemma_hex_encode_digits(b.subrange(1, b.len() as int));
        lemma_hex_char_value((b[0] / 16) as nat);
        lemma_hex_char_value((b[0] % 16) as nat);
    }
}

/// Encoding bytes as hexadecimal and decoding again gives the bytes back.
pub proof fn lemma_hex_roundtrip(b: Seq<u8>)
    ensures
        spec_hex_decode(spec_hex_encode(b)) == Some(b),
    decreases b.len(),
{
    let s = spec_hex_encode(b);
    if b.len() == 0 {
        assert(s =~= Seq::<char>::empty());
        assert(spec_hex_decode(s) == Some(Seq::<u8>::empty()));
        assert(Some(Seq::<u8>::empty()) == Some(b) && Seq::<u8>::empty() =~= b);
    } else {
        let tail = b.subrange(1, b.len() as int);
        lemma_hex_roundtrip(tail);
        lemma_hex_encode_digits(tail);
        lemma_hex_char_value((b[0] / 16) as nat);
        lemma_hex_char_value((b[0] % 16) as nat);
        assert(s.subrange(2, s.len() as int) =~= spec_hex_encode(tail));
        assert(hex_digit_value(s[0]) == Some((b[0] / 16) as u8));
        assert(hex_digit_value(s[1]) == Some((b[0] % 16) as u8));
        assert((b[0] / 16) * 16 + (b[0] % 16) == b[0]);
        assert(spec_hex_decode(s) == Some(seq![b[0]] + tail));
        assert(seq![b[0]] + tail =~= b);
    }
}

/// Relies on hex::decode: pairs of hexadecimal digits become bytes, and an
/// odd length or a non-hex character is an error.
#[verifier::external_body]
pub(crate) fn hex_decode(s: &str) -> (r: Option<Vec<u8>>)
    ensures
        match r {
            Some(v) => spec_hex_decode(s@) == Some(v@),
            None => spec_hex_decode(s@) is None,
        },
{
    hex::decode(s).ok()
}

// ---------------------------------------------------------------------------
// Character runs
// ---------------------------------------------------------------------------

/// Whether `c` is a word character: an ASCII letter, a digit, or an
/// underscore.
pub open spec fn is_word_char(c: char) -> bool {
    is_digit(c) || ('a' <= c && c <= 'z') || ('A' <= c && c <= 'Z') || c == '_'
}

/// The end of the run of word characters that starts at `i`: the first
/// index at or after `i` holding no word character, or the end of `s`.
pub open spec fn word_run_end(s: Seq<char>, i: int) -> int
    decreases s.len() - i,
{
    if i < 0 || i >= s.len() {
        i
    } else if is_word_char(s[i]) {
        word_run_end(s, i + 1)
    } else {
        i
    }
}

/// The end of the run of decimal digits that starts at `i`.
pub open spec fn digit_run_end(s: Seq<char>, i: int) -> int
    decreases s.len() - i,
{
    if i < 0 || i >= s.len() {
        i
    } else if is_digit(s[i]) {
        digit_run_end(s, i + 1)
    } else {
        i
    }
}

pub proof fn lemma_word_run_end(s: Seq<char>, i: int)
    requires
        0 <= i <= s.len(),
    ensures
        i <= word_run_end(s, i) <= s.len(),
        forall|j: int| i <= j < word_run_end(s, i) ==> is_word_char(#[trigger] s[j]),
    decreases s.len() - i,
{
    if i < s.len() && is_word_char(s[i]) {
        lemma_word_run_end(s, i + 1);
    }
}

pub proof fn lemma_digit_run_end(s: Seq<char>, i: int)
    requires
        0 <= i <= s.len(),
    ensures
        i <= digit_run_end(s, i) <= s.len(),
        forall|j: int| i <= j < digit_run_end(s, i) ==> is_digit(#[trigger] s[j]),
    decreases s.len() - i,
{
    if i < s.len() && is_digit(s[i]) {
        lemma_digit_run_end(s, i + 1);
    }
}

fn is_word_char_exec(c: char) -> (r: bool)
    ensures
        r == is_word_char(c),
{
    ('0' <= c && c <= '9') || ('a' <= c && c <= 'z') || ('A' <= c && c <= 'Z') || c == '_'
}

fn is_digit_exec(c: char) -> (r: bool)
    ensures
        r == is_digit(c),
{
    '0' <= c && c <= '9'
}

/// Finds the end of the word-character run that starts at `from`.
pub fn word_run_end_exec(s: &str, from: usize) -> (r: usize)
    requires
        from <= s@.len(),
    ensures
        r == word_run_end(s@, from as int),
        from <= r <= s@.len(),
{
    let n = s.unicode_len();
    let mut i = from;
    while i < n
        invariant
            from <= i <= n == s@.len(),
            word_run_end(s@, from as int) == word_run_end(s@, i as int),
        decreases n - i,
    {
        if !is_word_char_exec(s.get_char(i)) {
            return i;
        }
        i = i + 1;
    }
    i
}

/// Finds the end of the digit run that starts at `from`.
pub fn digit_run_end_exec(s: &str, from: usize) -> (r: usize)
    requires
        from <= s@.len(),
    ensures
        r == digit_run_end(s@, from as int),
        from <= r <= s@.len(),
{
    let n = s.unicode_len();
    let mut i = from;
    while i < n
        invariant
            from <= i <= n == s@.len(),
            digit_run_end(s@, from as int) == digit_run_end(s@, i as int),
        decreases n - i,
    {
        if !is_digit_exec(s.get_char(i)) {
            return i;
        }
        i = i + 1;
    }
    i
}

// ---------------------------------------------------------------------------
// Prefix matching
// ---------------------------------------------------------------------------

/// Whether `p` is a prefix of `s`.
pub open spec fn is_prefix_of(p: Seq<char>, s: Seq<char>) -> bool {
    p.len() <= s.len() && s.subrange(0, p.len() as int) == p
}

/// Whether two strings hold the same characters.
pub fn str_eq(a: &str, b: &str) -> (r: bool)
    ensures
        r == (a@ == b@),
{
    let na = a.unicode_len();
    let nb = b.unicode_len();
    if na != nb {
        return false;
    }
    let mut i: usize = 0;
    while i < na
        invariant
            0 <= i <= na == a@.len(),
            na == nb == b@.len(),
            forall|j: int| 0 <= j < i ==> a@[j] == b@[j],
        decreases na - i,
    {
        if a.get_char(i) != b.get_char(i) {
            assert(a@[i as int] != b@[i as int]);
            return false;
        }
        i = i + 1;
    }
    proof {
        assert(a@ =~= b@);
    }
    true
}

/// Whether the string `s` starts with the prefix `p`.
pub fn starts_with(s: &str, p: &str) -> (r: bool)
    ensures
        r == is_prefix_of(p@, s@),
{
    let np = p.unicode_len();
    let ns = s.unicode_len();
    if np > ns {
        assert(!is_prefix_of(p@, s@));
        return false;
    }
    let mut i: usize = 0;
    while i < np
        invariant
            0 <= i <= np == p@.len(),
            np <= ns == s@.len(),
            forall|j: int| 0 <= j < i ==> s@[j] == p@[j],
        decreases np - i,
    {
        if s.get_char(i) != p.get_char(i) {
            assert(s@.subrange(0, np as int) != p@) by {
                assert(s@.subrange(0, np as int)[i as int] != p@[i as int]);
            }
            return false;
        }
        i = i + 1;
    }
    assert(s@.subrange(0, np as int) =~= p@);
    true
}

} // verus!
