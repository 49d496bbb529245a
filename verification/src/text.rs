//! Small text primitives shared by the lexer, the resolution engine and the
//! configuration file formats: bridging between `String` and `Vec<char>`,
//! string equality, and decimal / hexadecimal numerals.

use vstd::prelude::*;

verus! {

/// The characters of a string slice, in order.
pub fn chars_of(s: &str) -> (v: Vec<char>)
    ensures
        v@ == s@,
{
    let n = s.unicode_len();
    let mut v: Vec<char> = Vec::new();
    let mut i: usize = 0;
    while i < n
        invariant
            n == s@.len(),
            i <= n,
            v@ == s@.subrange(0, i as int),
        decreases n - i,
    {
        v.push(s.get_char(i));
        i = i + 1;
        proof {
            assert(v@ =~= s@.subrange(0, i as int));
        }
    }
    proof {
        assert(v@ =~= s@);
    }
    v
}

/// Relies on `core::iter::Iterator::collect` for `String`: collecting
/// a sequence of characters yields the string of exactly those characters.
#[verifier::external_body]
pub fn string_of(v: &Vec<char>) -> (s: String)
    ensures
        s@ == v@,
{
    v.iter().collect()
}

/// Whether two string slices hold the same characters.
pub fn str_eq(a: &str, b: &str) -> (r: bool)
    ensures
        r == (a@ == b@),
{
    let na = a.unicode_len();
    let nb = b.unicode_len();
    if na != nb {
        proof {
            assert(a@ != b@);
        }
        return false;
    }
    let mut i: usize = 0;
    while i < na
        invariant
            na == a@.len(),
            a@.len() == b@.len(),
            i <= na,
            forall|j: int| 0 <= j < i ==> a@[j] == b@[j],
        decreases na - i,
    {
        if a.get_char(i) != b.get_char(i) {
            return false;
        }
        i = i + 1;
    }
    proof {
        assert(a@ =~= b@);
    }
    true
}

/// The character for a single decimal digit.
pub open spec fn spec_digit_char(d: int) -> char {
    if d == 0 {
        '0'
    } else if d == 1 {
        '1'
    } else if d == 2 {
        '2'
    } else if d == 3 {
        '3'
    } else if d == 4 {
        '4'
    } else if d == 5 {
        '5'
    } else if d == 6 {
        '6'
    } else if d == 7 {
        '7'
    } else if d == 8 {
        '8'
    } else {
        '9'
    }
}

/// The decimal numeral of a non-negative integer, most significant digit
/// first, with no leading zeros (zero itself is "0").
pub open spec fn spec_dec_seq(n: int) -> Seq<char>
    decreases n,
{
    if n < 10 {
        seq![spec_digit_char(if n < 0 { 0 } else { n })]
    } else {
        spec_dec_seq(n / 10).push(spec_digit_char(n % 10))
    }
}

/// The decimal numeral of an integer: a minus sign, for a negative value,
/// followed by the numeral of its magnitude.
pub open spec fn spec_int_seq(i: int) -> Seq<char> {
    if i >= 0 {
        spec_dec_seq(i)
    } else {
        seq!['-'].add(spec_dec_seq(-i))
    }
}

fn digit_char(d: u64) -> (c: char)
    requires
        d < 10,
    ensures
        c == spec_digit_char(d as int),
{
    match d {
        0 => '0',
        1 => '1',
        2 => '2',
        3 => '3',
        4 => '4',
        5 => '5',
        6 => '6',
        7 => '7',
        8 => '8',
        _ => '9',
    }
}

fn push_dec(n: u64, out: &mut Vec<char>)
    ensures
        final(out)@ == old(out)@ + spec_dec_seq(n as int),
    decreases n,
{
    if n < 10 {
        out.push(digit_char(n));
        proof {
            assert(out@ =~= old(out)@ + spec_dec_seq(n as int));
        }
    } else {
        push_dec(n / 10, out);
        out.push(digit_char(n % 10));
        proof {
            assert(out@ =~= old(out)@ + spec_dec_seq(n as int));
        }
    }
}

/// The decimal numeral of `i`, as characters.
pub fn int_chars(i: i64) -> (v: Vec<char>)
    ensures
        v@ == spec_int_seq(i as int),
{
    let mut v: Vec<char> = Vec::new();
    if i >= 0 {
        push_dec(i as u64, &mut v);
    } else {
        v.push('-');
        let m: u64 = ((-(i + 1)) as u64) + 1;
        assert(m == -(i as int));
        push_dec(m, &mut v);
        proof {
            assert(v@ =~= seq!['-'].add(spec_dec_seq(-(i as int))));
        }
    }
    v
}

/// The decimal numeral of `i`, as a `String`.
pub fn int_string(i: i64) -> (s: String)
    ensures
        s@ == spec_int_seq(i as int),
{
    let v = int_chars(i);
    string_of(&v)
}

/// Whether `c` is a decimal digit.
pub open spec fn spec_is_digit(c: char) -> bool {
    '0' <= c <= '9'
}

/// The numeric value of a decimal digit character.
pub open spec fn spec_digit_val(c: char) -> int {
    c as int - '0' as int
}

/// Whether `s` is a non-empty run of decimal digits.
pub open spec fn spec_all_digits(s: Seq<char>) -> bool {
    s.len() > 0 && forall|j: int| 0 <= j < s.len() ==> spec_is_digit(#[trigger] s[j])
}

/// The value of a run of decimal digits, most significant first.
pub open spec fn spec_dec_val(s: Seq<char>) -> int
    decreases s.len(),
{
    if s.len() == 0 {
        0
    } else {
        spec_dec_val(s.drop_last()) * 10 + spec_digit_val(s.last())
    }
}

/// Whether `s` is a decimal integer literal: an optional sign followed by
/// at least one digit.
pub open spec fn spec_is_int_literal(s: Seq<char>) -> bool {
    if s.len() > 0 && (s[0] == '-' || s[0] == '+') {
        spec_all_digits(s.subrange(1, s.len() as int))
    } else {
        spec_all_digits(s)
    }
}

/// The value of a decimal integer literal.
pub open spec fn spec_int_val(s: Seq<char>) -> int {
    if s.len() > 0 && s[0] == '-' {
        -spec_dec_val(s.subrange(1, s.len() as int))
    } else if s.len() > 0 && s[0] == '+' {
        spec_dec_val(s.subrange(1, s.len() as int))
    } else {
        spec_dec_val(s)
    }
}

/// A run of digits has a non-negative value.
proof fn lemma_dec_val_nonneg(s: Seq<char>)
    requires
        forall|j: int| 0 <= j < s.len() ==> spec_is_digit(#[trigger] s[j]),
    ensures
        spec_dec_val(s) >= 0,
    decreases s.len(),
{
    if s.len() > 0 {
        lemma_dec_val_nonneg(s.drop_last());
    }
}

/// Extending a digit run on the right never lowers its value.
proof fn lemma_dec_val_prefix(s: Seq<char>, i: int)
    requires
        forall|j: int| 0 <= j < s.len() ==> spec_is_digit(#[trigger] s[j]),
        0 <= i <= s.len(),
    ensures
        spec_dec_val(s.subrange(0, i)) <= spec_dec_val(s),
    decreases s.len() - i,
{
    if i < s.len() {
        let p = s.subrange(0, i);
        let q = s.subrange(0, i + 1);
        assert(q.drop_last() =~= p);
        lemma_dec_val_nonneg(p);
        lemma_dec_val_prefix(s, i + 1);
    } else {
        assert(s.subrange(0, i) =~= s);
    }
}

fn digit_val(c: char) -> (d: u64)
    requires
        spec_is_digit(c),
    ensures
        d == spec_digit_val(c),
        d < 10,
{
    (c as u32 - '0' as u32) as u64
}

/// Parses a run of decimal digits up to an inclusive bound.  Returns the
/// value exactly when `v` is non-empty, all digits, and the value is at
/// most `limit`.
pub fn parse_dec_bounded(v: &Vec<char>, limit: u64) -> (r: Option<u64>)
    ensures
        r is Some <==> spec_all_digits(v@) && spec_dec_val(v@) <= limit,
        r matches Some(n) ==> n == spec_dec_val(v@),
{
    if v.len() == 0 {
        return None;
    }
    let mut acc: u64 = 0;
    let mut i: usize = 0;
    while i < v.len()
        invariant
            i <= v@.len(),
            forall|j: int| 0 <= j < i ==> spec_is_digit(#[trigger] v@[j]),
            acc == spec_dec_val(v@.subrange(0, i as int)),
            acc <= limit,
        decreases v@.len() - i,
    {
        let c = v[i];
        if !('0' <= c && c <= '9') {
            return None;
        }
        let d = digit_val(c);
        proof {
            assert(v@.subrange(0, i + 1 as int).drop_last() =~= v@.subrange(0, i as int));
        }
        if d > limit || acc > (limit - d) / 10 {
            proof {
                if spec_all_digits(v@) {
                    lemma_dec_val_prefix(v@, i + 1 as int);
                    assert(v@.subrange(0, v@.len() as int) =~= v@);
                    assert(spec_dec_val(v@) > limit);
                }
            }
            return None;
        }
        acc = acc * 10 + d;
        i = i + 1;
    }
    proof {
        assert(v@.subrange(0, v@.len() as int) =~= v@);
    }
    Some(acc)
}

/// Parses a run of decimal digits.  Returns its value exactly when `v` is
/// non-empty, all digits, and the value fits in `i64`.
pub fn parse_dec(v: &Vec<char>) -> (r: Option<i64>)
    ensures
        r is Some <==> spec_all_digits(v@) && spec_dec_val(v@) <= i64::MAX,
        r matches Some(n) ==> n == spec_dec_val(v@),
{
    match parse_dec_bounded(v, 9223372036854775807u64) {
        Some(n) => Some(n as i64),
        None => None,
    }
}

/// Parses a decimal integer literal (optional sign, then digits), as
/// `str::parse::<i64>` reads it.  Returns its value exactly when the
/// literal is well-formed and the value fits in `i64` (including
/// `i64::MIN`).
pub fn parse_int(v: &Vec<char>) -> (r: Option<i64>)
    ensures
        r is Some <==> spec_is_int_literal(v@) && i64::MIN <= spec_int_val(v@) <= i64::MAX,
        r matches Some(n) ==> n == spec_int_val(v@),
{
    if v.len() > 0 && (v[0] == '-' || v[0] == '+') {
        let neg = v[0] == '-';
        let mut tail: Vec<char> = Vec::new();
        let mut i: usize = 1;
        while i < v.len()
            invariant
                1 <= i <= v@.len(),
                tail@ == v@.subrange(1, i as int),
            decreases v@.len() - i,
        {
            tail.push(v[i]);
            i = i + 1;
            proof {
                assert(tail@ =~= v@.subrange(1, i as int));
            }
        }
        proof {
            assert(tail@ =~= v@.subrange(1, v@.len() as int));
            if spec_all_digits(tail@) {
                lemma_dec_val_nonneg(tail@);
            }
        }
        if neg {
            match parse_dec_bounded(&tail, 9223372036854775808u64) {
                Some(m) => {
                    if m == 9223372036854775808u64 {
                        Some(i64::MIN)
                    } else {
                        Some(-(m as i64))
                    }
                },
                None => None,
            }
        } else {
            match parse_dec_bounded(&tail, 9223372036854775807u64) {
                Some(m) => Some(m as i64),
                None => None,
            }
        }
    } else {
        proof {
            if spec_all_digits(v@) {
                lemma_dec_val_nonneg(v@);
            }
        }
        parse_dec(v)
    }
}

/// Whether `c` is a hexadecimal digit.
pub open spec fn spec_is_hex_digit(c: char) -> bool {
    ('0' <= c <= '9') || ('a' <= c <= 'f') || ('A' <= c <= 'F')
}

/// The numeric value of a hexadecimal digit character.
pub open spec fn spec_hex_digit_val(c: char) -> int {
    if '0' <= c <= '9' {
        c as int - '0' as int
    } else if 'a' <= c <= 'f' {
        c as int - 'a' as int + 10
    } else {
        c as int - 'A' as int + 10
    }
}

/// Whether `s` is a hexadecimal literal: `0x` or `0X`, then at least one
/// hex digit.
pub open spec fn spec_is_hex_literal(s: Seq<char>) -> bool {
    &&& s.len() > 2
    &&& s[0] == '0'
    &&& (s[1] == 'x' || s[1] == 'X')
    &&& forall|j: int| 2 <= j < s.len() ==> spec_is_hex_digit(#[trigger] s[j])
}

/// The value of the digit run of a hexadecimal literal (everything after
/// the `0x` prefix).
pub open spec fn spec_hex_val(s: Seq<char>) -> int
    decreases s.len(),
{
    if s.len() <= 2 {
        0
    } else {
        spec_hex_val(s.drop_last()) * 16 + spec_hex_digit_val(s.last())
    }
}

proof fn lemma_hex_val_nonneg(s: Seq<char>)
    requires
        forall|j: int| 2 <= j < s.len() ==> spec_is_hex_digit(#[trigger] s[j]),
    ensures
        spec_hex_val(s) >= 0,
    decreases s.len(),
{
    if s.len() > 2 {
        lemma_hex_val_nonneg(s.drop_last());
    }
}

proof fn lemma_hex_val_prefix(s: Seq<char>, i: int)
    requires
        forall|j: int| 2 <= j < s.len() ==> spec_is_hex_digit(#[trigger] s[j]),
        2 <= i <= s.len(),
    ensures
        spec_hex_val(s.subrange(0, i)) <= spec_hex_val(s),
    decreases s.len() - i,
{
    if i < s.len() {
        let p = s.subrange(0, i);
        let q = s.subrange(0, i + 1);
        assert(q.drop_last() =~= p);
        lemma_hex_val_nonneg(p);
        lemma_hex_val_prefix(s, i + 1);
    } else {
        assert(s.subrange(0, i) =~= s);
    }
}

fn hex_digit_val(c: char) -> (d: u64)
    requires
        spec_is_hex_digit(c),
    ensures
        d == spec_hex_digit_val(c),
        d < 16,
{
    if '0' <= c && c <= '9' {
        (c as u32 - '0' as u32) as u64
    } else if 'a' <= c && c <= 'f' {
        (c as u32 - 'a' as u32) as u64 + 10
    } else {
        (c as u32 - 'A' as u32) as u64 + 10
    }
}

/// Parses a hexadecimal literal of the form `0x...`.  Returns its value
/// exactly when the literal is well-formed and the value fits in `i64`.
pub fn parse_hex(v: &Vec<char>) -> (r: Option<i64>)
    ensures
        r is Some <==> spec_is_hex_literal(v@) && spec_hex_val(v@) <= i64::MAX,
        r matches Some(n) ==> n == spec_hex_val(v@),
{
    if v.len() <= 2 {
        return None;
    }
    if !(v[0] == '0' && (v[1] == 'x' || v[1] == 'X')) {
        return None;
    }
    let mut acc: i64 = 0;
    let mut i: usize = 2;
    while i < v.len()
        invariant
            2 <= i <= v@.len(),
            forall|j: int| 2 <= j < i ==> spec_is_hex_digit(#[trigger] v@[j]),
            acc == spec_hex_val(v@.subrange(0, i as int)),
            acc >= 0,
        decreases v@.len() - i,
    {
        let c = v[i];
        if !(('0' <= c && c <= '9') || ('a' <= c && c <= 'f') || ('A' <= c && c <= 'F')) {
            return None;
        }
        let d = hex_digit_val(c);
        proof {
            assert(v@.subrange(0, i + 1 as int).drop_last() =~= v@.subrange(0, i as int));
        }
        if acc > (i64::MAX - d as i64) / 16 {
            proof {
                if spec_is_hex_literal(v@) {
                    lemma_hex_val_prefix(v@, i + 1 as int);
                    assert(v@.subrange(0, v@.len() as int) =~= v@);
                    assert(spec_hex_val(v@) > i64::MAX);
                }
            }
            return None;
        }
        acc = acc * 16 + d as i64;
        i = i + 1;
    }
    proof {
        assert(v@.subrange(0, v@.len() as int) =~= v@);
    }
    Some(acc)
}

} // verus!
