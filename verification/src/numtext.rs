//! Decimal text: formatting integers for display and parsing the decimal
//! fields that reach the library as text (ports on the command line, numeric
//! JSON leaves).

use vstd::prelude::*;

verus! {

/// The character for one decimal digit value.
pub open spec fn digit_char(d: int) -> char {
    if d == 0 { '0' }
    else if d == 1 { '1' }
    else if d == 2 { '2' }
    else if d == 3 { '3' }
    else if d == 4 { '4' }
    else if d == 5 { '5' }
    else if d == 6 { '6' }
    else if d == 7 { '7' }
    else if d == 8 { '8' }
    else { '9' }
}

/// The decimal digit string of a non-negative number, without sign and
/// without leading zeroes (`0` itself is "0").
pub open spec fn dec_digits(n: nat) -> Seq<char>
    decreases n,
{
    if n < 10 {
        seq![digit_char(n as int)]
    } else {
        dec_digits(n / 10) + seq![digit_char((n % 10) as int)]
    }
}

/// The decimal string of an integer: a leading minus sign for negatives.
pub open spec fn dec_int(n: int) -> Seq<char> {
    if n < 0 {
        seq!['-'] + dec_digits((-n) as nat)
    } else {
        dec_digits(n as nat)
    }
}

/// Whether `c` is a decimal digit.
pub open spec fn is_digit(c: char) -> bool {
    48 <= c as u32 <= 57
}

/// The value of a decimal digit character.
pub open spec fn digit_val(c: char) -> int {
    c as u32 - 48
}

/// Whether every character of `s` is a decimal digit.
pub open spec fn all_digits(s: Seq<char>) -> bool {
    forall|i: int| 0 <= i < s.len() ==> is_digit(s[i])
}

/// The numeric value of a digit string (0 for the empty string).
pub open spec fn dec_val(s: Seq<char>) -> int
    decreases s.len(),
{
    if s.len() == 0 {
        0
    } else {
        dec_val(s.drop_last()) * 10 + digit_val(s.last())
    }
}

/// One digit as a string slice.
fn digit_str(d: u64) -> (s: &'static str)
    requires
        d < 10,
    ensures
        s@ == seq![digit_char(d as int)],
{
    proof {
        reveal_strlit("0");
        reveal_strlit("1");
        reveal_strlit("2");
        reveal_strlit("3");
        reveal_strlit("4");
        reveal_strlit("5");
        reveal_strlit("6");
        reveal_strlit("7");
        reveal_strlit("8");
        reveal_strlit("9");
    }
    if d == 0 { "0" }
    else if d == 1 { "1" }
    else if d == 2 { "2" }
    else if d == 3 { "3" }
    else if d == 4 { "4" }
    else if d == 5 { "5" }
    else if d == 6 { "6" }
    else if d == 7 { "7" }
    else if d == 8 { "8" }
    else { "9" }
}

/// Formats an unsigned number in decimal.
pub fn fmt_u64(n: u64) -> (r: String)
    ensures
        r@ == dec_digits(n as nat),
    decreases n,
{
    if n < 10 {
        String::from_str(digit_str(n))
    } else {
        let mut r = fmt_u64(n / 10);
        r.append(digit_str(n % 10));
        r
    }
}

/// Formats a signed number in decimal, with a leading minus for negatives.
pub fn fmt_i64(n: i64) -> (r: String)
    ensures
        r@ == dec_int(n as int),
{
    if n >= 0 {
        fmt_u64(n as u64)
    } else {
        let magnitude: u64 = ((-(n + 1)) as u64) + 1;
        proof {
            assert(((-(n + 1)) as u64) + 1 == -(n as int)) by (bit_vector)
                requires n < 0;
        }
        let mut r = String::from_str("-");
        proof {
            reveal_strlit("-");
        }
        r.append(fmt_u64(magnitude).as_str());
        r
    }
}

/// The decimal value of the digit string grows when a digit is appended.
proof fn lemma_dec_val_snoc(s: Seq<char>, c: char)
    ensures
        dec_val(s.push(c)) == dec_val(s) * 10 + digit_val(c),
{
    assert(s.push(c).drop_last() =~= s);
}

/// Parsing an unsigned 16-bit decimal number: an optional leading plus sign,
/// then at least one digit, with a value of at most 65535.
pub open spec fn spec_parse_u16(s: Seq<char>) -> Option<u16> {
    let body = if s.len() > 0 && s[0] == '+' {
        s.skip(1)
    } else {
        s
    };
    if body.len() > 0 && all_digits(body) && dec_val(body) <= 0xffff {
        Some(dec_val(body) as u16)
    } else {
        None
    }
}

/// Parses a decimal port number as `u16::from_str` does: optional `+`,
/// digits, value at most 65535; anything else is rejected.
pub fn parse_u16(s: &str) -> (r: Option<u16>)
    ensures
        r == spec_parse_u16(s@),
{
    let n = s.unicode_len();
    let start: usize = if n > 0 && s.get_char(0) == '+' {
        1
    } else {
        0
    };
    let ghost body = if s@.len() > 0 && s@[0] == '+' { s@.skip(1) } else { s@ };
    if n == start {
        return None;
    }
    let mut acc: u32 = 0;
    let mut i: usize = start;
    while i < n
        invariant
            start <= i <= n,
            n == s@.len(),
            start == 0 || start == 1,
            start == 1 ==> s@.len() > 0 && s@[0] == '+',
            start == 0 ==> !(s@.len() > 0 && s@[0] == '+'),
            body == s@.skip(start as int),
            all_digits(s@.skip(start as int).take(i - start)),
            acc <= 70000,
            dec_val(body.take(i - start)) <= 0xffff ==> acc == dec_val(body.take(i - start)),
            dec_val(body.take(i - start)) > 0xffff ==> acc > 0xffff,
        decreases n - i,
    {
        let c = s.get_char(i);
        let u = c as u32;
        if u < 48 || u > 57 {
            proof {
                assert(body[i - start] == s@[i as int]);
                assert(!is_digit(body[i - start]));
            }
            return None;
        }
        let d = u - 48;
        let ghost pre = body.take(i - start);
        proof {
            assert(pre.push(c) =~= body.take(i + 1 - start));
            lemma_dec_val_snoc(pre, c);
            if dec_val(pre) > 0xffff {
                assert(dec_val(pre) * 10 + digit_val(c) > 0xffff);
            }
        }
        let next = acc * 10 + d;
        acc = if next > 70000 {
            70000
        } else {
            next
        };
        i = i + 1;
    }
    proof {
        assert(body.take(n - start) =~= body);
    }
    if acc > 0xffff {
        None
    } else {
        Some(acc as u16)
    }
}

/// Parsing a signed 32-bit decimal number: an optional leading minus sign,
/// then at least one digit, with a value in the 32-bit signed range.
pub open spec fn spec_parse_i32(s: Seq<char>) -> Option<i32> {
    let negative = s.len() > 0 && s[0] == '-';
    let body = if negative {
        s.skip(1)
    } else {
        s
    };
    if body.len() > 0 && all_digits(body) {
        if negative && dec_val(body) <= 0x8000_0000 {
            Some((-dec_val(body)) as i32)
        } else if !negative && dec_val(body) <= 0x7fff_ffff {
            Some(dec_val(body) as i32)
        } else {
            None
        }
    } else {
        None
    }
}

/// Parses a signed 32-bit decimal integer: optional `-`, digits, value in
/// range; anything else is rejected.
pub fn parse_i32(s: &str) -> (r: Option<i32>)
    ensures
        r == spec_parse_i32(s@),
{
    let n = s.unicode_len();
    let negative = n > 0 && s.get_char(0) == '-';
    let start: usize = if negative {
        1
    } else {
        0
    };
    let ghost body = if s@.len() > 0 && s@[0] == '-' { s@.skip(1) } else { s@ };
    if n == start {
        return None;
    }
    let mut acc: u64 = 0;
    let mut i: usize = start;
    while i < n
        invariant
            start <= i <= n,
            n == s@.len(),
            negative == (s@.len() > 0 && s@[0] == '-'),
            start == if negative { 1int } else { 0int },
            body == s@.skip(start as int),
            all_digits(s@.skip(start as int).take(i - start)),
            acc <= 0xf000_0000_0,
            dec_val(body.take(i - start)) <= 0x8000_0000 ==> acc == dec_val(body.take(i - start)),
            dec_val(body.take(i - start)) > 0x8000_0000 ==> acc > 0x8000_0000,
        decreases n - i,
    {
        let c = s.get_char(i);
        let u = c as u32;
        if u < 48 || u > 57 {
            proof {
                assert(body[i - start] == s@[i as int]);
                assert(!is_digit(body[i - start]));
            }
            return None;
        }
        let d = (u - 48) as u64;
        let ghost pre = body.take(i - start);
        proof {
            assert(pre.push(c) =~= body.take(i + 1 - start));
            lemma_dec_val_snoc(pre, c);
            if dec_val(pre) > 0x8000_0000 {
                assert(dec_val(pre) * 10 + digit_val(c) > 0x8000_0000);
            }
        }
        let next = acc * 10 + d;
        acc = if next > 0xf000_0000_0 {
            0xf000_0000_0
        } else {
            next
        };
        i = i + 1;
    }
    proof {
        assert(body.take(n - start) =~= body);
    }
    if negative {
        if acc > 0x8000_0000 {
            None
        } else {
            Some(neg_i32(acc))
        }
    } else {
        if acc > 0x7fff_ffff {
            None
        } else {
            Some(acc as i32)
        }
    }
}

/// The negation of a magnitude that fits the signed 32-bit range.
fn neg_i32(magnitude: u64) -> (r: i32)
    requires
        magnitude <= 0x8000_0000,
    ensures
        r == (-(magnitude as int)) as i32,
{
    if magnitude == 0x8000_0000 {
        i32::MIN
    } else {
        -(magnitude as i32)
    }
}

} // verus!
