//! Decimal text of 32-bit integers: rendering (as `Display` and `Debug` do
//! for `i32`) and parsing (as `str::parse::<i32>` does).
use vstd::prelude::*;
use crate::text::push_char;

verus! {

/// The ASCII digit for a value below ten.
pub open spec fn digit_char(d: nat) -> char {
    (('0' as u8) + d) as char
}

/// The decimal digits of a natural number, most significant first, without
/// leading zeros (zero is the single digit `0`).
pub open spec fn nat_digits(n: nat) -> Seq<char>
    decreases n,
{
    if n < 10 {
        seq![digit_char(n)]
    } else {
        nat_digits(n / 10).push(digit_char(n % 10))
    }
}

/// The decimal text of an integer: a minus sign for negative values, then
/// the digits of its magnitude.
pub open spec fn decimal_text(i: int) -> Seq<char> {
    if i < 0 {
        seq!['-'] + nat_digits((-i) as nat)
    } else {
        nat_digits(i as nat)
    }
}

/// Whether a character is an ASCII decimal digit.
pub open spec fn is_digit(c: char) -> bool {
    '0' <= c <= '9'
}

/// The value of an ASCII decimal digit.
pub open spec fn digit_value(c: char) -> nat {
    (c as u32 - '0' as u32) as nat
}

/// The value of a sequence of decimal digits, read most significant first.
pub open spec fn digits_value(s: Seq<char>) -> nat
    decreases s.len(),
{
    if s.len() == 0 {
        0
    } else {
        digits_value(s.drop_last()) * 10 + digit_value(s.last())
    }
}

/// Every character of `s` is a decimal digit.
pub open spec fn all_digits(s: Seq<char>) -> bool {
    forall|i: int| 0 <= i < s.len() ==> is_digit(#[trigger] s[i])
}

/// The integer that `str::parse::<i32>` reads from `s`: an optional `+` or
/// `-`, then one or more ASCII digits, whose signed value fits in `i32`.
pub open spec fn parse_i32_spec(s: Seq<char>) -> Option<i32> {
    let negative = s.len() > 0 && s[0] == '-';
    let signed = s.len() > 0 && (s[0] == '-' || s[0] == '+');
    let digits = if signed { s.drop_first() } else { s };
    if digits.len() == 0 || !all_digits(digits) {
        None
    } else {
        let v: int = if negative { -(digits_value(digits) as int) } else { digits_value(digits) as int };
        if i32::MIN <= v <= i32::MAX {
            Some(v as i32)
        } else {
            None
        }
    }
}


/// The digit character for a value below ten.
fn digit(d: u32) -> (c: char)
    requires
        d < 10,
    ensures
        c == digit_char(d as nat),
{
    ((d as u8) + 48u8) as char
}

/// Appends the decimal digits of `n` to `s`.
fn push_digits(s: &mut String, n: u32)
    ensures
        final(s)@ == old(s)@ + nat_digits(n as nat),
    decreases n,
{
    if n >= 10 {
        push_digits(s, n / 10);
    }
    push_char(s, digit(n % 10));
    proof {
        if n >= 10 {
            assert(nat_digits(n as nat) == nat_digits((n / 10) as nat).push(digit_char((n % 10) as nat)));
        }
    }
}

/// The decimal text of `n`, as `i32`'s `Display` and `Debug` write it.
pub fn decimal_string(n: i32) -> (s: String)
    ensures
        s@ == decimal_text(n as int),
{
    let mut s = String::new();
    if n < 0 {
        push_char(&mut s, '-');
        let magnitude: u32 = (-(n as i64)) as u32;
        push_digits(&mut s, magnitude);
    } else {
        push_digits(&mut s, n as u32);
    }
    s
}

/// A prefix of a digit sequence is worth no more than the whole sequence.
proof fn lemma_digits_value_prefix(s: Seq<char>, k: int)
    requires
        0 <= k <= s.len(),
    ensures
        digits_value(s.take(k)) <= digits_value(s),
    decreases s.len() - k,
{
    if k < s.len() {
        lemma_digits_value_prefix(s, k + 1);
        assert(s.take(k + 1).drop_last() =~= s.take(k));
    } else {
        assert(s.take(k) =~= s);
    }
}

/// Reads an `i32` from decimal text as `str::parse::<i32>` does: an optional
/// sign, then one or more ASCII digits whose value fits.
pub fn parse_i32(s: &[char]) -> (r: Option<i32>)
    ensures
        r == parse_i32_spec(s@),
{
    let len = s.len();
    let mut start: usize = 0;
    let mut negative = false;
    if len > 0 && (s[0] == '-' || s[0] == '+') {
        negative = s[0] == '-';
        start = 1;
    }
    let ghost digits = if start == 1 { s@.drop_first() } else { s@ };
    assert(digits =~= s@.subrange(start as int, len as int));
    if start == len {
        return None;
    }
    let limit: i64 = 2147483648;
    let mut acc: i64 = 0;
    let mut i: usize = start;
    while i < len
        invariant
            start <= i <= len,
            len == s@.len(),
            start == (if len > 0 && (s@[0] == '-' || s@[0] == '+') { 1usize } else { 0usize }),
            negative == (len > 0 && s@[0] == '-'),
            digits =~= s@.subrange(start as int, len as int),
            0 <= acc <= limit,
            limit == 2147483648,
            acc == digits_value(digits.take(i - start)),
            all_digits(digits.take(i - start)),
        decreases len - i,
    {
        let c = s[i];
        if !('0' <= c && c <= '9') {
            assert(!is_digit(digits[i - start]));
            return None;
        }
        let d = (c as u32 - '0' as u32) as i64;
        let next = acc * 10 + d;
        assert(digits.take(i - start + 1).drop_last() =~= digits.take(i - start));
        assert(digits.take(i - start + 1).last() == c);
        assert(digits_value(digits.take(i - start + 1)) == next);
        if next > limit {
            proof {
                lemma_digits_value_prefix(digits, i - start + 1);
                if all_digits(digits) {
                    assert(digits_value(digits) > 2147483648);
                    let signed = s@.len() > 0 && (s@[0] == '-' || s@[0] == '+');
                    assert(digits == (if signed { s@.drop_first() } else { s@ }));
                    assert(digits.len() > 0);
                }
            }
            return None;
        }
        acc = next;
        i = i + 1;
    }
    assert(digits.take(len - start) =~= digits);
    if negative {
        let v = -acc;
        Some(v as i32)
    } else if acc <= 2147483647 {
        Some(acc as i32)
    } else {
        None
    }
}

/// The digits of a natural number are digits, at least one of them, and
/// read back as the number.
pub proof fn lemma_nat_digits(m: nat)
    ensures
        nat_digits(m).len() > 0,
        all_digits(nat_digits(m)),
        digits_value(nat_digits(m)) == m,
    decreases m,
{
    let s = nat_digits(m);
    if m >= 10 {
        lemma_nat_digits(m / 10);
        assert(s.drop_last() =~= nat_digits(m / 10));
        assert(digit_value(s.last()) == m % 10);
        assert(digits_value(s.drop_last()) == m / 10);
        assert(digits_value(s) == m);
        assert forall|i: int| 0 <= i < s.len() implies is_digit(#[trigger] s[i]) by {
            if i < s.len() - 1 {
                assert(s[i] == nat_digits(m / 10)[i]);
            }
        }
    } else {
        assert(s.drop_last() =~= Seq::<char>::empty());
        assert(digits_value(s.drop_last()) == 0);
        assert(digit_value(s.last()) == m);
        assert(digits_value(s) == m);
    }
}

/// Rendering an `i32` as decimal text and reading the text back gives the
/// same integer.
pub proof fn lemma_parse_decimal_roundtrip(n: i32)
    ensures
        parse_i32_spec(decimal_text(n as int)) == Some(n),
{
    let t = decimal_text(n as int);
    if n < 0 {
        let m = (-(n as int)) as nat;
        lemma_nat_digits(m);
        assert(t.drop_first() =~= nat_digits(m));
    } else {
        lemma_nat_digits(n as nat);
        assert(is_digit(t[0]));
    }
}

} // verus!
