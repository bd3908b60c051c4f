//! Whole numbers in base ten: reading them from text and writing them out.

use vstd::prelude::*;
use vstd::string::*;
use crate::text::to_chars;

verus! {

pub open spec fn is_digit(c: char) -> bool {
    '0' <= c <= '9'
}

/// The number a digit stands for.
pub open spec fn digit_value(c: char) -> int {
    c as int - '0' as int
}

/// The digit that stands for `d`, for `d` from 0 to 9.
pub open spec fn digit_char(d: int) -> char {
    ('0' as int + d) as char
}

pub open spec fn all_digits(text: Seq<char>) -> bool {
    forall|i: int| 0 <= i < text.len() ==> is_digit(#[trigger] text[i])
}

/// The number that a run of digits stands for, the most significant digit first.
pub open spec fn digits_value(digits: Seq<char>) -> nat
    decreases digits.len(),
{
    if digits.len() == 0 {
        0
    } else {
        (digits_value(digits.drop_last()) * 10 + digit_value(digits.last())) as nat
    }
}

/// The integer that `text` denotes, if it denotes one: an optional sign, then one or more
/// digits and nothing else. The sign may be `+` for every type and `-` for a signed one only.
pub open spec fn integer_of(text: Seq<char>, signed: bool) -> Option<int> {
    let negative = signed && text.len() > 0 && text[0] == '-';
    let digits = if text.len() > 0 && (text[0] == '+' || negative) {
        text.skip(1)
    } else {
        text
    };
    if digits.len() > 0 && all_digits(digits) {
        Some(if negative { -(digits_value(digits) as int) } else { digits_value(digits) as int })
    } else {
        None
    }
}

/// The integer that `text` denotes, provided it lies between `min` and `max`.
pub open spec fn integer_within(text: Seq<char>, signed: bool, min: int, max: int) -> Option<int> {
    match integer_of(text, signed) {
        Some(v) => if min <= v <= max { Some(v) } else { None },
        None => None,
    }
}

/// `n` written in base ten without a sign or leading zeros.
pub open spec fn decimal(n: nat) -> Seq<char>
    decreases n,
{
    if n < 10 {
        seq![digit_char(n as int)]
    } else {
        decimal(n / 10).push(digit_char((n % 10) as int))
    }
}

/// `i` written in base ten, with a minus sign in front if it is negative.
pub open spec fn signed_decimal(i: int) -> Seq<char> {
    if i < 0 {
        seq!['-'] + decimal((-i) as nat)
    } else {
        decimal(i as nat)
    }
}

/// A run of digits is worth at least as much as any of its beginnings.
pub proof fn lemma_digits_value_grows(digits: Seq<char>, k: int)
    requires
        0 <= k <= digits.len(),
        all_digits(digits),
    ensures
        digits_value(digits.take(k)) <= digits_value(digits),
    decreases digits.len() - k,
{
    if k == digits.len() {
        assert(digits.take(k) == digits);
    } else {
        lemma_digits_value_grows(digits, k + 1);
        let longer = digits.take(k + 1);
        assert(longer.drop_last() == digits.take(k));
        assert(is_digit(longer.last()));
    }
}

/// What `decimal` writes is a nonempty run of digits that stands for the number written.
pub proof fn lemma_decimal_is_digits(n: nat)
    ensures
        decimal(n).len() > 0,
        all_digits(decimal(n)),
        digits_value(decimal(n)) == n,
    decreases n,
{
    if n < 10 {
        let d = decimal(n);
        assert(d.drop_last() == Seq::<char>::empty());
        assert(digits_value(d.drop_last()) == 0);
    } else {
        lemma_decimal_is_digits(n / 10);
        let d = decimal(n);
        assert(d.drop_last() == decimal(n / 10));
        assert forall|i: int| 0 <= i < d.len() implies is_digit(#[trigger] d[i]) by {
            if i < d.len() - 1 {
                assert(d[i] == decimal(n / 10)[i]);
            }
        }
    }
}

/// Reading back what was written gives the number again, whether the reader accepts a minus
/// sign or not.
pub proof fn lemma_decimal_reads_back(n: nat, signed: bool)
    ensures
        integer_of(decimal(n), signed) == Some(n as int),
{
    lemma_decimal_is_digits(n);
    assert(is_digit(decimal(n)[0]));
}

/// Reading back a signed number that was written gives the number again.
pub proof fn lemma_signed_decimal_reads_back(i: int)
    ensures
        integer_of(signed_decimal(i), true) == Some(i),
{
    if i < 0 {
        let n = (-i) as nat;
        lemma_decimal_is_digits(n);
        let text = signed_decimal(i);
        assert(text.skip(1) == decimal(n));
        assert(text[0] == '-');
    } else {
        lemma_decimal_reads_back(i as nat, true);
    }
}

/// The number that `chars[from..]` stands for, if that is a nonempty run of digits worth at
/// most `limit`.
fn magnitude(chars: &Vec<char>, from: usize, limit: u128) -> (r: Option<u128>)
    requires
        from <= chars.len(),
        limit <= 0xffff_ffff_ffff_ffff_ffff,
    ensures
        r == (if from < chars.len() && all_digits(chars@.skip(from as int)) && digits_value(
            chars@.skip(from as int),
        ) <= limit {
            Some(digits_value(chars@.skip(from as int)) as u128)
        } else {
            None
        }),
{
    let ghost digits = chars@.skip(from as int);
    if from >= chars.len() {
        return None;
    }
    let mut total: u128 = 0;
    let mut i: usize = from;
    while i < chars.len()
        invariant
            from <= i <= chars.len(),
            digits == chars@.skip(from as int),
            all_digits(digits.take(i - from)),
            total == digits_value(digits.take(i - from)),
            total <= limit <= 0xffff_ffff_ffff_ffff_ffff,
        decreases chars.len() - i,
    {
        let c = chars[i];
        let ghost longer = digits.take(i - from + 1);
        proof {
            assert(longer.drop_last() == digits.take(i - from));
            assert(longer.last() == c);
            assert(digits[i - from] == c);
        }
        if !('0' <= c && c <= '9') {
            return None;
        }
        let d: u128 = (c as u32 - '0' as u32) as u128;
        total = total * 10 + d;
        proof {
            assert forall|j: int| 0 <= j < longer.len() implies is_digit(#[trigger] longer[j]) by {
                if j < longer.len() - 1 {
                    assert(longer[j] == digits.take(i - from)[j]);
                }
            }
        }
        if total > limit {
            proof {
                if all_digits(digits) {
                    lemma_digits_value_grows(digits, i - from + 1);
                }
            }
            return None;
        }
        i += 1;
    }
    proof {
        assert(digits.take(i - from) == digits);
    }
    Some(total)
}

/// Reads an unsigned integer of at most `max`.
pub fn parse_unsigned(text: &str, max: u64) -> (r: Option<u64>)
    ensures
        r == match integer_within(text@, false, 0, max as int) {
            Some(v) => Some(v as u64),
            None => None,
        },
{
    let chars = to_chars(text);
    let from: usize = if chars.len() > 0 && chars[0] == '+' { 1 } else { 0 };
    proof {
        if from == 0 {
            assert(chars@.skip(0) == chars@);
        }
    }
    match magnitude(&chars, from, max as u128) {
        Some(v) => Some(v as u64),
        None => None,
    }
}

/// Reads a signed integer between `min` and `max`.
pub fn parse_signed(text: &str, min: i64, max: i64) -> (r: Option<i64>)
    ensures
        r == match integer_within(text@, true, min as int, max as int) {
            Some(v) => Some(v as i64),
            None => None,
        },
{
    let chars = to_chars(text);
    let negative = chars.len() > 0 && chars[0] == '-';
    let from: usize = if chars.len() > 0 && (chars[0] == '+' || negative) { 1 } else { 0 };
    proof {
        if from == 0 {
            assert(chars@.skip(0) == chars@);
        }
    }
    if negative {
        if min > 0 {
            return None;
        }
        let limit: u128 = (-(min as i128)) as u128;
        match magnitude(&chars, from, limit) {
            Some(v) => if -(v as i128) <= max as i128 { Some((-(v as i128)) as i64) } else { None },
            None => None,
        }
    } else {
        if max < 0 {
            return None;
        }
        match magnitude(&chars, from, max as u128) {
            Some(v) => if v as i128 >= min as i128 { Some(v as i64) } else { None },
            None => None,
        }
    }
}

/// Appends `n` in base ten to `out`.
pub fn push_decimal(out: &mut String, n: u64)
    ensures
        final(out)@ == old(out)@ + decimal(n as nat),
    decreases n,
{
    if n >= 10 {
        push_decimal(out, n / 10);
    }
    let d: u8 = (n % 10) as u8;
    let c: char = (48u8 + d) as char;
    assert(c == digit_char((n % 10) as int));
    out.push(c);
}

} // verus!
