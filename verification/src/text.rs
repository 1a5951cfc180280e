//! Decimal numbers, written and read.

use vstd::prelude::*;
use vstd::slice::slice_subrange;

verus! {

/// Appends one character to a string: `String::push` of std.
pub assume_specification[ String::push ](s: &mut String, c: char)
    ensures
        final(s)@ == old(s)@.push(c),
;

/// The character of the digit `d`.
pub open spec fn digit_char(d: nat) -> char {
    (48 + d) as char
}

/// `n` in decimal, without leading zeros.
pub open spec fn decimal(n: nat) -> Seq<char>
    decreases n,
{
    if n < 10 {
        seq![digit_char(n)]
    } else {
        decimal(n / 10).push(digit_char(n % 10))
    }
}

/// Whether `c` is one of `0` to `9`.
pub open spec fn is_digit(c: char) -> bool {
    '0' <= c && c <= '9'
}

/// Whether `s` holds digits only.
pub open spec fn all_digits(s: Seq<char>) -> bool {
    forall|i: int| 0 <= i < s.len() ==> is_digit(#[trigger] s[i])
}

/// The number that a string of digits stands for.
pub open spec fn digits_value(s: Seq<char>) -> nat
    decreases s.len(),
{
    if s.len() == 0 {
        0
    } else {
        digits_value(s.drop_last()) * 10 + (s.last() as nat - 48) as nat
    }
}

/// The number that `s` spells: one or more digits, after a `+` or nothing, with a value
/// of at most `max`.
pub open spec fn unsigned_number(s: Seq<char>, max: nat) -> Option<nat> {
    let digits = if s.len() > 0 && s[0] == '+' {
        s.skip(1)
    } else {
        s
    };
    if digits.len() > 0 && all_digits(digits) && digits_value(digits) <= max {
        Some(digits_value(digits))
    } else {
        None
    }
}

/// The number that `s` spells as an `i32`: one or more digits, after a sign or nothing.
pub open spec fn signed_number(s: Seq<char>) -> Option<int> {
    if s.len() > 0 && s[0] == '-' {
        let digits = s.skip(1);
        if digits.len() > 0 && all_digits(digits) && -digits_value(digits) >= i32::MIN {
            Some(-digits_value(digits))
        } else {
            None
        }
    } else {
        match unsigned_number(s, i32::MAX as nat) {
            Some(n) => Some(n as int),
            None => None,
        }
    }
}

/// The digits of `n`, in decimal.
pub fn decimal_chars(n: u64) -> (digits: Vec<char>)
    ensures
        digits@ == decimal(n as nat),
    decreases n,
{
    let digit: char = (48 + (n % 10) as u8) as char;
    if n < 10 {
        let mut digits: Vec<char> = Vec::new();
        digits.push(digit);
        digits
    } else {
        let mut digits = decimal_chars(n / 10);
        digits.push(digit);
        digits
    }
}

/// Appends `n` in decimal to a string.
pub fn push_decimal(s: &mut String, n: u64)
    ensures
        final(s)@ == old(s)@ + decimal(n as nat),
{
    let digits = decimal_chars(n);
    let mut i: usize = 0;
    while i < digits.len()
        invariant
            i <= digits.len(),
            s@ == old(s)@ + digits@.take(i as int),
        decreases digits.len() - i,
    {
        s.push(digits[i]);
        assert(digits@.take(i + 1) == digits@.take(i as int).push(digits@[i as int]));
        i += 1;
    }
    assert(digits@.take(i as int) == digits@);
}

proof fn lemma_digits_value_grows(s: Seq<char>, i: int)
    requires
        0 <= i <= s.len(),
    ensures
        digits_value(s.take(i)) <= digits_value(s),
    decreases s.len() - i,
{
    if i == s.len() {
        assert(s.take(i) == s);
    } else {
        lemma_digits_value_grows(s, i + 1);
        assert(s.take(i + 1).drop_last() == s.take(i));
    }
}

/// The value of a string of one or more digits, if it is at most `max`.
fn parse_digits(s: &[char], max: u64) -> (value: Option<u64>)
    ensures
        value == (if s@.len() > 0 && all_digits(s@) && digits_value(s@) <= max {
            Some(digits_value(s@) as u64)
        } else {
            None
        }),
{
    if s.len() == 0 {
        return None;
    }
    let mut total: u128 = 0;
    let mut i: usize = 0;
    while i < s.len()
        invariant
            i <= s@.len(),
            all_digits(s@.take(i as int)),
            total == digits_value(s@.take(i as int)),
            total <= max,
        decreases s@.len() - i,
    {
        let c: char = s[i];
        if !('0' <= c && c <= '9') {
            assert(!is_digit(s@[i as int]));
            return None;
        }
        proof {
            let next = s@.take(i + 1);
            assert(next.drop_last() == s@.take(i as int));
            assert forall|j: int| 0 <= j < next.len() implies is_digit(#[trigger] next[j]) by {
                if j < i {
                    assert(next[j] == s@.take(i as int)[j]);
                }
            }
        }
        total = total * 10 + (c as u32 - 48) as u128;
        if total > max as u128 {
            proof {
                lemma_digits_value_grows(s@, i + 1);
            }
            return None;
        }
        i += 1;
    }
    assert(s@.take(i as int) == s@);
    Some(total as u64)
}

/// Reads an unsigned number of at most `max`.
pub fn parse_unsigned(s: &[char], max: u64) -> (value: Option<u64>)
    ensures
        match value {
            Some(v) => v <= max && unsigned_number(s@, max as nat) == Some(v as nat),
            None => unsigned_number(s@, max as nat) is None,
        },
{
    if s.len() > 0 && s[0] == '+' {
        let digits = slice_subrange(s, 1, s.len());
        assert(digits@ == s@.skip(1));
        parse_digits(digits, max)
    } else {
        parse_digits(s, max)
    }
}

/// Reads a `u32`.
pub fn parse_u32(s: &[char]) -> (value: Option<u32>)
    ensures
        match value {
            Some(v) => unsigned_number(s@, u32::MAX as nat) == Some(v as nat),
            None => unsigned_number(s@, u32::MAX as nat) is None,
        },
{
    match parse_unsigned(s, u32::MAX as u64) {
        Some(v) => Some(v as u32),
        None => None,
    }
}

/// Reads a `usize`.
pub fn parse_usize(s: &[char]) -> (value: Option<usize>)
    ensures
        match value {
            Some(v) => unsigned_number(s@, usize::MAX as nat) == Some(v as nat),
            None => unsigned_number(s@, usize::MAX as nat) is None,
        },
{
    match parse_unsigned(s, usize::MAX as u64) {
        Some(v) => Some(v as usize),
        None => None,
    }
}

/// Reads a `u8`.
pub fn parse_u8(s: &[char]) -> (value: Option<u8>)
    ensures
        match value {
            Some(v) => unsigned_number(s@, u8::MAX as nat) == Some(v as nat),
            None => unsigned_number(s@, u8::MAX as nat) is None,
        },
{
    match parse_unsigned(s, u8::MAX as u64) {
        Some(v) => Some(v as u8),
        None => None,
    }
}

/// Reads an `i32`.
pub fn parse_i32(s: &[char]) -> (value: Option<i32>)
    ensures
        match value {
            Some(v) => signed_number(s@) == Some(v as int),
            None => signed_number(s@) is None,
        },
{
    if s.len() > 0 && s[0] == '-' {
        let digits = slice_subrange(s, 1, s.len());
        assert(digits@ == s@.skip(1));
        match parse_digits(digits, 2147483648u64) {
            Some(v) => Some((-(v as i64)) as i32),
            None => None,
        }
    } else {
        match parse_unsigned(s, i32::MAX as u64) {
            Some(v) => Some(v as i32),
            None => None,
        }
    }
}

/// A number written in decimal holds digits only and reads back as itself.
pub proof fn lemma_decimal_reads_back(n: nat, max: nat)
    requires
        n <= max,
    ensures
        decimal(n).len() > 0,
        all_digits(decimal(n)),
        unsigned_number(decimal(n), max) == Some(n),
{
    lemma_decimal_value(n);
    assert(is_digit(decimal(n)[0]));
}

proof fn lemma_decimal_value(n: nat)
    ensures
        decimal(n).len() > 0,
        all_digits(decimal(n)),
        digits_value(decimal(n)) == n,
    decreases n,
{
    let s = decimal(n);
    if n < 10 {
        assert(s.drop_last() == Seq::<char>::empty());
        assert(digits_value(s.drop_last()) == 0);
    } else {
        lemma_decimal_value(n / 10);
        assert(s.drop_last() == decimal(n / 10));
        assert forall|i: int| 0 <= i < s.len() implies is_digit(#[trigger] s[i]) by {
            if i < s.len() - 1 {
                assert(s[i] == decimal(n / 10)[i]);
            }
        }
    }
}

} // verus!
