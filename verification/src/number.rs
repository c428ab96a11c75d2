//! Numbers written out in digits, and numbers read from digits.
use vstd::prelude::*;

use crate::text::chars_of;

verus! {

/// The digit character of a number below ten.
pub open spec fn digit_char(d: nat) -> char {
    ((48 + d) as u32) as char
}

/// The decimal digits of `n`, the highest first, without leading zeros.
pub open spec fn decimal(n: nat) -> Seq<char>
    decreases n,
{
    if n < 10 {
        seq![digit_char(n)]
    } else {
        decimal(n / 10).push(digit_char(n % 10))
    }
}

/// The decimal form of an integer, with a minus sign where it is negative.
pub open spec fn signed_decimal(n: int) -> Seq<char> {
    if n < 0 {
        seq!['-'] + decimal((-n) as nat)
    } else {
        decimal(n as nat)
    }
}

/// Writes `n` in decimal digits.
pub fn decimal_string(n: u64) -> (r: String)
    ensures
        r@ == decimal(n as nat),
    decreases n,
{
    let mut r = if n < 10 {
        String::new()
    } else {
        decimal_string(n / 10)
    };
    let digit: u8 = 48 + (n % 10) as u8;
    r.push(digit as char);
    r
}

/// Writes `n` in decimal digits.
pub fn usize_string(n: usize) -> (r: String)
    ensures
        r@ == decimal(n as nat),
{
    decimal_string(n as u64)
}

/// Writes `n` in decimal digits, with a minus sign where it is negative.
pub fn i32_string(n: i32) -> (r: String)
    ensures
        r@ == signed_decimal(n as int),
{
    if n < 0 {
        let magnitude: u64 = (-(n as i64)) as u64;
        let digits = decimal_string(magnitude);
        let mut r = String::new();
        r.push('-');
        r.append(digits.as_str());
        r
    } else {
        decimal_string(n as u64)
    }
}

/// The value of `c` as a digit of the given radix (at most 36).
pub open spec fn digit_value(c: char, radix: nat) -> Option<nat> {
    let value = if '0' <= c && c <= '9' {
        (c as u32 - 48) as nat
    } else if 'a' <= c && c <= 'z' {
        (c as u32 - 87) as nat
    } else if 'A' <= c && c <= 'Z' {
        (c as u32 - 55) as nat
    } else {
        radix
    };
    if value < radix {
        Some(value)
    } else {
        None
    }
}

/// The number that a run of digits stands for; `None` where a character is no digit.
pub open spec fn digits_value(s: Seq<char>, radix: nat) -> Option<nat>
    decreases s.len(),
{
    if s.len() == 0 {
        Some(0)
    } else {
        match (digits_value(s.drop_last(), radix), digit_value(s.last(), radix)) {
            (Some(high), Some(low)) => Some(high * radix + low),
            _ => None,
        }
    }
}

/// The number that `s` stands for: one or more digits, behind at most one plus sign, with a value
/// of at most `max`.
pub open spec fn unsigned_value(s: Seq<char>, radix: nat, max: nat) -> Option<nat> {
    let digits = if s.len() > 0 && s[0] == '+' {
        s.skip(1)
    } else {
        s
    };
    if digits.len() == 0 {
        None
    } else {
        match digits_value(digits, radix) {
            Some(value) if value <= max => Some(value),
            _ => None,
        }
    }
}

/// Whether `s` cannot be a run of digits with a value of at most `max`.
spec fn out_of_range(s: Seq<char>, radix: nat, max: nat) -> bool {
    match digits_value(s, radix) {
        Some(value) => value > max,
        None => true,
    }
}

/// More digits never bring a number back into range.
proof fn lemma_out_of_range_extends(s: Seq<char>, radix: nat, max: nat, n: int)
    requires
        radix > 0,
        0 <= n <= s.len(),
        out_of_range(s.take(n), radix, max),
    ensures
        out_of_range(s, radix, max),
    decreases s.len(),
{
    if n == s.len() {
        assert(s.take(n) == s);
    } else {
        assert(s.drop_last().take(n) == s.take(n));
        lemma_out_of_range_extends(s.drop_last(), radix, max, n);
        if let (Some(high), Some(low)) = (
            digits_value(s.drop_last(), radix),
            digit_value(s.last(), radix),
        ) {
            assert(high * radix + low > max) by (nonlinear_arith)
                requires
                    high > max,
                    radix > 0,
                    low >= 0,
            ;
        }
    }
}

/// The value of `c` as a decimal or hexadecimal digit.
fn digit_of(c: char, hexadecimal: bool) -> (r: Option<u32>)
    ensures
        match r {
            Some(d) => digit_value(
                c,
                if hexadecimal {
                    16
                } else {
                    10
                },
            ) == Some(d as nat) && d < 16,
            None => digit_value(
                c,
                if hexadecimal {
                    16
                } else {
                    10
                },
            ) is None,
        },
{
    if '0' <= c && c <= '9' {
        Some(c as u32 - 48)
    } else if hexadecimal && 'a' <= c && c <= 'f' {
        Some(c as u32 - 87)
    } else if hexadecimal && 'A' <= c && c <= 'F' {
        Some(c as u32 - 55)
    } else {
        None
    }
}

/// Reads an unsigned number of at most `max` from the characters `chars[from..]`.
pub fn read_unsigned(chars: &Vec<char>, from: usize, hexadecimal: bool, max: u64) -> (r: Option<
    u64,
>)
    requires
        from <= chars@.len(),
    ensures
        match r {
            Some(value) => unsigned_value(
                chars@.skip(from as int),
                if hexadecimal {
                    16
                } else {
                    10
                },
                max as nat,
            ) == Some(value as nat),
            None => unsigned_value(
                chars@.skip(from as int),
                if hexadecimal {
                    16
                } else {
                    10
                },
                max as nat,
            ) is None,
        },
{
    let ghost radix: nat = if hexadecimal {
        16
    } else {
        10
    };
    let ghost whole = chars@.skip(from as int);
    let start: usize = if from < chars.len() && chars[from] == '+' {
        from + 1
    } else {
        from
    };
    if start == chars.len() {
        return None;
    }
    let ghost digits = chars@.skip(start as int);
    proof {
        if start > from {
            assert(whole.skip(1) == digits);
        }
        assert(digits.take(0) == Seq::<char>::empty());
    }
    let mut value: u128 = 0;
    let mut i: usize = start;
    while i < chars.len()
        invariant
            start <= i <= chars@.len(),
            digits == chars@.skip(start as int),
            radix == if hexadecimal {
                16nat
            } else {
                10nat
            },
            value <= max,
            digits_value(digits.take(i - start), radix) == Some(value as nat),
            digits.len() > 0,
            unsigned_value(whole, radix, max as nat) == match digits_value(digits, radix) {
                Some(v) if v <= max as nat => Some(v),
                _ => None::<nat>,
            },
            whole == chars@.skip(from as int),
        decreases chars@.len() - i,
    {
        proof {
            assert(digits.take(i + 1 - start).drop_last() == digits.take(i - start));
            assert(digits.take(i + 1 - start).last() == chars@[i as int]);
        }
        match digit_of(chars[i], hexadecimal) {
            Some(digit) => {
                value = if hexadecimal {
                    value * 16 + digit as u128
                } else {
                    value * 10 + digit as u128
                };
                if value > max as u128 {
                    proof {
                        lemma_out_of_range_extends(digits, radix, max as nat, i + 1 - start);
                    }
                    return None;
                }
            },
            None => {
                proof {
                    lemma_out_of_range_extends(digits, radix, max as nat, i + 1 - start);
                }
                return None;
            },
        }
        i += 1;
    }
    proof {
        assert(digits.take(digits.len() as int) == digits);
    }
    Some(value as u64)
}

/// Reads an unsigned decimal number.
pub fn parse_u64(text: &str) -> (r: Option<u64>)
    ensures
        match r {
            Some(value) => unsigned_value(text@, 10, u64::MAX as nat) == Some(value as nat),
            None => unsigned_value(text@, 10, u64::MAX as nat) is None,
        },
{
    let chars = chars_of(text);
    proof {
        assert(chars@.skip(0) == chars@);
    }
    read_unsigned(&chars, 0, false, u64::MAX)
}

/// Reading back the decimal form of a number gives the number.
pub proof fn decimal_reads_back(n: nat, max: nat)
    requires
        n <= max,
    ensures
        unsigned_value(decimal(n), 10, max) == Some(n),
{
    lemma_decimal_digits(n);
}

/// The decimal form of a number begins with a digit.
pub proof fn lemma_decimal_is_digits(n: nat)
    ensures
        decimal(n).len() > 0,
        48 <= decimal(n)[0] as u32 <= 57,
    decreases n,
{
    if n >= 10 {
        lemma_decimal_is_digits(n / 10);
    }
}

proof fn lemma_decimal_digits(n: nat)
    ensures
        digits_value(decimal(n), 10) == Some(n),
        decimal(n).len() > 0,
        decimal(n)[0] != '+',
    decreases n,
{
    if n < 10 {
        assert(decimal(n).drop_last() == Seq::<char>::empty());
        assert(digits_value(decimal(n).drop_last(), 10) == Some(0nat));
    } else {
        lemma_decimal_digits(n / 10);
        assert(decimal(n).drop_last() == decimal(n / 10));
    }
}

/// The decimal form of a number is that of its tenth and its last digit.
pub proof fn decimals_grow_by_one_digit(n: nat, d: nat)
    requires
        d < 10,
    ensures
        decimal(d).len() == 1,
        decimal(d)[0] as u32 == 48 + d,
        n > 0 ==> decimal(10 * n + d) == decimal(n) + decimal(d),
{
    if n > 0 {
        assert((10 * n + d) / 10 == n && (10 * n + d) % 10 == d);
        assert(decimal(10 * n + d) == decimal(n) + decimal(d));
    }
}

/// A run of digits stands for ten times what it stands for without its last digit, and that digit.
pub proof fn digits_are_read_in_order(s: Seq<char>, c: char)
    ensures
        digits_value(Seq::empty(), 10) == Some(0nat),
        digits_value(s.push(c), 10) == match digits_value(s, 10) {
            Some(high) if 48 <= c as u32 <= 57 => Some((high * 10 + (c as u32 - 48)) as nat),
            _ => None,
        },
{
    assert(s.push(c).drop_last() == s);
}

/// Hexadecimal digits are read in the same way, with letters of either case for ten to fifteen.
pub proof fn hexadecimal_digits_are_read_in_order(s: Seq<char>, c: char)
    ensures
        digits_value(Seq::empty(), 16) == Some(0nat),
        digits_value(s.push(c), 16) == match digits_value(s, 16) {
            Some(high) => if 48 <= c as u32 <= 57 {
                Some((high * 16 + (c as u32 - 48)) as nat)
            } else if 97 <= c as u32 <= 102 {
                Some((high * 16 + (c as u32 - 87)) as nat)
            } else if 65 <= c as u32 <= 70 {
                Some((high * 16 + (c as u32 - 55)) as nat)
            } else {
                None
            },
            None => None,
        },
{
    assert(s.push(c).drop_last() == s);
}

/// An integer below zero is written as its opposite behind a minus sign, and any other as a number.
pub proof fn signs_stand_before_the_digits(n: nat)
    ensures
        signed_decimal(n as int) == decimal(n),
        n > 0 ==> signed_decimal(-n) == seq!['-'] + decimal(n),
{
}

/// Digits are read as their value, with or without a plus sign before them, unless that is greater
/// than `max`; nothing else is read.
pub proof fn numbers_are_read_up_to_a_bound(digits: Seq<char>, radix: nat, max: nat)
    requires
        digits.len() > 0 ==> digits[0] != '+',
    ensures
        unsigned_value(digits, radix, max) == match digits_value(digits, radix) {
            Some(value) if digits.len() > 0 && value <= max => Some(value),
            _ => None,
        },
        unsigned_value(seq!['+'] + digits, radix, max) == unsigned_value(digits, radix, max),
{
    let signed = seq!['+'] + digits;
    assert(signed[0] == '+');
    assert(signed.skip(1) == digits);
}

} // verus!
