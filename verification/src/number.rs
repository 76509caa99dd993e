//! Decimal numbers in text: writing them out and reading them back.
use crate::text::is_digit;
use vstd::prelude::*;

verus! {

/// The character that stands for the digit `d`.
pub open spec fn digit(d: int) -> char {
    if d == 0 {
        '0'
    } else if d == 1 {
        '1'
    } else if d == 2 {
        '2'
    } else if d == 3 {
        '3'
    } else if d == 4 {
        '4'
    } else if d == 5 {
        '5'
    } else if d == 6 {
        '6'
    } else if d == 7 {
        '7'
    } else if d == 8 {
        '8'
    } else {
        '9'
    }
}

/// The number that the digit `c` stands for.
pub open spec fn digit_value(c: char) -> int {
    (c as u32) as int - 48
}

/// The character for a digit below ten.
fn digit_char(d: u64) -> (c: char)
    requires
        d < 10,
    ensures
        c == digit(d as int),
        is_digit(c),
        digit_value(c) == d,
{
    if d == 0 {
        '0'
    } else if d == 1 {
        '1'
    } else if d == 2 {
        '2'
    } else if d == 3 {
        '3'
    } else if d == 4 {
        '4'
    } else if d == 5 {
        '5'
    } else if d == 6 {
        '6'
    } else if d == 7 {
        '7'
    } else if d == 8 {
        '8'
    } else {
        '9'
    }
}

/// `n` in decimal, without leading zeros.
pub open spec fn decimal(n: nat) -> Seq<char>
    decreases n,
{
    if n < 10 {
        seq![digit(n as int)]
    } else {
        decimal(n / 10).push(digit((n % 10) as int))
    }
}

/// The last two decimal digits of `n`.
pub open spec fn two_digits(n: nat) -> Seq<char> {
    seq![digit((n / 10 % 10) as int), digit((n % 10) as int)]
}

/// The last four decimal digits of `n`.
pub open spec fn four_digits(n: nat) -> Seq<char> {
    two_digits(n / 100) + two_digits(n)
}

/// Appends `n` in decimal.
pub fn push_decimal(out: &mut String, n: u64)
    ensures
        final(out)@ == old(out)@ + decimal(n as nat),
    decreases n,
{
    if n >= 10 {
        push_decimal(out, n / 10);
    }
    out.push(digit_char(n % 10));
    assert(final(out)@ =~= old(out)@ + decimal(n as nat));
}

/// Appends the last two decimal digits of `n`.
pub fn push_two_digits(out: &mut String, n: u64)
    ensures
        final(out)@ == old(out)@ + two_digits(n as nat),
{
    out.push(digit_char(n / 10 % 10));
    out.push(digit_char(n % 10));
    assert(final(out)@ =~= old(out)@ + two_digits(n as nat));
}

/// Appends the last four decimal digits of `n`.
pub fn push_four_digits(out: &mut String, n: u64)
    ensures
        final(out)@ == old(out)@ + four_digits(n as nat),
{
    push_two_digits(out, n / 100);
    push_two_digits(out, n);
    assert(final(out)@ =~= old(out)@ + four_digits(n as nat));
}

/// Whether every character of `s` is a digit.
pub open spec fn all_digits(s: Seq<char>) -> bool {
    forall|i: int| 0 <= i < s.len() ==> is_digit(#[trigger] s[i])
}

/// The number that the digits of `s` write in decimal.
pub open spec fn digits_value(s: Seq<char>) -> nat
    decreases s.len(),
{
    if s.len() == 0 {
        0
    } else {
        (digits_value(s.drop_last()) * 10 + digit_value(s.last())) as nat
    }
}

/// What a run of digits stands for: the number it writes, where it is not
/// empty, holds digits only and writes no more than `limit`.
pub open spec fn parsed_number(s: Seq<char>, limit: nat) -> Option<nat> {
    if s.len() > 0 && all_digits(s) && digits_value(s) <= limit {
        Some(digits_value(s))
    } else {
        None
    }
}

/// A run of digits writes at least what any of its prefixes writes.
proof fn lemma_digits_value_grows(s: Seq<char>, i: int)
    requires
        all_digits(s),
        0 <= i <= s.len(),
    ensures
        digits_value(s.subrange(0, i)) <= digits_value(s),
    decreases s.len(),
{
    if i == s.len() {
        assert(s.subrange(0, i) =~= s);
    } else {
        let front = s.drop_last();
        assert(is_digit(s.last()));
        lemma_digits_value_grows(front, i);
        assert(front.subrange(0, i) =~= s.subrange(0, i));
    }
}

/// Reads a run of digits that writes no more than `limit`.
pub fn parse_number(chars: &[char], limit: u32) -> (number: Option<u64>)
    ensures
        match number {
            Some(n) => parsed_number(chars@, limit as nat) == Some(n as nat),
            None => parsed_number(chars@, limit as nat) is None,
        },
{
    if chars.len() == 0 {
        return None;
    }
    let mut value: u64 = 0;
    let mut i: usize = 0;
    while i < chars.len()
        invariant
            i <= chars.len(),
            all_digits(chars@.subrange(0, i as int)),
            value == digits_value(chars@.subrange(0, i as int)),
            value <= limit,
        decreases chars.len() - i,
    {
        let c = chars[i];
        let ghost next = chars@.subrange(0, i + 1);
        assert(next.drop_last() =~= chars@.subrange(0, i as int));
        assert(next.last() == c);
        if !('0' <= c && c <= '9') {
            assert(!is_digit(chars@[i as int]));
            return None;
        }
        let d: u64 = (c as u32 - 48) as u64;
        assert(d == digit_value(c));
        let grown: u64 = value * 10 + d;
        assert(grown == digits_value(next));
        assert(all_digits(next)) by {
            assert forall|j: int| 0 <= j < next.len() implies is_digit(#[trigger] next[j]) by {
                if j < i {
                    assert(next[j] == chars@.subrange(0, i as int)[j]);
                }
            }
        }
        if grown > limit as u64 {
            proof {
                if all_digits(chars@) {
                    lemma_digits_value_grows(chars@, i + 1);
                }
            }
            return None;
        }
        value = grown;
        i += 1;
    }
    assert(chars@.subrange(0, chars.len() as int) =~= chars@);
    Some(value)
}

/// `s` without the plus sign that may stand in front of a number.
pub open spec fn unsigned_digits(s: Seq<char>) -> Seq<char> {
    if s.len() > 0 && s[0] == '+' {
        s.drop_first()
    } else {
        s
    }
}

/// What `s` stands for as an unsigned 32-bit number: an optional plus sign,
/// then at least one digit, the value within range.
pub open spec fn parsed_u32(s: Seq<char>) -> Option<u32> {
    match parsed_number(unsigned_digits(s), u32::MAX as nat) {
        Some(n) => Some(n as u32),
        None => None,
    }
}

/// What `s` stands for as a signed 32-bit number: an optional sign, then at
/// least one digit, the value within range.
pub open spec fn parsed_i32(s: Seq<char>) -> Option<i32> {
    if s.len() > 0 && s[0] == '-' {
        match parsed_number(s.drop_first(), 2147483648) {
            Some(n) => Some((-(n as int)) as i32),
            None => None,
        }
    } else {
        match parsed_number(unsigned_digits(s), 2147483647) {
            Some(n) => Some(n as i32),
            None => None,
        }
    }
}

/// Reads an unsigned 32-bit number.
pub fn parse_u32(chars: &[char]) -> (number: Option<u32>)
    ensures
        number == parsed_u32(chars@),
{
    let from: usize = if chars.len() > 0 && chars[0] == '+' {
        1
    } else {
        0
    };
    assert(chars@.subrange(from as int, chars.len() as int) =~= unsigned_digits(chars@));
    match parse_number(&chars[from..chars.len()], u32::MAX) {
        Some(n) => Some(n as u32),
        None => None,
    }
}

/// Reads a signed 32-bit number.
pub fn parse_i32(chars: &[char]) -> (number: Option<i32>)
    ensures
        number == parsed_i32(chars@),
{
    if chars.len() > 0 && chars[0] == '-' {
        assert(chars@.subrange(1, chars.len() as int) =~= chars@.drop_first());
        match parse_number(&chars[1..chars.len()], 2147483648) {
            Some(n) => {
                let magnitude: i64 = n as i64;
                Some((0 - magnitude) as i32)
            },
            None => None,
        }
    } else {
        let from: usize = if chars.len() > 0 && chars[0] == '+' {
            1
        } else {
            0
        };
        assert(chars@.subrange(from as int, chars.len() as int) =~= unsigned_digits(chars@));
        match parse_number(&chars[from..chars.len()], 2147483647) {
            Some(n) => Some(n as i32),
            None => None,
        }
    }
}

/// A number in decimal holds digits only.
pub proof fn lemma_decimal_holds_digits(n: nat)
    ensures
        all_digits(decimal(n)),
    decreases n,
{
    if n >= 10 {
        lemma_decimal_holds_digits(n / 10);
    }
}

} // verus!
