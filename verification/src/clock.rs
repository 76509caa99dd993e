//! Times of day and dates as the pages write them: `HH:MM - HH:MM` before
//! the resources of an event, and `dd.mm.yyHH:MM` for a point in time.
use crate::number::digits_value;
use crate::text::{leading_run, lemma_leading_run, scan_run, CharClass};
use vstd::prelude::*;

verus! {

/// Where the white space that begins at `at` ends.
pub open spec fn skip_space(s: Seq<char>, at: int) -> int {
    at + leading_run(s.subrange(at, s.len() as int), CharClass::Whitespace, true)
}

/// How many digits a number at `at` takes: as many as stand there, but no
/// more than two.
pub open spec fn number_width(s: Seq<char>, at: int) -> int {
    let run = leading_run(s.subrange(at, s.len() as int), CharClass::Digit, true);
    if run > 2 {
        2
    } else {
        run as int
    }
}

/// The number of one or two digits that begins at `at`, and where it ends.
pub open spec fn number_at(s: Seq<char>, at: int) -> Option<(u32, int)> {
    if 0 <= at <= s.len() && number_width(s, at) > 0 {
        Some(
            (
                digits_value(s.subrange(at, at + number_width(s, at))) as u32,
                at + number_width(s, at),
            ),
        )
    } else {
        None
    }
}

/// Where the character `c` that stands at `at` ends.
pub open spec fn mark_at(s: Seq<char>, at: int, c: char) -> Option<int> {
    if 0 <= at < s.len() && s[at] == c {
        Some(at + 1)
    } else {
        None
    }
}

/// Two times of day and the place where the text after them begins.
#[derive(Clone, Copy, Debug, PartialEq, Eq)]
pub struct Span {
    pub begin_hour: u32,
    pub begin_minute: u32,
    pub end_hour: u32,
    pub end_minute: u32,
    pub rest: usize,
}

/// What stands at the front of `s`, where it has the form `H:M - H:M`:
/// each number of one or two digits, white space allowed on both sides of
/// the hyphen and nowhere else.
pub open spec fn span_at_front(s: Seq<char>) -> Option<Span> {
    match number_at(s, 0) {
        Some((begin_hour, a)) => match mark_at(s, a, ':') {
            Some(b) => match number_at(s, b) {
                Some((begin_minute, c)) => match mark_at(s, skip_space(s, c), '-') {
                    Some(d) => match number_at(s, skip_space(s, d)) {
                        Some((end_hour, e)) => match mark_at(s, e, ':') {
                            Some(f) => match number_at(s, f) {
                                Some((end_minute, g)) => Some(
                                    Span {
                                        begin_hour,
                                        begin_minute,
                                        end_hour,
                                        end_minute,
                                        rest: g as usize,
                                    },
                                ),
                                None => None,
                            },
                            None => None,
                        },
                        None => None,
                    },
                    None => None,
                },
                None => None,
            },
            None => None,
        },
        None => None,
    }
}

/// A date and a time of day on a wall clock.
#[derive(Clone, Copy, Debug, PartialEq, Eq)]
pub struct WallTime {
    pub year: i32,
    pub month: u32,
    pub day: u32,
    pub hour: u32,
    pub minute: u32,
}

/// The year that two digits stand for: from 1970 to 2069.
pub open spec fn full_year(two_digits: u32) -> i32 {
    if two_digits < 70 {
        (2000 + two_digits) as i32
    } else {
        (1900 + two_digits) as i32
    }
}

/// What `s` stands for, where it has the form `dd.mm.yyHH:MM` from front
/// to end: each number of one or two digits, white space allowed before
/// each number and nowhere else.
pub open spec fn stamp(s: Seq<char>) -> Option<WallTime> {
    match number_at(s, skip_space(s, 0)) {
        Some((day, a)) => match mark_at(s, a, '.') {
            Some(b) => match number_at(s, skip_space(s, b)) {
                Some((month, c)) => match mark_at(s, c, '.') {
                    Some(d) => match number_at(s, skip_space(s, d)) {
                        Some((year, e)) => match number_at(s, skip_space(s, e)) {
                            Some((hour, f)) => match mark_at(s, f, ':') {
                                Some(g) => match number_at(s, skip_space(s, g)) {
                                    Some((minute, h)) => if h == s.len() {
                                        Some(
                                            WallTime {
                                                year: full_year(year),
                                                month,
                                                day,
                                                hour,
                                                minute,
                                            },
                                        )
                                    } else {
                                        None
                                    },
                                    None => None,
                                },
                                None => None,
                            },
                            None => None,
                        },
                        None => None,
                    },
                    None => None,
                },
                None => None,
            },
            None => None,
        },
        None => None,
    }
}

/// Skips the white space that begins at `at`.
pub(crate) fn pass_space(chars: &[char], at: usize) -> (end: usize)
    requires
        at <= chars.len(),
    ensures
        end == skip_space(chars@, at as int),
        at <= end <= chars.len(),
{
    scan_run(chars, at, CharClass::Whitespace, true)
}

/// Reads the number of one or two digits that begins at `at`.
pub(crate) fn read_number(chars: &[char], at: usize) -> (found: Option<(u32, usize)>)
    requires
        at <= chars.len(),
    ensures
        match found {
            Some((value, end)) => number_at(chars@, at as int) == Some((value, end as int)) && at
                < end <= chars.len() && value < 100,
            None => number_at(chars@, at as int) is None,
        },
{
    let ghost rest = chars@.subrange(at as int, chars.len() as int);
    proof {
        lemma_leading_run(rest, CharClass::Digit, true);
    }
    if at >= chars.len() || !CharClass::Digit.test(chars[at]) {
        assert(leading_run(rest, CharClass::Digit, true) == 0) by {
            if at < chars.len() {
                assert(rest[0] == chars@[at as int]);
            }
        }
        return None;
    }
    assert(rest[0] == chars@[at as int]);
    let first: u32 = chars[at] as u32 - 48;
    assert(rest.drop_first() =~= chars@.subrange(at + 1, chars.len() as int));
    proof {
        lemma_leading_run(rest.drop_first(), CharClass::Digit, true);
    }
    if at + 1 < chars.len() && CharClass::Digit.test(chars[at + 1]) {
        let second: u32 = chars[at + 1] as u32 - 48;
        proof {
            let after = rest.drop_first();
            assert(after[0] == chars@[at + 1]);
            assert(leading_run(rest, CharClass::Digit, true) >= 2);
            let both = chars@.subrange(at as int, at + 2);
            assert(both.drop_last() =~= seq![chars@[at as int]]);
            assert(seq![chars@[at as int]].drop_last() =~= Seq::<char>::empty());
            assert(digits_value(seq![chars@[at as int]]) == first) by {
                reveal_with_fuel(digits_value, 2);
            }
            assert(digits_value(both) == first * 10 + second);
        }
        Some((first * 10 + second, at + 2))
    } else {
        proof {
            let after = rest.drop_first();
            assert(leading_run(after, CharClass::Digit, true) == 0) by {
                if at + 1 < chars.len() {
                    assert(after[0] == chars@[at + 1]);
                }
            }
            assert(leading_run(rest, CharClass::Digit, true) == 1);
            let one = chars@.subrange(at as int, at + 1);
            assert(one.drop_last() =~= Seq::<char>::empty());
            assert(digits_value(one) == first) by {
                reveal_with_fuel(digits_value, 2);
            }
        }
        Some((first, at + 1))
    }
}

/// Passes the character `c` at `at`.
pub(crate) fn pass_mark(chars: &[char], at: usize, c: char) -> (end: Option<usize>)
    requires
        at <= chars.len(),
    ensures
        match end {
            Some(e) => mark_at(chars@, at as int, c) == Some(e as int) && e <= chars.len(),
            None => mark_at(chars@, at as int, c) is None,
        },
{
    if at < chars.len() && chars[at] == c {
        Some(at + 1)
    } else {
        None
    }
}

/// Reads two times of day of the form `H:M - H:M` at the front of `chars`.
pub fn read_span(chars: &[char]) -> (found: Option<Span>)
    ensures
        found == span_at_front(chars@),
        found matches Some(span) ==> span.rest <= chars.len(),
{
    let (begin_hour, a) = match read_number(chars, 0) {
        Some(found) => found,
        None => {
            return None;
        },
    };
    let b = match pass_mark(chars, a, ':') {
        Some(found) => found,
        None => {
            return None;
        },
    };
    let (begin_minute, c) = match read_number(chars, b) {
        Some(found) => found,
        None => {
            return None;
        },
    };
    let d = match pass_mark(chars, pass_space(chars, c), '-') {
        Some(found) => found,
        None => {
            return None;
        },
    };
    let (end_hour, e) = match read_number(chars, pass_space(chars, d)) {
        Some(found) => found,
        None => {
            return None;
        },
    };
    let f = match pass_mark(chars, e, ':') {
        Some(found) => found,
        None => {
            return None;
        },
    };
    let (end_minute, g) = match read_number(chars, f) {
        Some(found) => found,
        None => {
            return None;
        },
    };
    Some(Span { begin_hour, begin_minute, end_hour, end_minute, rest: g })
}

/// Reads a point in time of the form `dd.mm.yyHH:MM`.
pub fn read_stamp(chars: &[char]) -> (found: Option<WallTime>)
    ensures
        found == stamp(chars@),
{
    let (day, a) = match read_number(chars, pass_space(chars, 0)) {
        Some(found) => found,
        None => {
            return None;
        },
    };
    let b = match pass_mark(chars, a, '.') {
        Some(found) => found,
        None => {
            return None;
        },
    };
    let (month, c) = match read_number(chars, pass_space(chars, b)) {
        Some(found) => found,
        None => {
            return None;
        },
    };
    let d = match pass_mark(chars, c, '.') {
        Some(found) => found,
        None => {
            return None;
        },
    };
    let (year, e) = match read_number(chars, pass_space(chars, d)) {
        Some(found) => found,
        None => {
            return None;
        },
    };
    let (hour, f) = match read_number(chars, pass_space(chars, e)) {
        Some(found) => found,
        None => {
            return None;
        },
    };
    let g = match pass_mark(chars, f, ':') {
        Some(found) => found,
        None => {
            return None;
        },
    };
    let (minute, h) = match read_number(chars, pass_space(chars, g)) {
        Some(found) => found,
        None => {
            return None;
        },
    };
    if h != chars.len() {
        return None;
    }
    let full: i32 = if year < 70 {
        (2000 + year) as i32
    } else {
        (1900 + year) as i32
    };
    Some(WallTime { year: full, month, day, hour, minute })
}

} // verus!
