//! Calendar time in UTC, to the second, for the years 0 to 9999, and the
//! conversion from wall-clock time in Berlin.
use crate::number::{four_digits, push_four_digits, push_two_digits, two_digits};
use chrono::{Datelike, TimeZone, Timelike};
use vstd::prelude::*;

verus! {

/// A point of calendar time as six numbers.
pub struct Moment {
    pub year: int,
    pub month: int,
    pub day: int,
    pub hour: int,
    pub minute: int,
    pub second: int,
}

/// Whether `year` has a 29th of February.
pub open spec fn is_leap_year(year: int) -> bool {
    year % 4 == 0 && (year % 100 != 0 || year % 400 == 0)
}

/// The number of days of the month `month` of `year`.
pub open spec fn days_in_month(year: int, month: int) -> int {
    if month == 2 {
        if is_leap_year(year) {
            29
        } else {
            28
        }
    } else if month == 4 || month == 6 || month == 9 || month == 11 {
        30
    } else {
        31
    }
}

/// The days from 1970-01-01 to the given day of the proleptic Gregorian
/// calendar; negative for earlier days.
pub open spec fn days_from_civil(year: int, month: int, day: int) -> int {
    let y = if month <= 2 {
        year - 1
    } else {
        year
    };
    let era = y / 400;
    let year_of_era = y - era * 400;
    let shifted_month = if month > 2 {
        month - 3
    } else {
        month + 9
    };
    let day_of_year = (153 * shifted_month + 2) / 5 + day - 1;
    let day_of_era = year_of_era * 365 + year_of_era / 4 - year_of_era / 100 + day_of_year;
    era * 146097 + day_of_era - 719468
}

/// Counting years from 400 years earlier moves the era by one.
proof fn lemma_era_shift(y: int)
    ensures
        (y + 400) / 400 == y / 400 + 1,
{
}

impl Moment {
    /// Whether the six numbers name a second of a day that exists, in
    /// whatever year.
    pub open spec fn exists_in_calendar(self) -> bool {
        &&& 1 <= self.month <= 12
        &&& 1 <= self.day <= days_in_month(self.year, self.month)
        &&& 0 <= self.hour < 24
        &&& 0 <= self.minute < 60
        &&& 0 <= self.second < 60
    }

    /// Whether the six numbers name a second of a day that exists, in a
    /// year from 0 to 9999.
    pub open spec fn valid(self) -> bool {
        0 <= self.year <= 9999 && self.exists_in_calendar()
    }

    /// The seconds from 1970-01-01 00:00:00 to this moment.
    pub open spec fn epoch_seconds(self) -> int {
        days_from_civil(self.year, self.month, self.day) * 86400 + self.hour * 3600 + self.minute
            * 60 + self.second
    }

    /// Whether this moment is `other` or comes before it.
    pub open spec fn at_or_before(self, other: Moment) -> bool {
        if self.year != other.year {
            self.year < other.year
        } else if self.month != other.month {
            self.month < other.month
        } else if self.day != other.day {
            self.day < other.day
        } else if self.hour != other.hour {
            self.hour < other.hour
        } else if self.minute != other.minute {
            self.minute < other.minute
        } else {
            self.second <= other.second
        }
    }

    /// Year and month as six digits, `YYYYMM`.
    pub open spec fn period(self) -> int {
        self.year * 100 + self.month
    }

    /// The moment to the minute, written `YYYYMMDDTHHMM`.
    pub open spec fn compact(self) -> Seq<char> {
        four_digits(self.year as nat) + two_digits(self.month as nat) + two_digits(
            self.day as nat,
        ) + seq!['T'] + two_digits(self.hour as nat) + two_digits(self.minute as nat)
    }

    /// The moment to the minute, written `DD.MM.YYYY HH:MM`.
    pub open spec fn dotted(self) -> Seq<char> {
        two_digits(self.day as nat) + seq!['.'] + two_digits(self.month as nat) + seq!['.']
            + four_digits(self.year as nat) + seq![' '] + two_digits(self.hour as nat) + seq![':']
            + two_digits(self.minute as nat)
    }
}

/// A second of UTC in the years 0 to 9999.
#[derive(Clone, Copy, Debug, PartialEq, Eq)]
pub struct DateTime {
    year: u16,
    month: u8,
    day: u8,
    hour: u8,
    minute: u8,
    second: u8,
}

impl View for DateTime {
    type V = Moment;

    closed spec fn view(&self) -> Moment {
        Moment {
            year: self.year as int,
            month: self.month as int,
            day: self.day as int,
            hour: self.hour as int,
            minute: self.minute as int,
            second: self.second as int,
        }
    }
}

/// Computes the number of days of a month.
fn month_length(year: i32, month: u32) -> (days: u32)
    requires
        1 <= month <= 12,
    ensures
        days == days_in_month(year as int, month as int),
{
    // Years are counted from ten million times 400 years before, so that
    // none is negative; leap years stay leap years.
    let shifted: u64 = (year as i64 + 4_000_000_000) as u64;
    assert(shifted % 4 == 0 <==> (year as int) % 4 == 0);
    assert(shifted % 100 == 0 <==> (year as int) % 100 == 0);
    assert(shifted % 400 == 0 <==> (year as int) % 400 == 0);
    if month == 2 {
        if shifted % 4 == 0 && (shifted % 100 != 0 || shifted % 400 == 0) {
            29
        } else {
            28
        }
    } else if month == 4 || month == 6 || month == 9 || month == 11 {
        30
    } else {
        31
    }
}

impl DateTime {
    #[verifier::type_invariant]
    spec fn well_formed(self) -> bool {
        self@.valid()
    }

    /// The moment with the given numbers, where they name one.
    pub fn new(year: i32, month: u32, day: u32, hour: u32, minute: u32, second: u32) -> (made:
        Option<DateTime>)
        ensures
            ({
                let moment = Moment {
                    year: year as int,
                    month: month as int,
                    day: day as int,
                    hour: hour as int,
                    minute: minute as int,
                    second: second as int,
                };
                match made {
                    Some(time) => moment.valid() && time@ == moment,
                    None => !moment.valid(),
                }
            }),
    {
        if year < 0 || year > 9999 || month < 1 || month > 12 || day < 1 || hour >= 24 || minute
            >= 60 || second >= 60 {
            return None;
        }
        if day > month_length(year, month) {
            return None;
        }
        Some(
            DateTime {
                year: year as u16,
                month: month as u8,
                day: day as u8,
                hour: hour as u8,
                minute: minute as u8,
                second: second as u8,
            },
        )
    }

    /// The year, from 0 to 9999.
    pub fn year(&self) -> (year: i32)
        ensures
            year == self@.year,
    {
        self.year as i32
    }

    /// The month, from 1 to 12.
    pub fn month(&self) -> (month: u32)
        ensures
            month == self@.month,
    {
        self.month as u32
    }

    /// The day of the month, from 1.
    pub fn day(&self) -> (day: u32)
        ensures
            day == self@.day,
    {
        self.day as u32
    }

    /// The hour, from 0 to 23.
    pub fn hour(&self) -> (hour: u32)
        ensures
            hour == self@.hour,
    {
        self.hour as u32
    }

    /// The minute, from 0 to 59.
    pub fn minute(&self) -> (minute: u32)
        ensures
            minute == self@.minute,
    {
        self.minute as u32
    }

    /// The second, from 0 to 59.
    pub fn second(&self) -> (second: u32)
        ensures
            second == self@.second,
    {
        self.second as u32
    }

    /// The seconds from 1970-01-01 00:00:00 UTC to this moment.
    pub fn timestamp(&self) -> (seconds: i64)
        ensures
            seconds == self@.epoch_seconds(),
            self@.valid(),
            FIRST_SECOND <= seconds <= LAST_SECOND,
    {
        proof {
            use_type_invariant(self);
            lemma_epoch_seconds_by_year(self@);
        }
        // Years are counted from 400 years before, so that nothing below is
        // negative.
        let ghost y_true: int = if self.month <= 2 {
            self.year as int - 1
        } else {
            self.year as int
        };
        let y: u64 = if self.month <= 2 {
            self.year as u64 + 399
        } else {
            self.year as u64 + 400
        };
        let era: u64 = y / 400;
        proof {
            lemma_era_shift(y_true);
        }
        assert(era == y_true / 400 + 1);
        let year_of_era: u64 = y - era * 400;
        assert(year_of_era == y_true - (y_true / 400) * 400);
        assert(year_of_era < 400);
        let shifted_month: u64 = if self.month > 2 {
            self.month as u64 - 3
        } else {
            self.month as u64 + 9
        };
        let day_of_year: u64 = (153 * shifted_month + 2) / 5 + self.day as u64 - 1;
        assert(day_of_year <= 400);
        let day_of_era: u64 = year_of_era * 365 + year_of_era / 4 - year_of_era / 100
            + day_of_year;
        assert(day_of_era <= 400 * 366 + 400);
        assert(era <= 26);
        let days: i64 = (era * 146097 + day_of_era) as i64 - 719468 - 146097;
        assert(days == days_from_civil(self@.year, self@.month, self@.day));
        assert(-1000000 < days < 10000000);
        days * 86400 + (self.hour as i64) * 3600 + (self.minute as i64) * 60 + self.second as i64
    }

    /// Whether this moment is `other` or comes before it.
    pub fn at_or_before(&self, other: &DateTime) -> (yes: bool)
        ensures
            yes == self@.at_or_before(other@),
    {
        if self.year != other.year {
            self.year < other.year
        } else if self.month != other.month {
            self.month < other.month
        } else if self.day != other.day {
            self.day < other.day
        } else if self.hour != other.hour {
            self.hour < other.hour
        } else if self.minute != other.minute {
            self.minute < other.minute
        } else {
            self.second <= other.second
        }
    }

    /// Year and month as one number, `YYYYMM`.
    pub fn period(&self) -> (key: u32)
        ensures
            key == self@.period(),
            key <= 999912,
    {
        proof {
            use_type_invariant(self);
        }
        self.year as u32 * 100 + self.month as u32
    }

    /// Appends the moment written `YYYYMMDDTHHMM`.
    pub fn push_compact(&self, out: &mut String)
        ensures
            final(out)@ == old(out)@ + self@.compact(),
    {
        push_four_digits(out, self.year as u64);
        push_two_digits(out, self.month as u64);
        push_two_digits(out, self.day as u64);
        out.push('T');
        push_two_digits(out, self.hour as u64);
        push_two_digits(out, self.minute as u64);
        assert(final(out)@ =~= old(out)@ + self@.compact());
    }

    /// Appends the moment written `DD.MM.YYYY HH:MM`.
    pub fn push_dotted(&self, out: &mut String)
        ensures
            final(out)@ == old(out)@ + self@.dotted(),
    {
        push_two_digits(out, self.day as u64);
        out.push('.');
        push_two_digits(out, self.month as u64);
        out.push('.');
        push_four_digits(out, self.year as u64);
        out.push(' ');
        push_two_digits(out, self.hour as u64);
        out.push(':');
        push_two_digits(out, self.minute as u64);
        assert(final(out)@ =~= old(out)@ + self@.dotted());
    }
}

/// Two times with one view are one time.
pub proof fn lemma_view_tells_the_time(first: DateTime, second: DateTime)
    requires
        first@ == second@,
    ensures
        first == second,
{
    assert(first.year as int == second.year as int);
    assert(first.month as int == second.month as int);
    assert(first.day as int == second.day as int);
    assert(first.hour as int == second.hour as int);
    assert(first.minute as int == second.minute as int);
    assert(first.second as int == second.second as int);
}

/// Six numbers of calendar time as they come from the clock library:
/// year, month, day, hour, minute, second.
pub type Fields = (i32, u32, u32, u32, u32, u32);

/// The moment that six numbers name.
pub open spec fn moment_of(fields: Fields) -> Moment {
    Moment {
        year: fields.0 as int,
        month: fields.1 as int,
        day: fields.2 as int,
        hour: fields.3 as int,
        minute: fields.4 as int,
        second: fields.5 as int,
    }
}

/// The moment that a date, an hour and a minute name, at second 0.
pub open spec fn wall_moment(year: i32, month: u32, day: u32, hour: u32, minute: u32) -> Moment {
    Moment {
        year: year as int,
        month: month as int,
        day: day as int,
        hour: hour as int,
        minute: minute as int,
        second: 0,
    }
}

/// The UTC time at which clocks in Berlin show the given date, hour and
/// minute, where there is exactly one such time.
pub uninterp spec fn berlin_as_utc(year: i32, month: u32, day: u32, hour: u32, minute: u32) -> Option<Fields>;

/// Calls `chrono_tz::Europe::Berlin.with_ymd_and_hms` with zero seconds and
/// takes the single result, read in UTC. That call gives no single result
/// for a date or time of day that does not exist, for an hour that clocks
/// skip or show twice, and outside the years that the library can hold.
#[verifier::external_body]
fn berlin_to_utc(year: i32, month: u32, day: u32, hour: u32, minute: u32) -> (utc: Option<Fields>)
    ensures
        utc == berlin_as_utc(year, month, day, hour, minute),
        !wall_moment(year, month, day, hour, minute).exists_in_calendar() ==> utc is None,
{
    let local = chrono_tz::Europe::Berlin.with_ymd_and_hms(year, month, day, hour, minute, 0).single()?;
    let utc = local.naive_utc();
    Some((utc.year(), utc.month(), utc.day(), utc.hour(), utc.minute(), utc.second()))
}

/// Calls `SystemTime::now` of the standard library and takes the whole
/// seconds since 1970-01-01 00:00:00 UTC with `duration_since`, which
/// gives none for a clock that stands before that time. Nothing else is
/// known of the seconds: they depend on the clock.
#[verifier::external_body]
fn clock_seconds() -> (seconds: Option<u64>) {
    std::time::SystemTime::now().duration_since(std::time::UNIX_EPOCH).ok().map(
        |since| since.as_secs(),
    )
}

/// The seconds from 1970-01-01 00:00:00 to the first second of the year 0.
pub const FIRST_SECOND: i64 = -62167219200;

/// The seconds from 1970-01-01 00:00:00 to the last second of the year
/// 9999.
pub const LAST_SECOND: i64 = 253402300799;

/// Calls `chrono::DateTime::from_timestamp` with the seconds and no
/// nanoseconds and reads the six fields of the result: the date and the
/// time of day in UTC that lie the given seconds after 1970-01-01
/// 00:00:00. The call gives nothing only for seconds beyond the years that
/// the library can hold, which reach far beyond the years 0 to 9999.
#[verifier::external_body]
fn utc_fields(seconds: i64) -> (fields: Option<Fields>)
    ensures
        match fields {
            Some(f) => moment_of(f).exists_in_calendar() && moment_of(f).epoch_seconds()
                == seconds,
            None => seconds < FIRST_SECOND || seconds > LAST_SECOND,
        },
{
    let utc = chrono::DateTime::from_timestamp(seconds, 0)?.naive_utc();
    Some((utc.year(), utc.month(), utc.day(), utc.hour(), utc.minute(), utc.second()))
}

/// The UTC time at which clocks in Berlin show the given date, hour and
/// minute, where the date and the time of day exist, there is exactly one
/// such time, and it lies in the years 0 to 9999.
pub open spec fn berlin_moment(year: i32, month: u32, day: u32, hour: u32, minute: u32) -> Option<
    Moment,
> {
    if wall_moment(year, month, day, hour, minute).exists_in_calendar() {
        checked_moment(berlin_as_utc(year, month, day, hour, minute))
    } else {
        None
    }
}

/// The days of the year `year` that lie before its month `month`.
pub open spec fn days_before_month(year: int, month: int) -> int {
    let leap: int = if is_leap_year(year) {
        1
    } else {
        0
    };
    if month <= 1 {
        0
    } else if month == 2 {
        31
    } else if month == 3 {
        59 + leap
    } else if month == 4 {
        90 + leap
    } else if month == 5 {
        120 + leap
    } else if month == 6 {
        151 + leap
    } else if month == 7 {
        181 + leap
    } else if month == 8 {
        212 + leap
    } else if month == 9 {
        243 + leap
    } else if month == 10 {
        273 + leap
    } else if month == 11 {
        304 + leap
    } else {
        334 + leap
    }
}

/// The days from 1970-01-01 to the first of January that follows the year
/// with the number `year_of_era` of the era `era`. Eras are stretches of
/// 400 years that begin with a first of March.
spec fn january_after(era: int, year_of_era: int) -> int {
    era * 146097 + year_of_era * 365 + year_of_era / 4 - year_of_era / 100 + 306 - 719468
}

/// The first day of a year, by era and year of the era of the year before.
proof fn lemma_first_of_january(year: int)
    ensures
        days_from_civil(year, 1, 1) == january_after(
            (year - 1) / 400,
            (year - 1) - ((year - 1) / 400) * 400,
        ),
{
}

/// From one year of an era to the next are 365 days, and one more where
/// the next is a leap year.
proof fn lemma_next_year_of_era(era: int, year_of_era: int)
    requires
        0 <= year_of_era < 399,
    ensures
        january_after(era, year_of_era + 1) == january_after(era, year_of_era) + 365 + if (
        year_of_era + 1) % 4 == 0 && (year_of_era + 1) % 100 != 0 {
            1int
        } else {
            0int
        },
{
    let n = year_of_era;
    assert((n + 1) / 4 == n / 4 + if (n + 1) % 4 == 0 {
        1int
    } else {
        0int
    });
    assert((n + 1) / 100 == n / 100 + if (n + 1) % 100 == 0 {
        1int
    } else {
        0int
    });
    assert((n + 1) % 100 == 0 ==> (n + 1) % 4 == 0);
}

/// A year that stands `rest` years after the beginning of a stretch of
/// 400 years is a leap year just where `rest` is one, and lies in that
/// stretch.
proof fn lemma_year_in_stretch(stretch: int, rest: int)
    requires
        0 <= rest < 400,
    ensures
        (stretch * 400 + rest) / 400 == stretch,
        (stretch * 400 + rest) % 400 == rest,
        (stretch * 400 + rest) % 100 == rest % 100,
        (stretch * 400 + rest) % 4 == rest % 4,
{
    let year = stretch * 400 + rest;
    assert(year / 400 == stretch && year % 400 == rest);
    assert(year % 100 == rest % 100) by {
        assert(year == (stretch * 4) * 100 + rest);
        assert(year == (stretch * 4 + rest / 100) * 100 + rest % 100);
    }
    assert(year % 4 == rest % 4) by {
        assert(year == (stretch * 100 + rest / 4) * 4 + rest % 4);
    }
}

/// The first day of a year lies a whole year after the first day of the
/// year before.
proof fn lemma_year_step(year: int)
    ensures
        days_from_civil(year + 1, 1, 1) == days_from_civil(year, 1, 1) + 365 + if is_leap_year(
            year,
        ) {
            1int
        } else {
            0int
        },
{
    let era = (year - 1) / 400;
    let year_of_era = (year - 1) - era * 400;
    lemma_first_of_january(year);
    lemma_first_of_january(year + 1);
    assert(0 <= year_of_era < 400);
    if year_of_era == 399 {
        lemma_year_in_stretch(era + 1, 0);
        assert(year == (era + 1) * 400 + 0);
        assert(january_after(era + 1, 0) == january_after(era, 399) + 366);
    } else {
        lemma_year_in_stretch(era, year_of_era + 1);
        assert(year == era * 400 + (year_of_era + 1));
        lemma_next_year_of_era(era, year_of_era);
    }
}

/// A day lies as many days after the first day of its year as lie before
/// it in the year.
proof fn lemma_day_of_year(year: int, month: int, day: int)
    requires
        1 <= month <= 12,
    ensures
        days_from_civil(year, month, day) == days_from_civil(year, 1, 1) + days_before_month(
            year,
            month,
        ) + day - 1,
{
    if month > 2 {
        lemma_year_step(year);
        assert(days_from_civil(year, month, day) == days_from_civil(year + 1, 1, 1) + (153 * (month
            - 3) + 2) / 5 + day - 1 - 306);
    }
}

/// The first days of later years lie later.
proof fn lemma_years_grow(year: int, later: int)
    requires
        year <= later,
    ensures
        days_from_civil(later, 1, 1) >= days_from_civil(year, 1, 1) + 365 * (later - year),
    decreases later - year,
{
    if year < later {
        lemma_years_grow(year, later - 1);
        lemma_year_step(later - 1);
    }
}

/// Two days that exist and lie equally far from 1970-01-01 are one day.
proof fn lemma_days_tell_the_day(year: int, month: int, day: int, y: int, m: int, d: int)
    requires
        1 <= month <= 12,
        1 <= day <= days_in_month(year, month),
        1 <= m <= 12,
        1 <= d <= days_in_month(y, m),
        days_from_civil(year, month, day) == days_from_civil(y, m, d),
    ensures
        year == y && month == m && day == d,
{
    lemma_day_of_year(year, month, day);
    lemma_day_of_year(y, m, d);
    assert(0 <= days_before_month(year, month) + day - 1 <= 365);
    assert(0 <= days_before_month(y, m) + d - 1 <= 365);
    assert(days_before_month(year, month) + day - 1 < 365 + if is_leap_year(year) {
        1int
    } else {
        0int
    });
    assert(days_before_month(y, m) + d - 1 < 365 + if is_leap_year(y) {
        1int
    } else {
        0int
    });
    if year < y {
        lemma_year_step(year);
        lemma_years_grow(year + 1, y);
    } else if y < year {
        lemma_year_step(y);
        lemma_years_grow(y + 1, year);
    } else {
        if month < m {
            assert(days_before_month(year, m) >= days_before_month(year, month) + days_in_month(
                year,
                month,
            ));
        } else if m < month {
            assert(days_before_month(year, month) >= days_before_month(year, m) + days_in_month(
                year,
                m,
            ));
        }
    }
}

/// Two moments that exist in the calendar and lie equally many seconds
/// from 1970-01-01 00:00:00 are one moment.
pub proof fn lemma_epoch_seconds_tell_the_moment(first: Moment, second: Moment)
    requires
        first.exists_in_calendar(),
        second.exists_in_calendar(),
        first.epoch_seconds() == second.epoch_seconds(),
    ensures
        first == second,
{
    let a = first.hour * 3600 + first.minute * 60 + first.second;
    let b = second.hour * 3600 + second.minute * 60 + second.second;
    assert(0 <= a < 86400);
    assert(0 <= b < 86400);
    let days = days_from_civil(first.year, first.month, first.day);
    let others = days_from_civil(second.year, second.month, second.day);
    assert(days * 86400 + a == others * 86400 + b);
    assert(days == others);
    assert(a == b);
    lemma_days_tell_the_day(
        first.year,
        first.month,
        first.day,
        second.year,
        second.month,
        second.day,
    );
    assert(first.hour == second.hour);
    assert(first.minute == second.minute);
}

/// Where a moment that exists in the calendar lies, by its year: before
/// the first second of the year 0, within the years 0 to 9999, or after
/// the last second of the year 9999.
pub proof fn lemma_epoch_seconds_by_year(moment: Moment)
    requires
        moment.exists_in_calendar(),
    ensures
        moment.year < 0 ==> moment.epoch_seconds() < FIRST_SECOND,
        0 <= moment.year <= 9999 ==> FIRST_SECOND <= moment.epoch_seconds() <= LAST_SECOND,
        moment.year > 9999 ==> moment.epoch_seconds() > LAST_SECOND,
{
    lemma_days_by_year(moment.year, moment.month, moment.day);
}

/// Where a day that exists lies, by its year.
proof fn lemma_days_by_year(year: int, month: int, day: int)
    requires
        1 <= month <= 12,
        1 <= day <= 31,
    ensures
        year < 0 ==> days_from_civil(year, month, day) < -719528,
        0 <= year <= 9999 ==> -719528 <= days_from_civil(year, month, day) <= 2932896,
        year > 9999 ==> days_from_civil(year, month, day) > 2932896,
{
    let y = if month <= 2 {
        year - 1
    } else {
        year
    };
    let era = y / 400;
    let year_of_era = y - era * 400;
    let shifted_month = if month > 2 {
        month - 3
    } else {
        month + 9
    };
    let day_of_year = (153 * shifted_month + 2) / 5 + day - 1;
    assert(0 <= year_of_era < 400);
    assert(month > 2 ==> 0 <= day_of_year <= 305);
    assert(month <= 2 ==> 306 <= day_of_year <= 367);
    let leaps = year_of_era / 4 - year_of_era / 100;
    assert(0 <= leaps <= 97);
    assert(year_of_era * 24 - 100 <= leaps * 100 <= year_of_era * 25);
}

/// What the six numbers `fields` amount to: their moment, where it is valid.
pub open spec fn checked_moment(fields: Option<Fields>) -> Option<Moment> {
    match fields {
        Some(f) => if moment_of(f).valid() {
            Some(moment_of(f))
        } else {
            None
        },
        None => None,
    }
}

impl DateTime {
    /// The time that six numbers name, where they name one.
    pub fn from_fields(fields: Option<Fields>) -> (made: Option<DateTime>)
        ensures
            match made {
                Some(time) => checked_moment(fields) == Some(time@),
                None => checked_moment(fields) is None,
            },
    {
        match fields {
            Some(f) => DateTime::new(f.0, f.1, f.2, f.3, f.4, f.5),
            None => None,
        }
    }

    /// The UTC time at which clocks in Berlin show the given date, hour and
    /// minute. There is none where the date or the time of day does not
    /// exist, where clocks skip the hour or show it twice, or where the
    /// result lies outside the years 0 to 9999.
    pub fn from_berlin(year: i32, month: u32, day: u32, hour: u32, minute: u32) -> (made: Option<
        DateTime,
    >)
        ensures
            match made {
                Some(time) => berlin_moment(year, month, day, hour, minute) == Some(time@),
                None => berlin_moment(year, month, day, hour, minute) is None,
            },
            !wall_moment(year, month, day, hour, minute).exists_in_calendar() ==> made is None,
    {
        if month < 1 || month > 12 || day < 1 || hour >= 24 || minute >= 60 {
            return None;
        }
        if day > month_length(year, month) {
            return None;
        }
        DateTime::from_fields(berlin_to_utc(year, month, day, hour, minute))
    }

    /// The time that lies the given seconds after 1970-01-01 00:00:00 UTC,
    /// where it lies in the years 0 to 9999.
    pub fn at_timestamp(seconds: i64) -> (made: Option<DateTime>)
        ensures
            match made {
                Some(time) => time@.valid() && time@.epoch_seconds() == seconds,
                None => forall|moment: Moment|
                    moment.valid() ==> #[trigger] moment.epoch_seconds() != seconds,
            },
            made is Some <==> FIRST_SECOND <= seconds <= LAST_SECOND,
            forall|other: DateTime|
                other@.valid() && #[trigger] other@.epoch_seconds() == seconds ==> made == Some(
                    other,
                ),
    {
        let fields = utc_fields(seconds);
        let made = DateTime::from_fields(fields);
        proof {
            assert forall|other: DateTime|
                other@.valid() && #[trigger] other@.epoch_seconds() == seconds implies made
                == Some(other) by {
                lemma_epoch_seconds_by_year(other@);
                let time = made->Some_0;
                lemma_epoch_seconds_tell_the_moment(time@, other@);
                lemma_view_tells_the_time(time, other);
            }
        }
        proof {
            match fields {
                Some(f) => {
                    lemma_epoch_seconds_by_year(moment_of(f));
                },
                None => {},
            }
            assert forall|moment: Moment| moment.valid() implies FIRST_SECOND
                <= #[trigger] moment.epoch_seconds() <= LAST_SECOND by {
                lemma_epoch_seconds_by_year(moment);
            }
        }
        made
    }

    /// The time that a clock shows which counts `seconds` whole seconds
    /// since 1970-01-01 00:00:00 UTC. There is none for a clock that
    /// counts none, which stands before that time, or that counts more
    /// than lie before the year 10000.
    pub fn at_clock(seconds: Option<u64>) -> (made: Option<DateTime>)
        ensures
            match made {
                Some(time) => seconds matches Some(s) && s <= LAST_SECOND && time@.valid()
                    && time@.epoch_seconds() == s,
                None => seconds matches Some(s) ==> s > LAST_SECOND,
            },
    {
        match seconds {
            Some(s) => {
                if s <= 0x7fff_ffff_ffff_ffff {
                    DateTime::at_timestamp(s as i64)
                } else {
                    None
                }
            },
            None => None,
        }
    }

    /// The present time in UTC, where the clock shows a year from 1970 to
    /// 9999.
    pub fn now() -> (made: Option<DateTime>)
        ensures
            made matches Some(time) ==> time@.valid(),
    {
        DateTime::at_clock(clock_seconds())
    }
}

} // verus!
