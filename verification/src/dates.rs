//! Calendar dates and times of day, and what the calendar and the time zone
//! database say of them.

use chrono::{Datelike, NaiveDate, TimeZone, Timelike};
use chrono_tz::Tz;
use vstd::prelude::*;

verus! {

/// A day of the Gregorian calendar.
#[derive(Clone, Copy, Debug, PartialEq, Eq, Structural)]
pub struct Date {
    pub year: i32,
    pub month: u32,
    pub day: u32,
}

/// A day and a time of that day, without a time zone.
#[derive(Clone, Copy, Debug, PartialEq, Eq, Structural)]
pub struct DateTime {
    pub date: Date,
    pub hour: u32,
    pub minute: u32,
    pub second: u32,
    pub micro: u32,
}

/// Why a time cannot be moved from one time zone to another.
#[derive(Clone, Copy, Debug, PartialEq, Eq, Structural)]
pub enum TzError {
    /// The name of the zone that the time is in is not known.
    SourceZone,
    /// The name of the zone that the time goes to is not known.
    TargetZone,
    /// The zone that the time is in has no such local time, or has it
    /// twice.
    Transform,
}

/// The first year that dates of this library have.
pub const FIRST_YEAR: i32 = -262000;

/// The last year that dates of this library have.
pub const LAST_YEAR: i32 = 262000;

/// A leap year of the Gregorian calendar.
pub open spec fn is_leap(year: int) -> bool {
    year % 4 == 0 && (year % 100 != 0 || year % 400 == 0)
}

/// The number of days of a month.
pub open spec fn days_in_month(year: int, month: int) -> int {
    if month == 2 {
        if is_leap(year) {
            29
        } else {
            28
        }
    } else if month == 4 || month == 6 || month == 9 || month == 11 {
        30
    } else {
        31
    }
}

/// The day exists in the Gregorian calendar, in a year that this library
/// has.
pub open spec fn valid_date(year: int, month: int, day: int) -> bool {
    &&& FIRST_YEAR <= year <= LAST_YEAR
    &&& 1 <= month <= 12
    &&& 1 <= day <= days_in_month(year, month)
}

/// The time exists on every day: leap seconds are left out.
pub open spec fn valid_time(hour: int, minute: int, second: int, micro: int) -> bool {
    0 <= hour < 24 && 0 <= minute < 60 && 0 <= second < 60 && 0 <= micro < 1_000_000
}

/// The day of the week of a date as `chrono` numbers it, 1 for Sunday to 7
/// for Saturday; `None` where `chrono` has no such date.
pub uninterp spec fn weekday_of(year: int, month: int, day: int) -> Option<int>;

/// Whether the time zone database of `chrono_tz` has a zone of this name.
pub uninterp spec fn is_zone(name: Seq<char>) -> bool;

/// The local time in the zone `target` at the moment at which the zone
/// `source` has the local time `local`; `None` where `source` has no such
/// local time or has it twice, as `chrono_tz` tells it.
pub uninterp spec fn zone_shift(local: DateTime, source: Seq<char>, target: Seq<char>) -> Option<
    DateTime,
>;

impl Date {
    /// The date exists.
    pub open spec fn valid(&self) -> bool {
        valid_date(self.year as int, self.month as int, self.day as int)
    }

    /// Whether the date exists.
    pub fn is_valid(&self) -> (valid: bool)
        ensures
            valid == self.valid(),
    {
        if self.year < FIRST_YEAR || self.year > LAST_YEAR || self.month < 1 || self.month > 12 {
            return false;
        }
        let leap = self.year % 4 == 0 && (self.year % 100 != 0 || self.year % 400 == 0);
        let days: u32 = if self.month == 2 {
            if leap {
                29
            } else {
                28
            }
        } else if self.month == 4 || self.month == 6 || self.month == 9 || self.month == 11 {
            30
        } else {
            31
        };
        1 <= self.day && self.day <= days
    }

    /// The date with these numbers, if it exists.
    pub fn new(year: i32, month: u32, day: u32) -> (date: Option<Date>)
        ensures
            date == (if valid_date(year as int, month as int, day as int) {
                Some(Date { year, month, day })
            } else {
                None
            }),
    {
        let date = Date { year, month, day };
        if date.is_valid() {
            Some(date)
        } else {
            None
        }
    }
}

impl DateTime {
    /// The day and the time exist.
    pub open spec fn valid(&self) -> bool {
        self.date.valid() && valid_time(
            self.hour as int,
            self.minute as int,
            self.second as int,
            self.micro as int,
        )
    }

    /// Whether the day and the time exist.
    pub fn is_valid(&self) -> (valid: bool)
        ensures
            valid == self.valid(),
    {
        self.date.is_valid() && self.hour < 24 && self.minute < 60 && self.second < 60
            && self.micro < 1_000_000
    }

    /// The first moment of a day.
    pub fn midnight(date: Date) -> (moment: DateTime)
        ensures
            moment == (DateTime { date, hour: 0, minute: 0, second: 0, micro: 0 }),
    {
        DateTime { date, hour: 0, minute: 0, second: 0, micro: 0 }
    }
}

impl TzError {
    /// The error in words.
    pub fn message(&self) -> (text: &'static str)
        ensures
            text@ == (match self {
                TzError::SourceZone => "Failed to parse the source timezone"@,
                TzError::TargetZone => "Failed to parse the target timezone"@,
                TzError::Transform => "Failed to transform the datetime to a different timezone"@,
            }),
    {
        match self {
            TzError::SourceZone => "Failed to parse the source timezone",
            TzError::TargetZone => "Failed to parse the target timezone",
            TzError::Transform => "Failed to transform the datetime to a different timezone",
        }
    }
}

/// `NaiveDate::from_ymd_opt`, then `weekday` and `number_from_sunday` of
/// `chrono`. A date that exists in the Gregorian calendar, in a year between
/// -262143 and 262142, has a weekday, numbered from 1 to 7.
#[verifier::external_body]
fn chrono_weekday(date: &Date) -> (number: Option<u32>)
    ensures
        match number {
            Some(n) => 1 <= n <= 7 && weekday_of(
                date.year as int,
                date.month as int,
                date.day as int,
            ) == Some(n as int),
            None => !date.valid() && weekday_of(date.year as int, date.month as int, date.day as int)
                is None,
        },
{
    NaiveDate::from_ymd_opt(date.year, date.month, date.day).map(
        |day| day.weekday().number_from_sunday(),
    )
}

/// `str::parse` for a `chrono_tz::Tz`: whether the database has a zone of
/// this name.
#[verifier::external_body]
fn zone_exists(name: &str) -> (known: bool)
    ensures
        known == is_zone(name@),
{
    name.parse::<Tz>().is_ok()
}

/// `from_local_datetime` of the zone `source`, then `with_timezone` for the
/// zone `target` and `naive_local`. The contract names the result. The call
/// returns for every time that this library has: the years of `chrono`
/// reach further than a time zone can move a time.
#[verifier::external_body]
fn shift_zone(local: &DateTime, source: &str, target: &str) -> (moved: Option<DateTime>)
    requires
        local.valid(),
        is_zone(source@),
        is_zone(target@),
    ensures
        moved == zone_shift(*local, source@, target@),
{
    let from: Tz = source.parse().ok()?;
    let to: Tz = target.parse().ok()?;
    let day = NaiveDate::from_ymd_opt(local.date.year, local.date.month, local.date.day)?;
    let naive = day.and_hms_micro_opt(local.hour, local.minute, local.second, local.micro)?;
    let there = from.from_local_datetime(&naive).single()?.with_timezone(&to).naive_local();
    let date = Date { year: there.year(), month: there.month(), day: there.day() };
    let micro = there.and_utc().timestamp_subsec_micros();
    Some(DateTime { date, hour: there.hour(), minute: there.minute(), second: there.second(), micro })
}

/// The day of the week of a date: 1 for Sunday to 7 for Saturday.
pub fn day_of_week(date: &Date) -> (number: u8)
    requires
        date.valid(),
    ensures
        1 <= number <= 7,
        weekday_of(date.year as int, date.month as int, date.day as int) == Some(number as int),
{
    match chrono_weekday(date) {
        Some(n) => n as u8,
        None => 1,
    }
}

/// The month of a date: 1 for January to 12 for December.
pub fn month(date: &Date) -> (number: u8)
    requires
        date.valid(),
    ensures
        number == date.month,
{
    date.month as u8
}

/// What `convert_tz` makes of the answers of the time zone database.
pub open spec fn converted(local: DateTime, source: Seq<char>, target: Seq<char>) -> Result<
    DateTime,
    TzError,
> {
    if !is_zone(source) {
        Err(TzError::SourceZone)
    } else if !is_zone(target) {
        Err(TzError::TargetZone)
    } else {
        match zone_shift(local, source, target) {
            Some(moved) => Ok(moved),
            None => Err(TzError::Transform),
        }
    }
}

/// Takes `datetime` as a local time of the zone `src` and gives the local
/// time of the zone `target` at the same moment.
pub fn convert_tz(datetime: &DateTime, src: &str, target: &str) -> (result: Result<
    DateTime,
    TzError,
>)
    requires
        datetime.valid(),
    ensures
        result == converted(*datetime, src@, target@),
{
    if !zone_exists(src) {
        return Err(TzError::SourceZone);
    }
    if !zone_exists(target) {
        return Err(TzError::TargetZone);
    }
    match shift_zone(datetime, src, target) {
        Some(moved) => Ok(moved),
        None => Err(TzError::Transform),
    }
}

/// The number that the `width` digits of `s` from the position `at` spell;
/// `None` where one of them is no digit or lies outside `s`.
pub open spec fn number_at(s: Seq<u8>, at: int, width: int) -> Option<int>
    decreases width,
{
    if width <= 0 {
        Some(0)
    } else if 0 <= at && at + width <= s.len() && 48 <= s[at + width - 1] <= 57 {
        match number_at(s, at, width - 1) {
            Some(n) => Some(n * 10 + (s[at + width - 1] - 48)),
            None => None,
        }
    } else {
        None
    }
}

/// Ten to the power of `n`, for the powers that a fraction of a second
/// needs.
pub open spec fn pow10(n: int) -> int {
    if n <= 0 {
        1
    } else if n == 1 {
        10
    } else if n == 2 {
        100
    } else if n == 3 {
        1_000
    } else if n == 4 {
        10_000
    } else {
        100_000
    }
}

/// The date that `s` spells as `YYYY-MM-DD`, if it spells one that exists.
pub open spec fn date_of_text(s: Seq<u8>) -> Option<Date> {
    if s.len() == 10 && s[4] == 45 && s[7] == 45 {
        match (number_at(s, 0, 4), number_at(s, 5, 2), number_at(s, 8, 2)) {
            (Some(y), Some(m), Some(d)) => if valid_date(y, m, d) {
                Some(Date { year: y as i32, month: m as u32, day: d as u32 })
            } else {
                None
            },
            _ => None,
        }
    } else {
        None
    }
}

/// The fraction of a second that `s` spells from the position 19 on, in
/// microseconds: nothing, or a point and one to six digits.
pub open spec fn micros_of_text(s: Seq<u8>) -> Option<int> {
    if s.len() == 19 {
        Some(0)
    } else if 21 <= s.len() <= 26 && s[19] == 46 {
        match number_at(s, 20, s.len() - 20) {
            Some(f) => Some(f * pow10(26 - s.len())),
            None => None,
        }
    } else {
        None
    }
}

/// The day and time that `s` spells as `YYYY-MM-DD HH:MM:SS`, with or
/// without a fraction of the second, if it spells one that exists.
pub open spec fn timestamp_of_text(s: Seq<u8>) -> Option<DateTime> {
    if s.len() >= 19 && s[10] == 32 && s[13] == 58 && s[16] == 58 {
        match (
            date_of_text(s.subrange(0, 10)),
            number_at(s, 11, 2),
            number_at(s, 14, 2),
            number_at(s, 17, 2),
            micros_of_text(s),
        ) {
            (Some(date), Some(h), Some(m), Some(sec), Some(us)) => if valid_time(h, m, sec, us) {
                Some(
                    DateTime {
                        date,
                        hour: h as u32,
                        minute: m as u32,
                        second: sec as u32,
                        micro: us as u32,
                    },
                )
            } else {
                None
            },
            _ => None,
        }
    } else {
        None
    }
}

/// `n` in decimal notation with `width` digits, zeros in front.
pub open spec fn padded(n: int, width: int) -> Seq<u8>
    decreases width,
{
    if width <= 0 {
        Seq::empty()
    } else {
        padded(n / 10, width - 1).push((48 + n % 10) as u8)
    }
}

/// A date as `YYYY-MM-DD`.
pub open spec fn date_text(date: Date) -> Seq<u8> {
    padded(date.year as int, 4) + seq![45u8] + padded(date.month as int, 2) + seq![45u8] + padded(
        date.day as int,
        2,
    )
}

/// A day and time as `YYYY-MM-DD HH:MM:SS`, with the microseconds behind a
/// point where there are any.
pub open spec fn timestamp_text(moment: DateTime) -> Seq<u8> {
    let whole = date_text(moment.date) + seq![32u8] + padded(moment.hour as int, 2) + seq![58u8]
        + padded(moment.minute as int, 2) + seq![58u8] + padded(moment.second as int, 2);
    if moment.micro == 0 {
        whole
    } else {
        whole + seq![46u8] + padded(moment.micro as int, 6)
    }
}

/// A date that has a text: one of the years 0 to 9999.
pub open spec fn has_text(date: Date) -> bool {
    date.valid() && 0 <= date.year <= 9999
}

/// The number that `width` digits from the position `at` spell.
pub fn read_number(s: &[u8], at: usize, width: usize) -> (number: Option<u32>)
    requires
        width <= 6,
        at + width <= usize::MAX,
    ensures
        match number {
            Some(n) => number_at(s@, at as int, width as int) == Some(n as int),
            None => number_at(s@, at as int, width as int) is None,
        },
{
    if width == 0 {
        return Some(0);
    }
    if at + width > s.len() {
        proof {
            lemma_number_outside(s@, at as int, width as int);
        }
        return None;
    }
    let mut total: u32 = 0;
    let mut i: usize = 0;
    while i < width
        invariant
            i <= width <= 6,
            at + width <= s@.len(),
            at + width <= usize::MAX,
            number_at(s@, at as int, i as int) == Some(total as int),
            total < pow_bound(i as int),
        decreases width - i,
    {
        let b = s[at + i];
        if b < 48 || b > 57 {
            proof {
                lemma_number_stops(s@, at as int, i + 1, width as int);
            }
            return None;
        }
        total = total * 10 + (b - 48) as u32;
        i += 1;
    }
    Some(total)
}

/// A bound on the numbers that `n` digits spell.
pub open spec fn pow_bound(n: int) -> int {
    if n <= 0 {
        1
    } else if n == 1 {
        10
    } else if n == 2 {
        100
    } else if n == 3 {
        1_000
    } else if n == 4 {
        10_000
    } else if n == 5 {
        100_000
    } else {
        1_000_000
    }
}

/// Digits that reach behind the text spell no number.
pub proof fn lemma_number_outside(s: Seq<u8>, at: int, width: int)
    requires
        at + width > s.len(),
        width > 0,
    ensures
        number_at(s, at, width) is None,
{
}

/// Where some digits spell no number, more digits spell none either.
pub proof fn lemma_number_stops(s: Seq<u8>, at: int, n: int, width: int)
    requires
        0 < n <= width,
        number_at(s, at, n) is None,
    ensures
        number_at(s, at, width) is None,
    decreases width - n,
{
    if n < width {
        lemma_number_stops(s, at, n, width - 1);
    }
}

/// Reads a date written as `YYYY-MM-DD`.
pub fn parse_date(s: &[u8]) -> (date: Option<Date>)
    ensures
        date == date_of_text(s@),
{
    if s.len() != 10 || s[4] != 45 || s[7] != 45 {
        return None;
    }
    let year = read_number(s, 0, 4);
    let month = read_number(s, 5, 2);
    let day = read_number(s, 8, 2);
    match (year, month, day) {
        (Some(y), Some(m), Some(d)) => {
            proof {
                lemma_number_bound(s@, 0, 4);
            }
            Date::new(y as i32, m, d)
        },
        _ => None,
    }
}

/// The numbers that `width` digits spell are below ten to the `width`.
pub proof fn lemma_number_bound(s: Seq<u8>, at: int, width: int)
    requires
        0 <= width <= 6,
    ensures
        number_at(s, at, width) matches Some(n) ==> 0 <= n < pow_bound(width),
    decreases width,
{
    if width > 0 {
        lemma_number_bound(s, at, width - 1);
    }
}

/// Reads a day and time written as `YYYY-MM-DD HH:MM:SS`, with or without
/// a fraction of the second.
pub fn parse_timestamp(s: &[u8]) -> (moment: Option<DateTime>)
    ensures
        moment == timestamp_of_text(s@),
{
    let len = s.len();
    if len < 19 || s[10] != 32 || s[13] != 58 || s[16] != 58 {
        return None;
    }
    let date = parse_date(vstd::slice::slice_subrange(s, 0, 10));
    let hour = read_number(s, 11, 2);
    let minute = read_number(s, 14, 2);
    let second = read_number(s, 17, 2);
    let micro: Option<u32> = if len == 19 {
        Some(0)
    } else if len >= 21 && len <= 26 && s[19] == 46 {
        proof {
            lemma_number_bound(s@, 20, len - 20);
        }
        match read_number(s, 20, len - 20) {
            Some(f) => {
                let scale: u32 = if len == 26 {
                    1
                } else if len == 25 {
                    10
                } else if len == 24 {
                    100
                } else if len == 23 {
                    1_000
                } else if len == 22 {
                    10_000
                } else {
                    100_000
                };
                assert(f * scale < 1_000_000) by (nonlinear_arith)
                    requires
                        0 <= f < pow_bound(len - 20),
                        scale == pow10(26 - len),
                        21 <= len <= 26,
                ;
                Some(f * scale)
            },
            None => None,
        }
    } else {
        None
    };
    match (date, hour, minute, second, micro) {
        (Some(date), Some(h), Some(m), Some(sec), Some(us)) => {
            let moment = DateTime { date, hour: h, minute: m, second: sec, micro: us };
            if h < 24 && m < 60 && sec < 60 && us < 1_000_000 {
                Some(moment)
            } else {
                None
            }
        },
        _ => None,
    }
}

fn push_padded(n: u32, width: usize, out: &mut Vec<u8>)
    ensures
        final(out)@ == old(out)@ + padded(n as int, width as int),
    decreases width,
{
    if width > 0 {
        push_padded(n / 10, width - 1, out);
        out.push((48 + n % 10) as u8);
        proof {
            assert(final(out)@ =~= old(out)@ + padded(n as int, width as int));
        }
    } else {
        proof {
            assert(final(out)@ =~= old(out)@ + padded(n as int, width as int));
        }
    }
}

/// Every byte of a padded number is a digit.
pub proof fn lemma_padded_ascii(n: int, width: int)
    requires
        0 <= n,
    ensures
        padded(n, width).len() == (if width > 0 {
            width
        } else {
            0
        }),
        forall|i: int| 0 <= i < padded(n, width).len() ==> 48 <= #[trigger] padded(n, width)[i] <= 57,
    decreases width,
{
    if width > 0 {
        lemma_padded_ascii(n / 10, width - 1);
    }
}

/// Writes a date as `YYYY-MM-DD`.
pub fn write_date(date: &Date, out: &mut Vec<u8>)
    requires
        has_text(*date),
    ensures
        final(out)@ == old(out)@ + date_text(*date),
{
    push_padded(date.year as u32, 4, out);
    out.push(45);
    push_padded(date.month, 2, out);
    out.push(45);
    push_padded(date.day, 2, out);
    proof {
        assert(final(out)@ =~= old(out)@ + date_text(*date));
    }
}

/// Writes a day and time as `YYYY-MM-DD HH:MM:SS`, with the microseconds
/// behind a point where there are any.
pub fn write_timestamp(moment: &DateTime, out: &mut Vec<u8>)
    requires
        has_text(moment.date),
    ensures
        final(out)@ == old(out)@ + timestamp_text(*moment),
{
    write_date(&moment.date, out);
    out.push(32);
    push_padded(moment.hour, 2, out);
    out.push(58);
    push_padded(moment.minute, 2, out);
    out.push(58);
    push_padded(moment.second, 2, out);
    if moment.micro != 0 {
        out.push(46);
        push_padded(moment.micro, 6, out);
    }
    proof {
        assert(final(out)@ =~= old(out)@ + timestamp_text(*moment));
    }
}

/// Whether the first date is before the second.
pub fn date_before(a: &Date, b: &Date) -> (before: bool)
    ensures
        before == date_less(*a, *b),
{
    a.year < b.year || (a.year == b.year && (a.month < b.month || (a.month == b.month && a.day
        < b.day)))
}

/// The first date is before the second.
pub open spec fn date_less(a: Date, b: Date) -> bool {
    a.year < b.year || (a.year == b.year && (a.month < b.month || (a.month == b.month && a.day
        < b.day)))
}

/// The first time of day is before the second.
pub open spec fn time_less(a: DateTime, b: DateTime) -> bool {
    a.hour < b.hour || (a.hour == b.hour && (a.minute < b.minute || (a.minute == b.minute && (
    a.second < b.second || (a.second == b.second && a.micro < b.micro)))))
}

/// The first moment is before the second.
pub open spec fn moment_less(a: DateTime, b: DateTime) -> bool {
    date_less(a.date, b.date) || (a.date == b.date && time_less(a, b))
}

/// Whether the first moment is before the second.
pub fn moment_before(a: &DateTime, b: &DateTime) -> (before: bool)
    ensures
        before == moment_less(*a, *b),
{
    if date_before(&a.date, &b.date) {
        return true;
    }
    if a.date.year != b.date.year || a.date.month != b.date.month || a.date.day != b.date.day {
        return false;
    }
    a.hour < b.hour || (a.hour == b.hour && (a.minute < b.minute || (a.minute == b.minute && (
    a.second < b.second || (a.second == b.second && a.micro < b.micro)))))
}

} // verus!
