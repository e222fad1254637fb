//! Times as MySQL has them: a length of time with a sign, down to the
//! microsecond, no longer than 838 hours, 59 minutes and 59 seconds.

use crate::dates::{
    lemma_number_bound, moment_before, moment_less, number_at, pow10, read_number, DateTime, Date,
};
use chrono::{Datelike, NaiveDate, Timelike};
use vstd::prelude::*;

verus! {

/// The longest time, in microseconds.
pub const MAX_MICROS: i64 = 3_020_399_000_000;

/// A time: a number of microseconds between `-MAX_MICROS` and `MAX_MICROS`.
#[derive(Clone, Copy, Debug, PartialEq, Eq, Structural)]
pub struct MySqlTime {
    micros: i64,
}

/// `us`, or the nearest number that a time can hold.
pub open spec fn clamp(us: int) -> int {
    if us > MAX_MICROS {
        MAX_MICROS as int
    } else if us < -MAX_MICROS {
        -MAX_MICROS
    } else {
        us
    }
}

/// The number of microseconds in hours, minutes, seconds and microseconds.
pub open spec fn micros_of(hours: int, minutes: int, seconds: int, micros: int) -> int {
    ((hours * 60 + minutes) * 60 + seconds) * 1_000_000 + micros
}

/// The time from the moment `b` to the moment `a` in microseconds, as
/// `chrono` counts it; `None` where 64 bits do not hold it.
pub uninterp spec fn micros_between(a: DateTime, b: DateTime) -> Option<int>;

/// The moment that lies `us` microseconds behind `at`, as `chrono` has it;
/// `None` where `chrono` has no such moment.
pub uninterp spec fn moment_plus(at: DateTime, us: int) -> Option<DateTime>;

impl View for MySqlTime {
    type V = int;

    closed spec fn view(&self) -> int {
        self.micros as int
    }
}

impl MySqlTime {
    #[verifier::type_invariant]
    spec fn in_bounds(&self) -> bool {
        -MAX_MICROS <= self.micros <= MAX_MICROS
    }


    /// The time of `us` microseconds, or the nearest that there is.
    pub fn from_microseconds(us: i64) -> (time: MySqlTime)
        ensures
            time@ == clamp(us as int),
    {
        if us > MAX_MICROS {
            MySqlTime { micros: MAX_MICROS }
        } else if us < -MAX_MICROS {
            MySqlTime { micros: -MAX_MICROS }
        } else {
            MySqlTime { micros: us }
        }
    }

    /// The time of so many hours, minutes, seconds and microseconds, before
    /// zero unless `positive`; the nearest that there is where it is too
    /// long.
    pub fn from_hmsus(positive: bool, h: u16, m: u8, s: u8, us: u64) -> (time: MySqlTime)
        ensures
            time@ == clamp(
                if positive {
                    micros_of(h as int, m as int, s as int, us as int)
                } else {
                    -micros_of(h as int, m as int, s as int, us as int)
                },
            ),
    {
        let whole: i128 = ((h as i128 * 60 + m as i128) * 60 + s as i128) * 1_000_000 + us as i128;
        let signed: i128 = if positive {
            whole
        } else {
            -whole
        };
        if signed > MAX_MICROS as i128 {
            MySqlTime { micros: MAX_MICROS }
        } else if signed < -(MAX_MICROS as i128) {
            MySqlTime { micros: -MAX_MICROS }
        } else {
            MySqlTime { micros: signed as i64 }
        }
    }

    /// The time in microseconds.
    pub fn microseconds(&self) -> (us: i64)
        ensures
            us == self@,
            -MAX_MICROS <= us <= MAX_MICROS,
    {
        proof {
            use_type_invariant(self);
        }
        self.micros
    }

    /// The sum of two times, or the nearest time that there is.
    pub fn add(&self, other: &MySqlTime) -> (sum: MySqlTime)
        ensures
            sum@ == clamp(self@ + other@),
    {
        proof {
            use_type_invariant(self);
            use_type_invariant(other);
        }
        MySqlTime::from_microseconds(self.micros + other.micros)
    }

    /// The difference of two times, or the nearest time that there is.
    pub fn sub(&self, other: &MySqlTime) -> (difference: MySqlTime)
        ensures
            difference@ == clamp(self@ - other@),
    {
        proof {
            use_type_invariant(self);
            use_type_invariant(other);
        }
        MySqlTime::from_microseconds(self.micros - other.micros)
    }

    /// Whether the first time is shorter than the second, or further before
    /// zero.
    pub fn before(&self, other: &MySqlTime) -> (less: bool)
        ensures
            less == (self@ < other@),
    {
        self.micros < other.micros
    }
}

/// `signed_duration_since` and `num_microseconds` of `chrono`, on the two
/// moments. The contract names the result.
#[verifier::external_body]
fn chrono_micros_between(a: &DateTime, b: &DateTime) -> (us: Option<i64>)
    requires
        a.valid(),
        b.valid(),
    ensures
        match us {
            Some(n) => micros_between(*a, *b) == Some(n as int),
            None => micros_between(*a, *b) is None,
        },
{
    let first = NaiveDate::from_ymd_opt(a.date.year, a.date.month, a.date.day)?.and_hms_micro_opt(
        a.hour,
        a.minute,
        a.second,
        a.micro,
    )?;
    let second = NaiveDate::from_ymd_opt(b.date.year, b.date.month, b.date.day)?.and_hms_micro_opt(
        b.hour,
        b.minute,
        b.second,
        b.micro,
    )?;
    first.signed_duration_since(second).num_microseconds()
}

/// `checked_add_signed` of `chrono`, with a duration of `us` microseconds.
/// The contract names the result. A time of this library moves a moment of
/// this library by less than 35 days, which the years of `chrono` hold.
#[verifier::external_body]
fn chrono_moment_plus(at: &DateTime, us: i64) -> (moved: Option<DateTime>)
    requires
        at.valid(),
        -MAX_MICROS <= us <= MAX_MICROS,
    ensures
        moved is Some,
        moved == moment_plus(*at, us as int),
{
    let day = NaiveDate::from_ymd_opt(at.date.year, at.date.month, at.date.day)?;
    let naive = day.and_hms_micro_opt(at.hour, at.minute, at.second, at.micro)?;
    let there = naive.checked_add_signed(chrono::Duration::microseconds(us))?;
    let date = Date { year: there.year(), month: there.month(), day: there.day() };
    let micro = there.and_utc().timestamp_subsec_micros();
    Some(DateTime { date, hour: there.hour(), minute: there.minute(), second: there.second(), micro })
}

/// What `timediff_datetimes` gives: the time between the moments, or the
/// longest time in its direction.
pub open spec fn moments_apart(a: DateTime, b: DateTime) -> int {
    match micros_between(a, b) {
        Some(us) => clamp(us),
        None => if moment_less(a, b) {
            -MAX_MICROS
        } else {
            MAX_MICROS as int
        },
    }
}

/// The time from the second moment to the first.
pub fn timediff_datetimes(time1: &DateTime, time2: &DateTime) -> (difference: MySqlTime)
    requires
        time1.valid(),
        time2.valid(),
    ensures
        difference@ == moments_apart(*time1, *time2),
{
    match chrono_micros_between(time1, time2) {
        Some(us) => MySqlTime::from_microseconds(us),
        None => if moment_before(time1, time2) {
            MySqlTime::from_microseconds(-MAX_MICROS)
        } else {
            MySqlTime::from_microseconds(MAX_MICROS)
        },
    }
}

/// The difference of two times.
pub fn timediff_times(time1: &MySqlTime, time2: &MySqlTime) -> (difference: MySqlTime)
    ensures
        difference@ == clamp(time1@ - time2@),
{
    time1.sub(time2)
}

/// The moment that lies the time `time2` behind the moment `time1`.
pub fn addtime_datetime(time1: &DateTime, time2: &MySqlTime) -> (moved: DateTime)
    requires
        time1.valid(),
    ensures
        moment_plus(*time1, time2@) == Some(moved),
{
    match chrono_moment_plus(time1, time2.microseconds()) {
        Some(moved) => moved,
        None => *time1,
    }
}

/// The sum of two times.
pub fn addtime_times(time1: &MySqlTime, time2: &MySqlTime) -> (sum: MySqlTime)
    ensures
        sum@ == clamp(time1@ + time2@),
{
    time1.add(time2)
}

/// The position of the first point in `s` from the position `i` on; the
/// length of `s` if there is none.
pub open spec fn first_dot(s: Seq<u8>, i: int) -> int
    decreases s.len() - i,
{
    if 0 <= i < s.len() {
        if s[i] == 46 {
            i
        } else {
            first_dot(s, i + 1)
        }
    } else {
        s.len() as int
    }
}

/// The number that the digits of `s` before the position `end` spell, as
/// far as there are `width` of them.
pub open spec fn field(s: Seq<u8>, end: int, width: int) -> Option<int> {
    if end <= 0 {
        Some(0)
    } else if end < width {
        number_at(s, 0, end)
    } else {
        number_at(s, end - width, width)
    }
}

/// The hours, minutes and seconds that `s` spells: as `H:MM:SS` with one to
/// three digits for the hours, or as up to seven digits, of which the last
/// two are the seconds and the two before them the minutes.
pub open spec fn clock_of_text(s: Seq<u8>) -> Option<(int, int, int)> {
    let len = s.len() as int;
    let parts = if 7 <= len <= 9 && s[len - 3] == 58 && s[len - 6] == 58 {
        (number_at(s, 0, len - 6), number_at(s, len - 5, 2), number_at(s, len - 2, 2))
    } else if 1 <= len <= 7 {
        (field(s, len - 4, 3), field(s, len - 2, 2), field(s, len, 2))
    } else {
        (None, None, None)
    };
    match parts {
        (Some(h), Some(m), Some(sec)) => if m < 60 && sec < 60 {
            Some((h, m, sec))
        } else {
            None
        },
        _ => None,
    }
}

/// The microseconds that the part of `s` behind the position `p` spells:
/// none where `s` ends there, else one to six digits behind a point.
pub open spec fn fraction_of_text(s: Seq<u8>, p: int) -> Option<int> {
    let n = s.len() - p - 1;
    if p >= s.len() {
        Some(0)
    } else if 1 <= n <= 6 {
        match number_at(s, p + 1, n) {
            Some(f) => Some(f * pow10(6 - n)),
            None => None,
        }
    } else {
        None
    }
}

/// `s` without a minus sign at its front.
pub open spec fn unsigned_text(s: Seq<u8>) -> Seq<u8> {
    if s.len() > 0 && s[0] == 45 {
        s.subrange(1, s.len() as int)
    } else {
        s
    }
}

/// The length of time that `s` spells, in microseconds: an optional minus
/// sign, hours, minutes and seconds, and an optional fraction of the
/// second.
pub open spec fn time_of_text(s: Seq<u8>) -> Option<int> {
    let body = unsigned_text(s);
    let p = first_dot(body, 0);
    match (clock_of_text(body.subrange(0, p)), fraction_of_text(body, p)) {
        (Some((h, m, sec)), Some(us)) => if s.len() > 0 && s[0] == 45 {
            Some(-micros_of(h, m, sec, us))
        } else {
            Some(micros_of(h, m, sec, us))
        },
        _ => None,
    }
}

fn find_dot(s: &[u8]) -> (p: usize)
    ensures
        p == first_dot(s@, 0),
        p <= s@.len(),
{
    let mut i: usize = 0;
    while i < s.len() && s[i] != 46
        invariant
            i <= s@.len(),
            first_dot(s@, 0) == first_dot(s@, i as int),
        decreases s@.len() - i,
    {
        i += 1;
    }
    i
}

fn read_field(s: &[u8], end: usize, width: usize) -> (number: Option<u32>)
    requires
        width <= 3,
        end <= s@.len(),
    ensures
        match number {
            Some(n) => field(s@, end as int, width as int) == Some(n as int) && n < 1000,
            None => field(s@, end as int, width as int) is None,
        },
{
    proof {
        if end < width {
            lemma_number_bound(s@, 0, end as int);
        } else {
            lemma_number_bound(s@, end - width, width as int);
        }
    }
    if end == 0 {
        Some(0)
    } else if end < width {
        read_number(s, 0, end)
    } else {
        read_number(s, end - width, width)
    }
}

fn read_clock(s: &[u8]) -> (clock: Option<(u32, u32, u32)>)
    ensures
        match clock {
            Some(c) => clock_of_text(s@) == Some((c.0 as int, c.1 as int, c.2 as int)) && c.0
                < 1000 && c.1 < 60 && c.2 < 60,
            None => clock_of_text(s@) is None,
        },
{
    let len = s.len();
    let parts = if 7 <= len && len <= 9 && s[len - 3] == 58 && s[len - 6] == 58 {
        proof {
            lemma_number_bound(s@, 0, len - 6);
        }
        (read_number(s, 0, len - 6), read_number(s, len - 5, 2), read_number(s, len - 2, 2))
    } else if 1 <= len && len <= 7 {
        let hours = if len >= 4 {
            read_field(s, len - 4, 3)
        } else {
            Some(0)
        };
        let minutes = if len >= 2 {
            read_field(s, len - 2, 2)
        } else {
            Some(0)
        };
        (hours, minutes, read_field(s, len, 2))
    } else {
        (None, None, None)
    };
    match parts {
        (Some(h), Some(m), Some(sec)) => if m < 60 && sec < 60 {
            Some((h, m, sec))
        } else {
            None
        },
        _ => None,
    }
}

fn read_fraction(s: &[u8], p: usize) -> (micros: Option<u32>)
    requires
        p <= s@.len(),
    ensures
        match micros {
            Some(us) => fraction_of_text(s@, p as int) == Some(us as int) && us < 1_000_000,
            None => fraction_of_text(s@, p as int) is None,
        },
{
    let len = s.len();
    if p >= len {
        return Some(0);
    }
    let n = len - p - 1;
    if n < 1 || n > 6 {
        return None;
    }
    proof {
        lemma_number_bound(s@, p + 1, n as int);
    }
    match read_number(s, p + 1, n) {
        Some(f) => {
            let scale: u32 = if n == 6 {
                1
            } else if n == 5 {
                10
            } else if n == 4 {
                100
            } else if n == 3 {
                1_000
            } else if n == 2 {
                10_000
            } else {
                100_000
            };
            assert(f * scale < 1_000_000) by (nonlinear_arith)
                requires
                    0 <= f < crate::dates::pow_bound(n as int),
                    scale == pow10(6 - n),
                    1 <= n <= 6,
            ;
            Some(f * scale)
        },
        None => None,
    }
}

/// Reads a length of time: an optional minus sign, hours, minutes and
/// seconds, and an optional fraction of the second. The result is in
/// microseconds.
pub fn parse_time(s: &[u8]) -> (micros: Option<i64>)
    ensures
        match micros {
            Some(us) => time_of_text(s@) == Some(us as int),
            None => time_of_text(s@) is None,
        },
{
    let negative = s.len() > 0 && s[0] == 45;
    let body = if negative {
        vstd::slice::slice_subrange(s, 1, s.len())
    } else {
        s
    };
    let p = find_dot(body);
    let clock = read_clock(vstd::slice::slice_subrange(body, 0, p));
    let fraction = read_fraction(body, p);
    match (clock, fraction) {
        (Some((h, m, sec)), Some(us)) => {
            let total: i64 = ((h as i64 * 60 + m as i64) * 60 + sec as i64) * 1_000_000
                + us as i64;
            if negative {
                Some(-total)
            } else {
                Some(total)
            }
        },
        _ => None,
    }
}

} // verus!
