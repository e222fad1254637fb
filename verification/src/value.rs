//! The values that expressions work on, their types, and how a value of one
//! type becomes one of another.

use crate::dates::{
    date_before, date_less, date_of_text, date_text, has_text, moment_before, moment_less,
    parse_date, parse_timestamp, timestamp_of_text, timestamp_text, write_date, write_timestamp,
    lemma_padded_ascii, Date, DateTime,
};
use crate::times::{clamp, parse_time, time_of_text, MySqlTime};
use crate::text::{
    ascii_string, bytes_less, chars_of, decimal, format_signed, format_unsigned, int_of, lex_less,
    parse_signed,
};
use vstd::prelude::*;

verus! {

/// The type of a value, as far as expressions tell types apart.
#[derive(Clone, Copy, Debug, PartialEq, Eq, Structural)]
pub enum DfType {
    /// Not known yet: a value of this type is taken as it is.
    Unknown,
    /// A signed integer of 64 bits.
    BigInt,
    /// An unsigned integer of 64 bits.
    UnsignedBigInt,
    /// A text.
    Text,
    /// A calendar date.
    Date,
    /// A calendar date with a time of day.
    Timestamp,
    /// A length of time.
    Time,
}

/// A value of a record or of an expression.
#[derive(Clone, Debug, PartialEq, Eq)]
pub enum Value {
    /// The SQL null.
    Null,
    Int(i64),
    UnsignedInt(u64),
    Text(String),
    Date(Date),
    Timestamp(DateTime),
    Time(MySqlTime),
}

/// What a value is: a text stands for its characters.
pub enum Datum {
    Null,
    Int(i64),
    UnsignedInt(u64),
    Text(Seq<char>),
    Date(Date),
    Timestamp(DateTime),
    /// A length of time in microseconds.
    Time(int),
}

impl View for Value {
    type V = Datum;

    open spec fn view(&self) -> Datum {
        match self {
            Value::Null => Datum::Null,
            Value::Int(i) => Datum::Int(*i),
            Value::UnsignedInt(u) => Datum::UnsignedInt(*u),
            Value::Text(t) => Datum::Text(t@),
            Value::Date(d) => Datum::Date(*d),
            Value::Timestamp(t) => Datum::Timestamp(*t),
            Value::Time(t) => Datum::Time(t@),
        }
    }
}

/// The bytes of a text in UTF-8.
pub open spec fn bytes_of(text: Seq<char>) -> Seq<u8> {
    vstd::utf8::encode_utf8(text)
}

/// The date that a text spells: as a date, or as the day of a day and time.
pub open spec fn text_date(t: Seq<char>) -> Option<Date> {
    match date_of_text(bytes_of(t)) {
        Some(d) => Some(d),
        None => match timestamp_of_text(bytes_of(t)) {
            Some(m) => Some(m.date),
            None => None,
        },
    }
}

/// The day and time that a text spells: as such, or as the first moment of
/// a date.
pub open spec fn text_timestamp(t: Seq<char>) -> Option<DateTime> {
    match timestamp_of_text(bytes_of(t)) {
        Some(m) => Some(m),
        None => match date_of_text(bytes_of(t)) {
            Some(d) => Some(DateTime { date: d, hour: 0, minute: 0, second: 0, micro: 0 }),
            None => None,
        },
    }
}

/// The length of time that a text spells, no longer than a time can be;
/// zero where it spells none.
pub open spec fn text_time(t: Seq<char>) -> int {
    match time_of_text(bytes_of(t)) {
        Some(us) => clamp(us),
        None => 0,
    }
}

/// `d` as a value of the type `to`, if it has one there.
///
/// Null stays null and `Unknown` takes every value as it is. An integer
/// keeps its value if the other integer type holds it, and becomes its
/// decimal notation as a text. A text becomes the integer that it spells, if
/// it spells one that fits in 64 bits with a sign, and the date or the day
/// and time that it spells. A date becomes its first moment, a day and time
/// its date; both become texts if their year has four digits. Integers are
/// no dates and dates no integers. Every text is a time, zero if it spells
/// none; nothing else becomes a time, and a time nothing else.
pub open spec fn coerce(d: Datum, to: DfType) -> Option<Datum> {
    match (d, to) {
        (Datum::Null, _) => Some(Datum::Null),
        (_, DfType::Unknown) => Some(d),
        (Datum::Int(i), DfType::BigInt) => Some(d),
        (Datum::Int(i), DfType::UnsignedBigInt) => if i >= 0 {
            Some(Datum::UnsignedInt(i as u64))
        } else {
            None
        },
        (Datum::Int(i), DfType::Text) => Some(Datum::Text(chars_of(decimal(i as int)))),
        (Datum::UnsignedInt(u), DfType::BigInt) => if u <= i64::MAX {
            Some(Datum::Int(u as i64))
        } else {
            None
        },
        (Datum::UnsignedInt(u), DfType::UnsignedBigInt) => Some(d),
        (Datum::UnsignedInt(u), DfType::Text) => Some(Datum::Text(chars_of(decimal(u as int)))),
        (Datum::Text(t), DfType::Text) => Some(d),
        (Datum::Text(t), DfType::BigInt) => match int_of(bytes_of(t)) {
            Some(i) => Some(Datum::Int(i)),
            None => None,
        },
        (Datum::Text(t), DfType::UnsignedBigInt) => match int_of(bytes_of(t)) {
            Some(i) => if i >= 0 {
                Some(Datum::UnsignedInt(i as u64))
            } else {
                None
            },
            None => None,
        },
        (Datum::Text(t), DfType::Date) => match text_date(t) {
            Some(date) => Some(Datum::Date(date)),
            None => None,
        },
        (Datum::Text(t), DfType::Timestamp) => match text_timestamp(t) {
            Some(moment) => Some(Datum::Timestamp(moment)),
            None => None,
        },
        (Datum::Text(t), DfType::Time) => Some(Datum::Time(text_time(t))),
        (Datum::Time(us), DfType::Time) => Some(d),
        (Datum::Date(date), DfType::Date) => Some(d),
        (Datum::Date(date), DfType::Timestamp) => Some(
            Datum::Timestamp(DateTime { date, hour: 0, minute: 0, second: 0, micro: 0 }),
        ),
        (Datum::Date(date), DfType::Text) => if has_text(date) {
            Some(Datum::Text(chars_of(date_text(date))))
        } else {
            None
        },
        (Datum::Timestamp(moment), DfType::Timestamp) => Some(d),
        (Datum::Timestamp(moment), DfType::Date) => Some(Datum::Date(moment.date)),
        (Datum::Timestamp(moment), DfType::Text) => if has_text(moment.date) && moment.valid() {
            Some(Datum::Text(chars_of(timestamp_text(moment))))
        } else {
            None
        },
        _ => None,
    }
}

/// `d` as a day and time or, failing that, as a time; null where it is
/// neither.
pub open spec fn time_or_default(d: Datum) -> Datum {
    match coerce(d, DfType::Timestamp) {
        Some(moment) => moment,
        None => match coerce(d, DfType::Time) {
            Some(time) => time,
            None => Datum::Null,
        },
    }
}

/// The number that `d` holds, if it is an integer.
pub open spec fn number_of(d: Datum) -> Option<int> {
    match d {
        Datum::Int(i) => Some(i as int),
        Datum::UnsignedInt(u) => Some(u as int),
        _ => None,
    }
}

/// `a` is below `b`: two integers by their values, two texts in the order of
/// a dictionary over their bytes, two dates or two days and times by the
/// calendar. Nothing else is below anything.
pub open spec fn datum_less(a: Datum, b: Datum) -> bool {
    match (a, b) {
        (Datum::Text(s), Datum::Text(t)) => lex_less(bytes_of(s), bytes_of(t)),
        (Datum::Date(s), Datum::Date(t)) => date_less(s, t),
        (Datum::Timestamp(s), Datum::Timestamp(t)) => moment_less(s, t),
        (Datum::Time(s), Datum::Time(t)) => s < t,
        _ => number_of(a) is Some && number_of(b) is Some && number_of(a)->0 < number_of(b)->0,
    }
}

/// Every byte of the text of a date is below 128.
pub proof fn lemma_date_text_ascii(date: Date)
    requires
        has_text(date),
    ensures
        forall|i: int| 0 <= i < date_text(date).len() ==> #[trigger] date_text(date)[i] < 128,
{
    lemma_padded_ascii(date.year as int, 4);
    lemma_padded_ascii(date.month as int, 2);
    lemma_padded_ascii(date.day as int, 2);
}

/// Every byte of the text of a day and time is below 128.
pub proof fn lemma_timestamp_text_ascii(moment: DateTime)
    requires
        has_text(moment.date),
    ensures
        forall|i: int|
            0 <= i < timestamp_text(moment).len() ==> #[trigger] timestamp_text(moment)[i] < 128,
{
    lemma_date_text_ascii(moment.date);
    lemma_padded_ascii(moment.hour as int, 2);
    lemma_padded_ascii(moment.minute as int, 2);
    lemma_padded_ascii(moment.second as int, 2);
    lemma_padded_ascii(moment.micro as int, 6);
}

/// A text as a value of the type `to`.
fn text_to(t: &String, to: DfType) -> (value: Option<Value>)
    ensures
        match value {
            Some(v) => coerce(Datum::Text(t@), to) == Some(v@),
            None => coerce(Datum::Text(t@), to) is None,
        },
{
    let bytes = t.as_str().as_bytes();
    match to {
        DfType::Unknown | DfType::Text => Some(Value::Text(t.clone())),
        DfType::BigInt => match parse_signed(bytes) {
            Some(i) => Some(Value::Int(i)),
            None => None,
        },
        DfType::UnsignedBigInt => match parse_signed(bytes) {
            Some(i) => if i >= 0 {
                Some(Value::UnsignedInt(i as u64))
            } else {
                None
            },
            None => None,
        },
        DfType::Date => match parse_date(bytes) {
            Some(date) => Some(Value::Date(date)),
            None => match parse_timestamp(bytes) {
                Some(moment) => Some(Value::Date(moment.date)),
                None => None,
            },
        },
        DfType::Timestamp => match parse_timestamp(bytes) {
            Some(moment) => Some(Value::Timestamp(moment)),
            None => match parse_date(bytes) {
                Some(date) => Some(Value::Timestamp(DateTime::midnight(date))),
                None => None,
            },
        },
        DfType::Time => match parse_time(bytes) {
            Some(us) => Some(Value::Time(MySqlTime::from_microseconds(us))),
            None => Some(Value::Time(MySqlTime::from_microseconds(0))),
        },
    }
}

impl Value {
    /// Whether the value is the SQL null.
    pub fn is_none(&self) -> (none: bool)
        ensures
            none == (self@ == Datum::Null),
    {
        match self {
            Value::Null => true,
            _ => false,
        }
    }

    /// A copy of the value.
    pub fn duplicate(&self) -> (copy: Value)
        ensures
            copy@ == self@,
    {
        match self {
            Value::Null => Value::Null,
            Value::Int(i) => Value::Int(*i),
            Value::UnsignedInt(u) => Value::UnsignedInt(*u),
            Value::Text(t) => Value::Text(t.clone()),
            Value::Date(d) => Value::Date(*d),
            Value::Timestamp(t) => Value::Timestamp(*t),
            Value::Time(t) => Value::Time(*t),
        }
    }

    /// The value as one of the type `to`, or `None` if it has none there.
    pub fn coerce_to(&self, to: DfType) -> (value: Option<Value>)
        ensures
            match value {
                Some(v) => coerce(self@, to) == Some(v@),
                None => coerce(self@, to) is None,
            },
    {
        match self {
            Value::Null => Some(Value::Null),
            Value::Int(i) => match to {
                DfType::Unknown | DfType::BigInt => Some(Value::Int(*i)),
                DfType::UnsignedBigInt => if *i >= 0 {
                    Some(Value::UnsignedInt(*i as u64))
                } else {
                    None
                },
                DfType::Text => Some(Value::Text(format_signed(*i))),
                _ => None,
            },
            Value::UnsignedInt(u) => match to {
                DfType::Unknown | DfType::UnsignedBigInt => Some(Value::UnsignedInt(*u)),
                DfType::BigInt => if *u <= 0x7fff_ffff_ffff_ffff {
                    Some(Value::Int(*u as i64))
                } else {
                    None
                },
                DfType::Text => Some(Value::Text(format_unsigned(*u))),
                _ => None,
            },
            Value::Text(t) => text_to(t, to),
            Value::Date(date) => match to {
                DfType::Unknown | DfType::Date => Some(Value::Date(*date)),
                DfType::Timestamp => Some(Value::Timestamp(DateTime::midnight(*date))),
                DfType::Text => if date.is_valid() && 0 <= date.year && date.year <= 9999 {
                    let mut out: Vec<u8> = Vec::new();
                    write_date(date, &mut out);
                    proof {
                        lemma_date_text_ascii(*date);
                        assert(out@ =~= date_text(*date));
                    }
                    Some(Value::Text(ascii_string(out)))
                } else {
                    None
                },
                _ => None,
            },
            Value::Timestamp(moment) => match to {
                DfType::Unknown | DfType::Timestamp => Some(Value::Timestamp(*moment)),
                DfType::Date => Some(Value::Date(moment.date)),
                DfType::Text => if moment.is_valid() && 0 <= moment.date.year && moment.date.year
                    <= 9999 {
                    let mut out: Vec<u8> = Vec::new();
                    write_timestamp(moment, &mut out);
                    proof {
                        lemma_timestamp_text_ascii(*moment);
                        assert(out@ =~= timestamp_text(*moment));
                    }
                    Some(Value::Text(ascii_string(out)))
                } else {
                    None
                },
                _ => None,
            },
            Value::Time(time) => match to {
                DfType::Unknown | DfType::Time => Some(Value::Time(*time)),
                _ => None,
            },
        }
    }

    /// Whether the value is below `other`.
    pub fn less_than(&self, other: &Value) -> (less: bool)
        ensures
            less == datum_less(self@, other@),
    {
        match (self, other) {
            (Value::Text(s), Value::Text(t)) => bytes_less(
                s.as_str().as_bytes(),
                t.as_str().as_bytes(),
            ),
            (Value::Date(a), Value::Date(b)) => date_before(a, b),
            (Value::Timestamp(a), Value::Timestamp(b)) => moment_before(a, b),
            (Value::Time(a), Value::Time(b)) => a.before(b),
            (Value::Int(a), Value::Int(b)) => *a < *b,
            (Value::UnsignedInt(a), Value::UnsignedInt(b)) => *a < *b,
            (Value::Int(a), Value::UnsignedInt(b)) => *a < 0 || (*a as u64) < *b,
            (Value::UnsignedInt(a), Value::Int(b)) => *b >= 0 && *a < (*b as u64),
            _ => false,
        }
    }

    /// The value as a day and time or, failing that, as a time; null where
    /// it is neither.
    pub fn get_time_or_default(&self) -> (time: Value)
        ensures
            time@ == time_or_default(self@),
    {
        match self.coerce_to(DfType::Timestamp) {
            Some(moment) => moment,
            None => match self.coerce_to(DfType::Time) {
                Some(time) => time,
                None => Value::Null,
            },
        }
    }

    /// The text of the value, if it is one.
    pub fn as_text(&self) -> (text: Option<&str>)
        ensures
            match text {
                Some(t) => self@ == Datum::Text(t@),
                None => !(self@ is Text),
            },
    {
        match self {
            Value::Text(t) => Some(t.as_str()),
            _ => None,
        }
    }
}

} // verus!
