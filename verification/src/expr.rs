//! Expressions over the columns of a record, and what they evaluate to.

use crate::dates::{convert_tz, converted, day_of_week, month, weekday_of};
use crate::json::{get_json_value_type, json_kind, json_kind_of, kind_name};
use crate::maths::{integer_rnd, rounded};
use crate::times::{
    addtime_datetime, addtime_times, clamp, moment_plus, moments_apart, timediff_datetimes,
    timediff_times,
};
use crate::value::{bytes_of, coerce, datum_less, time_or_default, Datum, DfType, Value};
use vstd::prelude::*;
use vstd::string::{StrSliceExecFns, StringExecFns};

verus! {

/// Why an expression has no value.
#[derive(Clone, Copy, Debug, PartialEq, Eq, Structural)]
pub enum EvalError {
    /// The record has no column with this index.
    InvalidColumnIndex(usize),
    /// A value cannot be used as the type that a function needs.
    Conversion,
    /// A text that should hold JSON does not.
    InvalidJson,
    /// The value is no integer: rounding it takes numbers with a fraction,
    /// which this library does not hold.
    Fraction,
}

/// An expression.
#[derive(Debug)]
pub enum Expr {
    /// A constant.
    Literal { val: Value, ty: DfType },
    /// The column of the record with this index.
    Column { index: usize, ty: DfType },
    /// A call of a built-in function; `ty` is the type of its result.
    Call { func: Box<BuiltinFunction>, ty: DfType },
}

/// A built-in function with its arguments.
#[derive(Debug)]
pub enum BuiltinFunction {
    /// The first argument, or the second where the first is null.
    IfNull(Expr, Expr),
    /// The first argument that is not null.
    Coalesce(Expr, Vec<Expr>),
    /// The texts of the arguments, one behind the other.
    Concat(Expr, Vec<Expr>),
    /// A part of a text, from a position, of a length.
    Substring(Expr, Option<Expr>, Option<Expr>),
    /// The greatest of the arguments, compared as values of `compare_as`.
    Greatest { args: Vec<Expr>, compare_as: DfType },
    /// The least of the arguments, compared as values of `compare_as`.
    Least { args: Vec<Expr>, compare_as: DfType },
    /// The name of the kind of JSON value that a text holds.
    JsonTypeof(Expr),
    /// As `JsonTypeof`, under the name that PostgreSQL has for binary JSON.
    JsonbTypeof(Expr),
    /// The month of a date, 1 to 12.
    Month(Expr),
    /// The day of the week of a date, 1 for Sunday to 7 for Saturday.
    DayOfWeek(Expr),
    /// A day and time, taken as local time of the zone that the second
    /// argument names, as local time of the zone that the third names.
    ConvertTZ(Expr, Expr, Expr),
    /// The time from the second argument to the first.
    Timediff(Expr, Expr),
    /// The first argument with the time of the second added.
    Addtime(Expr, Expr),
    /// The first argument, an integer, rounded to as many decimal places as
    /// the second says; a negative number of places zeroes digits before
    /// the decimal point.
    Round(Expr, Expr),
}

/// The type of the expression's value.
pub open spec fn type_of(e: Expr) -> DfType {
    match e {
        Expr::Literal { ty, .. } => ty,
        Expr::Column { ty, .. } => ty,
        Expr::Call { ty, .. } => ty,
    }
}

/// The first of `vals` that is not null; null if there is none.
pub open spec fn first_non_null(vals: Seq<Datum>) -> Datum
    decreases vals.len(),
{
    if vals.len() == 0 {
        Datum::Null
    } else if vals[0] != Datum::Null {
        vals[0]
    } else {
        first_non_null(vals.drop_first())
    }
}

/// The part of `text` that `SUBSTRING` gives: `len` characters from the
/// position `from`, which counts from 1, or from the end if it is negative.
/// A position from the end is taken from the length of the text in bytes.
pub open spec fn substring(text: Seq<char>, from: int, len: int) -> Seq<char> {
    let bytes = bytes_of(text).len() as int;
    if len <= 0 || from == 0 || -from > bytes {
        Seq::empty()
    } else {
        let start = if from < 0 {
            bytes + from
        } else {
            from - 1
        };
        let a = if start < text.len() {
            start
        } else {
            text.len() as int
        };
        let b = if start + len < text.len() {
            start + len
        } else {
            text.len() as int
        };
        text.subrange(a, b)
    }
}

/// The length that `SUBSTRING` takes where none is given: one more than the
/// length of the text in bytes, as far as 64 bits with a sign hold it.
pub open spec fn default_length(text: Seq<char>) -> int {
    if bytes_of(text).len() < i64::MAX {
        bytes_of(text).len() as int + 1
    } else {
        i64::MAX as int
    }
}

/// The views of `vals`.
pub open spec fn views(vals: Seq<Value>) -> Seq<Datum> {
    vals.map_values(|v: Value| v@)
}

/// Whether a value with the key `key` replaces the best so far, whose key is
/// `best`.
pub open spec fn replaces(greatest: bool, key: Datum, best: Datum) -> bool {
    if greatest {
        datum_less(best, key)
    } else {
        datum_less(key, best)
    }
}

/// What the expression `e` evaluates to on the record `rec`.
pub open spec fn eval_spec(e: Expr, rec: Seq<Value>) -> Result<Datum, EvalError>
    decreases e, 0int,
{
    match e {
        Expr::Literal { val, .. } => Ok(val@),
        Expr::Column { index, .. } => if index < rec.len() {
            Ok(rec[index as int]@)
        } else {
            Err(EvalError::InvalidColumnIndex(index))
        },
        Expr::Call { func, ty } => call_spec(*func, ty, rec),
    }
}

/// The values of the first `n` of `args`, or the first error among them.
pub open spec fn eval_prefix(args: Seq<Expr>, rec: Seq<Value>, n: int) -> Result<
    Seq<Datum>,
    EvalError,
>
    decreases args, n,
{
    if n <= 0 || n > args.len() {
        Ok(Seq::empty())
    } else {
        match eval_prefix(args, rec, n - 1) {
            Err(e) => Err(e),
            Ok(vals) => match eval_spec(args[n - 1], rec) {
                Err(e) => Err(e),
                Ok(v) => Ok(vals.push(v)),
            },
        }
    }
}

/// The text that one argument of a function on texts stands for: `Ok(None)`
/// where the argument is null.
pub open spec fn text_arg(e: Expr, rec: Seq<Value>, ty: DfType) -> Result<
    Option<Seq<char>>,
    EvalError,
>
    decreases e, 1int,
{
    match eval_spec(e, rec) {
        Err(e) => Err(e),
        Ok(Datum::Null) => Ok(None),
        Ok(v) => match coerce(v, ty) {
            Some(Datum::Text(t)) => Ok(Some(t)),
            _ => Err(EvalError::Conversion),
        },
    }
}

/// `start` with the texts of the first `n` of `args` behind it. `Ok(None)`
/// where one of them is null; an error where one of them has no text, or
/// fails, before any is null.
pub open spec fn concat_prefix(
    args: Seq<Expr>,
    rec: Seq<Value>,
    ty: DfType,
    start: Seq<char>,
    n: int,
) -> Result<Option<Seq<char>>, EvalError>
    decreases args, n,
{
    if n <= 0 || n > args.len() {
        Ok(Some(start))
    } else {
        match concat_prefix(args, rec, ty, start, n - 1) {
            Ok(Some(text)) => match text_arg(args[n - 1], rec, ty) {
                Ok(Some(t)) => Ok(Some(text + t)),
                Ok(None) => Ok(None),
                Err(e) => Err(e),
            },
            stopped => stopped,
        }
    }
}

/// The value of one argument of `GREATEST` or `LEAST` with the key by which
/// it is compared: `Ok(None)` where the argument is null or has no key.
pub open spec fn keyed_arg(e: Expr, rec: Seq<Value>, compare_as: DfType) -> Result<
    Option<(Datum, Datum)>,
    EvalError,
>
    decreases e, 1int,
{
    match eval_spec(e, rec) {
        Err(e) => Err(e),
        Ok(Datum::Null) => Ok(None),
        Ok(v) => match coerce(v, compare_as) {
            Some(key) => Ok(Some((v, key))),
            None => Ok(None),
        },
    }
}

/// The best of the first `n` of `args`, with its key. A later argument
/// replaces an earlier one only if its key is strictly better. `Ok(None)`
/// where one of them is null or has no key, and where there is none.
pub open spec fn extremum_prefix(
    args: Seq<Expr>,
    rec: Seq<Value>,
    compare_as: DfType,
    greatest: bool,
    n: int,
) -> Result<Option<(Datum, Datum)>, EvalError>
    decreases args, n,
{
    if n <= 0 || n > args.len() {
        Ok(None)
    } else if n == 1 {
        keyed_arg(args[0], rec, compare_as)
    } else {
        match extremum_prefix(args, rec, compare_as, greatest, n - 1) {
            Ok(Some(best)) => match keyed_arg(args[n - 1], rec, compare_as) {
                Ok(Some(next)) => if replaces(greatest, next.1, best.1) {
                    Ok(Some(next))
                } else {
                    Ok(Some(best))
                },
                Ok(None) => Ok(None),
                Err(e) => Err(e),
            },
            stopped => stopped,
        }
    }
}

/// What `GREATEST` or `LEAST` gives once the best argument was found: that
/// argument as a value of `ty`; null where an argument was null or had no
/// key, or where the best has no value of that type.
pub open spec fn extremum_result(
    found: Result<Option<(Datum, Datum)>, EvalError>,
    ty: DfType,
) -> Result<Datum, EvalError> {
    match found {
        Err(e) => Err(e),
        Ok(None) => Ok(Datum::Null),
        Ok(Some(best)) => match coerce(best.0, ty) {
            Some(v) => Ok(v),
            None => Ok(Datum::Null),
        },
    }
}

/// The name of the kind of JSON value that the argument holds once it is
/// taken as a text: null where the argument is null or has no text, an error
/// where the text is not JSON.
pub open spec fn json_typeof(e: Expr, rec: Seq<Value>) -> Result<Datum, EvalError>
    decreases e, 1int,
{
    match eval_spec(e, rec) {
        Err(e) => Err(e),
        Ok(Datum::Null) => Ok(Datum::Null),
        Ok(v) => match coerce(v, DfType::Text) {
            None => Ok(Datum::Null),
            Some(Datum::Text(t)) => match json_kind_of(t) {
                Some(kind) => Ok(Datum::Text(kind_name(kind))),
                None => Err(EvalError::InvalidJson),
            },
            Some(_) => Err(EvalError::Conversion),
        },
    }
}

/// The month of a value that is taken as a date: null where the value is
/// null or no date.
pub open spec fn month_of(v: Datum) -> Result<Datum, EvalError> {
    match coerce(v, DfType::Date) {
        None => Ok(Datum::Null),
        Some(Datum::Null) => Ok(Datum::Null),
        Some(Datum::Date(d)) => if d.valid() {
            Ok(Datum::UnsignedInt(d.month as u64))
        } else {
            Err(EvalError::Conversion)
        },
        Some(_) => Err(EvalError::Conversion),
    }
}

/// The day of the week of a value that is taken as a date: null where the
/// value is no date, an error where it is null.
pub open spec fn day_of_week_of(v: Datum) -> Result<Datum, EvalError> {
    match coerce(v, DfType::Date) {
        None => Ok(Datum::Null),
        Some(Datum::Date(d)) => match weekday_of(d.year as int, d.month as int, d.day as int) {
            Some(n) => if d.valid() {
                Ok(Datum::Int(n as i64))
            } else {
                Err(EvalError::Conversion)
            },
            None => Err(EvalError::Conversion),
        },
        Some(_) => Err(EvalError::Conversion),
    }
}

/// What `CONVERT_TZ` makes of the values of its arguments: null where the
/// first is no day and time or a zone is not known or has no such local
/// time, an error where an argument is null.
pub open spec fn convert_tz_of(moment: Datum, source: Datum, target: Datum) -> Result<
    Datum,
    EvalError,
> {
    match (
        coerce(moment, DfType::Timestamp),
        coerce(source, DfType::Text),
        coerce(target, DfType::Text),
    ) {
        (Some(Datum::Timestamp(t)), Some(Datum::Text(src)), Some(Datum::Text(dst))) => if t.valid() {
            match converted(t, src, dst) {
                Ok(moved) => Ok(Datum::Timestamp(moved)),
                Err(_) => Ok(Datum::Null),
            }
        } else {
            Err(EvalError::Conversion)
        },
        (Some(_), Some(_), Some(_)) => Err(EvalError::Conversion),
        _ => Ok(Datum::Null),
    }
}

/// What `TIMEDIFF` makes of the values of its arguments: each is taken as a
/// day and time or, failing that, as a time; the result is null unless both
/// are of the same kind.
pub open spec fn timediff_of(first: Datum, second: Datum) -> Result<Datum, EvalError> {
    match (time_or_default(first), time_or_default(second)) {
        (Datum::Timestamp(a), Datum::Timestamp(b)) => if a.valid() && b.valid() {
            Ok(Datum::Time(moments_apart(a, b)))
        } else {
            Err(EvalError::Conversion)
        },
        (Datum::Time(a), Datum::Time(b)) => Ok(Datum::Time(clamp(a - b))),
        _ => Ok(Datum::Null),
    }
}

/// What `ADDTIME` makes of the values of its arguments: null where the
/// second is a day and time, an error where one of them is neither a day
/// and time nor a time.
pub open spec fn addtime_of(first: Datum, second: Datum) -> Result<Datum, EvalError> {
    match (time_or_default(first), time_or_default(second)) {
        (_, Datum::Timestamp(_)) => Ok(Datum::Null),
        (Datum::Timestamp(a), Datum::Time(b)) => match moment_plus(a, b) {
            Some(moved) => if a.valid() {
                Ok(Datum::Timestamp(moved))
            } else {
                Err(EvalError::Conversion)
            },
            None => Err(EvalError::Conversion),
        },
        (Datum::Time(a), Datum::Time(b)) => Ok(Datum::Time(clamp(a + b))),
        _ => Err(EvalError::Conversion),
    }
}

/// `n` as a signed integer of 32 bits, by its low 32 bits.
pub open spec fn wrap32(n: int) -> int {
    let low = n % 0x1_0000_0000;
    if low >= 0x8000_0000 {
        low - 0x1_0000_0000
    } else {
        low
    }
}

/// `n` as a signed integer of 64 bits, by its low 64 bits.
pub open spec fn wrap64(n: int) -> int {
    let low = n % 0x1_0000_0000_0000_0000;
    if low >= 0x8000_0000_0000_0000 {
        low - 0x1_0000_0000_0000_0000
    } else {
        low
    }
}

/// The number of decimal places that a value asks for: an integer by its
/// low 32 bits, anything else none.
pub open spec fn places_of(v: Datum) -> int {
    match v {
        Datum::Int(i) => wrap32(i as int),
        Datum::UnsignedInt(u) => wrap32(u as int),
        _ => 0,
    }
}

/// What `ROUND` makes of the values of its arguments: null where one of
/// them is null, the rounded integer by its low 64 bits where the first is
/// an integer.
pub open spec fn round_of(v: Datum, places: Datum) -> Result<Datum, EvalError> {
    if places == Datum::Null || v == Datum::Null {
        Ok(Datum::Null)
    } else {
        match v {
            Datum::Int(i) => Ok(Datum::Int(wrap64(rounded(i as int, places_of(places))) as i64)),
            Datum::UnsignedInt(u) => Ok(
                Datum::Int(wrap64(rounded(u as int, places_of(places))) as i64),
            ),
            _ => Err(EvalError::Fraction),
        }
    }
}

/// An optional integer argument: `default` where there is no expression,
/// `Ok(None)` where it is null.
pub open spec fn int_arg(e: Option<Expr>, rec: Seq<Value>, default: int) -> Result<
    Option<int>,
    EvalError,
>
    decreases e, 1int,
{
    match e {
        None => Ok(Some(default)),
        Some(expr) => match eval_spec(expr, rec) {
            Err(e) => Err(e),
            Ok(Datum::Null) => Ok(None),
            Ok(v) => match coerce(v, DfType::BigInt) {
                Some(Datum::Int(i)) => Ok(Some(i as int)),
                _ => Err(EvalError::Conversion),
            },
        },
    }
}

/// What the call of `f` evaluates to on the record `rec`, where `ty` is the
/// type of the call.
pub open spec fn call_spec(f: BuiltinFunction, ty: DfType, rec: Seq<Value>) -> Result<
    Datum,
    EvalError,
>
    decreases f, 3int,
{
    match f {
        BuiltinFunction::IfNull(a, b) => match eval_spec(a, rec) {
            Err(e) => Err(e),
            Ok(x) => match eval_spec(b, rec) {
                Err(e) => Err(e),
                Ok(y) => if x == Datum::Null {
                    Ok(y)
                } else {
                    Ok(x)
                },
            },
        },
        BuiltinFunction::Coalesce(first, rest) => match eval_spec(first, rec) {
            Err(e) => Err(e),
            Ok(x) => match eval_prefix(rest@, rec, rest@.len() as int) {
                Err(e) => Err(e),
                Ok(vals) => if x != Datum::Null {
                    Ok(x)
                } else {
                    Ok(first_non_null(vals))
                },
            },
        },
        BuiltinFunction::Concat(first, rest) => match text_arg(first, rec, ty) {
            Err(e) => Err(e),
            Ok(None) => Ok(Datum::Null),
            Ok(Some(start)) => match concat_prefix(rest@, rec, ty, start, rest@.len() as int) {
                Err(e) => Err(e),
                Ok(None) => Ok(Datum::Null),
                Ok(Some(text)) => Ok(Datum::Text(text)),
            },
        },
        BuiltinFunction::Substring(string, from, len) => match text_arg(string, rec, ty) {
            Err(e) => Err(e),
            Ok(None) => Ok(Datum::Null),
            Ok(Some(text)) => match int_arg(from, rec, 1) {
                Err(e) => Err(e),
                Ok(None) => Ok(Datum::Null),
                Ok(Some(from)) => match int_arg(len, rec, default_length(text)) {
                    Err(e) => Err(e),
                    Ok(None) => Ok(Datum::Null),
                    Ok(Some(len)) => Ok(Datum::Text(substring(text, from, len))),
                },
            },
        },
        BuiltinFunction::Greatest { args, compare_as } => extremum_result(
            extremum_prefix(args@, rec, compare_as, true, args@.len() as int),
            ty,
        ),
        BuiltinFunction::Least { args, compare_as } => extremum_result(
            extremum_prefix(args@, rec, compare_as, false, args@.len() as int),
            ty,
        ),
        BuiltinFunction::JsonTypeof(e) => json_typeof(e, rec),
        BuiltinFunction::JsonbTypeof(e) => json_typeof(e, rec),
        BuiltinFunction::Month(e) => match eval_spec(e, rec) {
            Err(e) => Err(e),
            Ok(v) => month_of(v),
        },
        BuiltinFunction::DayOfWeek(e) => match eval_spec(e, rec) {
            Err(e) => Err(e),
            Ok(v) => day_of_week_of(v),
        },
        BuiltinFunction::Round(a, b) => match eval_spec(a, rec) {
            Err(e) => Err(e),
            Ok(x) => match eval_spec(b, rec) {
                Err(e) => Err(e),
                Ok(y) => round_of(x, y),
            },
        },
        BuiltinFunction::Timediff(a, b) => match eval_spec(a, rec) {
            Err(e) => Err(e),
            Ok(x) => match eval_spec(b, rec) {
                Err(e) => Err(e),
                Ok(y) => timediff_of(x, y),
            },
        },
        BuiltinFunction::Addtime(a, b) => match eval_spec(a, rec) {
            Err(e) => Err(e),
            Ok(x) => match eval_spec(b, rec) {
                Err(e) => Err(e),
                Ok(y) => addtime_of(x, y),
            },
        },
        BuiltinFunction::ConvertTZ(moment, source, target) => match eval_spec(moment, rec) {
            Err(e) => Err(e),
            Ok(m) => match eval_spec(source, rec) {
                Err(e) => Err(e),
                Ok(s) => match eval_spec(target, rec) {
                    Err(e) => Err(e),
                    Ok(t) => convert_tz_of(m, s, t),
                },
            },
        },
    }
}

/// The result of an evaluation, with the value taken by its view.
pub open spec fn result_view(r: Result<Value, EvalError>) -> Result<Datum, EvalError> {
    match r {
        Ok(v) => Ok(v@),
        Err(e) => Err(e),
    }
}

/// The first of `vals` that is not null; null if there is none.
pub fn first_present(vals: &Vec<Value>) -> (found: Value)
    ensures
        found@ == first_non_null(views(vals@)),
{
    let mut i: usize = 0;
    proof {
        assert(views(vals@).skip(0) =~= views(vals@));
    }
    while i < vals.len()
        invariant
            i <= vals@.len(),
            first_non_null(views(vals@)) == first_non_null(views(vals@).skip(i as int)),
        decreases vals@.len() - i,
    {
        proof {
            assert(views(vals@).skip(i as int)[0] == vals@[i as int]@);
            assert(views(vals@).skip(i as int).drop_first() =~= views(vals@).skip(i + 1));
        }
        if !vals[i].is_none() {
            return vals[i].duplicate();
        }
        i += 1;
    }
    Value::Null
}

/// The part of `text` that `SUBSTRING` gives for the position `from` and the
/// length `len`.
pub fn substring_of(text: &str, from: i64, len: i64) -> (part: String)
    ensures
        part@ == substring(text@, from as int, len as int),
{
    let bytes = text.as_bytes().len();
    if len <= 0 || from == 0 {
        return String::new();
    }
    let start: u128 = if from < 0 {
        let back: u128 = (-(from as i128)) as u128;
        if back > bytes as u128 {
            return String::new();
        }
        bytes as u128 - back
    } else {
        (from - 1) as u128
    };
    let count = text.unicode_len();
    let a: usize = if start < count as u128 {
        start as usize
    } else {
        count
    };
    let b: usize = if start + (len as u128) < count as u128 {
        (start + (len as u128)) as usize
    } else {
        count
    };
    String::from_str(text.substring_char(a, b))
}

/// One argument of a function on texts, as a text of the type `ty`.
fn eval_text_arg(e: &Expr, record: &[Value], ty: DfType) -> (result: Result<
    Option<String>,
    EvalError,
>)
    ensures
        match result {
            Ok(Some(t)) => text_arg(*e, record@, ty) == Ok::<Option<Seq<char>>, EvalError>(
                Some(t@),
            ),
            Ok(None) => text_arg(*e, record@, ty) == Ok::<Option<Seq<char>>, EvalError>(None),
            Err(error) => text_arg(*e, record@, ty) == Err::<Option<Seq<char>>, EvalError>(error),
        },
    decreases e, 1int,
{
    let value = match e.eval(record) {
        Err(error) => {
            return Err(error);
        },
        Ok(value) => value,
    };
    if value.is_none() {
        return Ok(None);
    }
    match value.coerce_to(ty) {
        Some(Value::Text(t)) => Ok(Some(t)),
        _ => Err(EvalError::Conversion),
    }
}

/// An optional integer argument.
fn eval_int_arg(e: &Option<Expr>, record: &[Value], default: i64) -> (result: Result<
    Option<i64>,
    EvalError,
>)
    ensures
        match result {
            Ok(Some(i)) => int_arg(*e, record@, default as int) == Ok::<Option<int>, EvalError>(
                Some(i as int),
            ),
            Ok(None) => int_arg(*e, record@, default as int) == Ok::<Option<int>, EvalError>(None),
            Err(error) => int_arg(*e, record@, default as int) == Err::<Option<int>, EvalError>(
                error,
            ),
        },
    decreases e, 1int,
{
    match e {
        None => Ok(Some(default)),
        Some(expr) => {
            let value = match expr.eval(record) {
                Err(error) => {
                    return Err(error);
                },
                Ok(value) => value,
            };
            if value.is_none() {
                return Ok(None);
            }
            match value.coerce_to(DfType::BigInt) {
                Some(Value::Int(i)) => Ok(Some(i)),
                _ => Err(EvalError::Conversion),
            }
        },
    }
}

/// The month of a value that is taken as a date.
pub fn month_value(v: &Value) -> (result: Result<Value, EvalError>)
    ensures
        result_view(result) == month_of(v@),
{
    match v.coerce_to(DfType::Date) {
        None => Ok(Value::Null),
        Some(Value::Null) => Ok(Value::Null),
        Some(Value::Date(d)) => if d.is_valid() {
            let m: u8 = month(&d);
            Ok(Value::UnsignedInt(m as u64))
        } else {
            Err(EvalError::Conversion)
        },
        Some(_) => Err(EvalError::Conversion),
    }
}

/// The day of the week of a value that is taken as a date.
pub fn day_of_week_value(v: &Value) -> (result: Result<Value, EvalError>)
    ensures
        result_view(result) == day_of_week_of(v@),
{
    match v.coerce_to(DfType::Date) {
        None => Ok(Value::Null),
        Some(Value::Date(d)) => if d.is_valid() {
            let n: u8 = day_of_week(&d);
            Ok(Value::Int(n as i64))
        } else {
            Err(EvalError::Conversion)
        },
        Some(_) => Err(EvalError::Conversion),
    }
}

/// What `CONVERT_TZ` makes of the values of its arguments.
pub fn convert_tz_value(moment: &Value, source: &Value, target: &Value) -> (result: Result<
    Value,
    EvalError,
>)
    ensures
        result_view(result) == convert_tz_of(moment@, source@, target@),
{
    let m = match moment.coerce_to(DfType::Timestamp) {
        None => {
            return Ok(Value::Null);
        },
        Some(m) => m,
    };
    let s = match source.coerce_to(DfType::Text) {
        None => {
            return Ok(Value::Null);
        },
        Some(s) => s,
    };
    let t = match target.coerce_to(DfType::Text) {
        None => {
            return Ok(Value::Null);
        },
        Some(t) => t,
    };
    match (m, s, t) {
        (Value::Timestamp(at), Value::Text(src), Value::Text(dst)) => {
            if !at.is_valid() {
                return Err(EvalError::Conversion);
            }
            match convert_tz(&at, src.as_str(), dst.as_str()) {
                Ok(moved) => Ok(Value::Timestamp(moved)),
                Err(_) => Ok(Value::Null),
            }
        },
        _ => Err(EvalError::Conversion),
    }
}

fn low32(n: i128) -> (low: i32)
    requires
        -0x8000_0000_0000_0000 <= n <= 0xffff_ffff_ffff_ffff,
    ensures
        low == wrap32(n as int),
{
    let shifted: i128 = (n + 0x8000_0000_0000_0000) % 0x1_0000_0000;
    if shifted >= 0x8000_0000 {
        (shifted - 0x1_0000_0000) as i32
    } else {
        shifted as i32
    }
}

fn low64(n: i128) -> (low: i64)
    requires
        -0x2_0000_0000_0000_0000 <= n <= 0x2_0000_0000_0000_0000,
    ensures
        low == wrap64(n as int),
{
    let shifted: i128 = (n + 0x4_0000_0000_0000_0000) % 0x1_0000_0000_0000_0000;
    if shifted >= 0x8000_0000_0000_0000 {
        (shifted - 0x1_0000_0000_0000_0000) as i64
    } else {
        shifted as i64
    }
}

/// What `ROUND` makes of the values of its arguments.
pub fn round_value(v: &Value, places: &Value) -> (result: Result<Value, EvalError>)
    ensures
        result_view(result) == round_of(v@, places@),
{
    if places.is_none() || v.is_none() {
        return Ok(Value::Null);
    }
    let prec: i32 = match places {
        Value::Int(i) => low32(*i as i128),
        Value::UnsignedInt(u) => low32(*u as i128),
        _ => 0,
    };
    let wide: i128 = match v {
        Value::Int(i) => *i as i128,
        Value::UnsignedInt(u) => *u as i128,
        _ => {
            return Err(EvalError::Fraction);
        },
    };
    let near = integer_rnd(wide, prec);
    proof {
        crate::maths::lemma_rounded_near(wide as int, prec as int);
    }
    Ok(Value::Int(low64(near)))
}

/// What `TIMEDIFF` makes of the values of its arguments.
pub fn timediff_value(first: &Value, second: &Value) -> (result: Result<Value, EvalError>)
    ensures
        result_view(result) == timediff_of(first@, second@),
{
    match (first.get_time_or_default(), second.get_time_or_default()) {
        (Value::Timestamp(a), Value::Timestamp(b)) => {
            if a.is_valid() && b.is_valid() {
                Ok(Value::Time(timediff_datetimes(&a, &b)))
            } else {
                Err(EvalError::Conversion)
            }
        },
        (Value::Time(a), Value::Time(b)) => Ok(Value::Time(timediff_times(&a, &b))),
        _ => Ok(Value::Null),
    }
}

/// What `ADDTIME` makes of the values of its arguments.
pub fn addtime_value(first: &Value, second: &Value) -> (result: Result<Value, EvalError>)
    ensures
        result_view(result) == addtime_of(first@, second@),
{
    match (first.get_time_or_default(), second.get_time_or_default()) {
        (_, Value::Timestamp(_)) => Ok(Value::Null),
        (Value::Timestamp(a), Value::Time(b)) => {
            if a.is_valid() {
                Ok(Value::Timestamp(addtime_datetime(&a, &b)))
            } else {
                Err(EvalError::Conversion)
            }
        },
        (Value::Time(a), Value::Time(b)) => Ok(Value::Time(addtime_times(&a, &b))),
        _ => Err(EvalError::Conversion),
    }
}

/// The name of the kind of JSON value that the argument holds.
fn eval_json_typeof(e: &Expr, record: &[Value]) -> (result: Result<Value, EvalError>)
    ensures
        result_view(result) == json_typeof(*e, record@),
    decreases e, 1int,
{
    let value = match e.eval(record) {
        Err(error) => {
            return Err(error);
        },
        Ok(value) => value,
    };
    if value.is_none() {
        return Ok(Value::Null);
    }
    match value.coerce_to(DfType::Text) {
        None => Ok(Value::Null),
        Some(Value::Text(t)) => match json_kind(t.as_str()) {
            Some(kind) => Ok(Value::Text(String::from_str(get_json_value_type(kind)))),
            None => Err(EvalError::InvalidJson),
        },
        Some(_) => Err(EvalError::Conversion),
    }
}

/// The values of `args`, or the first error among them.
#[verifier::loop_isolation(false)]
fn eval_all(args: &Vec<Expr>, record: &[Value]) -> (result: Result<Vec<Value>, EvalError>)
    ensures
        match result {
            Ok(vals) => eval_prefix(args@, record@, args@.len() as int) == Ok::<
                Seq<Datum>,
                EvalError,
            >(views(vals@)),
            Err(error) => eval_prefix(args@, record@, args@.len() as int) == Err::<
                Seq<Datum>,
                EvalError,
            >(error),
        },
    decreases args, 2int,
{
    let mut vals: Vec<Value> = Vec::new();
    let mut i: usize = 0;
    proof {
        assert(views(vals@) =~= Seq::<Datum>::empty());
    }
    while i < args.len()
        invariant
            i <= args@.len(),
            eval_prefix(args@, record@, i as int) == Ok::<Seq<Datum>, EvalError>(views(vals@)),
        decreases args@.len() - i,
    {
        match args[i].eval(record) {
            Err(error) => {
                proof {
                    lemma_prefix_fails(args@, record@, i + 1, args@.len() as int);
                }
                return Err(error);
            },
            Ok(v) => {
                proof {
                    assert(views(vals@.push(v)) =~= views(vals@).push(v@));
                }
                vals.push(v);
            },
        }
        i += 1;
    }
    Ok(vals)
}

/// `start` with the texts of `args` behind it.
#[verifier::loop_isolation(false)]
fn concat_all(args: &Vec<Expr>, record: &[Value], ty: DfType, start: String) -> (result: Result<
    Option<String>,
    EvalError,
>)
    ensures
        match result {
            Ok(Some(text)) => concat_prefix(args@, record@, ty, start@, args@.len() as int)
                == Ok::<Option<Seq<char>>, EvalError>(Some(text@)),
            Ok(None) => concat_prefix(args@, record@, ty, start@, args@.len() as int) == Ok::<
                Option<Seq<char>>,
                EvalError,
            >(None),
            Err(error) => concat_prefix(args@, record@, ty, start@, args@.len() as int) == Err::<
                Option<Seq<char>>,
                EvalError,
            >(error),
        },
    decreases args, 2int,
{
    let mut text = start;
    let mut i: usize = 0;
    while i < args.len()
        invariant
            i <= args@.len(),
            concat_prefix(args@, record@, ty, start@, i as int) == Ok::<
                Option<Seq<char>>,
                EvalError,
            >(Some(text@)),
        decreases args@.len() - i,
    {
        match eval_text_arg(&args[i], record, ty) {
            Err(error) => {
                proof {
                    lemma_concat_stops(args@, record@, ty, start@, i + 1, args@.len() as int);
                }
                return Err(error);
            },
            Ok(None) => {
                proof {
                    lemma_concat_stops(args@, record@, ty, start@, i + 1, args@.len() as int);
                }
                return Ok(None);
            },
            Ok(Some(t)) => {
                text.append(t.as_str());
            },
        }
        i += 1;
    }
    Ok(Some(text))
}

/// One argument of `GREATEST` or `LEAST`, with its key.
fn eval_keyed_arg(e: &Expr, record: &[Value], compare_as: DfType) -> (result: Result<
    Option<(Value, Value)>,
    EvalError,
>)
    ensures
        match result {
            Ok(Some(pair)) => keyed_arg(*e, record@, compare_as) == Ok::<
                Option<(Datum, Datum)>,
                EvalError,
            >(Some((pair.0@, pair.1@))),
            Ok(None) => keyed_arg(*e, record@, compare_as) == Ok::<
                Option<(Datum, Datum)>,
                EvalError,
            >(None),
            Err(error) => keyed_arg(*e, record@, compare_as) == Err::<
                Option<(Datum, Datum)>,
                EvalError,
            >(error),
        },
    decreases e, 1int,
{
    let value = match e.eval(record) {
        Err(error) => {
            return Err(error);
        },
        Ok(value) => value,
    };
    if value.is_none() {
        return Ok(None);
    }
    match value.coerce_to(compare_as) {
        Some(key) => Ok(Some((value, key))),
        None => Ok(None),
    }
}

/// The greatest of the arguments if `greatest` is set, the least otherwise.
/// Each argument is compared as a value of `compare_as`; the one that wins
/// is returned as a value of `ty`. The result is null as soon as an argument
/// is null or has no value of `compare_as`, where the winner has none of
/// `ty`, and where there is no argument. Of arguments that compare equal
/// the first wins.
#[verifier::loop_isolation(false)]
pub fn greatest_or_least(
    args: &Vec<Expr>,
    record: &[Value],
    compare_as: DfType,
    ty: DfType,
    greatest: bool,
) -> (result: Result<Value, EvalError>)
    ensures
        result_view(result) == extremum_result(
            extremum_prefix(args@, record@, compare_as, greatest, args@.len() as int),
            ty,
        ),
    decreases args, 2int,
{
    if args.len() == 0 {
        return Ok(Value::Null);
    }
    let (mut best, mut best_key) = match eval_keyed_arg(&args[0], record, compare_as) {
        Err(error) => {
            proof {
                lemma_extremum_stops(args@, record@, compare_as, greatest, 1, args@.len() as int);
            }
            return Err(error);
        },
        Ok(None) => {
            proof {
                lemma_extremum_stops(args@, record@, compare_as, greatest, 1, args@.len() as int);
            }
            return Ok(Value::Null);
        },
        Ok(Some(pair)) => pair,
    };
    let mut i: usize = 1;
    while i < args.len()
        invariant
            1 <= i <= args@.len(),
            extremum_prefix(args@, record@, compare_as, greatest, i as int) == Ok::<
                Option<(Datum, Datum)>,
                EvalError,
            >(Some((best@, best_key@))),
        decreases args@.len() - i,
    {
        match eval_keyed_arg(&args[i], record, compare_as) {
            Err(error) => {
                proof {
                    lemma_extremum_stops(
                        args@,
                        record@,
                        compare_as,
                        greatest,
                        i + 1,
                        args@.len() as int,
                    );
                }
                return Err(error);
            },
            Ok(None) => {
                proof {
                    lemma_extremum_stops(
                        args@,
                        record@,
                        compare_as,
                        greatest,
                        i + 1,
                        args@.len() as int,
                    );
                }
                return Ok(Value::Null);
            },
            Ok(Some((value, key))) => {
                let better = if greatest {
                    best_key.less_than(&key)
                } else {
                    key.less_than(&best_key)
                };
                if better {
                    best = value;
                    best_key = key;
                }
            },
        }
        i += 1;
    }
    match best.coerce_to(ty) {
        Some(value) => Ok(value),
        None => Ok(Value::Null),
    }
}

/// Once the search for the best argument has stopped, on a null or on an
/// error, later arguments change nothing.
pub proof fn lemma_extremum_stops(
    args: Seq<Expr>,
    rec: Seq<Value>,
    compare_as: DfType,
    greatest: bool,
    n: int,
    m: int,
)
    requires
        1 <= n <= m <= args.len(),
        !(extremum_prefix(args, rec, compare_as, greatest, n) matches Ok(Some(_))),
    ensures
        extremum_prefix(args, rec, compare_as, greatest, m) == extremum_prefix(
            args,
            rec,
            compare_as,
            greatest,
            n,
        ),
    decreases m - n,
{
    if n < m {
        lemma_extremum_stops(args, rec, compare_as, greatest, n, m - 1);
    }
}

/// Once a concatenation has stopped, on a null or on an error, later
/// arguments change nothing.
pub proof fn lemma_concat_stops(
    args: Seq<Expr>,
    rec: Seq<Value>,
    ty: DfType,
    start: Seq<char>,
    n: int,
    m: int,
)
    requires
        0 <= n <= m <= args.len(),
        !(concat_prefix(args, rec, ty, start, n) matches Ok(Some(_))),
    ensures
        concat_prefix(args, rec, ty, start, m) == concat_prefix(args, rec, ty, start, n),
    decreases m - n,
{
    if n < m {
        lemma_concat_stops(args, rec, ty, start, n, m - 1);
    }
}

/// Once an argument has failed, later arguments change nothing.
pub proof fn lemma_prefix_fails(args: Seq<Expr>, rec: Seq<Value>, n: int, m: int)
    requires
        0 <= n <= m <= args.len(),
        eval_prefix(args, rec, n) is Err,
    ensures
        eval_prefix(args, rec, m) == eval_prefix(args, rec, n),
    decreases m - n,
{
    if n < m {
        lemma_prefix_fails(args, rec, n, m - 1);
    }
}

impl Expr {
    /// The type of the expression's value.
    pub fn ty(&self) -> (ty: DfType)
        ensures
            ty == type_of(*self),
    {
        match self {
            Expr::Literal { ty, .. } => *ty,
            Expr::Column { ty, .. } => *ty,
            Expr::Call { ty, .. } => *ty,
        }
    }

    /// Evaluates the expression on a record.
    pub fn eval(&self, record: &[Value]) -> (result: Result<Value, EvalError>)
        ensures
            result_view(result) == eval_spec(*self, record@),
        decreases self, 0int,
    {
        match self {
            Expr::Literal { val, .. } => Ok(val.duplicate()),
            Expr::Column { index, .. } => {
                if *index < record.len() {
                    Ok(record[*index].duplicate())
                } else {
                    Err(EvalError::InvalidColumnIndex(*index))
                }
            },
            Expr::Call { func, ty } => func.eval(*ty, record),
        }
    }
}

impl BuiltinFunction {
    /// Evaluates the call on a record; `ty` is the type of the call.
    #[verifier::rlimit(60)]
    pub fn eval(&self, ty: DfType, record: &[Value]) -> (result: Result<Value, EvalError>)
        ensures
            result_view(result) == call_spec(*self, ty, record@),
        decreases self, 3int,
    {
        match self {
            BuiltinFunction::IfNull(a, b) => {
                let x = match a.eval(record) {
                    Err(error) => {
                        return Err(error);
                    },
                    Ok(x) => x,
                };
                let y = match b.eval(record) {
                    Err(error) => {
                        return Err(error);
                    },
                    Ok(y) => y,
                };
                if x.is_none() {
                    Ok(y)
                } else {
                    Ok(x)
                }
            },
            BuiltinFunction::Coalesce(first, rest) => {
                let x = match first.eval(record) {
                    Err(error) => {
                        return Err(error);
                    },
                    Ok(x) => x,
                };
                let vals = match eval_all(rest, record) {
                    Err(error) => {
                        return Err(error);
                    },
                    Ok(vals) => vals,
                };
                if !x.is_none() {
                    Ok(x)
                } else {
                    Ok(first_present(&vals))
                }
            },
            BuiltinFunction::Concat(first, rest) => {
                let text = match eval_text_arg(first, record, ty) {
                    Err(error) => {
                        return Err(error);
                    },
                    Ok(None) => {
                        return Ok(Value::Null);
                    },
                    Ok(Some(text)) => text,
                };
                match concat_all(rest, record, ty, text) {
                    Err(error) => Err(error),
                    Ok(None) => Ok(Value::Null),
                    Ok(Some(text)) => Ok(Value::Text(text)),
                }
            },
            BuiltinFunction::Substring(string, from, len) => {
                let text = match eval_text_arg(string, record, ty) {
                    Err(error) => {
                        return Err(error);
                    },
                    Ok(None) => {
                        return Ok(Value::Null);
                    },
                    Ok(Some(text)) => text,
                };
                let from = match eval_int_arg(from, record, 1) {
                    Err(error) => {
                        return Err(error);
                    },
                    Ok(None) => {
                        return Ok(Value::Null);
                    },
                    Ok(Some(from)) => from,
                };
                let bytes = text.as_str().as_bytes().len();
                let default: i64 = if (bytes as u128) < 0x7fff_ffff_ffff_ffff {
                    (bytes as u128 + 1) as i64
                } else {
                    0x7fff_ffff_ffff_ffff
                };
                let len = match eval_int_arg(len, record, default) {
                    Err(error) => {
                        return Err(error);
                    },
                    Ok(None) => {
                        return Ok(Value::Null);
                    },
                    Ok(Some(len)) => len,
                };
                Ok(Value::Text(substring_of(text.as_str(), from, len)))
            },
            BuiltinFunction::Greatest { args, compare_as } => greatest_or_least(
                args,
                record,
                *compare_as,
                ty,
                true,
            ),
            BuiltinFunction::Least { args, compare_as } => greatest_or_least(
                args,
                record,
                *compare_as,
                ty,
                false,
            ),
            BuiltinFunction::JsonTypeof(e) => eval_json_typeof(e, record),
            BuiltinFunction::JsonbTypeof(e) => eval_json_typeof(e, record),
            BuiltinFunction::Month(e) => match e.eval(record) {
                Err(error) => Err(error),
                Ok(v) => month_value(&v),
            },
            BuiltinFunction::DayOfWeek(e) => match e.eval(record) {
                Err(error) => Err(error),
                Ok(v) => day_of_week_value(&v),
            },
            BuiltinFunction::Round(a, b) => {
                let x = match a.eval(record) {
                    Err(error) => {
                        return Err(error);
                    },
                    Ok(x) => x,
                };
                let y = match b.eval(record) {
                    Err(error) => {
                        return Err(error);
                    },
                    Ok(y) => y,
                };
                round_value(&x, &y)
            },
            BuiltinFunction::Timediff(a, b) => {
                let x = match a.eval(record) {
                    Err(error) => {
                        return Err(error);
                    },
                    Ok(x) => x,
                };
                let y = match b.eval(record) {
                    Err(error) => {
                        return Err(error);
                    },
                    Ok(y) => y,
                };
                timediff_value(&x, &y)
            },
            BuiltinFunction::Addtime(a, b) => {
                let x = match a.eval(record) {
                    Err(error) => {
                        return Err(error);
                    },
                    Ok(x) => x,
                };
                let y = match b.eval(record) {
                    Err(error) => {
                        return Err(error);
                    },
                    Ok(y) => y,
                };
                addtime_value(&x, &y)
            },
            BuiltinFunction::ConvertTZ(moment, source, target) => {
                let m = match moment.eval(record) {
                    Err(error) => {
                        return Err(error);
                    },
                    Ok(m) => m,
                };
                let s = match source.eval(record) {
                    Err(error) => {
                        return Err(error);
                    },
                    Ok(s) => s,
                };
                let t = match target.eval(record) {
                    Err(error) => {
                        return Err(error);
                    },
                    Ok(t) => t,
                };
                convert_tz_value(&m, &s, &t)
            },
        }
    }
}

} // verus!
