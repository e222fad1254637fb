use chrono::{Datelike, NaiveDate, NaiveDateTime, NaiveTime, TimeZone, Timelike};
use chrono_tz::Tz;
use reader_map::dates::{
    convert_tz, date_before, day_of_week, moment_before, month, parse_date, parse_timestamp,
    read_number, write_date, write_timestamp, Date, DateTime, TzError,
};
use reader_map::expr::{
    convert_tz_value, day_of_week_value, month_value, BuiltinFunction, EvalError, Expr,
};
use reader_map::value::{DfType, Value};

fn make_call(func: BuiltinFunction) -> Expr {
    Expr::Call { func: Box::new(func), ty: DfType::Unknown }
}

fn make_column(index: usize) -> Expr {
    Expr::Column { index, ty: DfType::Unknown }
}

fn text(s: &str) -> Value {
    Value::Text(s.to_string())
}

fn date_of(d: NaiveDate) -> Date {
    Date { year: d.year(), month: d.month(), day: d.day() }
}

fn moment_of(t: NaiveDateTime) -> DateTime {
    DateTime {
        date: date_of(t.date()),
        hour: t.hour(),
        minute: t.minute(),
        second: t.second(),
        micro: t.and_utc().timestamp_subsec_micros(),
    }
}

#[test]
fn eval_call_convert_tz() {
    let expr = make_call(BuiltinFunction::ConvertTZ(
        make_column(0),
        make_column(1),
        make_column(2),
    ));
    let datetime = NaiveDateTime::new(
        NaiveDate::from_ymd_opt(2003, 10, 12).unwrap(),
        NaiveTime::from_hms_opt(5, 13, 33).unwrap(),
    );
    let expected = NaiveDateTime::new(
        NaiveDate::from_ymd_opt(2003, 10, 12).unwrap(),
        NaiveTime::from_hms_opt(11, 58, 33).unwrap(),
    );
    let src = "Atlantic/Cape_Verde";
    let target = "Asia/Kathmandu";
    assert_eq!(
        expr.eval(&[Value::Timestamp(moment_of(datetime)), text(src), text(target)])
            .unwrap(),
        Value::Timestamp(moment_of(expected))
    );
    assert_eq!(
        expr.eval(&[
            Value::Timestamp(moment_of(datetime)),
            text("invalid timezone"),
            text(target)
        ])
        .unwrap(),
        Value::Null
    );
    assert_eq!(
        expr.eval(&[
            Value::Timestamp(moment_of(datetime)),
            text(src),
            text("invalid timezone")
        ])
        .unwrap(),
        Value::Null
    );

    let string_datetime = datetime.to_string();
    assert_eq!(
        expr.eval(&[text(&string_datetime), text(src), text(target)])
            .unwrap(),
        Value::Timestamp(moment_of(expected))
    );

    assert_eq!(
        expr.eval(&[text(&string_datetime), text("invalid timezone"), text(target)])
            .unwrap(),
        Value::Null
    );
    assert_eq!(
        expr.eval(&[text(&string_datetime), text(src), text("invalid timezone")])
            .unwrap(),
        Value::Null
    );
}

#[test]
fn eval_call_day_of_week() {
    let expr = make_call(BuiltinFunction::DayOfWeek(make_column(0)));
    let expected = Value::Int(2);

    let date = NaiveDate::from_ymd_opt(2021, 3, 22).unwrap(); // Monday

    assert_eq!(expr.eval(&[Value::Date(date_of(date))]).unwrap(), expected);
    assert_eq!(expr.eval(&[text(&date.to_string())]).unwrap(), expected);

    let datetime = NaiveDateTime::new(
        date, // Monday
        NaiveTime::from_hms_opt(18, 8, 00).unwrap(),
    );
    assert_eq!(
        expr.eval(&[Value::Timestamp(moment_of(datetime))]).unwrap(),
        expected
    );
    assert_eq!(expr.eval(&[text(&datetime.to_string())]).unwrap(), expected);
}

#[test]
fn eval_call_month() {
    let expr = make_call(BuiltinFunction::Month(make_column(0)));
    let datetime = NaiveDateTime::new(
        NaiveDate::from_ymd_opt(2003, 10, 12).unwrap(),
        NaiveTime::from_hms_opt(5, 13, 33).unwrap(),
    );
    let expected = 10_u32;
    assert_eq!(
        expr.eval(&[Value::Timestamp(moment_of(datetime))]).unwrap(),
        Value::UnsignedInt(expected.into())
    );
    assert_eq!(
        expr.eval(&[text(&datetime.to_string())]).unwrap(),
        Value::UnsignedInt(expected.into())
    );
    assert_eq!(
        expr.eval(&[Value::Date(date_of(datetime.date()))]).unwrap(),
        Value::UnsignedInt(expected.into())
    );
    assert_eq!(
        expr.eval(&[text(&datetime.date().to_string())]).unwrap(),
        Value::UnsignedInt(expected.into())
    );
    assert_eq!(expr.eval(&[text("invalid date")]).unwrap(), Value::Null);
}

#[test]
fn month_null() {
    let expr = make_call(BuiltinFunction::Month(make_column(0)));
    assert_eq!(expr.eval(&[Value::Null]).unwrap(), Value::Null);
}

#[test]
fn day_of_week_follows_the_calendar() {
    let mut day = NaiveDate::from_ymd_opt(1899, 12, 25).unwrap();
    for _ in 0..3000 {
        let expected = day.weekday().number_from_sunday() as u8;
        assert_eq!(day_of_week(&date_of(day)), expected);
        assert_eq!(month(&date_of(day)), day.month() as u8);
        day = day + chrono::Duration::days(17);
    }
    assert_eq!(day_of_week(&Date { year: 2024, month: 2, day: 29 }), 5);
    assert_eq!(day_of_week(&Date { year: -262000, month: 1, day: 1 }), 7);
}

#[test]
fn convert_tz_follows_the_zone_database() {
    let src = "Atlantic/Cape_Verde";
    let target = "Asia/Kathmandu";
    let src_tz: Tz = src.parse().unwrap();
    let target_tz: Tz = target.parse().unwrap();
    let mut at = NaiveDate::from_ymd_opt(1970, 1, 1)
        .unwrap()
        .and_hms_micro_opt(0, 0, 0, 250)
        .unwrap();
    for _ in 0..500 {
        let expected = src_tz
            .from_local_datetime(&at)
            .single()
            .unwrap()
            .with_timezone(&target_tz)
            .naive_local();
        assert_eq!(convert_tz(&moment_of(at), src, target), Ok(moment_of(expected)));
        at = at + chrono::Duration::seconds(3_333_333);
    }
    let any = moment_of(at);
    assert_eq!(convert_tz(&any, "invalid timezone", target), Err(TzError::SourceZone));
    assert_eq!(convert_tz(&any, src, "invalid timezone"), Err(TzError::TargetZone));
    assert_eq!(convert_tz(&any, "nowhere", "nowhere"), Err(TzError::SourceZone));
    let gap = DateTime {
        date: Date { year: 2021, month: 3, day: 28 },
        hour: 2,
        minute: 30,
        second: 0,
        micro: 0,
    };
    assert_eq!(convert_tz(&gap, "Europe/Berlin", "UTC"), Err(TzError::Transform));
    let twice = DateTime {
        date: Date { year: 2021, month: 10, day: 31 },
        hour: 2,
        minute: 30,
        second: 0,
        micro: 0,
    };
    assert_eq!(convert_tz(&twice, "Europe/Berlin", "UTC"), Err(TzError::Transform));
    let once = DateTime { hour: 12, ..twice };
    assert_eq!(convert_tz(&once, "Europe/Berlin", "UTC"), Ok(DateTime { hour: 11, ..twice }));
    assert_eq!(
        TzError::SourceZone.message(),
        "Failed to parse the source timezone"
    );
    assert_eq!(
        TzError::TargetZone.message(),
        "Failed to parse the target timezone"
    );
    assert_eq!(
        TzError::Transform.message(),
        "Failed to transform the datetime to a different timezone"
    );
}

#[test]
fn date_functions_on_values() {
    let bad = Value::Date(Date { year: 2021, month: 2, day: 30 });
    assert_eq!(month_value(&bad), Err(EvalError::Conversion));
    assert_eq!(day_of_week_value(&bad), Err(EvalError::Conversion));
    assert_eq!(day_of_week_value(&Value::Null), Err(EvalError::Conversion));
    assert_eq!(day_of_week_value(&Value::Int(3)), Ok(Value::Null));
    assert_eq!(day_of_week_value(&text("2021-03-21")), Ok(Value::Int(1)));
    assert_eq!(month_value(&Value::Int(3)), Ok(Value::Null));
    let noon = Value::Timestamp(DateTime {
        date: Date { year: 2021, month: 6, day: 1 },
        hour: 12,
        minute: 0,
        second: 0,
        micro: 0,
    });
    assert_eq!(
        convert_tz_value(&noon, &Value::Null, &text("UTC")),
        Err(EvalError::Conversion)
    );
    assert_eq!(
        convert_tz_value(&Value::Null, &text("UTC"), &text("UTC")),
        Err(EvalError::Conversion)
    );
    assert_eq!(
        convert_tz_value(&text("soon"), &text("UTC"), &text("UTC")),
        Ok(Value::Null)
    );
    assert_eq!(convert_tz_value(&noon, &text("UTC"), &text("UTC")), Ok(noon.clone()));
    assert_eq!(
        convert_tz_value(&text("2021-06-01"), &text("UTC"), &text("Asia/Tokyo")),
        Ok(Value::Timestamp(DateTime {
            date: Date { year: 2021, month: 6, day: 1 },
            hour: 9,
            minute: 0,
            second: 0,
            micro: 0,
        }))
    );
}

#[test]
fn dates_as_texts() {
    assert_eq!(parse_date(b"2021-03-22"), Some(Date { year: 2021, month: 3, day: 22 }));
    assert_eq!(parse_date(b"2021-02-29"), None);
    assert_eq!(parse_date(b"2020-02-29"), Some(Date { year: 2020, month: 2, day: 29 }));
    assert_eq!(parse_date(b"1900-02-29"), None);
    assert_eq!(parse_date(b"2000-02-29"), Some(Date { year: 2000, month: 2, day: 29 }));
    assert_eq!(parse_date(b"2021-13-01"), None);
    assert_eq!(parse_date(b"2021-00-01"), None);
    assert_eq!(parse_date(b"2021-04-31"), None);
    assert_eq!(parse_date(b"2021-3-22"), None);
    assert_eq!(parse_date(b"2021/03/22"), None);
    assert_eq!(parse_date(b"2021-03-2x"), None);
    assert_eq!(parse_date(b""), None);
    assert_eq!(Date::new(2021, 4, 31), None);
    assert_eq!(Date::new(262001, 1, 1), None);
    assert!(Date { year: -262000, month: 12, day: 31 }.is_valid());
    let base = DateTime {
        date: Date { year: 2003, month: 10, day: 12 },
        hour: 5,
        minute: 13,
        second: 33,
        micro: 0,
    };
    assert_eq!(parse_timestamp(b"2003-10-12 05:13:33"), Some(base));
    assert_eq!(
        parse_timestamp(b"2003-10-12 05:13:33.5"),
        Some(DateTime { micro: 500_000, ..base })
    );
    assert_eq!(
        parse_timestamp(b"2003-10-12 05:13:33.000042"),
        Some(DateTime { micro: 42, ..base })
    );
    assert_eq!(parse_timestamp(b"2003-10-12 05:13:33."), None);
    assert_eq!(parse_timestamp(b"2003-10-12 05:13:33.0000001"), None);
    assert_eq!(parse_timestamp(b"2003-10-12 24:00:00"), None);
    assert_eq!(parse_timestamp(b"2003-10-12 23:60:00"), None);
    assert_eq!(parse_timestamp(b"2003-10-12 23:59:60"), None);
    assert_eq!(parse_timestamp(b"2003-10-12T05:13:33"), None);
    assert_eq!(parse_timestamp(b"2003-10-12"), None);
    assert_eq!(read_number(b"0123", 1, 3), Some(123));
    assert_eq!(read_number(b"0123", 2, 3), None);
    assert_eq!(read_number(b"01a3", 0, 4), None);
    assert_eq!(read_number(b"", 9, 0), Some(0));
    assert!(base.is_valid());
    assert!(!DateTime { hour: 24, ..base }.is_valid());

    let mut out = Vec::new();
    write_date(&Date { year: 7, month: 1, day: 2 }, &mut out);
    assert_eq!(out, b"0007-01-02");
    let mut out = Vec::new();
    write_timestamp(&DateTime { micro: 42, ..base }, &mut out);
    assert_eq!(out, b"2003-10-12 05:13:33.000042");
    assert_eq!(
        Value::Timestamp(base).coerce_to(DfType::Text),
        Some(text("2003-10-12 05:13:33"))
    );
    assert_eq!(Value::Date(base.date).coerce_to(DfType::Text), Some(text("2003-10-12")));
    assert_eq!(
        Value::Date(Date { year: 10000, month: 1, day: 1 }).coerce_to(DfType::Text),
        None
    );
    assert_eq!(
        Value::Date(base.date).coerce_to(DfType::Timestamp),
        Some(Value::Timestamp(DateTime::midnight(base.date)))
    );
    assert_eq!(Value::Timestamp(base).coerce_to(DfType::Date), Some(Value::Date(base.date)));
    assert_eq!(Value::Date(base.date).coerce_to(DfType::BigInt), None);
    assert_eq!(Value::Int(3).coerce_to(DfType::Date), None);
    assert!(date_before(&Date { year: 2003, month: 10, day: 11 }, &base.date));
    assert!(!date_before(&base.date, &base.date));
    assert!(moment_before(&base, &DateTime { micro: 1, ..base }));
    assert!(!moment_before(&DateTime { micro: 1, ..base }, &base));
    assert!(Value::Date(Date { year: 2002, month: 12, day: 31 }).less_than(&Value::Date(base.date)));
    assert!(!Value::Date(base.date).less_than(&Value::Timestamp(base)));
}
