use reader_map::dates::{Date, DateTime};
use reader_map::expr::{addtime_value, timediff_value, BuiltinFunction, EvalError, Expr};
use reader_map::times::{
    addtime_datetime, addtime_times, parse_time, timediff_datetimes, timediff_times, MySqlTime,
    MAX_MICROS,
};
use reader_map::value::{DfType, Value};

fn text(s: &str) -> Value {
    Value::Text(s.to_string())
}

fn at(year: i32, month: u32, day: u32, hour: u32, minute: u32, second: u32) -> DateTime {
    DateTime { date: Date { year, month, day }, hour, minute, second, micro: 0 }
}

fn call(func: BuiltinFunction) -> Expr {
    Expr::Call { func: Box::new(func), ty: DfType::Unknown }
}

fn column(index: usize) -> Expr {
    Expr::Column { index, ty: DfType::Unknown }
}

#[test]
fn timediff_of_moments_and_times() {
    let expr = call(BuiltinFunction::Timediff(column(0), column(1)));
    let param1 = at(2003, 10, 12, 5, 13, 33);
    let param2 = at(2003, 10, 14, 4, 13, 33);
    assert_eq!(
        expr.eval(&[Value::Timestamp(param1), Value::Timestamp(param2)]).unwrap(),
        Value::Time(MySqlTime::from_hmsus(false, 47, 0, 0, 0))
    );
    assert_eq!(
        expr.eval(&[text("2003-10-12 05:13:33"), text("2003-10-14 04:13:33")]).unwrap(),
        Value::Time(MySqlTime::from_hmsus(false, 47, 0, 0, 0))
    );
    let param2 = at(2003, 10, 10, 4, 13, 33);
    assert_eq!(
        expr.eval(&[Value::Timestamp(param1), Value::Timestamp(param2)]).unwrap(),
        Value::Time(MySqlTime::from_hmsus(true, 49, 0, 0, 0))
    );
    let time2 = MySqlTime::from_hmsus(true, 4, 13, 33, 0);
    assert_eq!(
        expr.eval(&[Value::Timestamp(param1), Value::Time(time2)]).unwrap(),
        Value::Null
    );
    assert_eq!(
        expr.eval(&[text("2003-10-12 05:13:33"), text("04:13:33")]).unwrap(),
        Value::Null
    );
    let time1 = MySqlTime::from_hmsus(true, 5, 13, 33, 0);
    assert_eq!(
        expr.eval(&[Value::Time(time1), Value::Time(time2)]).unwrap(),
        Value::Time(MySqlTime::from_hmsus(true, 1, 0, 0, 0))
    );
    assert_eq!(
        expr.eval(&[text("05:13:33"), text("04:13:33")]).unwrap(),
        Value::Time(MySqlTime::from_hmsus(true, 1, 0, 0, 0))
    );
    let param1 = "not a date nor time";
    let param2 = "01:00:00.4";
    assert_eq!(
        expr.eval(&[text(param1), text(param2)]).unwrap(),
        Value::Time(MySqlTime::from_hmsus(false, 1, 0, 0, 400_000))
    );
    assert_eq!(
        expr.eval(&[text(param2), text(param1)]).unwrap(),
        Value::Time(MySqlTime::from_hmsus(true, 1, 0, 0, 400_000))
    );
    let param2 = "10000.4";
    assert_eq!(
        expr.eval(&[text(param1), text(param2)]).unwrap(),
        Value::Time(MySqlTime::from_hmsus(false, 1, 0, 0, 400_000))
    );
    assert_eq!(
        expr.eval(&[text(param2), text(param1)]).unwrap(),
        Value::Time(MySqlTime::from_hmsus(true, 1, 0, 0, 400_000))
    );
    assert_eq!(timediff_value(&Value::Null, &text("1")), Ok(Value::Null));
    assert_eq!(timediff_value(&Value::Int(1), &Value::Int(1)), Ok(Value::Null));
    let bad = Value::Timestamp(at(2003, 2, 30, 0, 0, 0));
    assert_eq!(timediff_value(&bad, &bad), Err(EvalError::Conversion));
    assert_eq!(expr.eval(&[text("1")]), Err(EvalError::InvalidColumnIndex(1)));
}

#[test]
fn addtime_of_moments_and_times() {
    let expr = call(BuiltinFunction::Addtime(column(0), column(1)));
    let param1 = at(2003, 10, 12, 5, 13, 33);
    let param2 = at(2003, 10, 14, 4, 13, 33);
    assert_eq!(
        expr.eval(&[Value::Timestamp(param1), Value::Timestamp(param2)]).unwrap(),
        Value::Null
    );
    assert_eq!(
        expr.eval(&[text("2003-10-12 05:13:33"), text("2003-10-14 04:13:33")]).unwrap(),
        Value::Null
    );
    let time2 = MySqlTime::from_hmsus(true, 4, 13, 33, 0);
    assert_eq!(
        expr.eval(&[Value::Timestamp(param1), Value::Time(time2)]).unwrap(),
        Value::Timestamp(at(2003, 10, 12, 9, 27, 6))
    );
    assert_eq!(
        expr.eval(&[text("2003-10-12 05:13:33"), text("04:13:33")]).unwrap(),
        Value::Timestamp(at(2003, 10, 12, 9, 27, 6))
    );
    let time2 = MySqlTime::from_hmsus(false, 3, 11, 35, 0);
    assert_eq!(
        expr.eval(&[Value::Timestamp(param1), Value::Time(time2)]).unwrap(),
        Value::Timestamp(at(2003, 10, 12, 2, 1, 58))
    );
    assert_eq!(
        expr.eval(&[text("2003-10-12 05:13:33"), text("-03:11:35")]).unwrap(),
        Value::Timestamp(at(2003, 10, 12, 2, 1, 58))
    );
    let time1 = MySqlTime::from_hmsus(true, 10, 12, 44, 123_000);
    assert_eq!(
        expr.eval(&[Value::Time(time2), Value::Time(time1)]).unwrap(),
        Value::Time(MySqlTime::from_hmsus(true, 7, 1, 9, 123_000))
    );
    assert_eq!(
        expr.eval(&[text("-03:11:35"), text("10:12:44.123000")]).unwrap(),
        Value::Time(MySqlTime::from_hmsus(true, 7, 1, 9, 123_000))
    );
    let param1 = "not a date nor time";
    let param2 = "01:00:00.4";
    assert_eq!(
        expr.eval(&[text(param1), text(param2)]).unwrap(),
        Value::Time(MySqlTime::from_hmsus(true, 1, 0, 0, 400_000))
    );
    assert_eq!(
        expr.eval(&[text(param2), text(param1)]).unwrap(),
        Value::Time(MySqlTime::from_hmsus(true, 1, 0, 0, 400_000))
    );
    let param2 = "10000.4";
    assert_eq!(
        expr.eval(&[text(param1), text(param2)]).unwrap(),
        Value::Time(MySqlTime::from_hmsus(true, 1, 0, 0, 400_000))
    );
    assert_eq!(addtime_value(&Value::Null, &text("1")), Err(EvalError::Conversion));
    assert_eq!(addtime_value(&text("1"), &Value::Null), Err(EvalError::Conversion));
    assert_eq!(
        addtime_value(&Value::Timestamp(at(2003, 10, 12, 5, 13, 33)), &Value::Int(1)),
        Err(EvalError::Conversion)
    );
    let last = Value::Timestamp(at(2003, 12, 31, 23, 59, 59));
    assert_eq!(
        addtime_value(&last, &text("00:00:01.5")),
        Ok(Value::Timestamp(DateTime { micro: 500_000, ..at(2004, 1, 1, 0, 0, 0) }))
    );
}

#[test]
fn times_stay_within_their_bounds() {
    let longest = MySqlTime::from_hmsus(true, 838, 59, 59, 0);
    assert_eq!(longest.microseconds(), MAX_MICROS);
    assert_eq!(MySqlTime::from_hmsus(true, 900, 0, 0, 0), longest);
    assert_eq!(MySqlTime::from_hmsus(true, 838, 59, 59, 1), longest);
    assert_eq!(MySqlTime::from_hmsus(false, 65535, 255, 255, u64::MAX).microseconds(), -MAX_MICROS);
    assert_eq!(MySqlTime::from_microseconds(i64::MIN).microseconds(), -MAX_MICROS);
    assert_eq!(MySqlTime::from_microseconds(-7).microseconds(), -7);
    assert_eq!(longest.add(&longest), longest);
    assert_eq!(addtime_times(&longest, &MySqlTime::from_microseconds(-1)).microseconds(), MAX_MICROS - 1);
    let shortest = MySqlTime::from_microseconds(-MAX_MICROS);
    assert_eq!(timediff_times(&shortest, &longest), shortest);
    assert_eq!(shortest.sub(&shortest).microseconds(), 0);
    assert!(shortest.before(&longest));
    assert!(!longest.before(&longest));
    let early = at(-262000, 1, 1, 0, 0, 0);
    let late = at(262000, 12, 31, 23, 59, 59);
    assert_eq!(timediff_datetimes(&late, &early), longest);
    assert_eq!(timediff_datetimes(&early, &late), shortest);
    assert_eq!(timediff_datetimes(&early, &early).microseconds(), 0);
    assert_eq!(
        addtime_datetime(&late, &longest),
        at(262001, 2, 4, 22, 59, 58)
    );
    assert_eq!(
        addtime_datetime(&at(2024, 2, 28, 23, 0, 0), &MySqlTime::from_hmsus(true, 1, 0, 0, 0)),
        at(2024, 2, 29, 0, 0, 0)
    );
}

#[test]
fn times_as_texts() {
    assert_eq!(parse_time(b"01:02:03"), Some(3_723_000_000));
    assert_eq!(parse_time(b"1:02:03"), Some(3_723_000_000));
    assert_eq!(parse_time(b"-838:59:59"), Some(-MAX_MICROS));
    assert_eq!(parse_time(b"999:59:59.999999"), Some(3_599_999_999_999));
    assert_eq!(parse_time(b"1000:00:00"), None);
    assert_eq!(parse_time(b"01:60:00"), None);
    assert_eq!(parse_time(b"01:00:60"), None);
    assert_eq!(parse_time(b"5"), Some(5_000_000));
    assert_eq!(parse_time(b"59"), Some(59_000_000));
    assert_eq!(parse_time(b"60"), None);
    assert_eq!(parse_time(b"159"), Some(119_000_000));
    assert_eq!(parse_time(b"10000"), Some(3_600_000_000));
    assert_eq!(parse_time(b"8385959"), Some(MAX_MICROS));
    assert_eq!(parse_time(b"12345678"), None);
    assert_eq!(parse_time(b"10000.4"), Some(3_600_400_000));
    assert_eq!(parse_time(b"-.5"), None);
    assert_eq!(parse_time(b"1."), None);
    assert_eq!(parse_time(b"1.1234567"), None);
    assert_eq!(parse_time(b"1.2.3"), None);
    assert_eq!(parse_time(b""), None);
    assert_eq!(parse_time(b"-"), None);
    assert_eq!(parse_time(b"not a date nor time"), None);
    assert_eq!(
        text("999:00:00").coerce_to(DfType::Time),
        Some(Value::Time(MySqlTime::from_microseconds(MAX_MICROS)))
    );
    assert_eq!(
        text("nothing").coerce_to(DfType::Time),
        Some(Value::Time(MySqlTime::from_microseconds(0)))
    );
    assert_eq!(Value::Int(1).coerce_to(DfType::Time), None);
    let time = Value::Time(MySqlTime::from_microseconds(1));
    assert_eq!(time.coerce_to(DfType::Text), None);
    assert_eq!(time.coerce_to(DfType::Time), Some(time.clone()));
    assert_eq!(time.get_time_or_default(), time);
    assert_eq!(Value::Int(1).get_time_or_default(), Value::Null);
    assert_eq!(
        text("2003-10-12").get_time_or_default(),
        Value::Timestamp(DateTime {
            date: Date { year: 2003, month: 10, day: 12 },
            hour: 0,
            minute: 0,
            second: 0,
            micro: 0,
        })
    );
    assert!(time.less_than(&Value::Time(MySqlTime::from_microseconds(2))));
}
