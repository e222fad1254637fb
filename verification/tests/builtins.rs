use reader_map::expr::{greatest_or_least, BuiltinFunction, EvalError, Expr};
use reader_map::json::{get_json_value_type, json_kind, JsonKind};
use reader_map::lower::{
    first_known_type, infer_extremum, literal, lookup, lower_call, FunctionName, LowerError,
};
use reader_map::use_statement::Dialect;
use reader_map::use_statement::Dialect::{MySQL, PostgreSQL};
use reader_map::value::{DfType, Value};

fn make_call(func: BuiltinFunction) -> Expr {
    Expr::Call { func: Box::new(func), ty: DfType::Unknown }
}

fn make_column(index: usize) -> Expr {
    Expr::Column { index, ty: DfType::Unknown }
}

fn make_literal(val: Value) -> Expr {
    Expr::Literal { val, ty: DfType::Unknown }
}

fn text(s: &str) -> Value {
    Value::Text(s.to_string())
}

/// Splits the arguments of a call at the commas outside quotes and brackets.
fn split_args(s: &str) -> Vec<String> {
    let mut args = Vec::new();
    let mut depth = 0;
    let mut quoted = false;
    let mut current = String::new();
    for c in s.chars() {
        match c {
            '\'' => quoted = !quoted,
            '(' if !quoted => depth += 1,
            ')' if !quoted => depth -= 1,
            ',' if !quoted && depth == 0 => {
                args.push(current.trim().to_string());
                current = String::new();
                continue;
            }
            _ => {}
        }
        current.push(c);
    }
    if !current.trim().is_empty() {
        args.push(current.trim().to_string());
    }
    args
}

fn parse_expr(sql: &str, dialect: Dialect) -> Expr {
    let sql = sql.trim();
    if let Some(inner) = sql.strip_prefix('\'').and_then(|s| s.strip_suffix('\'')) {
        return literal(dialect, text(inner));
    }
    if let Ok(i) = sql.parse::<i64>() {
        return literal(dialect, Value::Int(i));
    }
    if sql.eq_ignore_ascii_case("null") {
        return literal(dialect, Value::Null);
    }
    let open = sql.find('(').expect("a call");
    let name = sql[..open].trim().to_ascii_lowercase();
    let args = split_args(&sql[open + 1..sql.len() - 1])
        .iter()
        .map(|arg| parse_expr(arg, dialect))
        .collect();
    lower_call(dialect, lookup(&name).expect("a built-in function"), args).unwrap()
}

fn eval_expr(sql: &str, dialect: Dialect) -> Value {
    parse_expr(sql, dialect).eval(&[]).unwrap()
}

#[test]
fn greatest_postgresql() {
    assert_eq!(eval_expr("greatest(1,2,3)", PostgreSQL), Value::Int(3));
    assert_eq!(eval_expr("greatest(123, '23')", PostgreSQL), Value::Int(123));
    assert_eq!(eval_expr("greatest(23, '123')", PostgreSQL), Value::Int(123));
}

#[test]
fn least_postgresql() {
    assert_eq!(eval_expr("least(1,2,3)", PostgreSQL), Value::Int(1));
    assert_eq!(eval_expr("least(123, '23')", PostgreSQL), Value::Int(23));
}

#[test]
fn greatest_and_least_mysql_compare_texts_as_texts() {
    assert_eq!(eval_expr("greatest(1, 2, 3)", MySQL), Value::Int(3));
    assert_eq!(eval_expr("greatest(123, '23')", MySQL), Value::Int(23));
    assert_eq!(eval_expr("least(1, 2, 3)", MySQL), Value::Int(1));
    assert_eq!(eval_expr("least(123, '23')", MySQL), Value::Int(123));
    assert_eq!(eval_expr("least('b', 'a', 'c')", MySQL), text("a"));
    assert_eq!(eval_expr("greatest('b', 'a', 'c')", PostgreSQL), text("c"));
}

#[test]
fn greatest_and_least_nulls_and_failures() {
    assert_eq!(eval_expr("greatest(1, null, 3)", PostgreSQL), Value::Null);
    assert_eq!(eval_expr("least(null, 3)", MySQL), Value::Null);
    assert_eq!(eval_expr("greatest(1, 'x')", PostgreSQL), Value::Null);
    assert_eq!(eval_expr("greatest(greatest(1, 5), least(7, 9))", PostgreSQL), Value::Int(7));
    let args = vec![make_column(3), make_literal(Value::Int(1))];
    assert_eq!(
        greatest_or_least(&args, &[], DfType::BigInt, DfType::BigInt, true),
        Err(EvalError::InvalidColumnIndex(3))
    );
    let args = vec![make_literal(Value::Null), make_column(3)];
    assert_eq!(
        greatest_or_least(&args, &[], DfType::BigInt, DfType::BigInt, true),
        Ok(Value::Null)
    );
    assert_eq!(
        greatest_or_least(&Vec::new(), &[], DfType::BigInt, DfType::BigInt, false),
        Ok(Value::Null)
    );
    let args = vec![make_literal(Value::Int(-1)), make_literal(Value::Int(-2))];
    assert_eq!(
        greatest_or_least(&args, &[], DfType::BigInt, DfType::UnsignedBigInt, true),
        Ok(Value::Null)
    );
    let ties = vec![make_literal(text("07")), make_literal(Value::Int(7))];
    assert_eq!(
        greatest_or_least(&ties, &[], DfType::BigInt, DfType::Unknown, true),
        Ok(text("07"))
    );
}

#[test]
fn eval_call_if_null() {
    let expr = make_call(BuiltinFunction::IfNull(make_column(0), make_column(1)));
    let value = Value::Int(2);

    assert_eq!(expr.eval(&[Value::Null, Value::Int(2)]).unwrap(), value);
    assert_eq!(expr.eval(&[Value::Int(2), Value::Int(3)]).unwrap(), value);

    let expr2 = make_call(BuiltinFunction::IfNull(
        make_literal(Value::Null),
        make_column(0),
    ));
    assert_eq!(expr2.eval(&[Value::Int(2)]).unwrap(), value);

    let expr3 = make_call(BuiltinFunction::IfNull(
        make_column(0),
        make_literal(Value::Int(2)),
    ));
    assert_eq!(expr3.eval(&[Value::Null]).unwrap(), value);
}

#[test]
fn eval_call_json_typeof() {
    let examples = [
        ("null", "null"),
        ("true", "boolean"),
        ("false", "boolean"),
        ("123", "number"),
        (r#""hello""#, "string"),
        (r#"["hello", 123]"#, "array"),
        (r#"{ "hello": "world", "abc": 123 }"#, "object"),
    ];

    let expr = make_call(BuiltinFunction::JsonTypeof(make_column(0)));

    for (json, expected_type) in examples {
        let json_type = expr.eval(&[text(json)]).unwrap();
        assert_eq!(json_type, text(expected_type));
    }
}

#[test]
fn json_typeof_nulls_and_failures() {
    let expr = make_call(BuiltinFunction::JsonbTypeof(make_column(0)));
    assert_eq!(expr.eval(&[Value::Null]), Ok(Value::Null));
    assert_eq!(expr.eval(&[text("{")]), Err(EvalError::InvalidJson));
    assert_eq!(expr.eval(&[text("1 2")]), Err(EvalError::InvalidJson));
    assert_eq!(expr.eval(&[Value::Int(17)]), Ok(text("number")));
    assert_eq!(expr.eval(&[]), Err(EvalError::InvalidColumnIndex(0)));
    assert_eq!(json_kind("[]"), Some(JsonKind::Array));
    assert_eq!(json_kind("nul"), None);
    assert_eq!(get_json_value_type(JsonKind::Bool), "boolean");
    assert_eq!(get_json_value_type(JsonKind::Object), "object");
}

#[test]
fn coalesce() {
    let expr = Expr::Call {
        func: Box::new(BuiltinFunction::Coalesce(
            Expr::Column {
                index: 0,
                ty: DfType::Unknown,
            },
            vec![Expr::Literal {
                val: Value::Int(1),
                ty: DfType::BigInt,
            }],
        )),
        ty: DfType::Unknown,
    };
    let call_with = |val: Value| expr.eval(&[val]);

    assert_eq!(call_with(Value::Null).unwrap(), Value::Int(1));
    assert_eq!(call_with(Value::Int(123)).unwrap(), Value::Int(123));
}

#[test]
fn coalesce_more_args() {
    let expr = Expr::Call {
        func: Box::new(BuiltinFunction::Coalesce(
            Expr::Column {
                index: 0,
                ty: DfType::Unknown,
            },
            vec![
                Expr::Column {
                    index: 1,
                    ty: DfType::Unknown,
                },
                Expr::Literal {
                    val: Value::Int(1),
                    ty: DfType::BigInt,
                },
            ],
        )),
        ty: DfType::Unknown,
    };
    let call_with = |val1: Value, val2: Value| expr.eval(&[val1, val2]);

    assert_eq!(call_with(Value::Null, Value::Null).unwrap(), Value::Int(1));
    assert_eq!(call_with(Value::Null, text("abc")).unwrap(), text("abc"));
    assert_eq!(call_with(Value::Int(123), Value::Null).unwrap(), Value::Int(123));
    assert_eq!(call_with(Value::Int(123), Value::Int(456)).unwrap(), Value::Int(123));
}

#[test]
fn coalesce_evaluates_every_argument() {
    let expr = make_call(BuiltinFunction::Coalesce(
        make_literal(Value::Int(1)),
        vec![make_column(5)],
    ));
    assert_eq!(expr.eval(&[]), Err(EvalError::InvalidColumnIndex(5)));
}

#[test]
fn concat() {
    let expr = Expr::Call {
        func: Box::new(BuiltinFunction::Concat(
            Expr::Literal {
                val: text("My"),
                ty: DfType::Text,
            },
            vec![
                Expr::Literal {
                    val: text("S"),
                    ty: DfType::Text,
                },
                Expr::Literal {
                    val: text("QL"),
                    ty: DfType::Text,
                },
            ],
        )),
        ty: DfType::Text,
    };

    let res = expr.eval(&[]).unwrap();
    assert_eq!(res, text("MySQL"));
}

#[test]
fn concat_with_nulls() {
    let expr = Expr::Call {
        func: Box::new(BuiltinFunction::Concat(
            Expr::Literal {
                val: text("My"),
                ty: DfType::Text,
            },
            vec![
                Expr::Literal {
                    val: Value::Null,
                    ty: DfType::Text,
                },
                Expr::Literal {
                    val: text("QL"),
                    ty: DfType::Text,
                },
            ],
        )),
        ty: DfType::Text,
    };

    let res = expr.eval(&[]).unwrap();
    assert_eq!(res, Value::Null);
}

#[test]
fn concat_turns_numbers_into_texts() {
    assert_eq!(eval_expr("concat('a', -12, 'b', 0)", MySQL), text("a-12b0"));
    let wide = make_call(BuiltinFunction::Concat(
        make_literal(Value::Int(i64::MIN)),
        vec![make_literal(Value::UnsignedInt(u64::MAX))],
    ));
    let wide = match wide {
        Expr::Call { func, .. } => Expr::Call { func, ty: DfType::Text },
        other => other,
    };
    assert_eq!(
        wide.eval(&[]),
        Ok(text("-922337203685477580818446744073709551615"))
    );
    let as_number = Expr::Call {
        func: Box::new(BuiltinFunction::Concat(make_literal(text("x")), vec![])),
        ty: DfType::BigInt,
    };
    assert_eq!(as_number.eval(&[]), Err(EvalError::Conversion));
}

#[test]
fn substring_with_from_and_for() {
    let expr = Expr::Call {
        func: Box::new(BuiltinFunction::Substring(
            Expr::Literal {
                val: text("abcdef"),
                ty: DfType::Text,
            },
            Some(Expr::Column {
                index: 0,
                ty: DfType::BigInt,
            }),
            Some(Expr::Column {
                index: 1,
                ty: DfType::BigInt,
            }),
        )),
        ty: DfType::Text,
    };
    let call_with =
        |from: i64, len: i64| expr.eval(&[Value::Int(from), Value::Int(len)]).unwrap();

    assert_eq!(call_with(2, 3), text("bcd"));
    assert_eq!(call_with(3, 3), text("cde"));
    assert_eq!(call_with(6, 3), text("f"));
    assert_eq!(call_with(7, 12), text(""));
    assert_eq!(call_with(-3, 3), text("def"));
    assert_eq!(call_with(-3, -3), text(""));
    assert_eq!(call_with(0, 3), text(""));
    assert_eq!(call_with(0, 0), text(""));
    assert_eq!(call_with(-7, 2), text(""));
}

#[test]
fn substring_multibyte() {
    let expr = Expr::Call {
        func: Box::new(BuiltinFunction::Substring(
            Expr::Literal {
                val: text("é"),
                ty: DfType::Text,
            },
            Some(Expr::Literal {
                val: Value::Int(1),
                ty: DfType::BigInt,
            }),
            Some(Expr::Literal {
                val: Value::Int(1),
                ty: DfType::BigInt,
            }),
        )),
        ty: DfType::Text,
    };
    let res = expr.eval(&[]).unwrap();
    assert_eq!(res, text("é"));
}

#[test]
fn substring_with_from() {
    let expr = Expr::Call {
        func: Box::new(BuiltinFunction::Substring(
            Expr::Literal {
                val: text("abcdef"),
                ty: DfType::Text,
            },
            Some(Expr::Column {
                index: 0,
                ty: DfType::BigInt,
            }),
            None,
        )),
        ty: DfType::Text,
    };
    let res = expr.eval(&[Value::Int(2)]).unwrap();
    assert_eq!(res, text("bcdef"));
}

#[test]
fn substring_with_for() {
    let expr = Expr::Call {
        func: Box::new(BuiltinFunction::Substring(
            Expr::Literal {
                val: text("abcdef"),
                ty: DfType::Text,
            },
            None,
            Some(Expr::Column {
                index: 0,
                ty: DfType::BigInt,
            }),
        )),
        ty: DfType::Text,
    };
    let res = expr.eval(&[Value::Int(3)]).unwrap();
    assert_eq!(res, text("abc"));
}

#[test]
fn substring_edges() {
    assert_eq!(eval_expr("substring('abcdef', -9223372036854775808, 2)", MySQL), text(""));
    assert_eq!(eval_expr("substr('abcdef', 4, 9223372036854775807)", MySQL), text("def"));
    assert_eq!(eval_expr("substring('abcdef', null, 2)", MySQL), Value::Null);
    assert_eq!(eval_expr("substring('abcdef', 2, null)", MySQL), Value::Null);
    assert_eq!(eval_expr("substring(null, 2)", MySQL), Value::Null);
    assert_eq!(eval_expr("substring('abcdef', '3')", MySQL), text("cdef"));
    assert_eq!(eval_expr("substring(12345, 2, 2)", MySQL), text("23"));
    let bad = parse_expr("substring('abcdef', 'x')", MySQL);
    assert_eq!(bad.eval(&[]), Err(EvalError::Conversion));
}

#[test]
fn coercions() {
    assert_eq!(text(" 12").coerce_to(DfType::BigInt), None);
    assert_eq!(text("+12").coerce_to(DfType::BigInt), Some(Value::Int(12)));
    assert_eq!(text("-0").coerce_to(DfType::BigInt), Some(Value::Int(0)));
    assert_eq!(text("-").coerce_to(DfType::BigInt), None);
    assert_eq!(text("").coerce_to(DfType::BigInt), None);
    assert_eq!(
        text("9223372036854775807").coerce_to(DfType::BigInt),
        Some(Value::Int(i64::MAX))
    );
    assert_eq!(text("9223372036854775808").coerce_to(DfType::BigInt), None);
    assert_eq!(
        text("-9223372036854775808").coerce_to(DfType::BigInt),
        Some(Value::Int(i64::MIN))
    );
    assert_eq!(text("-9223372036854775809").coerce_to(DfType::BigInt), None);
    assert_eq!(
        text("99999999999999999999999999999999999999999999").coerce_to(DfType::BigInt),
        None
    );
    assert_eq!(text("12").coerce_to(DfType::UnsignedBigInt), Some(Value::UnsignedInt(12)));
    assert_eq!(text("-12").coerce_to(DfType::UnsignedBigInt), None);
    assert_eq!(Value::Int(-1).coerce_to(DfType::UnsignedBigInt), None);
    assert_eq!(Value::Int(5).coerce_to(DfType::UnsignedBigInt), Some(Value::UnsignedInt(5)));
    assert_eq!(Value::UnsignedInt(u64::MAX).coerce_to(DfType::BigInt), None);
    assert_eq!(Value::UnsignedInt(7).coerce_to(DfType::BigInt), Some(Value::Int(7)));
    assert_eq!(Value::Int(-40).coerce_to(DfType::Text), Some(text("-40")));
    assert_eq!(Value::UnsignedInt(0).coerce_to(DfType::Text), Some(text("0")));
    assert_eq!(Value::Null.coerce_to(DfType::Text), Some(Value::Null));
    assert_eq!(text("x").coerce_to(DfType::Unknown), Some(text("x")));
    assert!(Value::Null.is_none());
    assert_eq!(text("x").as_text(), Some("x"));
    assert_eq!(Value::Int(1).as_text(), None);
    assert_eq!(text("x").duplicate(), text("x"));
}

#[test]
fn value_order() {
    assert!(Value::Int(-1).less_than(&Value::UnsignedInt(0)));
    assert!(!Value::UnsignedInt(0).less_than(&Value::Int(-1)));
    assert!(Value::UnsignedInt(3).less_than(&Value::Int(4)));
    assert!(!Value::Int(4).less_than(&Value::Int(4)));
    assert!(text("123").less_than(&text("23")));
    assert!(text("ab").less_than(&text("abc")));
    assert!(!text("abc").less_than(&text("ab")));
    assert!(!text("").less_than(&text("")));
    assert!(!text("1").less_than(&Value::Int(2)));
    assert!(!Value::Null.less_than(&Value::Int(2)));
}

#[test]
fn lowering_picks_types_by_dialect() {
    let ints = vec![literal(MySQL, Value::Int(1)), literal(MySQL, Value::UnsignedInt(2))];
    assert_eq!(infer_extremum(MySQL, &ints), Ok((DfType::BigInt, DfType::BigInt)));
    let unsigned = vec![literal(MySQL, Value::UnsignedInt(2))];
    assert_eq!(
        infer_extremum(PostgreSQL, &unsigned),
        Ok((DfType::UnsignedBigInt, DfType::UnsignedBigInt))
    );
    let mixed = vec![literal(MySQL, Value::Int(1)), literal(MySQL, text("2"))];
    assert_eq!(infer_extremum(MySQL, &mixed), Ok((DfType::Text, DfType::BigInt)));
    let typed = vec![
        Expr::Column { index: 0, ty: DfType::Text },
        Expr::Column { index: 1, ty: DfType::BigInt },
    ];
    assert_eq!(infer_extremum(PostgreSQL, &typed), Err(LowerError::Types));
    let open = vec![literal(PostgreSQL, text("a")), literal(PostgreSQL, Value::Null)];
    assert_eq!(infer_extremum(PostgreSQL, &open), Ok((DfType::Text, DfType::Text)));
    assert_eq!(first_known_type(&open), DfType::Unknown);
    assert_eq!(first_known_type(&typed), DfType::Text);
    assert_eq!(literal(PostgreSQL, text("a")).ty(), DfType::Unknown);
    assert_eq!(literal(MySQL, text("a")).ty(), DfType::Text);
}

#[test]
fn lowering_checks_names_and_arity() {
    assert_eq!(lookup("greatest"), Some(FunctionName::Greatest));
    assert_eq!(lookup("substr"), Some(FunctionName::Substring));
    assert_eq!(lookup("jsonb_typeof"), Some(FunctionName::JsonbTypeof));
    assert_eq!(lookup("GREATEST"), None);
    assert_eq!(lookup("nope"), None);
    let arity = |function, n: usize| {
        let args = (0..n).map(|_| literal(MySQL, Value::Int(1))).collect();
        lower_call(MySQL, function, args).map(|_| ())
    };
    assert_eq!(arity(FunctionName::IfNull, 1), Err(LowerError::Arity));
    assert_eq!(arity(FunctionName::IfNull, 2), Ok(()));
    assert_eq!(arity(FunctionName::Coalesce, 0), Err(LowerError::Arity));
    assert_eq!(arity(FunctionName::Concat, 0), Err(LowerError::Arity));
    assert_eq!(arity(FunctionName::Substring, 0), Err(LowerError::Arity));
    assert_eq!(arity(FunctionName::Substring, 4), Err(LowerError::Arity));
    assert_eq!(arity(FunctionName::Greatest, 0), Err(LowerError::Arity));
    assert_eq!(arity(FunctionName::Least, 0), Err(LowerError::Arity));
    assert_eq!(arity(FunctionName::JsonTypeof, 2), Err(LowerError::Arity));
    assert_eq!(arity(FunctionName::JsonbTypeof, 1), Ok(()));
    assert_eq!(eval_expr("ifnull(null, 4)", MySQL), Value::Int(4));
    assert_eq!(eval_expr("coalesce(null, null, 'x', 4)", MySQL), text("x"));
    assert_eq!(eval_expr("json_typeof('[1]')", PostgreSQL), text("array"));
}
