//! From a function's name and its arguments to a call with its types.

use crate::expr::{type_of, BuiltinFunction, Expr};
use crate::use_statement::Dialect;
use crate::value::{DfType, Value};
use vstd::prelude::*;
use vstd::string::StringExecFns;

verus! {

/// Why a name and its arguments make no call.
#[derive(Clone, Copy, Debug, PartialEq, Eq, Structural)]
pub enum LowerError {
    /// The function does not take this number of arguments.
    Arity,
    /// The arguments have types that cannot be compared with each other.
    Types,
}

/// The built-in functions that have a name.
#[derive(Clone, Copy, Debug, PartialEq, Eq, Structural)]
pub enum FunctionName {
    IfNull,
    Coalesce,
    Concat,
    Substring,
    Greatest,
    Least,
    JsonTypeof,
    JsonbTypeof,
    Month,
    DayOfWeek,
    ConvertTZ,
    Timediff,
    Addtime,
    Round,
}

/// Some type of `tys` is `Text`.
pub open spec fn any_text(tys: Seq<DfType>) -> bool {
    tys.contains(DfType::Text)
}

/// Some type of `tys` is an integer type.
pub open spec fn any_numeric(tys: Seq<DfType>) -> bool {
    tys.contains(DfType::BigInt) || tys.contains(DfType::UnsignedBigInt)
}

/// Some type of `tys` is a date, with or without a time of day.
pub open spec fn any_temporal(tys: Seq<DfType>) -> bool {
    tys.contains(DfType::Date) || tys.contains(DfType::Timestamp)
}

/// The integer type that holds the integers among `tys`: unsigned only if
/// they all are.
pub open spec fn numeric_type(tys: Seq<DfType>) -> DfType {
    if tys.contains(DfType::BigInt) {
        DfType::BigInt
    } else {
        DfType::UnsignedBigInt
    }
}

/// The type that holds the dates among `tys`: without a time of day only if
/// they all are.
pub open spec fn temporal_type(tys: Seq<DfType>) -> DfType {
    if tys.contains(DfType::Timestamp) {
        DfType::Timestamp
    } else {
        DfType::Date
    }
}

/// The first type of `tys` that is not `Unknown`; `Unknown` if there is
/// none.
pub open spec fn first_known(tys: Seq<DfType>) -> DfType
    decreases tys.len(),
{
    if tys.len() == 0 {
        DfType::Unknown
    } else if tys[0] != DfType::Unknown {
        tys[0]
    } else {
        first_known(tys.drop_first())
    }
}

/// The number of kinds of types among `tys`: texts, integers, dates with or
/// without a time of day, and times.
pub open spec fn kinds(tys: Seq<DfType>) -> int {
    (if any_text(tys) {
        1int
    } else {
        0int
    }) + (if any_numeric(tys) {
        1int
    } else {
        0int
    }) + (if any_temporal(tys) {
        1int
    } else {
        0int
    }) + (if tys.contains(DfType::Time) {
        1int
    } else {
        0int
    })
}

/// The type that holds what is among `tys`, where that is of one kind.
pub open spec fn common_type(tys: Seq<DfType>) -> DfType {
    if any_numeric(tys) {
        numeric_type(tys)
    } else if any_temporal(tys) {
        temporal_type(tys)
    } else if tys.contains(DfType::Time) {
        DfType::Time
    } else {
        DfType::Text
    }
}

/// The type as which `GREATEST` and `LEAST` compare arguments of the types
/// `tys`, and the type of their result.
///
/// Arguments of one kind are compared as what they are, arguments of
/// unknown type follow the others and are texts among themselves. Where
/// kinds meet, PostgreSQL refuses; MySQL compares as texts, and gives the
/// result the integer type of the integers among the arguments if those
/// meet texts only.
pub open spec fn extremum_types(dialect: Dialect, tys: Seq<DfType>) -> Result<
    (DfType, DfType),
    LowerError,
> {
    if kinds(tys) <= 1 {
        Ok((common_type(tys), common_type(tys)))
    } else {
        match dialect {
            Dialect::PostgreSQL => Err(LowerError::Types),
            Dialect::MySQL => Ok(
                (
                    DfType::Text,
                    if any_numeric(tys) && kinds(tys) == 2 && any_text(tys) {
                        numeric_type(tys)
                    } else {
                        DfType::Text
                    },
                ),
            ),
        }
    }
}

/// The types of `args`.
pub open spec fn types_of(args: Seq<Expr>) -> Seq<DfType> {
    args.map_values(|e: Expr| type_of(e))
}

/// The function that goes by `name`, in small letters.
pub open spec fn function_named(name: Seq<char>) -> Option<FunctionName> {
    if name == "ifnull"@ {
        Some(FunctionName::IfNull)
    } else if name == "coalesce"@ {
        Some(FunctionName::Coalesce)
    } else if name == "concat"@ {
        Some(FunctionName::Concat)
    } else if name == "substring"@ || name == "substr"@ {
        Some(FunctionName::Substring)
    } else if name == "greatest"@ {
        Some(FunctionName::Greatest)
    } else if name == "least"@ {
        Some(FunctionName::Least)
    } else if name == "json_typeof"@ {
        Some(FunctionName::JsonTypeof)
    } else if name == "jsonb_typeof"@ {
        Some(FunctionName::JsonbTypeof)
    } else if name == "month"@ {
        Some(FunctionName::Month)
    } else if name == "dayofweek"@ {
        Some(FunctionName::DayOfWeek)
    } else if name == "convert_tz"@ {
        Some(FunctionName::ConvertTZ)
    } else if name == "timediff"@ {
        Some(FunctionName::Timediff)
    } else if name == "addtime"@ {
        Some(FunctionName::Addtime)
    } else if name == "round"@ {
        Some(FunctionName::Round)
    } else {
        None
    }
}

/// The type that a literal has in the dialect: PostgreSQL leaves the type of
/// a text open until it sees what the text is used with.
pub open spec fn literal_type(dialect: Dialect, val: Value) -> DfType {
    match val {
        Value::Null => DfType::Unknown,
        Value::Int(_) => DfType::BigInt,
        Value::UnsignedInt(_) => DfType::UnsignedBigInt,
        Value::Text(_) => match dialect {
            Dialect::PostgreSQL => DfType::Unknown,
            Dialect::MySQL => DfType::Text,
        },
        Value::Date(_) => DfType::Date,
        Value::Timestamp(_) => DfType::Timestamp,
        Value::Time(_) => DfType::Time,
    }
}

fn same_text(a: &str, b: &str) -> (same: bool)
    ensures
        same == (a@ == b@),
{
    String::from_str(a) == String::from_str(b)
}

/// The function that goes by `name`.
pub fn lookup(name: &str) -> (function: Option<FunctionName>)
    ensures
        function == function_named(name@),
{
    if same_text(name, "ifnull") {
        Some(FunctionName::IfNull)
    } else if same_text(name, "coalesce") {
        Some(FunctionName::Coalesce)
    } else if same_text(name, "concat") {
        Some(FunctionName::Concat)
    } else if same_text(name, "substring") || same_text(name, "substr") {
        Some(FunctionName::Substring)
    } else if same_text(name, "greatest") {
        Some(FunctionName::Greatest)
    } else if same_text(name, "least") {
        Some(FunctionName::Least)
    } else if same_text(name, "json_typeof") {
        Some(FunctionName::JsonTypeof)
    } else if same_text(name, "jsonb_typeof") {
        Some(FunctionName::JsonbTypeof)
    } else if same_text(name, "month") {
        Some(FunctionName::Month)
    } else if same_text(name, "dayofweek") {
        Some(FunctionName::DayOfWeek)
    } else if same_text(name, "convert_tz") {
        Some(FunctionName::ConvertTZ)
    } else if same_text(name, "timediff") {
        Some(FunctionName::Timediff)
    } else if same_text(name, "addtime") {
        Some(FunctionName::Addtime)
    } else if same_text(name, "round") {
        Some(FunctionName::Round)
    } else {
        None
    }
}

/// A literal as an expression, with the type that it has in the dialect.
pub fn literal(dialect: Dialect, val: Value) -> (e: Expr)
    ensures
        e == (Expr::Literal { val, ty: literal_type(dialect, val) }),
{
    let ty = match &val {
        Value::Null => DfType::Unknown,
        Value::Int(_) => DfType::BigInt,
        Value::UnsignedInt(_) => DfType::UnsignedBigInt,
        Value::Text(_) => match dialect {
            Dialect::PostgreSQL => DfType::Unknown,
            Dialect::MySQL => DfType::Text,
        },
        Value::Date(_) => DfType::Date,
        Value::Timestamp(_) => DfType::Timestamp,
        Value::Time(_) => DfType::Time,
    };
    Expr::Literal { val, ty }
}

/// A type is among the first `i + 1` of `tys` if it is among the first `i`
/// or is the next.
pub proof fn lemma_contains_step(tys: Seq<DfType>, i: int, ty: DfType)
    requires
        0 <= i < tys.len(),
    ensures
        tys.subrange(0, i + 1).contains(ty) == (tys.subrange(0, i).contains(ty) || tys[i] == ty),
{
    let before = tys.subrange(0, i);
    let after = tys.subrange(0, i + 1);
    if before.contains(ty) {
        let j = choose|j: int| 0 <= j < before.len() && before[j] == ty;
        assert(after[j] == ty);
    }
    if tys[i] == ty {
        assert(after[i] == ty);
    }
    if after.contains(ty) {
        let j = choose|j: int| 0 <= j < after.len() && after[j] == ty;
        if j < i {
            assert(before[j] == ty);
        }
    }
}

/// The types for `GREATEST` and `LEAST` over `args`.
pub fn infer_extremum(dialect: Dialect, args: &Vec<Expr>) -> (types: Result<
    (DfType, DfType),
    LowerError,
>)
    ensures
        types == extremum_types(dialect, types_of(args@)),
{
    let mut text = false;
    let mut signed = false;
    let mut unsigned = false;
    let mut date = false;
    let mut timestamp = false;
    let mut time = false;
    let mut i: usize = 0;
    let ghost tys = types_of(args@);
    while i < args.len()
        invariant
            i <= args@.len(),
            tys == types_of(args@),
            text == tys.subrange(0, i as int).contains(DfType::Text),
            signed == tys.subrange(0, i as int).contains(DfType::BigInt),
            unsigned == tys.subrange(0, i as int).contains(DfType::UnsignedBigInt),
            date == tys.subrange(0, i as int).contains(DfType::Date),
            timestamp == tys.subrange(0, i as int).contains(DfType::Timestamp),
            time == tys.subrange(0, i as int).contains(DfType::Time),
        decreases args@.len() - i,
    {
        let ty = args[i].ty();
        proof {
            assert(tys[i as int] == ty);
            lemma_contains_step(tys, i as int, DfType::Text);
            lemma_contains_step(tys, i as int, DfType::BigInt);
            lemma_contains_step(tys, i as int, DfType::UnsignedBigInt);
            lemma_contains_step(tys, i as int, DfType::Date);
            lemma_contains_step(tys, i as int, DfType::Timestamp);
            lemma_contains_step(tys, i as int, DfType::Time);
        }
        match ty {
            DfType::Text => {
                text = true;
            },
            DfType::BigInt => {
                signed = true;
            },
            DfType::UnsignedBigInt => {
                unsigned = true;
            },
            DfType::Date => {
                date = true;
            },
            DfType::Timestamp => {
                timestamp = true;
            },
            DfType::Time => {
                time = true;
            },
            DfType::Unknown => {},
        }
        i += 1;
    }
    proof {
        assert(tys.subrange(0, i as int) =~= tys);
    }
    let numeric = signed || unsigned;
    let temporal = date || timestamp;
    let mut count: u8 = 0;
    if text {
        count += 1;
    }
    if numeric {
        count += 1;
    }
    if temporal {
        count += 1;
    }
    if time {
        count += 1;
    }
    let number = if signed {
        DfType::BigInt
    } else {
        DfType::UnsignedBigInt
    };
    if count <= 1 {
        let common = if numeric {
            number
        } else if temporal {
            if timestamp {
                DfType::Timestamp
            } else {
                DfType::Date
            }
        } else if time {
            DfType::Time
        } else {
            DfType::Text
        };
        Ok((common, common))
    } else {
        match dialect {
            Dialect::PostgreSQL => Err(LowerError::Types),
            Dialect::MySQL => Ok(
                (
                    DfType::Text,
                    if numeric && count == 2 && text {
                        number
                    } else {
                        DfType::Text
                    },
                ),
            ),
        }
    }
}

/// The first type of `args` that is known.
pub fn first_known_type(args: &Vec<Expr>) -> (ty: DfType)
    ensures
        ty == first_known(types_of(args@)),
{
    let mut i: usize = 0;
    let ghost tys = types_of(args@);
    proof {
        assert(tys.skip(0) =~= tys);
    }
    while i < args.len()
        invariant
            i <= args@.len(),
            tys == types_of(args@),
            first_known(tys) == first_known(tys.skip(i as int)),
        decreases args@.len() - i,
    {
        let ty = args[i].ty();
        proof {
            assert(tys.skip(i as int)[0] == ty);
            assert(tys.skip(i as int).drop_first() =~= tys.skip(i + 1));
        }
        match ty {
            DfType::Unknown => {},
            _ => {
                return ty;
            },
        }
        i += 1;
    }
    DfType::Unknown
}

/// Why the function cannot be called with arguments of the types `tys`, if
/// it cannot.
pub open spec fn lower_failure(dialect: Dialect, function: FunctionName, tys: Seq<DfType>) -> Option<
    LowerError,
> {
    match function {
        FunctionName::IfNull | FunctionName::Timediff | FunctionName::Addtime
        | FunctionName::Round => if tys.len() == 2 {
            None
        } else {
            Some(LowerError::Arity)
        },
        FunctionName::JsonTypeof | FunctionName::JsonbTypeof | FunctionName::Month
        | FunctionName::DayOfWeek => if tys.len() == 1 {
            None
        } else {
            Some(LowerError::Arity)
        },
        FunctionName::ConvertTZ => if tys.len() == 3 {
            None
        } else {
            Some(LowerError::Arity)
        },
        FunctionName::Coalesce | FunctionName::Concat => if tys.len() >= 1 {
            None
        } else {
            Some(LowerError::Arity)
        },
        FunctionName::Substring => if 1 <= tys.len() <= 3 {
            None
        } else {
            Some(LowerError::Arity)
        },
        FunctionName::Greatest | FunctionName::Least => if tys.len() == 0 {
            Some(LowerError::Arity)
        } else {
            match extremum_types(dialect, tys) {
                Ok(_) => None,
                Err(e) => Some(e),
            }
        },
    }
}

/// `func` with the type `ty` is the call of `function` on `args`: it holds
/// the arguments in their order, and its types are those that the dialect
/// gives.
pub open spec fn describes(
    func: BuiltinFunction,
    ty: DfType,
    dialect: Dialect,
    function: FunctionName,
    args: Seq<Expr>,
) -> bool {
    match func {
        BuiltinFunction::IfNull(a, b) => {
            &&& function == FunctionName::IfNull
            &&& args == seq![a, b]
            &&& ty == first_known(types_of(args))
        },
        BuiltinFunction::Coalesce(first, rest) => {
            &&& function == FunctionName::Coalesce
            &&& args == seq![first] + rest@
            &&& ty == first_known(types_of(args))
        },
        BuiltinFunction::Concat(first, rest) => {
            &&& function == FunctionName::Concat
            &&& args == seq![first] + rest@
            &&& ty == DfType::Text
        },
        BuiltinFunction::Substring(string, from, len) => {
            &&& function == FunctionName::Substring
            &&& ty == DfType::Text
            &&& args == (match (from, len) {
                (None, _) => seq![string],
                (Some(f), None) => seq![string, f],
                (Some(f), Some(l)) => seq![string, f, l],
            })
            &&& from is None ==> len is None
        },
        BuiltinFunction::Greatest { args: held, compare_as } => {
            &&& function == FunctionName::Greatest
            &&& held@ == args
            &&& extremum_types(dialect, types_of(args)) == Ok::<(DfType, DfType), LowerError>(
                (compare_as, ty),
            )
        },
        BuiltinFunction::Least { args: held, compare_as } => {
            &&& function == FunctionName::Least
            &&& held@ == args
            &&& extremum_types(dialect, types_of(args)) == Ok::<(DfType, DfType), LowerError>(
                (compare_as, ty),
            )
        },
        BuiltinFunction::JsonTypeof(e) => {
            &&& function == FunctionName::JsonTypeof
            &&& args == seq![e]
            &&& ty == DfType::Text
        },
        BuiltinFunction::JsonbTypeof(e) => {
            &&& function == FunctionName::JsonbTypeof
            &&& args == seq![e]
            &&& ty == DfType::Text
        },
        BuiltinFunction::Month(e) => {
            &&& function == FunctionName::Month
            &&& args == seq![e]
            &&& ty == DfType::UnsignedBigInt
        },
        BuiltinFunction::DayOfWeek(e) => {
            &&& function == FunctionName::DayOfWeek
            &&& args == seq![e]
            &&& ty == DfType::BigInt
        },
        BuiltinFunction::Round(a, b) => {
            &&& function == FunctionName::Round
            &&& args == seq![a, b]
            &&& ty == DfType::BigInt
        },
        BuiltinFunction::Timediff(a, b) => {
            &&& function == FunctionName::Timediff
            &&& args == seq![a, b]
            &&& ty == DfType::Time
        },
        BuiltinFunction::Addtime(a, b) => {
            &&& function == FunctionName::Addtime
            &&& args == seq![a, b]
            &&& ty == first_known(types_of(args))
        },
        BuiltinFunction::ConvertTZ(moment, source, target) => {
            &&& function == FunctionName::ConvertTZ
            &&& args == seq![moment, source, target]
            &&& ty == DfType::Timestamp
        },
    }
}

/// Takes the first expression out of `args`.
fn take_first(args: &mut Vec<Expr>) -> (first: Expr)
    requires
        old(args)@.len() >= 1,
    ensures
        old(args)@ == seq![first] + final(args)@,
{
    let first = args.remove(0);
    proof {
        assert(old(args)@ =~= seq![first] + args@);
    }
    first
}

/// The call of `function` on `args`, with the types that the dialect gives
/// it.
pub fn lower_call(dialect: Dialect, function: FunctionName, args: Vec<Expr>) -> (result: Result<
    Expr,
    LowerError,
>)
    ensures
        match result {
            Ok(e) => {
                &&& lower_failure(dialect, function, types_of(args@)) is None
                &&& e matches Expr::Call { func, ty } && describes(
                    *func,
                    ty,
                    dialect,
                    function,
                    args@,
                )
            },
            Err(error) => lower_failure(dialect, function, types_of(args@)) == Some(error),
        },
{
    let mut args = args;
    let ghost all = args@;
    let count = args.len();
    match function {
        FunctionName::IfNull => {
            if count != 2 {
                return Err(LowerError::Arity);
            }
            let ty = first_known_type(&args);
            let a = take_first(&mut args);
            let b = take_first(&mut args);
            proof {
                assert(all =~= seq![a, b]);
            }
            Ok(Expr::Call { func: Box::new(BuiltinFunction::IfNull(a, b)), ty })
        },
        FunctionName::Coalesce => {
            if count < 1 {
                return Err(LowerError::Arity);
            }
            let ty = first_known_type(&args);
            let first = take_first(&mut args);
            Ok(Expr::Call { func: Box::new(BuiltinFunction::Coalesce(first, args)), ty })
        },
        FunctionName::Concat => {
            if count < 1 {
                return Err(LowerError::Arity);
            }
            let first = take_first(&mut args);
            Ok(
                Expr::Call {
                    func: Box::new(BuiltinFunction::Concat(first, args)),
                    ty: DfType::Text,
                },
            )
        },
        FunctionName::Substring => {
            if count < 1 || count > 3 {
                return Err(LowerError::Arity);
            }
            let string = take_first(&mut args);
            let from = if count >= 2 {
                Some(take_first(&mut args))
            } else {
                None
            };
            let len = if count == 3 {
                Some(take_first(&mut args))
            } else {
                None
            };
            proof {
                if count == 1 {
                    assert(all =~= seq![string]);
                } else if count == 2 {
                    assert(all =~= seq![string, from->0]);
                } else {
                    assert(all =~= seq![string, from->0, len->0]);
                }
            }
            Ok(
                Expr::Call {
                    func: Box::new(BuiltinFunction::Substring(string, from, len)),
                    ty: DfType::Text,
                },
            )
        },
        FunctionName::JsonTypeof => {
            if count != 1 {
                return Err(LowerError::Arity);
            }
            let e = take_first(&mut args);
            proof {
                assert(all =~= seq![e]);
            }
            Ok(Expr::Call { func: Box::new(BuiltinFunction::JsonTypeof(e)), ty: DfType::Text })
        },
        FunctionName::JsonbTypeof => {
            if count != 1 {
                return Err(LowerError::Arity);
            }
            let e = take_first(&mut args);
            proof {
                assert(all =~= seq![e]);
            }
            Ok(Expr::Call { func: Box::new(BuiltinFunction::JsonbTypeof(e)), ty: DfType::Text })
        },
        FunctionName::Month => {
            if count != 1 {
                return Err(LowerError::Arity);
            }
            let e = take_first(&mut args);
            proof {
                assert(all =~= seq![e]);
            }
            Ok(Expr::Call { func: Box::new(BuiltinFunction::Month(e)), ty: DfType::UnsignedBigInt })
        },
        FunctionName::DayOfWeek => {
            if count != 1 {
                return Err(LowerError::Arity);
            }
            let e = take_first(&mut args);
            proof {
                assert(all =~= seq![e]);
            }
            Ok(Expr::Call { func: Box::new(BuiltinFunction::DayOfWeek(e)), ty: DfType::BigInt })
        },
        FunctionName::Round => {
            if count != 2 {
                return Err(LowerError::Arity);
            }
            let a = take_first(&mut args);
            let b = take_first(&mut args);
            proof {
                assert(all =~= seq![a, b]);
            }
            Ok(Expr::Call { func: Box::new(BuiltinFunction::Round(a, b)), ty: DfType::BigInt })
        },
        FunctionName::Timediff => {
            if count != 2 {
                return Err(LowerError::Arity);
            }
            let a = take_first(&mut args);
            let b = take_first(&mut args);
            proof {
                assert(all =~= seq![a, b]);
            }
            Ok(Expr::Call { func: Box::new(BuiltinFunction::Timediff(a, b)), ty: DfType::Time })
        },
        FunctionName::Addtime => {
            if count != 2 {
                return Err(LowerError::Arity);
            }
            let ty = first_known_type(&args);
            let a = take_first(&mut args);
            let b = take_first(&mut args);
            proof {
                assert(all =~= seq![a, b]);
            }
            Ok(Expr::Call { func: Box::new(BuiltinFunction::Addtime(a, b)), ty })
        },
        FunctionName::ConvertTZ => {
            if count != 3 {
                return Err(LowerError::Arity);
            }
            let moment = take_first(&mut args);
            let source = take_first(&mut args);
            let target = take_first(&mut args);
            proof {
                assert(all =~= seq![moment, source, target]);
            }
            Ok(
                Expr::Call {
                    func: Box::new(BuiltinFunction::ConvertTZ(moment, source, target)),
                    ty: DfType::Timestamp,
                },
            )
        },
        FunctionName::Greatest => {
            if count < 1 {
                return Err(LowerError::Arity);
            }
            match infer_extremum(dialect, &args) {
                Err(error) => Err(error),
                Ok((compare_as, ty)) => Ok(
                    Expr::Call { func: Box::new(BuiltinFunction::Greatest { args, compare_as }), ty },
                ),
            }
        },
        FunctionName::Least => {
            if count < 1 {
                return Err(LowerError::Arity);
            }
            match infer_extremum(dialect, &args) {
                Err(error) => Err(error),
                Ok((compare_as, ty)) => Ok(
                    Expr::Call { func: Box::new(BuiltinFunction::Least { args, compare_as }), ty },
                ),
            }
        },
    }
}

} // verus!
