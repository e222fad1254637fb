//! SQL expressions as they are written, and the shapes of some of them.

use vstd::prelude::*;
use vstd::string::StringExecFns;

verus! {

/// The type to which a `CAST` converts.
#[derive(Clone, Copy, Debug, PartialEq, Eq, Structural)]
pub enum SqlType {
    Bool,
    Int,
    BigInt,
    UnsignedBigInt,
    Text,
    Date,
    Timestamp,
    Time,
}

/// A constant.
#[derive(Clone, Debug, PartialEq, Eq)]
pub enum Literal {
    Null,
    Integer(i64),
    UnsignedInteger(u64),
    String(String),
}

/// One branch of a `CASE`: where `condition` holds, the value is `body`.
#[derive(Debug, PartialEq, Eq)]
pub struct CaseWhenBranch {
    pub condition: Expr,
    pub body: Expr,
}

/// A call of a function.
#[derive(Debug, PartialEq, Eq)]
pub enum FunctionExpr {
    Call { name: String, arguments: Vec<Expr> },
}

/// An expression.
#[derive(Debug, PartialEq, Eq)]
pub enum Expr {
    Literal(Literal),
    Column(String),
    Cast { expr: Box<Expr>, ty: SqlType, postgres_style: bool },
    CaseWhen { branches: Vec<CaseWhenBranch>, else_expr: Option<Box<Expr>> },
    Call(FunctionExpr),
}

/// The branches of a `CASE` made of pairs of a value and a condition.
pub open spec fn branches_of(cases: Seq<(Expr, Expr)>) -> Seq<CaseWhenBranch> {
    cases.map_values(|case: (Expr, Expr)| CaseWhenBranch { condition: case.1, body: case.0 })
}

/// `CAST(expr AS ty)`, or `expr::ty` in the style of PostgreSQL.
pub fn cast(expr: Expr, ty: SqlType, postgres_style: bool) -> (cast: Expr)
    ensures
        cast == (Expr::Cast { expr: Box::new(expr), ty, postgres_style }),
{
    Expr::Cast { expr: Box::new(expr), ty, postgres_style }
}

/// `CASE WHEN b1 THEN e1 WHEN b2 THEN e2 ... ELSE en END`, from the pairs
/// of a value `e` and a condition `b`, and the value for the other cases, if
/// there is one.
pub fn case_when(cases: Vec<(Expr, Expr)>, else_expr: Option<Expr>) -> (case: Expr)
    ensures
        case matches Expr::CaseWhen { branches, else_expr: other } && branches@ == branches_of(
            cases@,
        ) && other == (match else_expr {
            Some(e) => Some(Box::new(e)),
            None => None,
        }),
{
    let mut cases = cases;
    let ghost all = cases@;
    let mut branches: Vec<CaseWhenBranch> = Vec::new();
    while cases.len() > 0
        invariant
            cases@.len() <= all.len(),
            cases@ == all.subrange(0, cases@.len() as int),
            branches@ == branches_of(all.subrange(cases@.len() as int, all.len() as int)),
        decreases cases@.len(),
    {
        let ghost before = cases@;
        let ghost made = branches@;
        let n = cases.len();
        let (body, condition) = cases.pop().unwrap();
        branches.insert(0, CaseWhenBranch { condition, body });
        proof {
            assert(cases@ =~= all.subrange(0, n - 1));
            assert(branches@ =~= branches_of(all.subrange(n - 1, all.len() as int))) by {
                let target = branches_of(all.subrange(n - 1, all.len() as int));
                assert(branches@.len() == target.len());
                assert(before[n - 1] == all[n - 1]);
                assert forall|i: int| 0 <= i < target.len() implies branches@[i] == target[i] by {
                    if i > 0 {
                        assert(branches@[i] == made[i - 1]);
                        assert(made[i - 1] == branches_of(
                            all.subrange(n as int, all.len() as int),
                        )[i - 1]);
                    }
                }
            }
        }
    }
    proof {
        assert(all.subrange(0, all.len() as int) =~= all);
    }
    Expr::CaseWhen {
        branches,
        else_expr: match else_expr {
            Some(e) => Some(Box::new(e)),
            None => None,
        },
    }
}

/// `IFNULL(e1, e2)`.
pub fn if_null(e1: Expr, e2: Expr) -> (call: Expr)
    ensures
        call matches Expr::Call(FunctionExpr::Call { name, arguments }) && name@ == "ifnull"@
            && arguments@ == seq![e1, e2],
{
    let mut arguments: Vec<Expr> = Vec::new();
    arguments.push(e1);
    arguments.push(e2);
    proof {
        assert(arguments@ =~= seq![e1, e2]);
    }
    Expr::Call(FunctionExpr::Call { name: String::from_str("ifnull"), arguments })
}

/// `COALESCE(e1, .., en)`, where `last` is the last argument.
pub fn coalesce(arguments: Vec<Expr>, last: Expr) -> (call: Expr)
    ensures
        call matches Expr::Call(FunctionExpr::Call { name, arguments: all }) && name@
            == "coalesce"@ && all@ == arguments@.push(last),
{
    let mut arguments = arguments;
    arguments.push(last);
    Expr::Call(FunctionExpr::Call { name: String::from_str("coalesce"), arguments })
}

} // verus!
