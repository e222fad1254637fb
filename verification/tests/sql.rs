use reader_map::sql::{
    case_when, cast, coalesce, if_null, CaseWhenBranch, Expr, FunctionExpr, Literal, SqlType,
};

fn column(name: &str) -> Expr {
    Expr::Column(name.to_string())
}

#[test]
fn cast_wraps_the_expression() {
    assert_eq!(
        cast(column("a"), SqlType::BigInt, true),
        Expr::Cast { expr: Box::new(column("a")), ty: SqlType::BigInt, postgres_style: true }
    );
}

#[test]
fn case_when_keeps_the_order_of_its_branches() {
    let cases = vec![
        (column("e1"), column("b1")),
        (column("e2"), column("b2")),
        (column("e3"), column("b3")),
    ];
    assert_eq!(
        case_when(cases, Some(column("en"))),
        Expr::CaseWhen {
            branches: vec![
                CaseWhenBranch { condition: column("b1"), body: column("e1") },
                CaseWhenBranch { condition: column("b2"), body: column("e2") },
                CaseWhenBranch { condition: column("b3"), body: column("e3") },
            ],
            else_expr: Some(Box::new(column("en"))),
        }
    );
    assert_eq!(
        case_when(Vec::new(), None),
        Expr::CaseWhen { branches: vec![], else_expr: None }
    );
}

#[test]
fn if_null_calls_ifnull() {
    assert_eq!(
        if_null(Expr::Literal(Literal::Null), Expr::Literal(Literal::Integer(2))),
        Expr::Call(FunctionExpr::Call {
            name: "ifnull".into(),
            arguments: vec![Expr::Literal(Literal::Null), Expr::Literal(Literal::Integer(2))],
        })
    );
}

#[test]
fn coalesce_puts_the_last_argument_last() {
    let arguments = vec![Expr::Literal(Literal::Null), column("a")];
    assert_eq!(
        coalesce(arguments, Expr::Literal(Literal::String("x".into()))),
        Expr::Call(FunctionExpr::Call {
            name: "coalesce".into(),
            arguments: vec![
                Expr::Literal(Literal::Null),
                column("a"),
                Expr::Literal(Literal::String("x".into())),
            ],
        })
    );
}
