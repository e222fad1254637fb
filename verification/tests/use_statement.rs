use reader_map::use_statement::{use_statement, Dialect, Expected, ParseError, UseStatement};

#[test]
fn use_db() {
    let qstring1 = "USE db1";
    let qstring2 = "use `db2`";
    let qstring3 = "USE `test`";
    let qstring4 = "use noria";
    let res1 = use_statement(Dialect::MySQL, qstring1.as_bytes())
        .unwrap()
        .1;
    let res2 = use_statement(Dialect::MySQL, qstring2.as_bytes())
        .unwrap()
        .1;
    let res3 = use_statement(Dialect::MySQL, qstring3.as_bytes())
        .unwrap()
        .1;
    let res4 = use_statement(Dialect::MySQL, qstring4.as_bytes())
        .unwrap()
        .1;
    assert_eq!(res1, UseStatement::from_database("db1".into()));
    assert_eq!(res2, UseStatement::from_database("db2".into()));
    assert_eq!(res3, UseStatement::from_database("test".into()));
    assert_eq!(res4, UseStatement::from_database("noria".into()));
}

#[test]
fn use_statement_reports_the_rest() {
    let (rest, statement) = use_statement(Dialect::MySQL, b"uSe \t\r\n [Db_1@x]; more").unwrap();
    assert_eq!(rest, 16);
    assert_eq!(statement.database, "Db_1@x");
    let (rest, statement) = use_statement(Dialect::MySQL, b"use abc def").unwrap();
    assert_eq!(rest, 7);
    assert_eq!(statement.database, "abc");
}

#[test]
fn use_statement_dialects_quote_differently() {
    let (_, bare) = use_statement(Dialect::PostgreSQL, b"USE MyDb").unwrap();
    assert_eq!(bare.database, "mydb");
    let (_, quoted) = use_statement(Dialect::PostgreSQL, b"USE \"MyDb\"").unwrap();
    assert_eq!(quoted.database, "MyDb");
    let (_, bare) = use_statement(Dialect::MySQL, b"USE MyDb").unwrap();
    assert_eq!(bare.database, "MyDb");
    assert_eq!(
        use_statement(Dialect::PostgreSQL, b"USE `db`"),
        Err(ParseError { at: 4, expected: Expected::Identifier })
    );
    assert_eq!(
        use_statement(Dialect::MySQL, b"USE \"db\""),
        Err(ParseError { at: 4, expected: Expected::Identifier })
    );
}

#[test]
fn use_statement_errors() {
    let keyword = Err(ParseError { at: 0, expected: Expected::Keyword });
    assert_eq!(use_statement(Dialect::MySQL, b""), keyword);
    assert_eq!(use_statement(Dialect::MySQL, b"us"), keyword);
    assert_eq!(use_statement(Dialect::MySQL, b"usa db"), keyword);
    let space = Err(ParseError { at: 3, expected: Expected::Whitespace });
    assert_eq!(use_statement(Dialect::MySQL, b"use"), space);
    assert_eq!(use_statement(Dialect::MySQL, b"usedb"), space);
    let name = |at| Err(ParseError { at, expected: Expected::Identifier });
    assert_eq!(use_statement(Dialect::MySQL, b"use "), name(4));
    assert_eq!(use_statement(Dialect::MySQL, b"use  ;"), name(5));
    assert_eq!(use_statement(Dialect::MySQL, b"use ``"), name(4));
    assert_eq!(use_statement(Dialect::MySQL, b"use `db"), name(4));
    assert_eq!(use_statement(Dialect::MySQL, b"use [db`"), name(4));
    assert_eq!(use_statement(Dialect::MySQL, b"use `d b`"), name(4));
}

#[test]
fn use_statement_to_string() {
    let statement = UseStatement::from_database("db1".into());
    assert_eq!(statement.to_string(), "USE db1");
    assert_eq!(statement.clone(), statement);
}
