use omnisql::parser::sqltree::{
    SqlExpr, SqlFrom, SqlGroupBy, SqlJoin, SqlJoinKind, SqlParseFailure, SqlSelect, SqlSelectItem, SqlStatement,
};
use omnisql::parser::{
    error_position, parse_sql, preprocess_sql, statement_from_parse, AlterStatement, ColumnRef, DropStatement, Expression, GrantStatement,
    JoinClause, SelectStatement, Statement,
};

fn col(table: Option<&str>, name: &str) -> ColumnRef {
    ColumnRef { table: table.map(|t| t.to_string()), name: name.to_string() }
}

fn colx(table: Option<&str>, name: &str) -> Expression {
    Expression::Column(col(table, name))
}

fn bin(l: Expression, op: &str, r: Expression) -> Expression {
    Expression::BinaryOp { left: Box::new(l), operator: op.to_string(), right: Box::new(r) }
}

#[test]
fn select_with_join_where_and_group_by() {
    let sql = "SELECT id, u.email, COUNT(*) FROM users u INNER JOIN orders o ON u.id = o.user_id WHERE id > 10 GROUP BY id";
    let stmt = parse_sql(sql, "postgres").unwrap();
    let expected = Statement::Select(SelectStatement {
        columns: vec![col(None, "id"), col(Some("u"), "email"), col(None, "function_or_expr")],
        table: "users".to_string(),
        joins: vec![JoinClause {
            table: "orders".to_string(),
            on: bin(colx(Some("u"), "id"), "=", colx(Some("o"), "user_id")),
        }],
        where_clause: Some(bin(colx(None, "id"), ">", Expression::Number("10".to_string()))),
        group_by: Some(vec![col(None, "id")]),
    });
    assert_eq!(stmt, expected);
}

#[test]
fn wildcards_and_no_group_by() {
    let stmt = parse_sql("select *, t.* from t", "generic").unwrap();
    let expected = Statement::Select(SelectStatement {
        columns: vec![col(None, "*"), col(Some("t.*"), "*")],
        table: "t".to_string(),
        joins: vec![],
        where_clause: None,
        group_by: None,
    });
    assert_eq!(stmt, expected);
}

#[test]
fn join_without_inner_keyword_gets_the_constant_condition() {
    let stmt = parse_sql("SELECT a FROM t JOIN u ON t.id = u.id", "postgres").unwrap();
    match stmt {
        Statement::Select(s) => {
            assert_eq!(s.joins.len(), 1);
            assert_eq!(s.joins[0].table, "u");
            assert_eq!(s.joins[0].on, Expression::Number("1".to_string()));
        }
        _ => panic!("expected a SELECT"),
    }
}

#[test]
fn ddl_and_dcl_statements() {
    assert_eq!(parse_sql("DROP TABLE users", "postgres").unwrap(), Statement::Drop(DropStatement { table: "users".to_string() }));
    assert_eq!(parse_sql("DROP VIEW v", "postgres").unwrap(), Statement::Ignored);
    assert_eq!(
        parse_sql("ALTER TABLE orders ADD COLUMN note TEXT", "postgres").unwrap(),
        Statement::Alter(AlterStatement { table: "orders".to_string() })
    );
    assert_eq!(
        parse_sql("GRANT ALL PRIVILEGES ON users TO bob", "postgres").unwrap(),
        Statement::Grant(GrantStatement { all_privileges: true })
    );
    assert_eq!(
        parse_sql("GRANT SELECT ON users TO bob", "postgres").unwrap(),
        Statement::Grant(GrantStatement { all_privileges: false })
    );
    assert_eq!(parse_sql("INSERT INTO t VALUES (1)", "postgres").unwrap(), Statement::Ignored);
    assert_eq!(parse_sql("SELECT 1 UNION SELECT 2", "postgres").unwrap(), Statement::Ignored);
}

#[test]
fn only_the_first_statement_is_converted() {
    assert_eq!(
        parse_sql("DROP TABLE a; DROP TABLE b;", "Snowflake").unwrap(),
        Statement::Drop(DropStatement { table: "a".to_string() })
    );
}

#[test]
fn empty_input_is_an_error_at_one_one() {
    let e = parse_sql("   ", "postgres").unwrap_err();
    assert_eq!(e.message, "Empty statement");
    assert_eq!((e.line, e.col), (1, 1));
    let e = parse_sql("ALTER TABLE t OWNER TO bob;", "postgres").unwrap_err();
    assert_eq!(e.message, "Empty statement");
}

#[test]
fn syntax_error_reports_its_position() {
    let e = parse_sql("SELECT a FROM t WHERE\nAND b", "postgres").unwrap_err();
    assert!(e.message.starts_with("sql parser error: "));
    assert_eq!((e.line, e.col), (2, 5));
    assert_eq!(e.zero_based_position(), (1, 4));
}

#[test]
fn error_position_reads_line_and_column() {
    assert_eq!(error_position("Expected: an expression, found: AND at Line: 12, Column: 7"), (12, 7));
    assert_eq!(error_position("no position here"), (1, 1));
    assert_eq!(error_position("oops at Line: x, Column: 4"), (1, 4));
    assert_eq!(error_position("oops at Line: 3"), (1, 1));
}

#[test]
fn preprocess_blanks_unsupported_statements_keeping_lines() {
    assert_eq!(preprocess_sql("ALTER TABLE t\nOWNER TO bob;SELECT 1;"), "\nSELECT 1;");
    assert_eq!(preprocess_sql("CREATE SEQUENCE s\n START 1;\nSELECT 2;"), "\n\nSELECT 2;");
    assert_eq!(preprocess_sql("COPY t (a) FROM stdin;\n1\n2\n\\.\nSELECT 3;"), "\n\n\n\nSELECT 3;");
    assert_eq!(preprocess_sql("SELECT 4;"), "SELECT 4;");
}

#[test]
fn dialect_names_are_read_in_any_case() {
    let stmt = parse_sql("SELECT `a` FROM t", "GENERIC").unwrap();
    match stmt {
        Statement::Select(s) => assert_eq!(s.columns, vec![col(None, "a")]),
        _ => panic!("expected a SELECT"),
    }
    assert!(parse_sql("SELECT `a` FROM t", "postgres").is_err());
}


fn ident(s: &str) -> SqlExpr {
    SqlExpr::Identifier(s.to_string())
}

fn value(s: &str) -> SqlExpr {
    SqlExpr::Value(s.to_string())
}

fn sbin(l: SqlExpr, op: &str, r: SqlExpr) -> SqlExpr {
    SqlExpr::BinaryOp { left: Box::new(l), op: op.to_string(), right: Box::new(r) }
}

#[test]
fn statement_from_parse_converts_a_select() {
    let select = SqlSelect {
        projection: vec![
            SqlSelectItem::Expr(ident("id")),
            SqlSelectItem::Expr(SqlExpr::CompoundIdentifier(vec!["s".to_string(), "t".to_string(), "c".to_string()])),
            SqlSelectItem::Expr(SqlExpr::Other),
            SqlSelectItem::Expr(value("5")),
            SqlSelectItem::Expr(SqlExpr::Nested(Box::new(ident("n")))),
            SqlSelectItem::Wildcard,
            SqlSelectItem::QualifiedWildcard("t.*".to_string()),
        ],
        from: vec![SqlFrom {
            relation: None,
            joins: vec![
                SqlJoin { relation: Some("o".to_string()), kind: SqlJoinKind::LeftOuter, on: Some(sbin(value("1"), "=", value("1"))) },
                SqlJoin { relation: Some("p".to_string()), kind: SqlJoinKind::Other, on: Some(ident("x")) },
                SqlJoin { relation: Some("q".to_string()), kind: SqlJoinKind::Inner, on: None },
            ],
        }, SqlFrom { relation: Some("second".to_string()), joins: vec![] }],
        selection: Some(sbin(ident("a"), "AND", SqlExpr::Nested(Box::new(sbin(ident("b"), "+", SqlExpr::Other))))),
        group_by: SqlGroupBy::Expressions(vec![
            ident("id"),
            value("2"),
            SqlExpr::Other,
            SqlExpr::Nested(Box::new(SqlExpr::CompoundIdentifier(vec!["t".to_string(), "c".to_string()]))),
        ]),
    };
    let got = statement_from_parse(Ok(vec![SqlStatement::Select(select), SqlStatement::Other])).unwrap();
    let expected = Statement::Select(SelectStatement {
        columns: vec![col(None, "id"), col(Some("t"), "c"), col(None, "function_or_expr"), col(None, "function_or_expr"), col(None, "n"), col(None, "*"), col(Some("t.*"), "*")],
        table: "unknown".to_string(),
        joins: vec![
            JoinClause { table: "o".to_string(), on: bin(Expression::Number("1".to_string()), "=", Expression::Number("1".to_string())) },
            JoinClause { table: "p".to_string(), on: Expression::Number("1".to_string()) },
            JoinClause { table: "q".to_string(), on: Expression::Number("1".to_string()) },
        ],
        where_clause: Some(bin(colx(None, "a"), "AND", bin(colx(None, "b"), "+", colx(None, "function_or_expr")))),
        group_by: Some(vec![col(None, "id"), col(Some("t"), "c")]),
    });
    assert_eq!(got, expected);
}

#[test]
fn statement_from_parse_without_from_and_empty_group_by() {
    let select = SqlSelect { projection: vec![], from: vec![], selection: None, group_by: SqlGroupBy::Expressions(vec![]) };
    let got = statement_from_parse(Ok(vec![SqlStatement::Select(select)])).unwrap();
    let expected = Statement::Select(SelectStatement { columns: vec![], table: String::new(), joins: vec![], where_clause: None, group_by: None });
    assert_eq!(got, expected);
    let all = SqlSelect { projection: vec![], from: vec![], selection: None, group_by: SqlGroupBy::All };
    match statement_from_parse(Ok(vec![SqlStatement::Select(all)])).unwrap() {
        Statement::Select(s) => assert_eq!(s.group_by, None),
        _ => panic!("expected a SELECT"),
    }
}

#[test]
fn statement_from_parse_other_statements() {
    let one = |s: SqlStatement| statement_from_parse(Ok(vec![s])).unwrap();
    assert_eq!(one(SqlStatement::Drop { is_table: true, names: vec!["a".to_string(), "b".to_string()] }), Statement::Drop(DropStatement { table: "a".to_string() }));
    assert_eq!(one(SqlStatement::Drop { is_table: true, names: vec![] }), Statement::Ignored);
    assert_eq!(one(SqlStatement::Drop { is_table: false, names: vec!["a".to_string()] }), Statement::Ignored);
    assert_eq!(one(SqlStatement::AlterTable { name: "s.t".to_string() }), Statement::Alter(AlterStatement { table: "s.t".to_string() }));
    assert_eq!(one(SqlStatement::Grant { all_privileges: true }), Statement::Grant(GrantStatement { all_privileges: true }));
    assert_eq!(one(SqlStatement::OtherQuery), Statement::Ignored);
    assert_eq!(one(SqlStatement::Other), Statement::Ignored);
}

#[test]
fn statement_from_parse_errors() {
    let e = statement_from_parse(Ok(vec![])).unwrap_err();
    assert_eq!((e.message.as_str(), e.line, e.col), ("Empty statement", 1, 1));
    let bad = SqlStatement::Select(SqlSelect {
        projection: vec![SqlSelectItem::Expr(SqlExpr::CompoundIdentifier(vec![]))],
        from: vec![],
        selection: None,
        group_by: SqlGroupBy::All,
    });
    let e = statement_from_parse(Ok(vec![bad])).unwrap_err();
    assert_eq!((e.message.as_str(), e.line, e.col), ("Malformed syntax tree", 1, 1));
    let failure = SqlParseFailure {
        message: "sql parser error: Expected: x, found: y at Line: 3, Column: 9".to_string(),
        parser_message: Some("Expected: x, found: y at Line: 3, Column: 9".to_string()),
    };
    let e = statement_from_parse(Err(failure)).unwrap_err();
    assert_eq!(e.message, "sql parser error: Expected: x, found: y at Line: 3, Column: 9");
    assert_eq!((e.line, e.col), (3, 9));
    let tokenizer = SqlParseFailure { message: "sql parser error: bad char at Line: 2, Column: 2".to_string(), parser_message: None };
    let e = statement_from_parse(Err(tokenizer)).unwrap_err();
    assert_eq!((e.line, e.col), (1, 1));
}

#[test]
fn parenthesised_and_unmodelled_expressions_do_not_fold() {
    let stmt = parse_sql("SELECT a FROM t, u WHERE a / (b + c) = 1 AND -d > 0", "postgres").unwrap();
    let ast = match stmt {
        Statement::Select(s) => s,
        _ => panic!("expected a SELECT"),
    };
    assert_eq!(ast.table, "t");
    assert_eq!(
        ast.where_clause,
        Some(bin(
            bin(bin(colx(None, "a"), "/", bin(colx(None, "b"), "+", colx(None, "c"))), "=", Expression::Number("1".to_string())),
            "AND",
            bin(colx(None, "function_or_expr"), ">", Expression::Number("0".to_string())),
        ))
    );
    assert!(omnisql::exec::rules::check_execution_rules(&ast).is_empty());
}

#[test]
fn parenthesised_filter_on_the_partition_column_counts() {
    let mut r = omnisql::semantic::SchemaRegistry::new();
    r.load_from_ddl("CREATE TABLE events (\n id INT,\n created_at INT COMMENT '@PARTITION'\n);\n");
    let stmt = parse_sql("SELECT id FROM events WHERE (created_at > 5)", "postgres").unwrap();
    assert!(omnisql::semantic::cost::check_cost_rules(&stmt, &r).is_empty());
}

#[test]
fn preprocessing_keeps_the_line_count() {
    let sql = "ALTER TABLE t\n OWNER TO bob;\nCOPY t FROM stdin;\nx\n\\.\nCREATE TYPE k\nAS ENUM ('a');\nSELECT 1;\n";
    let out = preprocess_sql(sql);
    assert_eq!(out.matches('\n').count(), sql.matches('\n').count());
    assert!(out.ends_with("SELECT 1;\n"));
}
