use omnisql::parser::{
    AlterStatement, ColumnRef, DropStatement, Expression, GrantStatement, JoinClause, SelectStatement, Statement,
};
use omnisql::semantic::columns::{check_column_references, ColumnVerdict};
use omnisql::semantic::cost::{check_cost_rules, join_conditions_within_i64, CostIssue};
use omnisql::semantic::security::{active_tables, check_security_rules, SecurityIssue};
use omnisql::semantic::SchemaRegistry;

const DDL: &str = "CREATE TABLE users (\n  id INT,\n  email VARCHAR COMMENT '@PII',\n  created_at TIMESTAMP COMMENT '@PARTITION'\n);\nCREATE TABLE orders (\n  id INT,\n  user_id INT,\n  total INT\n);\n";

fn registry() -> SchemaRegistry {
    let mut r = SchemaRegistry::new();
    r.load_from_ddl(DDL);
    r
}

fn col(table: Option<&str>, name: &str) -> ColumnRef {
    ColumnRef { table: table.map(|t| t.to_string()), name: name.to_string() }
}

fn num(s: &str) -> Expression {
    Expression::Number(s.to_string())
}

fn colx(table: Option<&str>, name: &str) -> Expression {
    Expression::Column(col(table, name))
}

fn bin(l: Expression, op: &str, r: Expression) -> Expression {
    Expression::BinaryOp { left: Box::new(l), operator: op.to_string(), right: Box::new(r) }
}

fn select(columns: Vec<ColumnRef>, table: &str, joins: Vec<JoinClause>, where_clause: Option<Expression>) -> SelectStatement {
    SelectStatement { columns, table: table.to_string(), joins, where_clause, group_by: None }
}

fn join(table: &str, on: Expression) -> JoinClause {
    JoinClause { table: table.to_string(), on }
}

fn security_texts(issues: &[SecurityIssue]) -> Vec<String> {
    issues
        .iter()
        .map(|i| match i {
            SecurityIssue::Error(m) => format!("E:{}", m),
            SecurityIssue::Warning(m) => format!("W:{}", m),
        })
        .collect()
}

fn cost_texts(issues: &[CostIssue]) -> Vec<String> {
    issues
        .iter()
        .map(|i| match i {
            CostIssue::Error(m) => format!("E:{}", m),
            CostIssue::Warning(m) => format!("W:{}", m),
        })
        .collect()
}

#[test]
fn active_tables_lists_from_then_joins() {
    let s = select(vec![], "users", vec![join("orders", num("1")), join("users", num("1"))], None);
    assert_eq!(active_tables(&s), vec!["users".to_string(), "orders".to_string(), "users".to_string()]);
}

#[test]
fn unmasked_pii_is_an_error() {
    let r = registry();
    let s = select(vec![col(None, "email"), col(Some("users"), "email"), col(None, "id")], "users", vec![], None);
    let issues = check_security_rules(&Statement::Select(s), &r);
    assert_eq!(
        security_texts(&issues),
        vec![
            "E:UnmaskedPIISelect: Selecting PII column 'users.email' without masking.".to_string(),
            "E:UnmaskedPIISelect: Selecting PII column 'users.email' without masking.".to_string(),
        ]
    );
}

#[test]
fn no_pii_columns_no_security_issues() {
    let mut r = SchemaRegistry::new();
    r.load_mock_schema();
    let s = select(vec![col(None, "email"), col(None, "*")], "users", vec![], None);
    assert!(check_security_rules(&Statement::Select(s), &r).is_empty());
}

#[test]
fn migrations_and_grants() {
    let r = registry();
    let drop = Statement::Drop(DropStatement { table: "users".to_string() });
    assert_eq!(security_texts(&check_security_rules(&drop, &r)), vec!["E:DangerousMigration: Destructive DROP TABLE 'users' detected.".to_string()]);
    let alter = Statement::Alter(AlterStatement { table: "orders".to_string() });
    assert_eq!(
        security_texts(&check_security_rules(&alter, &r)),
        vec!["W:DangerousMigration: ALTER TABLE 'orders' detected. Review for destructive operations.".to_string()]
    );
    let grant_all = Statement::Grant(GrantStatement { all_privileges: true });
    assert_eq!(
        security_texts(&check_security_rules(&grant_all, &r)),
        vec!["E:UnsafeGrant: GRANT ALL PRIVILEGES is overly permissive and prohibited.".to_string()]
    );
    let grant = Statement::Grant(GrantStatement { all_privileges: false });
    assert!(check_security_rules(&grant, &r).is_empty());
    assert!(check_security_rules(&Statement::Ignored, &r).is_empty());
}

#[test]
fn partition_filter_required() {
    let r = registry();
    let unfiltered = select(vec![col(None, "id")], "users", vec![], Some(bin(colx(None, "id"), ">", num("3"))));
    assert_eq!(
        cost_texts(&check_cost_rules(&Statement::Select(unfiltered), &r)),
        vec!["E:MissingPartitionFilter: Table 'users' is partitioned by 'created_at', but no filter was provided.".to_string()]
    );
    let filtered = select(
        vec![col(None, "id")],
        "users",
        vec![],
        Some(bin(bin(colx(None, "id"), ">", num("3")), "AND", bin(colx(Some("u"), "created_at"), ">", num("0")))),
    );
    assert!(check_cost_rules(&Statement::Select(filtered), &r).is_empty());
    let no_where = select(vec![col(None, "total")], "orders", vec![], None);
    assert!(check_cost_rules(&Statement::Select(no_where), &r).is_empty());
}

#[test]
fn truthy_join_conditions_warn() {
    let r = registry();
    let s = select(
        vec![col(Some("orders"), "total")],
        "orders",
        vec![
            join("users", bin(num("1"), "=", num("1"))),
            join("users", bin(colx(Some("users"), "id"), "=", colx(Some("orders"), "user_id"))),
            join("t3", num("7")),
            join("t4", num("0")),
        ],
        None,
    );
    let stmt = Statement::Select(s);
    assert!(join_conditions_within_i64(&stmt));
    assert_eq!(
        cost_texts(&check_cost_rules(&stmt, &r)),
        vec![
            "E:MissingPartitionFilter: Table 'users' is partitioned by 'created_at', but no filter was provided.".to_string(),
            "E:MissingPartitionFilter: Table 'users' is partitioned by 'created_at', but no filter was provided.".to_string(),
            "W:CartesianJoinWarning: JOIN ON condition for table 'users' evaluates to a truthy constant, which may cause a cartesian product.".to_string(),
            "W:CartesianJoinWarning: JOIN ON condition for table 't3' evaluates to a truthy constant, which may cause a cartesian product.".to_string(),
        ]
    );
    assert!(check_cost_rules(&Statement::Drop(DropStatement { table: "users".to_string() }), &r).is_empty());
}

#[test]
fn join_overflow_is_detected_before_folding() {
    let s = select(vec![], "orders", vec![join("users", bin(num("9223372036854775807"), "*", num("2")))], None);
    assert!(!join_conditions_within_i64(&Statement::Select(s)));
}

#[test]
fn column_verdicts() {
    let r = registry();
    let s = select(
        vec![
            col(None, "*"),
            col(None, "function_or_expr"),
            col(Some("users"), "email"),
            col(Some("orders"), "email"),
            col(Some("payments"), "id"),
            col(None, "id"),
            col(None, "total"),
            col(None, "missing"),
        ],
        "users",
        vec![join("orders", bin(colx(Some("users"), "id"), "=", colx(Some("orders"), "user_id")))],
        None,
    );
    let cli = check_column_references(&s, &r, true);
    assert_eq!(cli.len(), 6);
    assert!(matches!(&cli[0], ColumnVerdict::QualifiedOk { table, column } if table == "users" && column == "email"));
    assert!(matches!(&cli[1], ColumnVerdict::MissingColumn { table, column } if table == "orders" && column == "email"));
    assert!(matches!(&cli[2], ColumnVerdict::TableNotInQuery { table } if table == "payments"));
    assert!(matches!(&cli[3], ColumnVerdict::Ambiguous { column, tables } if column == "id" && *tables == vec!["users".to_string(), "orders".to_string()]));
    assert!(matches!(&cli[4], ColumnVerdict::Resolved { column, table } if column == "total" && table == "orders"));
    assert!(matches!(&cli[5], ColumnVerdict::NotFound { column } if column == "missing"));
    let errors: Vec<bool> = cli.iter().map(|v| v.is_error()).collect();
    assert_eq!(errors, vec![false, true, true, true, false, true]);
    let editor = check_column_references(&s, &r, false);
    assert_eq!(editor.len(), 7);
    assert!(matches!(&editor[0], ColumnVerdict::NotFound { column } if column == "function_or_expr"));
}

#[test]
fn adding_a_filter_adds_no_cost_error() {
    let r = registry();
    let joins = || vec![join("orders", bin(num("1"), "=", num("1")))];
    let without = select(vec![col(None, "id")], "users", joins(), None);
    let with_filter = select(vec![col(None, "id")], "users", joins(), Some(bin(colx(None, "created_at"), ">", num("0"))));
    let before = cost_texts(&check_cost_rules(&Statement::Select(without), &r));
    let after = cost_texts(&check_cost_rules(&Statement::Select(with_filter), &r));
    assert_eq!(before.len(), 2);
    assert!(before[0].starts_with("E:MissingPartitionFilter"));
    assert_eq!(after, vec![before[1].clone()]);
}
