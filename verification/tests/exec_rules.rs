use omnisql::exec::eval::{evaluate_expression, folds_within_i64, EvalValue};
use omnisql::exec::rules::{check_execution_rules, dry_run_within_i64, ExecIssue};
use omnisql::parser::{ColumnRef, Expression, JoinClause, SelectStatement};

fn num(s: &str) -> Expression {
    Expression::Number(s.to_string())
}

fn bin(l: Expression, op: &str, r: Expression) -> Expression {
    Expression::BinaryOp { left: Box::new(l), operator: op.to_string(), right: Box::new(r) }
}

fn col(name: &str) -> Expression {
    Expression::Column(ColumnRef { table: None, name: name.to_string() })
}

#[test]
fn test_eval_constant_folding() {
    // 1 + 2
    let expr = Expression::BinaryOp {
        left: Box::new(Expression::Number("1".to_string())),
        operator: "+".to_string(),
        right: Box::new(Expression::Number("2".to_string())),
    };
    assert_eq!(evaluate_expression(&expr), EvalValue::Number(3));
}

#[test]
fn test_eval_divide_by_zero() {
    // x / 0
    let expr = Expression::BinaryOp {
        left: Box::new(Expression::Column(ColumnRef { table: None, name: "x".to_string() })),
        operator: "/".to_string(),
        right: Box::new(Expression::Number("0".to_string())),
    };
    assert_eq!(evaluate_expression(&expr), EvalValue::Unknown);
}

#[test]
fn test_impossible_filter_warning() {
    // WHERE 1 = 0
    let expr = Expression::BinaryOp {
        left: Box::new(Expression::Number("1".to_string())),
        operator: "=".to_string(),
        right: Box::new(Expression::Number("0".to_string())),
    };

    let ast = SelectStatement {
        columns: vec![],
        table: "t1".to_string(),
        joins: vec![],
        where_clause: Some(expr),
        group_by: None,
    };

    let issues = check_execution_rules(&ast);
    assert_eq!(issues.len(), 1);
    if let ExecIssue::Warning(msg) = &issues[0] {
        assert!(msg.contains("Impossible Filter"));
    } else {
        panic!("Expected warning");
    }
}

#[test]
fn test_divide_by_zero_error() {
    // WHERE 1 / 0 = 1
    let expr = Expression::BinaryOp {
        left: Box::new(Expression::BinaryOp {
            left: Box::new(Expression::Number("1".to_string())),
            operator: "/".to_string(),
            right: Box::new(Expression::Number("0".to_string())),
        }),
        operator: "=".to_string(),
        right: Box::new(Expression::Number("1".to_string())),
    };

    let ast = SelectStatement {
        columns: vec![],
        table: "t1".to_string(),
        joins: vec![],
        where_clause: Some(expr),
        group_by: None,
    };

    let issues = check_execution_rules(&ast);
    assert_eq!(issues.len(), 1);
    if let ExecIssue::Error(msg) = &issues[0] {
        assert!(msg.contains("Divide by Zero"));
    } else {
        panic!("Expected error");
    }
}

#[test]
fn eval_arithmetic_and_comparisons() {
    assert_eq!(evaluate_expression(&bin(num("7"), "-", num("10"))), EvalValue::Number(-3));
    assert_eq!(evaluate_expression(&bin(num("6"), "*", num("-7"))), EvalValue::Number(-42));
    // Division rounds toward zero.
    assert_eq!(evaluate_expression(&bin(num("-7"), "/", num("2"))), EvalValue::Number(-3));
    assert_eq!(evaluate_expression(&bin(num("7"), "/", num("-2"))), EvalValue::Number(-3));
    assert_eq!(evaluate_expression(&bin(num("3"), ">=", num("3"))), EvalValue::Boolean(true));
    assert_eq!(evaluate_expression(&bin(num("3"), "!=", num("3"))), EvalValue::Boolean(false));
    assert_eq!(evaluate_expression(&bin(num("2"), "<", num("3"))), EvalValue::Boolean(true));
    assert_eq!(evaluate_expression(&bin(num("2"), "%", num("3"))), EvalValue::Unknown);
}

#[test]
fn eval_boolean_operators_any_case() {
    let t = bin(num("1"), "=", num("1"));
    let f = bin(num("1"), "=", num("2"));
    assert_eq!(evaluate_expression(&bin(bin(num("1"), "=", num("1")), "and", f)), EvalValue::Boolean(false));
    assert_eq!(evaluate_expression(&bin(t, "Or", bin(num("1"), "=", num("2")))), EvalValue::Boolean(true));
    assert_eq!(
        evaluate_expression(&bin(bin(num("1"), "=", num("1")), "XOR", bin(num("1"), "=", num("1")))),
        EvalValue::Unknown
    );
    // Mixed kinds do not fold.
    assert_eq!(evaluate_expression(&bin(bin(num("1"), "=", num("1")), "+", num("1"))), EvalValue::Unknown);
}

#[test]
fn eval_literals() {
    assert_eq!(evaluate_expression(&num("+42")), EvalValue::Number(42));
    assert_eq!(evaluate_expression(&num("-9223372036854775808")), EvalValue::Number(i64::MIN));
    assert_eq!(evaluate_expression(&num("9223372036854775808")), EvalValue::Unknown);
    assert_eq!(evaluate_expression(&num("1.5")), EvalValue::Unknown);
    assert_eq!(evaluate_expression(&num("'abc'")), EvalValue::Unknown);
    assert_eq!(evaluate_expression(&num("-")), EvalValue::Unknown);
    assert_eq!(evaluate_expression(&col("x")), EvalValue::Unknown);
}

#[test]
fn dry_run_checks_joins_and_nested_divisions() {
    let on = bin(col("a"), "=", bin(num("4"), "/", bin(num("1"), "-", num("1"))));
    let ast = SelectStatement {
        columns: vec![],
        table: "t1".to_string(),
        joins: vec![JoinClause { table: "t2".to_string(), on }],
        where_clause: Some(bin(num("1"), "=", num("1"))),
        group_by: None,
    };
    let issues = check_execution_rules(&ast);
    assert_eq!(issues.len(), 1);
    match &issues[0] {
        ExecIssue::Error(m) => assert_eq!(m, "Divide by Zero: Attempted to divide by literal 0"),
        _ => panic!("Expected error"),
    }
}

#[test]
fn dry_run_range_check() {
    let big = bin(num("9223372036854775807"), "+", num("1"));
    assert!(!folds_within_i64(&big));
    assert!(folds_within_i64(&bin(num("9223372036854775806"), "+", num("1"))));
    assert!(!folds_within_i64(&bin(num("-9223372036854775808"), "/", num("-1"))));
    let ast = SelectStatement {
        columns: vec![],
        table: "t".to_string(),
        joins: vec![],
        where_clause: Some(big),
        group_by: None,
    };
    assert!(!dry_run_within_i64(&ast));
}

#[test]
fn boolean_operators_in_any_case() {
    let t = bin(num("1"), "=", num("1"));
    let f = bin(num("1"), "=", num("2"));
    assert_eq!(evaluate_expression(&bin(bin(num("1"), "=", num("1")), "and", bin(num("2"), "<", num("3")))), EvalValue::Boolean(true));
    assert_eq!(evaluate_expression(&bin(t, "Or", f)), EvalValue::Boolean(true));
    assert_eq!(evaluate_expression(&bin(bin(num("1"), "=", num("1")), "AND", bin(num("1"), "=", num("2")))), EvalValue::Boolean(false));
    assert_eq!(evaluate_expression(&bin(num("1"), "AND", num("1"))), EvalValue::Unknown);
}
