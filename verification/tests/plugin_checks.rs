use omnisql::parser::{ColumnRef, DropStatement, Expression, JoinClause, SelectStatement, Statement};
use omnisql::plugin::{decimal_string, sample_plugin_checks};

fn select(names: &[&str], joins: usize) -> Statement {
    Statement::Select(SelectStatement {
        columns: names.iter().map(|n| ColumnRef { table: None, name: n.to_string() }).collect(),
        table: "t".to_string(),
        joins: (0..joins)
            .map(|i| JoinClause { table: format!("j{}", i), on: Expression::Number("1".to_string()) })
            .collect(),
        where_clause: None,
        group_by: None,
    })
}

#[test]
fn decimal_notation() {
    assert_eq!(decimal_string(0), "0");
    assert_eq!(decimal_string(7), "7");
    assert_eq!(decimal_string(10), "10");
    assert_eq!(decimal_string(1234567890), "1234567890");
    assert_eq!(decimal_string(usize::MAX), usize::MAX.to_string());
}

#[test]
fn select_star_and_many_joins() {
    let issues = sample_plugin_checks(&select(&["a", "*", "*"], 4));
    assert_eq!(issues.len(), 2);
    assert_eq!(issues[0].rule_name, "NoSelectStar");
    assert_eq!(issues[0].severity, "Warning");
    assert_eq!(issues[0].message, "Avoid using SELECT *, specify columns explicitly.");
    assert_eq!(issues[1].rule_name, "TooManyJoins");
    assert_eq!(issues[1].severity, "Warning");
    assert_eq!(issues[1].message, "Query has 4 joins. Consider simplifying for performance.");
}

#[test]
fn three_joins_and_named_columns_pass() {
    assert!(sample_plugin_checks(&select(&["a", "b"], 3)).is_empty());
    assert!(sample_plugin_checks(&Statement::Drop(DropStatement { table: "t".to_string() })).is_empty());
    let issues = sample_plugin_checks(&select(&["a"], 12));
    assert_eq!(issues.len(), 1);
    assert_eq!(issues[0].message, "Query has 12 joins. Consider simplifying for performance.");
}
