use omnisql::diagnostics::{column_diagnostics, find_column_range, parse_error_diagnostic};
use omnisql::parser::{parse_sql, ParseError, Statement};
use omnisql::semantic::SchemaRegistry;

#[test]
fn find_column_range_first_line_first_place() {
    let text = "SELECT a,\n  email, email\r\nFROM users";
    assert_eq!(find_column_range(text, "email"), Some((1, 2, 7)));
    assert_eq!(find_column_range(text, "users"), Some((2, 5, 10)));
    assert_eq!(find_column_range(text, "SELECT"), Some((0, 0, 6)));
    assert_eq!(find_column_range(text, "missing"), None);
    assert_eq!(find_column_range("", "x"), None);
}

#[test]
fn find_column_range_counts_bytes() {
    assert_eq!(find_column_range("SELECT 'é', x", "x"), Some((0, 13, 14)));
    assert_eq!(find_column_range("a\n\nb", "b"), Some((2, 0, 1)));
}

#[test]
fn parse_error_diagnostic_is_one_character_wide() {
    let e = ParseError { message: "sql parser error: bad".to_string(), line: 3, col: 5 };
    let d = parse_error_diagnostic(&e);
    assert_eq!((d.start_line, d.start_col, d.end_line, d.end_col), (2, 4, 2, 5));
    assert_eq!(d.message, "Parse Error: sql parser error: bad");
    let e0 = ParseError { message: "x".to_string(), line: 0, col: 0 };
    let d0 = parse_error_diagnostic(&e0);
    assert_eq!((d0.start_line, d0.start_col, d0.end_line, d0.end_col), (0, 0, 0, 1));
}

#[test]
fn column_diagnostics_point_at_the_names() {
    let mut r = SchemaRegistry::new();
    r.load_from_ddl("CREATE TABLE users (\n id INT,\n email TEXT\n);\nCREATE TABLE orders (\n id INT,\n total INT\n);\n");
    let text = "SELECT id,\n  users.nope, pay.id, total, ghost, COUNT(*)\nFROM users INNER JOIN orders ON users.id = orders.id";
    let stmt = parse_sql(text, "postgres").unwrap();
    let select = match stmt {
        Statement::Select(s) => s,
        _ => panic!("expected a SELECT"),
    };
    let ds = column_diagnostics(text, &select, &r);
    let got: Vec<(usize, usize, usize, usize, String)> =
        ds.into_iter().map(|d| (d.start_line, d.start_col, d.end_line, d.end_col, d.message)).collect();
    assert_eq!(
        got,
        vec![
            (0, 7, 0, 9, "Semantic Error: Ambiguous column 'id'.".to_string()),
            (1, 8, 1, 12, "Semantic Error: Column 'users.nope' does not exist in schema.".to_string()),
            (1, 14, 1, 17, "Semantic Error: Table 'pay' is not part of the query.".to_string()),
            (1, 29, 1, 34, "Semantic Error: Column 'ghost' not found in any queried tables.".to_string()),
            (0, 0, 0, 0, "Semantic Error: Column 'function_or_expr' not found in any queried tables.".to_string()),
        ]
    );
}
