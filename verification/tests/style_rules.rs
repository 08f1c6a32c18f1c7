use omnisql::style::casing::{any_text_differs, KeywordCasingRule};
use omnisql::style::commas::TrailingCommaRule;
use omnisql::style::fix::TokenFixer;
use omnisql::style::{StyleEngine, StyleRule};

#[test]
fn test_fix_casing() {
    let sql = "select * from my_table where id > 10;";
    let fixed = TokenFixer::fix_casing(sql);
    assert_eq!(fixed, "SELECT * FROM my_table WHERE id > 10;");
}

#[test]
fn test_fix_casing_preserves_whitespace() {
    let sql = "  select   \n\t id from users  ";
    let fixed = TokenFixer::fix_casing(sql);
    assert_eq!(fixed, "  SELECT   \n\t id FROM users  ");
}

#[test]
fn fix_casing_whole_words_only() {
    assert_eq!(TokenFixer::fix_casing("select selection from fromage"), "SELECT selection FROM fromage");
    assert_eq!(TokenFixer::fix_casing("drop table t"), "DROP TABLE t");
    assert_eq!(TokenFixer::fix_casing("grant all privileges on t"), "GRANT ALL PRIVILEGES ON t");
}

#[test]
fn keyword_casing_rule_reports_fixes() {
    let (sql, fixes) = KeywordCasingRule.apply("select a, b from t where x = 1 and y = 2 group by a");
    assert_eq!(sql, "SELECT a, b FROM t WHERE x = 1 AND y = 2 GROUP BY a");
    assert_eq!(
        fixes,
        vec![
            "Capitalized keyword 'SELECT'".to_string(),
            "Capitalized keyword 'FROM'".to_string(),
            "Capitalized keyword 'WHERE'".to_string(),
            "Capitalized keyword 'AND'".to_string(),
            "Capitalized keyword 'GROUP BY'".to_string(),
        ]
    );
}

#[test]
fn keyword_casing_rule_leaves_upper_case_alone() {
    let (sql, fixes) = KeywordCasingRule.apply("SELECT a FROM t;");
    assert_eq!(sql, "SELECT a FROM t;");
    assert!(fixes.is_empty());
}

#[test]
fn trailing_comma_rule() {
    let (sql, fixes) = TrailingCommaRule.apply("SELECT a, b,\n  FROM t");
    assert_eq!(sql, "SELECT a, b FROM t");
    assert_eq!(fixes, vec!["Removed trailing comma before FROM".to_string()]);
    let (sql, fixes) = TrailingCommaRule.apply("SELECT a FROM t");
    assert_eq!(sql, "SELECT a FROM t");
    assert!(fixes.is_empty());
}

#[test]
fn engine_applies_rules_in_order() {
    let mut engine = StyleEngine::new();
    engine.add_rule(Box::new(KeywordCasingRule));
    engine.add_rule(Box::new(TrailingCommaRule));
    let (sql, fixes) = engine.apply_rules("select a, from t");
    assert_eq!(sql, "SELECT a FROM t");
    assert_eq!(
        fixes,
        vec![
            "Capitalized keyword 'SELECT'".to_string(),
            "Capitalized keyword 'FROM'".to_string(),
            "Removed trailing comma before FROM".to_string(),
        ]
    );
    let empty = StyleEngine::new();
    assert_eq!(empty.apply_rules("select 1").0, "select 1");
}

#[test]
fn match_texts_that_differ_from_the_upper_case_form() {
    let v = |xs: &[&str]| xs.iter().map(|s| s.to_string()).collect::<Vec<String>>();
    assert!(!any_text_differs(&v(&[]), "FROM"));
    assert!(!any_text_differs(&v(&["FROM", "FROM"]), "FROM"));
    assert!(any_text_differs(&v(&["FROM", "from"]), "FROM"));
    assert!(any_text_differs(&v(&["From"]), "FROM"));
}

#[test]
fn fixer_leaves_quoted_text_and_comments_alone() {
    assert_eq!(TokenFixer::fix_casing("SELECT 'select' FROM t"), "SELECT 'select' FROM t");
    assert_eq!(
        TokenFixer::fix_casing("select \"from\", 'it''s where' from t -- select all\nwhere /* or */ x = 1"),
        "SELECT \"from\", 'it''s where' FROM t -- select all\nWHERE /* or */ x = 1"
    );
    assert_eq!(TokenFixer::fix_casing("select 'a'from t"), "SELECT 'a'FROM t");
}

#[test]
fn casing_rule_leaves_quoted_text_and_comments_alone() {
    let (sql, fixes) = KeywordCasingRule.apply("SELECT 'select' FROM t");
    assert_eq!(sql, "SELECT 'select' FROM t");
    assert!(fixes.is_empty());
    let (sql, fixes) = KeywordCasingRule.apply("select x -- from here\nfrom t where y = 'and'");
    assert_eq!(sql, "SELECT x -- from here\nFROM t WHERE y = 'and'");
    assert_eq!(
        fixes,
        vec![
            "Capitalized keyword 'SELECT'".to_string(),
            "Capitalized keyword 'FROM'".to_string(),
            "Capitalized keyword 'WHERE'".to_string(),
        ]
    );
}
