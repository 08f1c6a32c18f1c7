use omnisql::semantic::dbt::{DbtColumn, DbtManifest, DbtNode, MetaValue};
use omnisql::semantic::{SchemaRegistry, TableDef};

const USER_GUIDE_DDL: &str = "CREATE TABLE users (\n    id INT,\n    email VARCHAR COMMENT '@PII',\n    created_at TIMESTAMP COMMENT '@PARTITION'\n);\n";

fn strings(v: &[&str]) -> Vec<String> {
    v.iter().map(|s| s.to_string()).collect()
}

#[test]
fn new_registry_is_empty() {
    let r = SchemaRegistry::new();
    assert!(r.get_table("users").is_none());
    assert!(!r.validate_column("users", "id"));
}

#[test]
fn mock_schema_has_users() {
    let mut r = SchemaRegistry::new();
    r.load_mock_schema();
    let t = r.get_table("users").unwrap();
    assert_eq!(t.columns, strings(&["user_id", "email", "age"]));
    assert!(t.pii_columns.is_empty());
    assert_eq!(t.partition_column, None);
    assert!(r.validate_column("users", "email"));
    assert!(!r.validate_column("users", "name"));
    assert!(!r.validate_column("orders", "email"));
}

#[test]
fn insert_then_get_gives_back_the_definition() {
    let mut r = SchemaRegistry::new();
    let def = TableDef { columns: strings(&["a", "b"]), pii_columns: strings(&["b"]), partition_column: Some("a".to_string()) };
    r.insert_table("t".to_string(), def);
    let got = r.get_table("t").unwrap();
    assert_eq!(got.columns, strings(&["a", "b"]));
    assert_eq!(got.pii_columns, strings(&["b"]));
    assert_eq!(got.partition_column, Some("a".to_string()));
    let replacement = TableDef { columns: strings(&["c"]), pii_columns: vec![], partition_column: None };
    r.insert_table("t".to_string(), replacement);
    assert!(r.validate_column("t", "c"));
    assert!(!r.validate_column("t", "a"));
}

#[test]
fn find_tables_with_column_keeps_order_and_repeats() {
    let mut r = SchemaRegistry::new();
    r.load_from_ddl("CREATE TABLE a (\n id INT,\n x INT\n);\nCREATE TABLE b (\n id INT\n);\nCREATE TABLE c (\n y INT\n);\n");
    let active = strings(&["b", "c", "a", "missing", "b"]);
    assert_eq!(r.find_tables_with_column("id", &active), strings(&["b", "a", "b"]));
    assert_eq!(r.find_tables_with_column("y", &active), strings(&["c"]));
    assert!(r.find_tables_with_column("z", &active).is_empty());
}

#[test]
fn ddl_marks_pii_and_partition_columns() {
    let mut r = SchemaRegistry::new();
    r.load_from_ddl(USER_GUIDE_DDL);
    let t = r.get_table("users").unwrap();
    assert_eq!(t.columns, strings(&["id", "email", "created_at"]));
    assert_eq!(t.pii_columns, strings(&["email"]));
    assert_eq!(t.partition_column, Some("created_at".to_string()));
}

#[test]
fn ddl_skips_comments_constraints_and_lines_outside_tables() {
    let ddl = "-- schema\nid INT,\ncreate table orders(\n  order_id INT,\n  CONSTRAINT pk PRIMARY KEY (order_id),\n  PRIMARY KEY (order_id),\n  user_id INT, -- owner\n  (weird)\n)\nstray INT\n";
    let mut r = SchemaRegistry::new();
    r.load_from_ddl(ddl);
    let t = r.get_table("orders").unwrap();
    assert_eq!(t.columns, strings(&["order_id", "user_id"]));
    assert!(r.get_table("id").is_none());
}

#[test]
fn ddl_name_after_separate_paren_and_lower_case_markers() {
    let ddl = "CREATE TABLE ( events (\r\n  ts TIMESTAMP COMMENT '@partition',\r\n  ip TEXT COMMENT '@pii'\r\n);\r\n";
    let mut r = SchemaRegistry::new();
    r.load_from_ddl(ddl);
    let t = r.get_table("events").unwrap();
    assert_eq!(t.columns, strings(&["ts", "ip"]));
    assert_eq!(t.pii_columns, strings(&["ip"]));
    assert_eq!(t.partition_column, Some("ts".to_string()));
}

#[test]
fn ddl_load_keeps_known_tables() {
    let mut r = SchemaRegistry::new();
    r.load_mock_schema();
    r.load_from_ddl("CREATE TABLE orders (\n id INT\n);\n");
    assert!(r.get_table("users").is_some());
    assert!(r.get_table("orders").is_some());
}

fn column(pii: Option<MetaValue>) -> DbtColumn {
    let mut meta = Vec::new();
    if let Some(v) = pii {
        meta.push(("pii".to_string(), v));
    }
    DbtColumn { name: String::new(), data_type: None, meta }
}

fn node(name: &str, kind: &str, cols: Vec<(&str, DbtColumn)>, partition: Option<&str>) -> DbtNode {
    let mut meta = Vec::new();
    if let Some(p) = partition {
        meta.push(("partition_column".to_string(), MetaValue::Str(p.to_string())));
    }
    DbtNode {
        name: name.to_string(),
        resource_type: kind.to_string(),
        columns: cols.into_iter().map(|(k, c)| (k.to_string(), c)).collect(),
        meta,
    }
}

#[test]
fn dbt_manifest_models_sources_and_seeds() {
    let manifest = DbtManifest {
        nodes: vec![
            (
                "model.my_project.users".to_string(),
                node(
                    "users",
                    "model",
                    vec![("id", column(None)), ("email", column(Some(MetaValue::Bool(true)))), ("age", column(Some(MetaValue::Bool(false))))],
                    Some("id"),
                ),
            ),
            ("test.my_project.t".to_string(), node("not_a_table", "test", vec![("x", column(None))], None)),
            ("seed.my_project.s".to_string(), node("countries", "seed", vec![("code", column(Some(MetaValue::Other)))], None)),
        ],
        sources: vec![("source.raw.events".to_string(), node("events", "source", vec![("ts", column(None))], None))],
    };
    let mut r = SchemaRegistry::new();
    r.load_mock_schema();
    r.load_from_dbt_manifest(&manifest);
    let users = r.get_table("users").unwrap();
    assert_eq!(users.columns, strings(&["id", "email", "age"]));
    assert_eq!(users.pii_columns, strings(&["email"]));
    assert_eq!(users.partition_column, Some("id".to_string()));
    assert!(r.get_table("not_a_table").is_none());
    assert_eq!(r.get_table("countries").unwrap().columns, strings(&["code"]));
    assert!(r.get_table("countries").unwrap().pii_columns.is_empty());
    assert!(r.validate_column("events", "ts"));
}

#[test]
fn dbt_partition_must_be_a_string() {
    let mut n = node("t", "model", vec![], None);
    n.meta.push(("partition_column".to_string(), MetaValue::Bool(true)));
    let manifest = DbtManifest { nodes: vec![("model.p.t".to_string(), n)], sources: vec![] };
    let mut r = SchemaRegistry::new();
    r.load_from_dbt_manifest(&manifest);
    assert_eq!(r.get_table("t").unwrap().partition_column, None);
}

#[test]
fn ddl_marks_only_listed_columns() {
    let ddl = "CREATE TABLE t (\n  a INT COMMENT '@PII',\n  CONSTRAINT c COMMENT '@PII',\n  b INT COMMENT '@PARTITION'\n);\n";
    let mut r = SchemaRegistry::new();
    r.load_from_ddl(ddl);
    let t = r.get_table("t").unwrap();
    assert_eq!(t.columns, strings(&["a", "b"]));
    for p in &t.pii_columns {
        assert!(t.columns.contains(p));
    }
    assert!(t.columns.contains(t.partition_column.as_ref().unwrap()));
}
