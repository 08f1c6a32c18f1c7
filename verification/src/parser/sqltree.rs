//! The parts of `sqlparser`'s syntax tree that the linter reads, held as plain values, and
//! the call that parses SQL with `sqlparser`.
use vstd::prelude::*;
use sqlparser::ast::Statement as SqlAstStatement;

verus! {

/// The SQL dialects the linter parses with.
#[derive(Debug, PartialEq, Eq, Structural, Clone, Copy)]
pub enum SqlDialect {
    PostgreSql,
    Snowflake,
    Generic,
}

/// An expression of `sqlparser`'s tree: identifiers, literal values (as `sqlparser` prints
/// them), binary operators (the operator as printed), parenthesised expressions, and
/// everything else.
#[derive(Debug)]
pub enum SqlExpr {
    Identifier(String),
    CompoundIdentifier(Vec<String>),
    Value(String),
    BinaryOp { left: Box<SqlExpr>, op: String, right: Box<SqlExpr> },
    Nested(Box<SqlExpr>),
    Other,
}

/// An item of a `SELECT` list. `Expr` stands for an expression with or without aliases;
/// `QualifiedWildcard` holds the printed qualifier (such as `t.*`).
#[derive(Debug)]
pub enum SqlSelectItem {
    Expr(SqlExpr),
    QualifiedWildcard(String),
    Wildcard,
}

/// The operator of a join, as far as the linter tells them apart.
#[derive(Debug, PartialEq, Eq, Structural, Clone, Copy)]
pub enum SqlJoinKind {
    Inner,
    LeftOuter,
    RightOuter,
    FullOuter,
    Other,
}

/// A join: the joined table's printed name when it is a plain table, the operator, and
/// the `ON` condition when the operator carries one.
#[derive(Debug)]
pub struct SqlJoin {
    pub relation: Option<String>,
    pub kind: SqlJoinKind,
    pub on: Option<SqlExpr>,
}

/// The first `FROM` item: its table (as for joins) and its joins.
#[derive(Debug)]
pub struct SqlFrom {
    pub relation: Option<String>,
    pub joins: Vec<SqlJoin>,
}

/// The `GROUP BY` clause of a `SELECT`: its expressions (none when there is no clause), or
/// `GROUP BY ALL`.
#[derive(Debug)]
pub enum SqlGroupBy {
    Expressions(Vec<SqlExpr>),
    All,
}

/// A `SELECT` body: its projection, every `FROM` item in order, the `WHERE` expression and
/// the `GROUP BY` clause.
#[derive(Debug)]
pub struct SqlSelect {
    pub projection: Vec<SqlSelectItem>,
    pub from: Vec<SqlFrom>,
    pub selection: Option<SqlExpr>,
    pub group_by: SqlGroupBy,
}

/// A statement of `sqlparser`'s tree, as far as the linter tells them apart.
#[derive(Debug)]
pub enum SqlStatement {
    Select(SqlSelect),
    OtherQuery,
    Drop { is_table: bool, names: Vec<String> },
    AlterTable { name: String },
    Grant { all_privileges: bool },
    Other,
}

/// A parse failure: the printed error, and the inner message when it is a parser error
/// (rather than a tokenizer error or the recursion limit).
#[derive(Debug)]
pub struct SqlParseFailure {
    pub message: String,
    pub parser_message: Option<String>,
}

#[verifier::external_type_specification]
#[verifier::external_body]
pub struct ExStatement(SqlAstStatement);

#[verifier::external_type_specification]
#[verifier::external_body]
pub struct ExSelect(sqlparser::ast::Select);

#[verifier::external_type_specification]
#[verifier::external_body]
pub struct ExSelectItem(sqlparser::ast::SelectItem);

#[verifier::external_type_specification]
#[verifier::external_body]
pub struct ExJoin(sqlparser::ast::Join);

#[verifier::external_type_specification]
#[verifier::external_body]
pub struct ExExpr(sqlparser::ast::Expr);

#[verifier::external_type_specification]
#[verifier::external_body]
pub struct ExTableFactor(sqlparser::ast::TableFactor);

/// Copies a `sqlparser` expression into `SqlExpr`, one variant for one variant; values and
/// operators go through `sqlparser`'s `Display`. Nothing is stated of the copy.
#[verifier::external_body]
fn mirror_expr(e: &sqlparser::ast::Expr) -> SqlExpr {
    match e {
        sqlparser::ast::Expr::Identifier(ident) => SqlExpr::Identifier(ident.value.clone()),
        sqlparser::ast::Expr::CompoundIdentifier(ids) => SqlExpr::CompoundIdentifier(
            ids.iter().map(|i| i.value.clone()).collect(),
        ),
        sqlparser::ast::Expr::Value(v) => SqlExpr::Value(v.to_string()),
        sqlparser::ast::Expr::BinaryOp { left, op, right } => SqlExpr::BinaryOp {
            left: Box::new(mirror_expr(left)),
            op: op.to_string(),
            right: Box::new(mirror_expr(right)),
        },
        sqlparser::ast::Expr::Nested(inner) => SqlExpr::Nested(Box::new(mirror_expr(inner))),
        _ => SqlExpr::Other,
    }
}

/// Copies a `sqlparser` `SELECT` item into `SqlSelectItem`, one variant for one variant.
/// Nothing is stated of the copy.
#[verifier::external_body]
fn mirror_select_item(item: &sqlparser::ast::SelectItem) -> SqlSelectItem {
    match item {
        sqlparser::ast::SelectItem::UnnamedExpr(expr) => SqlSelectItem::Expr(mirror_expr(expr)),
        sqlparser::ast::SelectItem::ExprWithAlias { expr, .. } => SqlSelectItem::Expr(mirror_expr(expr)),
        sqlparser::ast::SelectItem::ExprWithAliases { expr, .. } => SqlSelectItem::Expr(mirror_expr(expr)),
        sqlparser::ast::SelectItem::QualifiedWildcard(name, _) => SqlSelectItem::QualifiedWildcard(
            name.to_string(),
        ),
        sqlparser::ast::SelectItem::Wildcard(_) => SqlSelectItem::Wildcard,
    }
}

/// Copies the name (`Display`) of a plain table in a `FROM` or `JOIN` position; any other
/// table factor gives `None`. Nothing is stated of the copy.
#[verifier::external_body]
fn mirror_relation(factor: &sqlparser::ast::TableFactor) -> Option<String> {
    match factor {
        sqlparser::ast::TableFactor::Table { name, .. } => Some(name.to_string()),
        _ => None,
    }
}

/// Copies a `sqlparser` join into `SqlJoin`: the table name of a plain table, the operator,
/// and the `ON` expression. Nothing is stated of the copy.
#[verifier::external_body]
fn mirror_join(join: &sqlparser::ast::Join) -> SqlJoin {
    let (kind, constraint) = match &join.join_operator {
        sqlparser::ast::JoinOperator::Inner(c) => (SqlJoinKind::Inner, Some(c)),
        sqlparser::ast::JoinOperator::LeftOuter(c) => (SqlJoinKind::LeftOuter, Some(c)),
        sqlparser::ast::JoinOperator::RightOuter(c) => (SqlJoinKind::RightOuter, Some(c)),
        sqlparser::ast::JoinOperator::FullOuter(c) => (SqlJoinKind::FullOuter, Some(c)),
        _ => (SqlJoinKind::Other, None),
    };
    let on = match constraint {
        Some(sqlparser::ast::JoinConstraint::On(expr)) => Some(mirror_expr(expr)),
        _ => None,
    };
    SqlJoin { relation: mirror_relation(&join.relation), kind, on }
}

/// Copies a `sqlparser` `SELECT` body into `SqlSelect`: the projection, every `FROM` item,
/// the `WHERE` expression and the `GROUP BY` clause. Nothing is stated of the copy.
#[verifier::external_body]
fn mirror_select(select: &sqlparser::ast::Select) -> SqlSelect {
    let from = select.from.iter().map(|f| SqlFrom {
        relation: mirror_relation(&f.relation),
        joins: f.joins.iter().map(mirror_join).collect(),
    }).collect();
    let group_by = match &select.group_by {
        sqlparser::ast::GroupByExpr::Expressions(exprs, _) => SqlGroupBy::Expressions(exprs.iter().map(mirror_expr).collect()),
        sqlparser::ast::GroupByExpr::All(_) => SqlGroupBy::All,
    };
    SqlSelect {
        projection: select.projection.iter().map(mirror_select_item).collect(),
        from,
        selection: select.selection.as_ref().map(mirror_expr),
        group_by,
    }
}

/// Copies a `sqlparser` statement into `SqlStatement`, one variant for one variant; object
/// names go through `Display`. Nothing is stated of the copy.
#[verifier::external_body]
fn mirror_statement(stmt: &SqlAstStatement) -> SqlStatement {
    match stmt {
        sqlparser::ast::Statement::Query(query) => match &*query.body {
            sqlparser::ast::SetExpr::Select(select) => SqlStatement::Select(mirror_select(select)),
            _ => SqlStatement::OtherQuery,
        },
        sqlparser::ast::Statement::Drop { object_type, names, .. } => SqlStatement::Drop {
            is_table: matches!(object_type, sqlparser::ast::ObjectType::Table),
            names: names.iter().map(|n| n.to_string()).collect(),
        },
        sqlparser::ast::Statement::AlterTable(alter) => SqlStatement::AlterTable { name: alter.name.to_string() },
        sqlparser::ast::Statement::Grant(grant) => SqlStatement::Grant {
            all_privileges: matches!(grant.privileges, sqlparser::ast::Privileges::All { .. }),
        },
        _ => SqlStatement::Other,
    }
}

/// What parsing a text with `sqlparser` in a dialect gives, copied into plain values.
pub uninterp spec fn sql_parse(dialect: SqlDialect, sql: Seq<char>) -> Result<Seq<SqlStatement>, SqlParseFailure>;

/// Parses `sql` with `sqlparser::parser::Parser::parse_sql` in the given dialect and copies
/// the statements (or the error) into plain values. The result is named `sql_parse` of the
/// dialect and the text; nothing more is stated of it.
#[verifier::external_body]
pub(crate) fn parse_with_sqlparser(dialect: SqlDialect, sql: &str) -> (r: Result<Vec<SqlStatement>, SqlParseFailure>)
    ensures
        match r {
            Ok(v) => sql_parse(dialect, sql@) == Ok::<Seq<SqlStatement>, SqlParseFailure>(v@),
            Err(e) => sql_parse(dialect, sql@) == Err::<Seq<SqlStatement>, SqlParseFailure>(e),
        },
{
    let parsed = match dialect {
        SqlDialect::Snowflake => sqlparser::parser::Parser::parse_sql(&sqlparser::dialect::SnowflakeDialect {}, sql),
        SqlDialect::Generic => sqlparser::parser::Parser::parse_sql(&sqlparser::dialect::GenericDialect {}, sql),
        SqlDialect::PostgreSql => sqlparser::parser::Parser::parse_sql(&sqlparser::dialect::PostgreSqlDialect {}, sql),
    };
    match parsed {
        Ok(stmts) => Ok(stmts.iter().map(mirror_statement).collect()),
        Err(e) => Err(SqlParseFailure {
            message: e.to_string(),
            parser_message: match &e {
                sqlparser::parser::ParserError::ParserError(m) => Some(m.clone()),
                _ => None,
            },
        }),
    }
}

} // verus!
