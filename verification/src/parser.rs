//! The linter's abstract syntax tree for one SQL statement, and how it is built from the
//! tree that `sqlparser` produces.
pub mod sqltree;

use vstd::prelude::*;
use crate::parser::sqltree::{
    SqlDialect, SqlExpr, SqlSelectItem, SqlJoin, SqlJoinKind, SqlSelect, SqlStatement, SqlGroupBy,
    SqlParseFailure, sql_parse, parse_with_sqlparser,
};
use crate::semantic::opt_string_view;
use crate::text::{
    to_chars, trim, trim_chars, first_occurrence, find, split_on, split_chars, replace_all,
    replace_chars, unicode_lower, to_lowercase, str_eq, newline_count,
};
use crate::numeric::{parse_usize, parse_usize_spec};
use crate::pattern::{
    regex_blank_out, regex_compiles, regex_match_spans, blank_spans, lemma_blank_spans_keeps_lines,
};

verus! {

/// A column reference, optionally qualified by a table name.
#[derive(Debug, PartialEq)]
pub struct ColumnRef {
    pub table: Option<String>,
    pub name: String,
}

/// An expression of a `WHERE` or `JOIN ... ON` clause.
#[derive(Debug, PartialEq)]
pub enum Expression {
    Column(ColumnRef),
    Number(String),
    BinaryOp { left: Box<Expression>, operator: String, right: Box<Expression> },
}

#[derive(Debug, PartialEq)]
pub struct JoinClause {
    pub table: String,
    pub on: Expression,
}

#[derive(Debug, PartialEq)]
pub struct SelectStatement {
    pub columns: Vec<ColumnRef>,
    pub table: String,
    pub joins: Vec<JoinClause>,
    pub where_clause: Option<Expression>,
    pub group_by: Option<Vec<ColumnRef>>,
}

#[derive(Debug, PartialEq)]
pub struct DropStatement {
    pub table: String,
}

#[derive(Debug, PartialEq)]
pub struct AlterStatement {
    pub table: String,
}

#[derive(Debug, PartialEq)]
pub struct GrantStatement {
    pub all_privileges: bool,
}

#[derive(Debug, PartialEq)]
pub enum Statement {
    Select(SelectStatement),
    Drop(DropStatement),
    Alter(AlterStatement),
    Grant(GrantStatement),
    Ignored,
}

/// A parse failure, with the 1-based line and column it was reported at.
#[derive(Debug)]
pub struct ParseError {
    pub message: String,
    pub line: usize,
    pub col: usize,
}

/// Whether a column reference has the given qualifier and name.
pub open spec fn column_is(c: ColumnRef, table: Option<Seq<char>>, name: Seq<char>) -> bool {
    opt_string_view(c.table) == table && c.name@ == name
}

/// The column an identifier expression stands for: a plain identifier, or the last two
/// parts of a compound identifier as table and column, in parentheses or not.
pub open spec fn ident_column(e: SqlExpr) -> Option<(Option<Seq<char>>, Seq<char>)>
    decreases e,
{
    match e {
        SqlExpr::Nested(inner) => ident_column(*inner),
        SqlExpr::Identifier(v) => Some((None, v@)),
        SqlExpr::CompoundIdentifier(ids) => if ids@.len() >= 2 {
            Some((Some(ids@[ids@.len() - 2]@), ids@[ids@.len() - 1]@))
        } else {
            Some((None, ids@[0]@))
        },
        _ => None,
    }
}

/// Every compound identifier of the expression has a part.
pub open spec fn expr_wf(e: SqlExpr) -> bool
    decreases e,
{
    match e {
        SqlExpr::CompoundIdentifier(ids) => ids@.len() > 0,
        SqlExpr::BinaryOp { left, right, .. } => expr_wf(*left) && expr_wf(*right),
        SqlExpr::Nested(inner) => expr_wf(*inner),
        _ => true,
    }
}

/// `out` is the linter's form of `src`: identifiers become columns, values become number
/// literals with the value's text, binary operators keep their operator, a parenthesised
/// expression becomes its inner expression, and any other expression becomes the
/// placeholder column `function_or_expr`, which never folds to a constant.
pub open spec fn expr_converts(src: SqlExpr, out: Expression) -> bool
    decreases src,
{
    match src {
        SqlExpr::BinaryOp { left, op, right } => match out {
            Expression::BinaryOp { left: l, operator, right: r } => operator@ == op@
                && expr_converts(*left, *l) && expr_converts(*right, *r),
            _ => false,
        },
        SqlExpr::Value(v) => out matches Expression::Number(n) && n@ == v@,
        SqlExpr::Nested(inner) => expr_converts(*inner, out),
        SqlExpr::Other => out matches Expression::Column(c) && column_is(c, None, "function_or_expr"@),
        _ => match ident_column(src) {
            Some(tc) => out matches Expression::Column(c) && column_is(c, tc.0, tc.1),
            None => false,
        },
    }
}

fn convert_expr(expr: &SqlExpr) -> (r: Expression)
    requires
        expr_wf(*expr),
    ensures
        expr_converts(*expr, r),
    decreases expr,
{
    match expr {
        SqlExpr::Identifier(v) => Expression::Column(ColumnRef { table: None, name: v.clone() }),
        SqlExpr::CompoundIdentifier(idents) => {
            let n = idents.len();
            if n >= 2 {
                let t = idents[n - 2].clone();
                let c = idents[n - 1].clone();
                Expression::Column(ColumnRef { table: Some(t), name: c })
            } else {
                Expression::Column(ColumnRef { table: None, name: idents[0].clone() })
            }
        },
        SqlExpr::Value(v) => Expression::Number(v.clone()),
        SqlExpr::BinaryOp { left, op, right } => {
            let l = convert_expr(left);
            let r = convert_expr(right);
            Expression::BinaryOp { left: Box::new(l), operator: op.clone(), right: Box::new(r) }
        },
        SqlExpr::Nested(inner) => convert_expr(inner),
        SqlExpr::Other => Expression::Column(ColumnRef { table: None, name: "function_or_expr".to_owned() }),
    }
}

/// The column a `SELECT` item lists: the identifier's column, `*` (qualified or not), or
/// the placeholder `function_or_expr` for any other expression.
pub open spec fn item_converts(item: SqlSelectItem, c: ColumnRef) -> bool {
    match item {
        SqlSelectItem::Expr(e) => match ident_column(e) {
            Some(tc) => column_is(c, tc.0, tc.1),
            None => column_is(c, None, "function_or_expr"@),
        },
        SqlSelectItem::Wildcard => column_is(c, None, "*"@),
        SqlSelectItem::QualifiedWildcard(q) => column_is(c, Some(q@), "*"@),
    }
}

pub open spec fn item_wf(item: SqlSelectItem) -> bool {
    item matches SqlSelectItem::Expr(e) ==> expr_wf(e)
}

proof fn lemma_converted_column(e: SqlExpr, out: Expression)
    requires
        expr_converts(e, out),
    ensures
        ident_column(e) is Some ==> out is Column,
        out matches Expression::Column(c) ==> match ident_column(e) {
            Some(tc) => column_is(c, tc.0, tc.1),
            None => column_is(c, None, "function_or_expr"@),
        },
    decreases e,
{
    if let SqlExpr::Nested(inner) = e {
        lemma_converted_column(*inner, out);
    }
}

fn convert_select_item(item: &SqlSelectItem) -> (r: ColumnRef)
    requires
        item_wf(*item),
    ensures
        item_converts(*item, r),
{
    match item {
        SqlSelectItem::Expr(expr) => {
            let converted = convert_expr(expr);
            proof {
                lemma_converted_column(*expr, converted);
            }
            match converted {
                Expression::Column(c) => c,
                _ => ColumnRef { table: None, name: "function_or_expr".to_owned() },
            }
        },
        SqlSelectItem::Wildcard => ColumnRef { table: None, name: "*".to_owned() },
        SqlSelectItem::QualifiedWildcard(name) => ColumnRef { table: Some(name.clone()), name: "*".to_owned() },
    }
}

/// The name the linter gives a `FROM` or join relation: the table's name, or `unknown`
/// for anything but a plain table.
pub open spec fn relation_name(r: Option<String>) -> Seq<char> {
    match r {
        Some(n) => n@,
        None => "unknown"@,
    }
}

fn extract_table_name(relation: &Option<String>) -> (r: String)
    ensures
        r@ == relation_name(*relation),
{
    match relation {
        Some(name) => name.clone(),
        None => "unknown".to_owned(),
    }
}

/// A join keeps its table; its condition is the converted `ON` expression of an inner,
/// left outer, right outer or full outer join, and the literal `1` otherwise.
pub open spec fn join_converts(j: SqlJoin, out: JoinClause) -> bool {
    &&& out.table@ == relation_name(j.relation)
    &&& if j.kind != SqlJoinKind::Other && j.on is Some {
        expr_converts(j.on->0, out.on)
    } else {
        out.on matches Expression::Number(n) && n@ == "1"@
    }
}

pub open spec fn join_wf(j: SqlJoin) -> bool {
    j.on matches Some(e) ==> expr_wf(e)
}

fn convert_join(join: &SqlJoin) -> (r: JoinClause)
    requires
        join_wf(*join),
    ensures
        join_converts(*join, r),
{
    let table = extract_table_name(&join.relation);
    let on = match (join.kind, &join.on) {
        (SqlJoinKind::Other, _) => Expression::Number("1".to_owned()),
        (_, Some(expr)) => convert_expr(expr),
        (_, None) => Expression::Number("1".to_owned()),
    };
    JoinClause { table, on }
}

/// The columns among `GROUP BY` expressions, in order.
pub open spec fn group_columns(es: Seq<SqlExpr>) -> Seq<(Option<Seq<char>>, Seq<char>)>
    decreases es.len(),
{
    if es.len() == 0 {
        Seq::empty()
    } else {
        let prev = group_columns(es.drop_last());
        match ident_column(es.last()) {
            Some(tc) => prev.push(tc),
            None => prev,
        }
    }
}

pub open spec fn columns_are(cs: Seq<ColumnRef>, tcs: Seq<(Option<Seq<char>>, Seq<char>)>) -> bool {
    cs.len() == tcs.len() && forall|i: int| 0 <= i < cs.len() ==> column_is(#[trigger] cs[i], tcs[i].0, tcs[i].1)
}

/// `GROUP BY <expressions>` with at least one expression keeps the columns among them;
/// anything else gives no grouping.
pub open spec fn group_converts(g: SqlGroupBy, out: Option<Vec<ColumnRef>>) -> bool {
    match g {
        SqlGroupBy::Expressions(es) => if es@.len() > 0 {
            out matches Some(cs) && columns_are(cs@, group_columns(es@))
        } else {
            out is None
        },
        SqlGroupBy::All => out is None,
    }
}

/// The linter's `SELECT`: the listed columns, the first `FROM` table (empty when there is
/// none) and its joins, the `WHERE` condition and the grouping.
pub open spec fn select_converts(s: SqlSelect, out: SelectStatement) -> bool {
    &&& out.columns@.len() == s.projection@.len()
    &&& forall|i: int| 0 <= i < out.columns@.len() ==> item_converts(s.projection@[i], #[trigger] out.columns@[i])
    &&& if s.from@.len() > 0 {
        let f = s.from@[0];
        out.table@ == relation_name(f.relation) && out.joins@.len() == f.joins@.len()
            && forall|i: int| 0 <= i < out.joins@.len() ==> join_converts(f.joins@[i], #[trigger] out.joins@[i])
    } else {
        out.table@ == Seq::<char>::empty() && out.joins@.len() == 0
    }
    &&& match s.selection {
        Some(e) => out.where_clause matches Some(w) && expr_converts(e, w),
        None => out.where_clause is None,
    }
    &&& group_converts(s.group_by, out.group_by)
}

pub open spec fn select_wf(s: SqlSelect) -> bool {
    &&& forall|i: int| 0 <= i < s.projection@.len() ==> item_wf(#[trigger] s.projection@[i])
    &&& s.from@.len() > 0 ==> forall|i: int|
        0 <= i < s.from@[0].joins@.len() ==> join_wf(#[trigger] s.from@[0].joins@[i])
    &&& s.selection matches Some(e) ==> expr_wf(e)
    &&& s.group_by matches SqlGroupBy::Expressions(es) ==> forall|i: int|
        0 <= i < es@.len() ==> expr_wf(#[trigger] es@[i])
}

/// The linter's form of a statement: `SELECT` queries, `DROP TABLE` (its first name),
/// `ALTER TABLE` and `GRANT`; every other statement is ignored.
pub open spec fn statement_converts(src: SqlStatement, out: Statement) -> bool {
    match src {
        SqlStatement::Select(s) => out matches Statement::Select(o) && select_converts(s, o),
        SqlStatement::Drop { is_table, names } => if is_table && names@.len() > 0 {
            out matches Statement::Drop(d) && d.table@ == names@[0]@
        } else {
            out is Ignored
        },
        SqlStatement::AlterTable { name } => out matches Statement::Alter(a) && a.table@ == name@,
        SqlStatement::Grant { all_privileges } => out matches Statement::Grant(g) && g.all_privileges
            == all_privileges,
        _ => out is Ignored,
    }
}

pub open spec fn statement_wf(src: SqlStatement) -> bool {
    src matches SqlStatement::Select(s) ==> select_wf(s)
}

fn convert_select(select: &SqlSelect) -> (r: SelectStatement)
    requires
        select_wf(*select),
    ensures
        select_converts(*select, r),
{
    let mut columns: Vec<ColumnRef> = Vec::new();
    let np = select.projection.len();
    for i in 0..np
        invariant
            np == select.projection@.len(),
            select_wf(*select),
            columns@.len() == i,
            forall|k: int| 0 <= k < i ==> item_converts(select.projection@[k], #[trigger] columns@[k]),
    {
        assert(item_wf(select.projection@[i as int]));
        columns.push(convert_select_item(&select.projection[i]));
    }
    let mut table = String::new();
    let mut joins: Vec<JoinClause> = Vec::new();
    if select.from.len() > 0 {
        let from = &select.from[0];
        {
            table = extract_table_name(&from.relation);
            let nj = from.joins.len();
            for i in 0..nj
                invariant
                    nj == from.joins@.len(),
                    forall|k: int| 0 <= k < from.joins@.len() ==> join_wf(#[trigger] from.joins@[k]),
                    joins@.len() == i,
                    forall|k: int| 0 <= k < i ==> join_converts(from.joins@[k], #[trigger] joins@[k]),
            {
                assert(join_wf(from.joins@[i as int]));
                joins.push(convert_join(&from.joins[i]));
            }
        }
    }
    let where_clause = match &select.selection {
        Some(e) => Some(convert_expr(e)),
        None => None,
    };
    let group_by = match &select.group_by {
        SqlGroupBy::Expressions(exprs) => {
            if exprs.len() > 0 {
                let mut gb: Vec<ColumnRef> = Vec::new();
                let ne = exprs.len();
                for i in 0..ne
                    invariant
                        ne == exprs@.len(),
                        forall|k: int| 0 <= k < exprs@.len() ==> expr_wf(#[trigger] exprs@[k]),
                        columns_are(gb@, group_columns(exprs@.take(i as int))),
                {
                    let e = &exprs[i];
                    assert(exprs@.take(i + 1).drop_last() =~= exprs@.take(i as int));
                    assert(exprs@.take(i + 1).last() == *e);
                    assert(expr_wf(exprs@[i as int]));
                    if let Some(c) = expr_column(e) {
                        gb.push(c);
                    }
                }
                assert(exprs@.take(ne as int) =~= exprs@);
                Some(gb)
            } else {
                None
            }
        },
        SqlGroupBy::All => None,
    };
    SelectStatement { columns, table, joins, where_clause, group_by }
}

/// The column an identifier expression stands for, as `ident_column` says.
fn expr_column(e: &SqlExpr) -> (r: Option<ColumnRef>)
    requires
        expr_wf(*e),
    ensures
        match ident_column(*e) {
            Some(tc) => r matches Some(c) && column_is(c, tc.0, tc.1),
            None => r is None,
        },
    decreases e,
{
    match e {
        SqlExpr::Identifier(v) => Some(ColumnRef { table: None, name: v.clone() }),
        SqlExpr::CompoundIdentifier(idents) => {
            let n = idents.len();
            if n >= 2 {
                Some(ColumnRef { table: Some(idents[n - 2].clone()), name: idents[n - 1].clone() })
            } else {
                Some(ColumnRef { table: None, name: idents[0].clone() })
            }
        },
        SqlExpr::Nested(inner) => expr_column(inner),
        _ => None,
    }
}

fn convert_statement(stmt: &SqlStatement) -> (r: Statement)
    requires
        statement_wf(*stmt),
    ensures
        statement_converts(*stmt, r),
{
    match stmt {
        SqlStatement::Select(select) => Statement::Select(convert_select(select)),
        SqlStatement::Drop { is_table, names } => {
            if *is_table && names.len() > 0 {
                Statement::Drop(DropStatement { table: names[0].clone() })
            } else {
                Statement::Ignored
            }
        },
        SqlStatement::AlterTable { name } => Statement::Alter(AlterStatement { table: name.clone() }),
        SqlStatement::Grant { all_privileges } => Statement::Grant(GrantStatement { all_privileges: *all_privileges }),
        _ => Statement::Ignored,
    }
}

fn expr_is_wf(e: &SqlExpr) -> (r: bool)
    ensures
        r == expr_wf(*e),
    decreases e,
{
    match e {
        SqlExpr::CompoundIdentifier(ids) => ids.len() > 0,
        SqlExpr::BinaryOp { left, right, .. } => expr_is_wf(left) && expr_is_wf(right),
        SqlExpr::Nested(inner) => expr_is_wf(inner),
        _ => true,
    }
}

fn statement_is_wf(stmt: &SqlStatement) -> (r: bool)
    ensures
        r == statement_wf(*stmt),
{
    match stmt {
        SqlStatement::Select(s) => {
            for i in 0..s.projection.len()
                invariant
                    *stmt == SqlStatement::Select(*s),
                    forall|k: int| 0 <= k < i ==> item_wf(#[trigger] s.projection@[k]),
            {
                if let SqlSelectItem::Expr(e) = &s.projection[i] {
                    if !expr_is_wf(e) {
                        assert(!item_wf(s.projection@[i as int]));
                        return false;
                    }
                }
            }
            if s.from.len() > 0 {
                let f = &s.from[0];
                for i in 0..f.joins.len()
                    invariant
                        *stmt == SqlStatement::Select(*s),
                        s.from@.len() > 0,
                        *f == s.from@[0],
                        forall|k: int| 0 <= k < i ==> join_wf(#[trigger] f.joins@[k]),
                {
                    if let Some(e) = &f.joins[i].on {
                        if !expr_is_wf(e) {
                            assert(!join_wf(f.joins@[i as int]));
                            return false;
                        }
                    }
                }
            }
            if let Some(e) = &s.selection {
                if !expr_is_wf(e) {
                    return false;
                }
            }
            if let SqlGroupBy::Expressions(es) = &s.group_by {
                for i in 0..es.len()
                    invariant
                        *stmt == SqlStatement::Select(*s),
                        s.group_by == SqlGroupBy::Expressions(*es),
                        forall|k: int| 0 <= k < i ==> expr_wf(#[trigger] es@[k]),
                {
                    if !expr_is_wf(&es[i]) {
                        assert(!expr_wf(es@[i as int]));
                        assert(s.group_by->0@[i as int] == es@[i as int]);
                        assert(!select_wf(*s));
                        return false;
                    }
                }
            }
            true
        },
        _ => true,
    }
}

/// The dialect a name selects: `snowflake` and `generic` (in any case), and PostgreSQL
/// for any other name.
pub open spec fn dialect_named(name: Seq<char>) -> SqlDialect {
    let l = unicode_lower(name);
    if l == "snowflake"@ {
        SqlDialect::Snowflake
    } else if l == "generic"@ {
        SqlDialect::Generic
    } else {
        SqlDialect::PostgreSql
    }
}

fn dialect_for(name: &str) -> (r: SqlDialect)
    ensures
        r == dialect_named(name@),
{
    let l = to_lowercase(name);
    if str_eq(l.as_str(), "snowflake") {
        SqlDialect::Snowflake
    } else if str_eq(l.as_str(), "generic") {
        SqlDialect::Generic
    } else {
        SqlDialect::PostgreSql
    }
}

pub open spec fn owner_pattern() -> Seq<char> {
    "(?i)ALTER\\s+[a-z_]+\\s+[^;]*?OWNER\\s+TO\\s+[^;]*?;"@
}

pub open spec fn copy_pattern() -> Seq<char> {
    "(?i)COPY\\s+[\\s\\S]*?\\s+FROM\\s+stdin.*?;[\\s\\S]*?\\n\\\\\\."@
}

pub open spec fn unsupported_ddl_pattern() -> Seq<char> {
    "(?i)CREATE\\s+(?:SEQUENCE|AGGREGATE|TRIGGER|DOMAIN|TYPE)\\s+[^;]*?;"@
}

/// Blanks out the matches of a pattern: each match is replaced by the line feeds it holds
/// and the text between matches is kept, so that the kept text stays on its line.
pub open spec fn blank_step(pattern: Seq<char>, sql: Seq<char>) -> Seq<char> {
    if regex_compiles(pattern) {
        blank_spans(sql, regex_match_spans(pattern, sql))
    } else {
        sql
    }
}

/// The text `sqlparser` is given: ownership changes, `COPY ... FROM stdin` blocks and the
/// `CREATE` statements of sequences, aggregates, triggers, domains and types are blanked
/// out, in that order, each replaced by its line feeds so that line numbers stay.
pub open spec fn preprocess_spec(sql: Seq<char>) -> Seq<char> {
    blank_step(
        unsupported_ddl_pattern(),
        blank_step(copy_pattern(), blank_step(owner_pattern(), sql)),
    )
}

fn blank_out(pattern: &str, sql: String) -> (r: String)
    ensures
        r@ == blank_step(pattern@, sql@),
        newline_count(r@) == newline_count(sql@),
{
    match regex_blank_out(pattern, sql.as_str()) {
        Some(s) => {
            proof {
                lemma_blank_spans_keeps_lines(sql@, regex_match_spans(pattern@, sql@));
            }
            s
        },
        None => sql,
    }
}

/// Removes the statements that `sqlparser` cannot read, keeping line numbers: the result
/// holds as many line feeds as `sql`.
pub fn preprocess_sql(sql: &str) -> (r: String)
    ensures
        r@ == preprocess_spec(sql@),
        newline_count(r@) == newline_count(sql@),
{
    let s = sql.to_owned();
    let s = blank_out("(?i)ALTER\\s+[a-z_]+\\s+[^;]*?OWNER\\s+TO\\s+[^;]*?;", s);
    let s = blank_out("(?i)COPY\\s+[\\s\\S]*?\\s+FROM\\s+stdin.*?;[\\s\\S]*?\\n\\\\\\.", s);
    blank_out("(?i)CREATE\\s+(?:SEQUENCE|AGGREGATE|TRIGGER|DOMAIN|TYPE)\\s+[^;]*?;", s)
}

/// A number read from a piece of a parser message: the piece without the marker, trimmed
/// and read as a `usize`; 1 when that fails.
pub open spec fn position_number(piece: Seq<char>, marker: Seq<char>) -> usize {
    match parse_usize_spec(trim(replace_all(piece, marker, Seq::empty()))) {
        Some(v) => v,
        None => 1,
    }
}

/// The line and column a parser message reports as `... at Line: <l>, Column: <c> ...`,
/// each 1 when it cannot be read.
pub open spec fn message_position(msg: Seq<char>) -> (usize, usize) {
    match first_occurrence(msg, " at Line: "@) {
        Some(pos) => {
            let parts = split_on(msg.skip(pos), ',');
            if parts.len() >= 2 {
                (position_number(parts[0], " at Line: "@), position_number(parts[1], " Column: "@))
            } else {
                (1, 1)
            }
        },
        None => (1, 1),
    }
}

fn read_position_number(piece: &[char], marker: &str) -> (r: usize)
    requires
        marker@.len() > 0,
    ensures
        r == position_number(piece@, marker@),
{
    let m = to_chars(marker);
    let empty: Vec<char> = Vec::new();
    let replaced = replace_chars(piece, m.as_slice(), empty.as_slice());
    assert(empty@ =~= Seq::<char>::empty());
    let t = trim_chars(replaced.as_slice());
    match parse_usize(t.as_slice()) {
        Some(v) => v,
        None => 1,
    }
}

/// Reads the line and column out of a parser message.
pub fn error_position(msg: &str) -> (r: (usize, usize))
    ensures
        r == message_position(msg@),
{
    let cs = to_chars(msg);
    let marker = to_chars(" at Line: ");
    match find(cs.as_slice(), marker.as_slice()) {
        Some(pos) => {
            let mut tail: Vec<char> = Vec::new();
            let mut k = pos;
            while k < cs.len()
                invariant
                    pos <= k <= cs@.len(),
                    tail@ == cs@.subrange(pos as int, k as int),
                decreases cs@.len() - k,
            {
                tail.push(cs[k]);
                assert(cs@.subrange(pos as int, k + 1) =~= cs@.subrange(pos as int, k as int).push(cs@[k as int]));
                k = k + 1;
            }
            assert(tail@ =~= cs@.skip(pos as int));
            let parts = split_chars(tail.as_slice(), ',');
            if parts.len() >= 2 {
                proof {
                    reveal_strlit(" at Line: ");
                    reveal_strlit(" Column: ");
                }
                let line = read_position_number(parts[0].as_slice(), " at Line: ");
                let col = read_position_number(parts[1].as_slice(), " Column: ");
                (line, col)
            } else {
                (1, 1)
            }
        },
        None => (1, 1),
    }
}

/// Where a failure is reported: from the parser's message, or line 1, column 1.
pub open spec fn failure_position(f: SqlParseFailure) -> (usize, usize) {
    match f.parser_message {
        Some(m) => message_position(m@),
        None => (1, 1),
    }
}

/// What `sqlparser`'s result becomes: the first statement, converted; a parse error with
/// `sqlparser`'s message and position; or the error `Empty statement` at 1:1 when there is
/// no statement (and `Malformed syntax tree` at 1:1 for a tree the conversion cannot read).
pub open spec fn parsed_outcome(
    parsed: Result<Seq<SqlStatement>, SqlParseFailure>,
    r: Result<Statement, ParseError>,
) -> bool {
    match parsed {
        Err(f) => r matches Err(e) && e.message@ == f.message@ && (e.line, e.col) == failure_position(f),
        Ok(list) => if list.len() == 0 {
            r matches Err(e) && e.message@ == "Empty statement"@ && e.line == 1 && e.col == 1
        } else if statement_wf(list[0]) {
            r matches Ok(s) && statement_converts(list[0], s)
        } else {
            r matches Err(e) && e.message@ == "Malformed syntax tree"@ && e.line == 1 && e.col == 1
        },
    }
}

/// What `parse_sql` gives for `sql` in the named dialect: the outcome of what `sqlparser`
/// reads from the preprocessed text.
pub open spec fn parse_outcome(sql: Seq<char>, dialect_name: Seq<char>, r: Result<Statement, ParseError>) -> bool {
    parsed_outcome(sql_parse(dialect_named(dialect_name), preprocess_spec(sql)), r)
}

pub open spec fn parsed_view(parsed: Result<Vec<SqlStatement>, SqlParseFailure>) -> Result<
    Seq<SqlStatement>,
    SqlParseFailure,
> {
    match parsed {
        Ok(v) => Ok(v@),
        Err(f) => Err(f),
    }
}

/// Turns the statements `sqlparser` read (or its failure) into the linter's first statement
/// or a parse error.
pub fn statement_from_parse(parsed: Result<Vec<SqlStatement>, SqlParseFailure>) -> (r: Result<
    Statement,
    ParseError,
>)
    ensures
        parsed_outcome(parsed_view(parsed), r),
{
    match parsed {
        Ok(ast_list) => {
            if ast_list.len() == 0 {
                return Err(ParseError { message: "Empty statement".to_owned(), line: 1, col: 1 });
            }
            if !statement_is_wf(&ast_list[0]) {
                return Err(ParseError { message: "Malformed syntax tree".to_owned(), line: 1, col: 1 });
            }
            Ok(convert_statement(&ast_list[0]))
        },
        Err(e) => {
            let (line, col) = match &e.parser_message {
                Some(m) => error_position(m.as_str()),
                None => (1, 1),
            };
            Err(ParseError { message: e.message, line, col })
        },
    }
}

/// Parses the first statement of `sql` in the named dialect (`snowflake`, `generic`, or
/// PostgreSQL for any other name) into the linter's syntax tree.
pub fn parse_sql(sql: &str, dialect_name: &str) -> (r: Result<Statement, ParseError>)
    ensures
        parse_outcome(sql@, dialect_name@, r),
{
    let dialect = dialect_for(dialect_name);
    let preprocessed = preprocess_sql(sql);
    let parsed = parse_with_sqlparser(dialect, preprocessed.as_str());
    statement_from_parse(parsed)
}

} // verus!
