//! Cost rules: partitioned tables read without a partition filter, and cartesian joins.
use vstd::prelude::*;
use crate::parser::{Statement, Expression, JoinClause};
use crate::semantic::{SchemaRegistry, TableDefView, strings_view};
use crate::semantic::security::{active_tables, queried_tables};
use crate::exec::eval::{evaluate_expression, eval, fits_i64, folds_within_i64, EvalValue};
use crate::exec::rules::IssueView;
use crate::text::str_eq;

verus! {

/// A finding of the cost rules.
#[derive(Debug)]
pub enum CostIssue {
    Error(String),
    Warning(String),
}

impl View for CostIssue {
    type V = IssueView;

    open spec fn view(&self) -> IssueView {
        match self {
            CostIssue::Error(m) => IssueView::Error(m@),
            CostIssue::Warning(m) => IssueView::Warning(m@),
        }
    }
}

pub open spec fn cost_views(v: Seq<CostIssue>) -> Seq<IssueView> {
    v.map_values(|i: CostIssue| i@)
}

/// Whether an expression mentions a column of the given name (with any qualifier).
pub open spec fn mentions_column(e: Expression, col: Seq<char>) -> bool
    decreases e,
{
    match e {
        Expression::Column(c) => c.name@ == col,
        Expression::Number(_) => false,
        Expression::BinaryOp { left, right, .. } => mentions_column(*left, col) || mentions_column(
            *right,
            col,
        ),
    }
}

pub open spec fn partition_msg(table: Seq<char>, col: Seq<char>) -> Seq<char> {
    "MissingPartitionFilter: Table '"@ + table + "' is partitioned by '"@ + col
        + "', but no filter was provided."@
}

pub open spec fn cartesian_msg(table: Seq<char>) -> Seq<char> {
    "CartesianJoinWarning: JOIN ON condition for table '"@ + table
        + "' evaluates to a truthy constant, which may cause a cartesian product."@
}

/// An error for each table of `ts` that is partitioned and whose partition column the
/// `WHERE` clause does not mention.
pub open spec fn partition_issues(
    m: Map<Seq<char>, TableDefView>,
    w: Option<Expression>,
    ts: Seq<Seq<char>>,
) -> Seq<IssueView>
    decreases ts.len(),
{
    if ts.len() == 0 {
        Seq::empty()
    } else {
        let t = ts.last();
        partition_issues(m, w, ts.drop_last()) + if m.contains_key(t) && m[t].partition_column
            is Some {
            let p = m[t].partition_column->0;
            let filtered = match w {
                Some(e) => mentions_column(e, p),
                None => false,
            };
            if filtered {
                Seq::empty()
            } else {
                seq![IssueView::Error(partition_msg(t, p))]
            }
        } else {
            Seq::empty()
        }
    }
}

/// A constant that counts as true: a non-zero number or `true`.
pub open spec fn is_truthy(v: EvalValue) -> bool {
    match v {
        EvalValue::Number(n) => n != 0,
        EvalValue::Boolean(b) => b,
        EvalValue::Unknown => false,
    }
}

/// A warning for each join whose condition folds to a truthy constant.
pub open spec fn cartesian_issues(js: Seq<JoinClause>) -> Seq<IssueView>
    decreases js.len(),
{
    if js.len() == 0 {
        Seq::empty()
    } else {
        cartesian_issues(js.drop_last()) + if is_truthy(eval(js.last().on)) {
            seq![IssueView::Warning(cartesian_msg(js.last().table@))]
        } else {
            Seq::empty()
        }
    }
}

/// What the cost rules report: for a `SELECT`, missing partition filters (per queried
/// table, in order) followed by cartesian joins; nothing for other statements.
pub open spec fn cost_issues(stmt: Statement, m: Map<Seq<char>, TableDefView>) -> Seq<IssueView> {
    match stmt {
        Statement::Select(sel) => partition_issues(m, sel.where_clause, queried_tables(sel))
            + cartesian_issues(sel.joins@),
        _ => Seq::empty(),
    }
}

/// The join conditions of a `SELECT` fold within `i64`.
pub open spec fn joins_fit(stmt: Statement) -> bool {
    stmt matches Statement::Select(sel) ==> forall|i: int|
        0 <= i < sel.joins@.len() ==> fits_i64(#[trigger] sel.joins@[i].on)
}

/// Whether the join conditions fold within `i64` (so that `check_cost_rules` may be
/// called on the statement).
pub fn join_conditions_within_i64(stmt: &Statement) -> (r: bool)
    ensures
        r == joins_fit(*stmt),
{
    if let Statement::Select(sel) = stmt {
        let n = sel.joins.len();
        for i in 0..n
            invariant
                n == sel.joins@.len(),
                *stmt == Statement::Select(*sel),
                forall|k: int| 0 <= k < i ==> fits_i64(#[trigger] sel.joins@[k].on),
        {
            if !folds_within_i64(&sel.joins[i].on) {
                return false;
            }
        }
    }
    true
}

fn expr_contains_column(expr: &Expression, target_col: &str) -> (r: bool)
    ensures
        r == mentions_column(*expr, target_col@),
    decreases expr,
{
    match expr {
        Expression::Column(col_ref) => str_eq(col_ref.name.as_str(), target_col),
        Expression::Number(_) => false,
        Expression::BinaryOp { left, right, .. } => {
            expr_contains_column(left, target_col) || expr_contains_column(right, target_col)
        },
    }
}

fn concat5(a: &str, b: &str, c: &str, d: &str, e: &str) -> (r: String)
    ensures
        r@ == a@ + b@ + c@ + d@ + e@,
{
    let mut s = a.to_owned();
    s.append(b);
    s.append(c);
    s.append(d);
    s.append(e);
    s
}

/// Runs the cost rules on a statement.
pub fn check_cost_rules(stmt: &Statement, registry: &SchemaRegistry) -> (issues: Vec<CostIssue>)
    requires
        joins_fit(*stmt),
    ensures
        cost_views(issues@) == cost_issues(*stmt, registry@),
{
    let mut issues: Vec<CostIssue> = Vec::new();
    if let Statement::Select(select) = stmt {
        let all_queried_tables = active_tables(select);
        let n = all_queried_tables.len();
        for i in 0..n
            invariant
                n == all_queried_tables@.len(),
                strings_view(all_queried_tables@) == queried_tables(*select),
                cost_views(issues@) == partition_issues(
                    registry@,
                    select.where_clause,
                    strings_view(all_queried_tables@.take(i as int)),
                ),
        {
            let t = &all_queried_tables[i];
            let ghost before = cost_views(issues@);
            let ghost ts1 = strings_view(all_queried_tables@.take(i + 1));
            assert(ts1.drop_last() =~= strings_view(all_queried_tables@.take(i as int)));
            assert(ts1.last() == t@);
            match registry.get_table(t.as_str()) {
                Some(table_def) => {
                    match &table_def.partition_column {
                        Some(partition_col) => {
                            let has_filter = match &select.where_clause {
                                Some(expr) => expr_contains_column(expr, partition_col.as_str()),
                                None => false,
                            };
                            if !has_filter {
                                issues.push(
                                    CostIssue::Error(
                                        concat5(
                                            "MissingPartitionFilter: Table '",
                                            t.as_str(),
                                            "' is partitioned by '",
                                            partition_col.as_str(),
                                            "', but no filter was provided.",
                                        ),
                                    ),
                                );
                            }
                        },
                        None => {},
                    }
                },
                None => {},
            }
            assert(cost_views(issues@) =~= partition_issues(registry@, select.where_clause, ts1));
        }
        assert(all_queried_tables@.take(n as int) =~= all_queried_tables@);
        let ghost part = cost_views(issues@);
        let m = select.joins.len();
        for i in 0..m
            invariant
                m == select.joins@.len(),
                forall|k: int| 0 <= k < select.joins@.len() ==> fits_i64(#[trigger] select.joins@[k].on),
                cost_views(issues@) == part + cartesian_issues(select.joins@.take(i as int)),
        {
            let join = &select.joins[i];
            let ghost js1 = select.joins@.take(i + 1);
            assert(js1.drop_last() =~= select.joins@.take(i as int));
            assert(js1.last() == *join);
            let ghost before = cost_views(issues@);
            let ghost hit = if is_truthy(eval(join.on)) {
                seq![IssueView::Warning(cartesian_msg(join.table@))]
            } else {
                Seq::<IssueView>::empty()
            };
            assert(cartesian_issues(js1) == cartesian_issues(select.joins@.take(i as int)) + hit);
            assert(fits_i64(select.joins@[i as int].on));
            let val = evaluate_expression(&join.on);
            let is_constant_truthy = match val {
                EvalValue::Number(n) => n != 0,
                EvalValue::Boolean(b) => b,
                EvalValue::Unknown => false,
            };
            if is_constant_truthy {
                issues.push(
                    CostIssue::Warning(
                        concat3(
                            "CartesianJoinWarning: JOIN ON condition for table '",
                            join.table.as_str(),
                            "' evaluates to a truthy constant, which may cause a cartesian product.",
                        ),
                    ),
                );
            }
            assert(cost_views(issues@) =~= before + hit);
            assert(cost_views(issues@) =~= part + cartesian_issues(js1));
        }
        assert(select.joins@.take(m as int) =~= select.joins@);
    } else {
        assert(cost_views(issues@) =~= Seq::<IssueView>::empty());
    }
    issues
}

fn concat3(a: &str, b: &str, c: &str) -> (r: String)
    ensures
        r@ == a@ + b@ + c@,
{
    let mut s = a.to_owned();
    s.append(b);
    s.append(c);
    s
}

} // verus!
