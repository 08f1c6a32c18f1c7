//! Dry-run rules: impossible filters and division by a literal zero.
use vstd::prelude::*;
use crate::parser::{Expression, SelectStatement, JoinClause};
use crate::exec::eval::{evaluate_expression, eval, fits_i64, folds_within_i64, EvalValue};
use crate::text::str_eq;

verus! {

/// The kind and text of a reported issue.
pub enum IssueView {
    Error(Seq<char>),
    Warning(Seq<char>),
}

/// A finding of the dry-run engine.
#[derive(Debug)]
pub enum ExecIssue {
    Error(String),
    Warning(String),
}

impl View for ExecIssue {
    type V = IssueView;

    open spec fn view(&self) -> IssueView {
        match self {
            ExecIssue::Error(m) => IssueView::Error(m@),
            ExecIssue::Warning(m) => IssueView::Warning(m@),
        }
    }
}

pub open spec fn issue_views(v: Seq<ExecIssue>) -> Seq<IssueView> {
    v.map_values(|i: ExecIssue| i@)
}

pub open spec fn impossible_filter_msg() -> Seq<char> {
    "Impossible Filter: WHERE clause statically evaluates to FALSE"@
}

pub open spec fn divide_by_zero_msg() -> Seq<char> {
    "Divide by Zero: Attempted to divide by literal 0"@
}

/// One `Divide by Zero` error for every division (in pre-order) whose right operand folds
/// to the number zero.
pub open spec fn div_zero_issues(e: Expression) -> Seq<IssueView>
    decreases e,
{
    match e {
        Expression::BinaryOp { left, operator, right } => {
            let here = if operator@ == "/"@ && eval(*right) == EvalValue::Number(0) {
                seq![IssueView::Error(divide_by_zero_msg())]
            } else {
                Seq::empty()
            };
            here + div_zero_issues(*left) + div_zero_issues(*right)
        },
        _ => Seq::empty(),
    }
}

/// Every divisor that the division check folds stays within `i64`.
pub open spec fn divisors_fit(e: Expression) -> bool
    decreases e,
{
    match e {
        Expression::BinaryOp { left, operator, right } => divisors_fit(*left) && divisors_fit(
            *right,
        ) && (operator@ == "/"@ ==> fits_i64(*right)),
        _ => true,
    }
}

pub open spec fn where_issues(w: Option<Expression>) -> Seq<IssueView> {
    match w {
        Some(e) => (if eval(e) == EvalValue::Boolean(false) {
            seq![IssueView::Warning(impossible_filter_msg())]
        } else {
            Seq::empty()
        }) + div_zero_issues(e),
        None => Seq::empty(),
    }
}

pub open spec fn joins_issues(js: Seq<JoinClause>) -> Seq<IssueView>
    decreases js.len(),
{
    if js.len() == 0 {
        Seq::empty()
    } else {
        joins_issues(js.drop_last()) + div_zero_issues(js.last().on)
    }
}

/// What the dry run reports for a `SELECT`: the `WHERE` clause first, then each join condition.
pub open spec fn execution_issues(ast: SelectStatement) -> Seq<IssueView> {
    where_issues(ast.where_clause) + joins_issues(ast.joins@)
}

/// The inputs on which the dry run folds only within `i64`.
pub open spec fn dry_run_fits(ast: SelectStatement) -> bool {
    &&& (ast.where_clause matches Some(e) ==> fits_i64(e))
    &&& forall|i: int| 0 <= i < ast.joins@.len() ==> divisors_fit(#[trigger] ast.joins@[i].on)
}

proof fn lemma_fits_divisors(e: Expression)
    requires
        fits_i64(e),
    ensures
        divisors_fit(e),
    decreases e,
{
    if let Expression::BinaryOp { left, operator, right } = e {
        lemma_fits_divisors(*left);
        lemma_fits_divisors(*right);
    }
}

/// Runs the dry-run rules on a `SELECT`.
pub fn check_execution_rules(ast: &SelectStatement) -> (issues: Vec<ExecIssue>)
    requires
        dry_run_fits(*ast),
    ensures
        issue_views(issues@) == execution_issues(*ast),
{
    let mut issues: Vec<ExecIssue> = Vec::new();
    if let Some(ref expr) = ast.where_clause {
        let val = evaluate_expression(expr);
        if let EvalValue::Boolean(false) = val {
            issues.push(
                ExecIssue::Warning(
                    "Impossible Filter: WHERE clause statically evaluates to FALSE".to_owned(),
                ),
            );
        }
        assert(issue_views(issues@) =~= (if eval(*expr) == EvalValue::Boolean(false) {
            seq![IssueView::Warning(impossible_filter_msg())]
        } else {
            Seq::empty()
        }));
        proof {
            lemma_fits_divisors(*expr);
        }
        check_expr_rules(expr, &mut issues);
    }
    assert(issue_views(issues@) =~= where_issues(ast.where_clause));
    let n = ast.joins.len();
    for i in 0..n
        invariant
            n == ast.joins@.len(),
            dry_run_fits(*ast),
            issue_views(issues@) == where_issues(ast.where_clause) + joins_issues(
                ast.joins@.take(i as int),
            ),
    {
        assert(divisors_fit(ast.joins@[i as int].on));
        check_expr_rules(&ast.joins[i].on, &mut issues);
        assert(ast.joins@.take(i + 1).drop_last() =~= ast.joins@.take(i as int));
    }
    assert(ast.joins@.take(n as int) =~= ast.joins@);
    issues
}

fn check_expr_rules(expr: &Expression, issues: &mut Vec<ExecIssue>)
    requires
        divisors_fit(*expr),
    ensures
        issue_views(final(issues)@) == issue_views(old(issues)@) + div_zero_issues(*expr),
    decreases expr,
{
    match expr {
        Expression::BinaryOp { left, operator, right } => {
            let ghost before = issues@;
            if str_eq(operator.as_str(), "/") {
                let r_val = evaluate_expression(right);
                if let EvalValue::Number(0) = r_val {
                    issues.push(
                        ExecIssue::Error("Divide by Zero: Attempted to divide by literal 0".to_owned()),
                    );
                }
            }
            let ghost here = if operator@ == "/"@ && eval(**right) == EvalValue::Number(0) {
                seq![IssueView::Error(divide_by_zero_msg())]
            } else {
                Seq::<IssueView>::empty()
            };
            assert(issue_views(issues@) =~= issue_views(before) + here);
            check_expr_rules(left, issues);
            check_expr_rules(right, issues);
            assert(issue_views(issues@) =~= issue_views(before) + div_zero_issues(*expr));
        },
        _ => {
            assert(issue_views(issues@) =~= issue_views(issues@) + Seq::<IssueView>::empty());
        },
    }
}

fn divisors_within_i64(expr: &Expression) -> (r: bool)
    ensures
        r == divisors_fit(*expr),
    decreases expr,
{
    match expr {
        Expression::BinaryOp { left, operator, right } => {
            divisors_within_i64(left) && divisors_within_i64(right) && (!str_eq(
                operator.as_str(),
                "/",
            ) || folds_within_i64(right))
        },
        _ => true,
    }
}

/// Whether the dry run of a `SELECT` folds within `i64` (so that `check_execution_rules`
/// may be called on it).
pub fn dry_run_within_i64(ast: &SelectStatement) -> (r: bool)
    ensures
        r == dry_run_fits(*ast),
{
    if let Some(e) = &ast.where_clause {
        if !folds_within_i64(e) {
            return false;
        }
    }
    let n = ast.joins.len();
    for i in 0..n
        invariant
            n == ast.joins@.len(),
            forall|k: int| 0 <= k < i ==> divisors_fit(#[trigger] ast.joins@[k].on),
    {
        if !divisors_within_i64(&ast.joins[i].on) {
            return false;
        }
    }
    true
}

} // verus!
