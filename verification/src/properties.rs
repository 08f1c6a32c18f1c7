//! Properties of the linter as a whole, proved over the specifications that the
//! functions' contracts use.
use vstd::prelude::*;
use crate::semantic::{TableDefView, column_known, tables_having};
use crate::semantic::ddl::{DdlState, ddl_line, ddl_fold, ddl_load, add_column, column_word};
use crate::text::{trim, has_prefix, unicode_upper};
use crate::parser::sqltree::{SqlJoin, SqlJoinKind};
use crate::parser::join_converts;
use crate::style::fix::{fix_code_spec, upcase_step};
use crate::text::ascii_upper_char;
use crate::semantic::dbt::{DbtManifest, DbtNode, dbt_fold, dbt_load};
use crate::semantic::security::{
    security_issues, select_pii_issues, pii_hits, pii_msg, lookup_tables, queried_tables,
};
use crate::parser::{Statement, SelectStatement, ColumnRef, Expression, JoinClause};
use crate::exec::rules::{
    IssueView, execution_issues, where_issues, div_zero_issues, impossible_filter_msg,
    divide_by_zero_msg,
};
use crate::exec::eval::{EvalValue, eval};
use crate::parser::sqltree::SqlExpr;
use crate::parser::expr_converts;
use crate::semantic::columns::{VerdictView, verdict};
use crate::stream::{
    ScanState, ReaderView, split_first_statement, poll_spec, statement_end, lemma_statement_end_bounds,
    is_unsupported, push_spec, finish_spec, starts_copy,
};
use crate::text::{trim_start, trim_end, is_blank, is_ws};
use crate::style::{StyleRule, run_rules};
use crate::style::casing::{casing_step, casing_apply, casing_runs};
use crate::style::fix::fix_run;
use crate::style::lexical::{code_runs_spec, code_mask, join_runs, lemma_runs_join, lex_kinds, lemma_lex_kinds_len};
use crate::style::commas::commas_apply;
use crate::semantic::cost::{
    cost_issues, cartesian_issues, cartesian_msg, partition_issues, mentions_column, is_truthy,
};

verus! {

/// A table is among the tables found to have a column exactly when it is one of the
/// searched tables and the registry lists the column for it; the search never returns more
/// tables than it was given.
pub proof fn lemma_tables_having_members(
    m: Map<Seq<char>, TableDefView>,
    column: Seq<char>,
    ts: Seq<Seq<char>>,
)
    ensures
        tables_having(m, column, ts).len() <= ts.len(),
        forall|t: Seq<char>| #[trigger]
            tables_having(m, column, ts).contains(t) <==> (ts.contains(t) && column_known(
                m,
                t,
                column,
            )),
    decreases ts.len(),
{
    if ts.len() > 0 {
        let init = ts.drop_last();
        lemma_tables_having_members(m, column, init);
        let prev = tables_having(m, column, init);
        assert forall|t: Seq<char>| #[trigger]
            tables_having(m, column, ts).contains(t) <==> (ts.contains(t) && column_known(
                m,
                t,
                column,
            )) by {
            assert(ts =~= init.push(ts.last()));
            if ts.contains(t) && column_known(m, t, column) {
                if t == ts.last() {
                    assert(tables_having(m, column, ts) == prev.push(t));
                    assert(prev.push(t)[prev.len() as int] == t);
                } else {
                    let k = choose|k: int| 0 <= k < ts.len() && ts[k] == t;
                    assert(k < init.len());
                    assert(init[k] == t);
                    assert(prev.contains(t));
                    let j = choose|j: int| 0 <= j < prev.len() && prev[j] == t;
                    if column_known(m, ts.last(), column) {
                        assert(prev.push(ts.last())[j] == t);
                    }
                }
            }
            if tables_having(m, column, ts).contains(t) {
                let r = tables_having(m, column, ts);
                let j = choose|j: int| 0 <= j < r.len() && r[j] == t;
                if column_known(m, ts.last(), column) && j == prev.len() {
                    assert(t == ts.last());
                    assert(ts[ts.len() - 1] == t);
                } else {
                    assert(prev[j] == t);
                    assert(prev.contains(t));
                    let k = choose|k: int| 0 <= k < init.len() && init[k] == t;
                    assert(ts[k] == t);
                }
            }
        }
    }
}

/// After a table is registered, a column is known for it exactly when its definition lists
/// the column, and what is known of every other table is unchanged.
pub proof fn lemma_column_known_after_insert(
    m: Map<Seq<char>, TableDefView>,
    name: Seq<char>,
    def: TableDefView,
    table: Seq<char>,
    column: Seq<char>,
)
    ensures
        column_known(m.insert(name, def), name, column) == def.columns.contains(column),
        table != name ==> column_known(m.insert(name, def), table, column) == column_known(
            m,
            table,
            column,
        ),
{
}

proof fn lemma_ddl_fold_keeps_tables(st: DdlState, lines: Seq<Seq<char>>)
    ensures
        forall|t: Seq<char>| st.0.contains_key(t) ==> #[trigger] ddl_fold(st, lines).0.contains_key(t),
    decreases lines.len(),
{
    if lines.len() > 0 {
        lemma_ddl_fold_keeps_tables(st, lines.drop_last());
        let prev = ddl_fold(st, lines.drop_last());
        assert forall|t: Seq<char>| st.0.contains_key(t) implies #[trigger] ddl_fold(
            st,
            lines,
        ).0.contains_key(t) by {
            assert(prev.0.contains_key(t));
            assert(ddl_fold(st, lines) == ddl_line(prev, lines.last()));
        }
    }
}

/// A table definition lists its personal-data columns and its partition column among its
/// columns.
pub open spec fn table_consistent(d: TableDefView) -> bool {
    &&& forall|i: int| 0 <= i < d.pii_columns.len() ==> d.columns.contains(#[trigger] d.pii_columns[i])
    &&& d.partition_column matches Some(p) ==> d.columns.contains(p)
}

/// Every registered table is consistent.
pub open spec fn registry_consistent(m: Map<Seq<char>, TableDefView>) -> bool {
    forall|t: Seq<char>| #[trigger] m.contains_key(t) ==> table_consistent(m[t])
}

proof fn lemma_add_column_consistent(d: TableDefView, col: Seq<char>, line: Seq<char>)
    requires
        table_consistent(d),
    ensures
        table_consistent(add_column(d, col, line)),
{
    let d2 = add_column(d, col, line);
    assert(d2.columns[d.columns.len() as int] == col);
    assert forall|i: int| 0 <= i < d2.pii_columns.len() implies d2.columns.contains(#[trigger] d2.pii_columns[i]) by {
        if i < d.pii_columns.len() {
            assert(d2.pii_columns[i] == d.pii_columns[i]);
            let k = choose|k: int| 0 <= k < d.columns.len() && d.columns[k] == d.pii_columns[i];
            assert(d2.columns[k] == d.columns[k]);
        }
    }
    if let Some(p) = d2.partition_column {
        if p != col {
            let k = choose|k: int| 0 <= k < d.columns.len() && d.columns[k] == p;
            assert(d2.columns[k] == d.columns[k]);
        }
    }
}

proof fn lemma_ddl_fold_consistent(st: DdlState, lines: Seq<Seq<char>>)
    requires
        registry_consistent(st.0),
    ensures
        registry_consistent(ddl_fold(st, lines).0),
    decreases lines.len(),
{
    if lines.len() > 0 {
        lemma_ddl_fold_consistent(st, lines.drop_last());
        let prev = ddl_fold(st, lines.drop_last());
        let m = prev.0;
        assert(table_consistent(crate::semantic::empty_table()));
        if let Some(t) = prev.1 {
            if m.contains_key(t) {
                assert(table_consistent(m[t]));
                lemma_add_column_consistent(m[t], crate::semantic::ddl::column_word(crate::text::trim(lines.last())), crate::text::trim(lines.last()));
            }
        }
        assert(ddl_fold(st, lines) == ddl_line(prev, lines.last()));
    }
}

/// Loading DDL text keeps every table consistent: a column is marked as personal data or
/// as the partition column only as it is added to the table.
pub proof fn lemma_ddl_load_consistent(m: Map<Seq<char>, TableDefView>, ddl: Seq<char>)
    requires
        registry_consistent(m),
    ensures
        registry_consistent(ddl_load(m, ddl)),
{
    lemma_ddl_fold_consistent((m, None), crate::text::split_on(ddl, '\n'));
}

/// Loading DDL text never removes a table: every table registered before is still
/// registered after (a `CREATE TABLE` of a known name replaces its definition).
pub proof fn lemma_ddl_load_keeps_tables(m: Map<Seq<char>, TableDefView>, ddl: Seq<char>)
    ensures
        forall|t: Seq<char>| m.contains_key(t) ==> #[trigger] ddl_load(m, ddl).contains_key(t),
{
    lemma_ddl_fold_keeps_tables((m, None), crate::text::split_on(ddl, '\n'));
}

proof fn lemma_dbt_fold_keeps_tables(m: Map<Seq<char>, TableDefView>, nodes: Seq<(String, DbtNode)>)
    ensures
        forall|t: Seq<char>| m.contains_key(t) ==> #[trigger] dbt_fold(m, nodes).contains_key(t),
    decreases nodes.len(),
{
    if nodes.len() > 0 {
        lemma_dbt_fold_keeps_tables(m, nodes.drop_last());
        let prev = dbt_fold(m, nodes.drop_last());
        assert forall|t: Seq<char>| m.contains_key(t) implies #[trigger] dbt_fold(
            m,
            nodes,
        ).contains_key(t) by {
            assert(prev.contains_key(t));
        }
    }
}

/// Loading a dbt manifest never removes a table: every table registered before is still
/// registered after.
pub proof fn lemma_dbt_load_keeps_tables(m: Map<Seq<char>, TableDefView>, manifest: DbtManifest)
    ensures
        forall|t: Seq<char>| m.contains_key(t) ==> #[trigger] dbt_load(m, manifest).contains_key(t),
{
    lemma_dbt_fold_keeps_tables(m, manifest.nodes@);
    lemma_dbt_fold_keeps_tables(dbt_fold(m, manifest.nodes@), manifest.sources@);
}

proof fn lemma_pii_hits_empty(m: Map<Seq<char>, TableDefView>, column: Seq<char>, ts: Seq<Seq<char>>)
    requires
        forall|t: Seq<char>| #[trigger] m.contains_key(t) ==> m[t].pii_columns.len() == 0,
    ensures
        pii_hits(m, column, ts) == Seq::<IssueView>::empty(),
    decreases ts.len(),
{
    if ts.len() > 0 {
        lemma_pii_hits_empty(m, column, ts.drop_last());
        let t = ts.last();
        if m.contains_key(t) {
            assert(!m[t].pii_columns.contains(column));
        }
        assert(pii_hits(m, column, ts) =~= Seq::<IssueView>::empty());
    }
}

proof fn lemma_select_pii_empty(m: Map<Seq<char>, TableDefView>, sel: SelectStatement, cols: Seq<ColumnRef>)
    requires
        forall|t: Seq<char>| #[trigger] m.contains_key(t) ==> m[t].pii_columns.len() == 0,
    ensures
        select_pii_issues(m, sel, cols) == Seq::<IssueView>::empty(),
    decreases cols.len(),
{
    if cols.len() > 0 {
        lemma_select_pii_empty(m, sel, cols.drop_last());
        lemma_pii_hits_empty(m, cols.last().name@, lookup_tables(m, sel, cols.last()));
        assert(select_pii_issues(m, sel, cols) =~= Seq::<IssueView>::empty());
    }
}

/// When no registered table marks a column as personal data, the security rules report
/// nothing for any `SELECT`.
pub proof fn lemma_no_pii_no_select_issues(m: Map<Seq<char>, TableDefView>, sel: SelectStatement)
    requires
        forall|t: Seq<char>| #[trigger] m.contains_key(t) ==> m[t].pii_columns.len() == 0,
    ensures
        security_issues(Statement::Select(sel), m) == Seq::<IssueView>::empty(),
{
    lemma_select_pii_empty(m, sel, sel.columns@);
}

proof fn lemma_pii_hits_contains(
    m: Map<Seq<char>, TableDefView>,
    column: Seq<char>,
    ts: Seq<Seq<char>>,
    t: Seq<char>,
)
    requires
        ts.contains(t),
        m.contains_key(t),
        m[t].pii_columns.contains(column),
    ensures
        pii_hits(m, column, ts).contains(IssueView::Error(pii_msg(t, column))),
    decreases ts.len(),
{
    let hits = pii_hits(m, column, ts);
    let prev = pii_hits(m, column, ts.drop_last());
    if ts.last() == t {
        assert(hits == prev + seq![IssueView::Error(pii_msg(t, column))]);
        assert(hits[prev.len() as int] == IssueView::Error(pii_msg(t, column)));
    } else {
        let k = choose|k: int| 0 <= k < ts.len() && ts[k] == t;
        assert(ts.drop_last()[k] == t);
        lemma_pii_hits_contains(m, column, ts.drop_last(), t);
        let j = choose|j: int| 0 <= j < prev.len() && prev[j] == IssueView::Error(pii_msg(t, column));
        assert(hits[j] == prev[j]);
    }
}

proof fn lemma_select_pii_contains(
    m: Map<Seq<char>, TableDefView>,
    sel: SelectStatement,
    cols: Seq<ColumnRef>,
    i: int,
    issue: IssueView,
)
    requires
        0 <= i < cols.len(),
        pii_hits(m, cols[i].name@, lookup_tables(m, sel, cols[i])).contains(issue),
    ensures
        select_pii_issues(m, sel, cols).contains(issue),
    decreases cols.len(),
{
    let all = select_pii_issues(m, sel, cols);
    let prev = select_pii_issues(m, sel, cols.drop_last());
    let last = pii_hits(m, cols.last().name@, lookup_tables(m, sel, cols.last()));
    assert(all == prev + last);
    if i == cols.len() - 1 {
        let j = choose|j: int| 0 <= j < last.len() && last[j] == issue;
        assert(all[prev.len() + j] == issue);
    } else {
        assert(cols.drop_last()[i] == cols[i]);
        lemma_select_pii_contains(m, sel, cols.drop_last(), i, issue);
        let j = choose|j: int| 0 <= j < prev.len() && prev[j] == issue;
        assert(all[j] == issue);
    }
}

/// Selecting a column that a table of the query marks as personal data is reported as an
/// error naming that table and column: when the column is qualified by the table, and
/// when it is unqualified and the table lists it.
pub proof fn lemma_pii_column_flagged(
    m: Map<Seq<char>, TableDefView>,
    sel: SelectStatement,
    i: int,
    t: Seq<char>,
)
    requires
        0 <= i < sel.columns@.len(),
        m.contains_key(t),
        m[t].pii_columns.contains(sel.columns@[i].name@),
        match sel.columns@[i].table {
            Some(q) => q@ == t,
            None => queried_tables(sel).contains(t) && column_known(m, t, sel.columns@[i].name@),
        },
    ensures
        security_issues(Statement::Select(sel), m).contains(
            IssueView::Error(pii_msg(t, sel.columns@[i].name@)),
        ),
{
    let col = sel.columns@[i];
    let ts = lookup_tables(m, sel, col);
    match col.table {
        Some(q) => {
            assert(ts == seq![t]);
            assert(ts[0] == t);
        },
        None => {
            lemma_tables_having_members(m, col.name@, queried_tables(sel));
        },
    }
    lemma_pii_hits_contains(m, col.name@, ts, t);
    lemma_select_pii_contains(m, sel, sel.columns@, i, IssueView::Error(pii_msg(t, col.name@)));
}

/// Comparing a constant with itself by `=` folds to `true`.
pub proof fn lemma_self_equality_folds_true(e: Expression, op: String)
    requires
        eval(e) is Number,
        op@ == "="@,
    ensures
        eval(Expression::BinaryOp { left: Box::new(e), operator: op, right: Box::new(e) })
            == EvalValue::Boolean(true),
{
    assert(op@ != "+"@ && op@ != "-"@ && op@ != "*"@ && op@ != "/"@) by {
        reveal_strlit("=");
        reveal_strlit("+");
        reveal_strlit("-");
        reveal_strlit("*");
        reveal_strlit("/");
        assert(op@[0] == '=');
        assert("+"@[0] == '+' && "-"@[0] == '-' && "*"@[0] == '*' && "/"@[0] == '/');
    }
}

proof fn lemma_cartesian_contains(js: Seq<JoinClause>, i: int)
    requires
        0 <= i < js.len(),
        is_truthy(eval(js[i].on)),
    ensures
        cartesian_issues(js).contains(IssueView::Warning(cartesian_msg(js[i].table@))),
    decreases js.len(),
{
    let all = cartesian_issues(js);
    let prev = cartesian_issues(js.drop_last());
    let w = IssueView::Warning(cartesian_msg(js[i].table@));
    if i == js.len() - 1 {
        assert(all == prev + seq![w]);
        assert(all[prev.len() as int] == w);
    } else {
        assert(js.drop_last()[i] == js[i]);
        lemma_cartesian_contains(js.drop_last(), i);
        let j = choose|j: int| 0 <= j < prev.len() && prev[j] == w;
        assert(all[j] == w);
    }
}

/// A join whose `ON` condition folds to a truthy constant (such as `1 = 1`) is reported
/// as a possible cartesian product, naming the joined table.
pub proof fn lemma_truthy_join_flagged(m: Map<Seq<char>, TableDefView>, sel: SelectStatement, i: int)
    requires
        0 <= i < sel.joins@.len(),
        is_truthy(eval(sel.joins@[i].on)),
    ensures
        cost_issues(Statement::Select(sel), m).contains(
            IssueView::Warning(cartesian_msg(sel.joins@[i].table@)),
        ),
{
    let w = IssueView::Warning(cartesian_msg(sel.joins@[i].table@));
    lemma_cartesian_contains(sel.joins@, i);
    let p = partition_issues(m, sel.where_clause, queried_tables(sel));
    let c = cartesian_issues(sel.joins@);
    let j = choose|j: int| 0 <= j < c.len() && c[j] == w;
    assert((p + c)[p.len() + j] == w);
}

/// A partitioned table of `ts` whose partition column the filter does not mention.
pub open spec fn unfiltered_partition(
    m: Map<Seq<char>, TableDefView>,
    w: Option<Expression>,
    t: Seq<char>,
) -> bool {
    &&& m.contains_key(t)
    &&& m[t].partition_column is Some
    &&& !(w matches Some(e) && mentions_column(e, m[t].partition_column->0))
}

/// The partition rule is silent exactly when every partitioned table among `ts` is
/// filtered on its partition column.
pub proof fn lemma_partition_issues_empty_iff(
    m: Map<Seq<char>, TableDefView>,
    w: Option<Expression>,
    ts: Seq<Seq<char>>,
)
    ensures
        partition_issues(m, w, ts).len() == 0 <==> forall|k: int|
            0 <= k < ts.len() ==> !#[trigger] unfiltered_partition(m, w, ts[k]),
    decreases ts.len(),
{
    if ts.len() > 0 {
        let init = ts.drop_last();
        lemma_partition_issues_empty_iff(m, w, init);
        if forall|k: int| 0 <= k < ts.len() ==> !#[trigger] unfiltered_partition(m, w, ts[k]) {
            assert forall|k: int| 0 <= k < init.len() implies !#[trigger] unfiltered_partition(
                m,
                w,
                init[k],
            ) by {
                assert(init[k] == ts[k]);
            }
            assert(!unfiltered_partition(m, w, ts[ts.len() - 1]));
        } else {
            let k = choose|k: int| 0 <= k < ts.len() && #[trigger] unfiltered_partition(m, w, ts[k]);
            if k < init.len() {
                assert(init[k] == ts[k]);
            } else {
                assert(unfiltered_partition(m, w, ts.last()));
            }
        }
    }
}

/// `w2` mentions every column that `w1` mentions.
pub open spec fn filter_covers(w1: Option<Expression>, w2: Option<Expression>) -> bool {
    w1 is Some ==> forall|p: Seq<char>|
        #[trigger] mentions_column(w1->0, p) ==> (w2 is Some && mentions_column(w2->0, p))
}

proof fn lemma_partition_issues_shrink(
    m: Map<Seq<char>, TableDefView>,
    w1: Option<Expression>,
    w2: Option<Expression>,
    ts: Seq<Seq<char>>,
)
    requires
        filter_covers(w1, w2),
    ensures
        forall|x: IssueView|
            partition_issues(m, w2, ts).to_multiset().count(x) <= #[trigger] partition_issues(
                m,
                w1,
                ts,
            ).to_multiset().count(x),
        forall|i: int|
            0 <= i < partition_issues(m, w2, ts).len() ==> #[trigger] partition_issues(m, w2, ts)[i]
                is Error,
    decreases ts.len(),
{
    broadcast use vstd::seq_lib::group_to_multiset_ensures;
    if ts.len() > 0 {
        lemma_partition_issues_shrink(m, w1, w2, ts.drop_last());
        let t = ts.last();
        let p1 = partition_issues(m, w1, ts.drop_last());
        let p2 = partition_issues(m, w2, ts.drop_last());
        if m.contains_key(t) && m[t].partition_column is Some {
            let p = m[t].partition_column->0;
            let e = IssueView::Error(crate::semantic::cost::partition_msg(t, p));
            let f1 = match w1 {
                Some(x) => mentions_column(x, p),
                None => false,
            };
            let f2 = match w2 {
                Some(x) => mentions_column(x, p),
                None => false,
            };
            assert(f1 ==> f2);
            if f2 {
                assert(partition_issues(m, w2, ts) =~= p2);
                if !f1 {
                    assert(partition_issues(m, w1, ts) =~= p1.push(e));
                } else {
                    assert(partition_issues(m, w1, ts) =~= p1);
                }
            } else {
                assert(partition_issues(m, w2, ts) =~= p2.push(e));
                assert(partition_issues(m, w1, ts) =~= p1.push(e));
                assert forall|i: int| 0 <= i < p2.push(e).len() implies #[trigger] p2.push(e)[i] is Error by {
                    if i < p2.len() {
                        assert(p2.push(e)[i] == p2[i]);
                    }
                }
            }
        } else {
            assert(partition_issues(m, w2, ts) =~= p2);
            assert(partition_issues(m, w1, ts) =~= p1);
        }
    }
}

/// Adding a filter to a `SELECT` never adds a missing-partition error and leaves the
/// cartesian-join warnings as they were: the statement `s2` is `s1` with `f` as its `WHERE`
/// clause, or with its `WHERE` clause combined with `f` by an operator.
pub proof fn lemma_added_filter_adds_no_cost_error(
    m: Map<Seq<char>, TableDefView>,
    s1: SelectStatement,
    s2: SelectStatement,
    f: Expression,
    op: String,
)
    requires
        s2.table == s1.table,
        s2.joins == s1.joins,
        s2.where_clause == match s1.where_clause {
            None => Some(f),
            Some(w) => Some(Expression::BinaryOp { left: Box::new(w), operator: op, right: Box::new(f) }),
        },
    ensures
        cost_issues(Statement::Select(s2), m) == partition_issues(m, s2.where_clause, queried_tables(s1))
            + cartesian_issues(s1.joins@),
        cost_issues(Statement::Select(s1), m) == partition_issues(m, s1.where_clause, queried_tables(s1))
            + cartesian_issues(s1.joins@),
        forall|i: int|
            0 <= i < partition_issues(m, s2.where_clause, queried_tables(s1)).len() ==> #[trigger] partition_issues(
                m,
                s2.where_clause,
                queried_tables(s1),
            )[i] is Error,
        forall|x: IssueView|
            partition_issues(m, s2.where_clause, queried_tables(s1)).to_multiset().count(x)
                <= #[trigger] partition_issues(m, s1.where_clause, queried_tables(s1)).to_multiset().count(x),
{
    assert(queried_tables(s2) == queried_tables(s1));
    assert(filter_covers(s1.where_clause, s2.where_clause));
    lemma_partition_issues_shrink(m, s1.where_clause, s2.where_clause, queried_tables(s1));
}

/// A `WHERE` clause that compares two different constants by `=` is reported first, as an
/// impossible filter.
pub proof fn lemma_distinct_constants_impossible_filter(e: Expression)
    requires
        e matches Expression::BinaryOp { left, operator, right } && operator@ == "="@ && (eval(
            *left,
        ) matches EvalValue::Number(a) && (eval(*right) matches EvalValue::Number(b) && a != b)),
    ensures
        where_issues(Some(e)).len() > 0,
        where_issues(Some(e))[0] == IssueView::Warning(impossible_filter_msg()),
{
    if let Expression::BinaryOp { left, operator, right } = e {
        assert(operator@ != "+"@ && operator@ != "-"@ && operator@ != "*"@ && operator@ != "/"@) by {
            reveal_strlit("=");
            reveal_strlit("+");
            reveal_strlit("-");
            reveal_strlit("*");
            reveal_strlit("/");
            assert(operator@[0] == '=');
            assert("+"@[0] == '+' && "-"@[0] == '-' && "*"@[0] == '*' && "/"@[0] == '/');
        }
        assert(eval(e) == EvalValue::Boolean(false));
    }
}

/// A `WHERE` clause that divides by an operand folding to zero is reported as a division by
/// zero.
pub proof fn lemma_division_by_zero_reported(ast: SelectStatement)
    requires
        ast.where_clause matches Some(e) && (e matches Expression::BinaryOp { operator, right, .. }
            && operator@ == "/"@ && eval(*right) == EvalValue::Number(0)),
    ensures
        execution_issues(ast).contains(IssueView::Error(divide_by_zero_msg())),
{
    let e = ast.where_clause->0;
    let err = IssueView::Error(divide_by_zero_msg());
    let d = div_zero_issues(e);
    assert(d[0] == err);
    let f = if eval(e) == EvalValue::Boolean(false) {
        seq![IssueView::Warning(impossible_filter_msg())]
    } else {
        Seq::<IssueView>::empty()
    };
    assert(where_issues(Some(e)) == f + d);
    assert(execution_issues(ast)[f.len() as int] == err);
}

/// What each verdict on a selected column means: a column passes only when a table of the
/// query lists it (the qualifying table, or the single table that has it); an ambiguous
/// column is listed by at least two tables of the query, and an unfound one by none.
pub proof fn lemma_verdict_meaning(m: Map<Seq<char>, TableDefView>, sel: SelectStatement, col: ColumnRef)
    ensures
        match verdict(m, sel, col) {
            VerdictView::TableNotInQuery(t) => col.table matches Some(q) && q@ == t
                && !queried_tables(sel).contains(t),
            VerdictView::MissingColumn(t, c) => col.table matches Some(q) && q@ == t && c
                == col.name@ && queried_tables(sel).contains(t) && !column_known(m, t, c),
            VerdictView::QualifiedOk(t, c) => col.table matches Some(q) && q@ == t && c
                == col.name@ && queried_tables(sel).contains(t) && column_known(m, t, c),
            VerdictView::NotFound(c) => col.table is None && c == col.name@ && forall|u: Seq<char>|
                queried_tables(sel).contains(u) ==> !#[trigger] column_known(m, u, c),
            VerdictView::Ambiguous(c, ts) => col.table is None && c == col.name@ && ts.len() >= 2
                && forall|k: int|
                0 <= k < ts.len() ==> queried_tables(sel).contains(ts[k]) && #[trigger] column_known(
                    m,
                    ts[k],
                    c,
                ),
            VerdictView::Resolved(c, t) => col.table is None && c == col.name@ && queried_tables(
                sel,
            ).contains(t) && column_known(m, t, c) && forall|u: Seq<char>|
                queried_tables(sel).contains(u) && #[trigger] column_known(m, u, c) ==> u == t,
        },
{
    let active = queried_tables(sel);
    if col.table is None {
        let ms = tables_having(m, col.name@, active);
        lemma_tables_having_members(m, col.name@, active);
        assert forall|k: int| 0 <= k < ms.len() implies #[trigger] active.contains(ms[k])
            && column_known(m, ms[k], col.name@) by {
            assert(ms.contains(ms[k]));
        }
        if ms.len() == 1 {
            assert(ms.contains(ms[0]));
            assert forall|u: Seq<char>| active.contains(u) && #[trigger] column_known(
                m,
                u,
                col.name@,
            ) implies u == ms[0] by {
                assert(ms.contains(u));
            }
        } else if ms.len() == 0 {
            assert forall|u: Seq<char>| active.contains(u) implies !#[trigger] column_known(
                m,
                u,
                col.name@,
            ) by {
                if column_known(m, u, col.name@) {
                    assert(ms.contains(u));
                }
            }
        }
    }
}

/// The first statement split off a buffer is non-empty and ends with its `;`, and no text
/// is lost: the statement followed by the rest is the buffer, unless the rest was only
/// white space, which is dropped.
pub proof fn lemma_split_keeps_text(buf: Seq<char>)
    ensures
        split_first_statement(buf) matches Some((stmt, rest)) ==> {
            &&& stmt.len() > 0
            &&& stmt.last() == ';'
            &&& (buf == stmt + rest || (rest.len() == 0 && trim_start(buf.skip(stmt.len() as int)).len() == 0))
        },
{
    lemma_statement_end_bounds(buf, 0, ScanState::Normal);
    if let Some(e) = statement_end(buf, 0, ScanState::Normal) {
        assert(buf =~= buf.take(e) + buf.skip(e));
        assert(buf.take(e).last() == buf[e - 1]);
    }
}

/// What polling leaves pending is a suffix of the buffer: polling never adds text.
pub proof fn lemma_poll_leaves_suffix(buf: Seq<char>)
    ensures
        exists|k: int| 0 <= k <= buf.len() && #[trigger] buf.skip(k) == poll_spec(buf).1,
    decreases buf.len(),
{
    lemma_statement_end_bounds(buf, 0, ScanState::Normal);
    match statement_end(buf, 0, ScanState::Normal) {
        Some(e) => {
            let pair = split_first_statement(buf)->0;
            let rest = pair.1;
            let k0 = if rest.len() == 0 { buf.len() as int } else { e };
            assert(buf.skip(k0) =~= rest);
            if rest.len() < buf.len() && crate::stream::is_unsupported(buf.take(e)) {
                lemma_poll_leaves_suffix(rest);
                let k1 = choose|k: int| 0 <= k <= rest.len() && #[trigger] rest.skip(k) == poll_spec(rest).1;
                assert(buf.skip(k0 + k1) =~= rest.skip(k1));
            }
        },
        None => {
            assert(buf.skip(0) =~= buf);
        },
    }
}

proof fn lemma_casing_step_reports(
    st: (Seq<(bool, Seq<char>)>, Seq<Seq<char>>),
    kw: Seq<char>,
    up: Seq<char>,
)
    ensures
        casing_step(st, kw, up).1.len() == st.1.len() ==> casing_step(st, kw, up) == st,
        st.1.len() <= casing_step(st, kw, up).1.len() <= st.1.len() + 1,
        casing_step(st, kw, up).0.len() == st.0.len(),
        forall|i: int|
            0 <= i < st.0.len() && !st.0[i].0 ==> #[trigger] casing_step(st, kw, up).0[i] == st.0[i],
{
}

/// The keyword casing rule reports at least one fix whenever it changes the statement, and
/// at most one fix per keyword it handles; it never touches quoted text or comments: every
/// run of the statement that is not code is still there, unchanged, after the rule.
pub proof fn lemma_casing_reports_changes(sql: Seq<char>)
    ensures
        casing_apply(sql).1.len() == 0 ==> casing_apply(sql).0 == sql,
        casing_apply(sql).1.len() <= 8,
        casing_runs(sql).0.len() == code_runs_spec(sql).len(),
        forall|i: int|
            0 <= i < code_runs_spec(sql).len() && !code_runs_spec(sql)[i].0 ==> #[trigger] casing_runs(
                sql,
            ).0[i] == code_runs_spec(sql)[i],
{
    let s0 = (code_runs_spec(sql), Seq::<Seq<char>>::empty());
    let s1 = casing_step(s0, "select"@, "SELECT"@);
    let s2 = casing_step(s1, "from"@, "FROM"@);
    let s3 = casing_step(s2, "where"@, "WHERE"@);
    let s4 = casing_step(s3, "join"@, "JOIN"@);
    let s5 = casing_step(s4, "on"@, "ON"@);
    let s6 = casing_step(s5, "and"@, "AND"@);
    let s7 = casing_step(s6, "or"@, "OR"@);
    lemma_casing_step_reports(s0, "select"@, "SELECT"@);
    lemma_casing_step_reports(s1, "from"@, "FROM"@);
    lemma_casing_step_reports(s2, "where"@, "WHERE"@);
    lemma_casing_step_reports(s3, "join"@, "JOIN"@);
    lemma_casing_step_reports(s4, "on"@, "ON"@);
    lemma_casing_step_reports(s5, "and"@, "AND"@);
    lemma_casing_step_reports(s6, "or"@, "OR"@);
    lemma_casing_step_reports(s7, "group by"@, "GROUP BY"@);
    lemma_runs_join(sql, code_mask(sql));
}

/// The auto-fixer never touches quoted text or comments: its result is the runs of the
/// statement joined, each run of code fixed and every other run kept as it is.
pub proof fn lemma_fixer_keeps_quoted_text(sql: Seq<char>)
    ensures
        join_runs(code_runs_spec(sql)) == sql,
        forall|i: int|
            0 <= i < code_runs_spec(sql).len() && !code_runs_spec(sql)[i].0 ==> #[trigger] fix_run(
                code_runs_spec(sql)[i],
            ) == code_runs_spec(sql)[i],
{
    lemma_runs_join(sql, code_mask(sql));
}

/// The trailing comma rule reports its fix whenever it changes the statement, and reports
/// at most one fix.
pub proof fn lemma_commas_reports_changes(sql: Seq<char>)
    ensures
        commas_apply(sql).1.len() == 0 ==> commas_apply(sql).0 == sql,
        commas_apply(sql).1.len() <= 1,
{
}

/// When every rule of an engine reports a fix whenever it changes a statement, so does the
/// engine: a run without fixes leaves the statement as it was.
pub proof fn lemma_engine_reports_changes(rules: Seq<Box<dyn StyleRule>>, sql: Seq<char>)
    requires
        forall|i: int, s: Seq<char>|
            #![trigger rules[i].spec_apply(s)]
            0 <= i < rules.len() && rules[i].spec_apply(s).1.len() == 0 ==> rules[i].spec_apply(
                s,
            ).0 == s,
    ensures
        run_rules(rules, sql).1.len() == 0 ==> run_rules(rules, sql).0 == sql,
    decreases rules.len(),
{
    if rules.len() > 0 {
        let init = rules.drop_last();
        assert(init.len() == rules.len() - 1);
        assert forall|i: int, s: Seq<char>|
            #![trigger init[i].spec_apply(s)]
            0 <= i < init.len() && init[i].spec_apply(s).1.len() == 0 implies init[i].spec_apply(
                s,
            ).0 == s by {
            assert(init[i] == rules[i]);
            assert(rules[i].spec_apply(s).1.len() == 0);
        }
        lemma_engine_reports_changes(init, sql);
        let prev = run_rules(init, sql);
        let k = rules.len() - 1;
        let step = rules[k].spec_apply(prev.0);
        assert(run_rules(rules, sql) == (step.0, prev.1 + step.1));
        if (prev.1 + step.1).len() == 0 {
            assert(prev.1.len() == 0);
            assert(rules[k].spec_apply(prev.0).1.len() == 0);
        }
    }
}

/// `stmt` stands at index `k` of `buf`, and `rest` is the text after it (or nothing, when
/// only white space follows it).
pub open spec fn stands_at(buf: Seq<char>, stmt: Seq<char>, rest: Seq<char>, k: int) -> bool {
    &&& 0 <= k
    &&& k + stmt.len() <= buf.len()
    &&& buf.subrange(k, k + stmt.len()) == stmt
    &&& (rest == buf.skip(k + stmt.len()) || (rest.len() == 0 && trim_start(
        buf.skip(k + stmt.len()),
    ).len() == 0))
}

/// A polled statement is a piece of the pending text, and what stays pending is exactly the
/// text after it (or nothing, when only white space followed it).
pub proof fn lemma_poll_statement_in_buffer(buf: Seq<char>)
    ensures
        poll_spec(buf).0 is Some ==> exists|k: int| #[trigger] stands_at(
            buf,
            poll_spec(buf).0->0,
            poll_spec(buf).1,
            k,
        ),
    decreases buf.len(),
{
    lemma_statement_end_bounds(buf, 0, ScanState::Normal);
    match statement_end(buf, 0, ScanState::Normal) {
        Some(e) => {
            let pair = split_first_statement(buf)->0;
            let rest = pair.1;
            if rest.len() < buf.len() && crate::stream::is_unsupported(buf.take(e)) {
                lemma_poll_statement_in_buffer(rest);
                assert(poll_spec(buf) == poll_spec(rest));
                match poll_spec(rest).0 {
                    Some(stmt) => {
                        let k1 = choose|k: int| #[trigger] stands_at(rest, poll_spec(rest).0->0, poll_spec(rest).1, k);
                        assert(rest.len() > 0);
                        assert(rest =~= buf.skip(e));
                        assert(buf.subrange(e + k1, e + k1 + stmt.len()) =~= rest.subrange(
                            k1,
                            k1 + stmt.len(),
                        ));
                        assert(buf.skip(e + k1 + stmt.len()) =~= rest.skip(k1 + stmt.len()));
                        assert(stands_at(buf, stmt, poll_spec(buf).1, e + k1));
                    },
                    None => {},
                }
            } else {
                assert(buf.subrange(0, e) =~= buf.take(e));
                if rest.len() > 0 {
                    assert(rest =~= buf.skip(e));
                }
                assert(poll_spec(buf) == (Some(buf.take(e)), rest));
                assert(poll_spec(buf).0->0 == buf.take(e));
                assert(stands_at(buf, poll_spec(buf).0->0, poll_spec(buf).1, 0));
            }
        },
        None => {
            assert(split_first_statement(buf) is None);
            assert(poll_spec(buf).0 is None);
        },
    }
}

/// An expression the parser does not model (a function call, a unary operator, ...) never
/// folds to a constant, so it is never taken for a zero divisor.
pub proof fn lemma_unmodelled_expression_never_folds(e: SqlExpr, out: Expression)
    requires
        e is Other,
        expr_converts(e, out),
    ensures
        eval(out) == EvalValue::Unknown,
        div_zero_issues(out) == Seq::<IssueView>::empty(),
{
}

/// A binary operator folds to no constant when an operand folds to none, or when one
/// operand is a number and the other a truth value.
pub proof fn lemma_unknown_operand_folds_unknown(l: Expression, op: String, r: Expression)
    requires
        eval(l) is Unknown || eval(r) is Unknown || (eval(l) is Number && eval(r) is Boolean) || (
        eval(l) is Boolean && eval(r) is Number),
    ensures
        eval(Expression::BinaryOp { left: Box::new(l), operator: op, right: Box::new(r) })
            == EvalValue::Unknown,
{
}

/// The characters of `s` that are not white space, in order.
pub open spec fn ws_free(s: Seq<char>) -> Seq<char>
    decreases s.len(),
{
    if s.len() == 0 {
        Seq::empty()
    } else if is_ws(s.last()) {
        ws_free(s.drop_last())
    } else {
        ws_free(s.drop_last()).push(s.last())
    }
}

proof fn lemma_ws_free_concat(a: Seq<char>, b: Seq<char>)
    ensures
        ws_free(a + b) == ws_free(a) + ws_free(b),
    decreases b.len(),
{
    if b.len() == 0 {
        assert(a + b =~= a);
        assert(ws_free(a) + ws_free(b) =~= ws_free(a));
    } else {
        lemma_ws_free_concat(a, b.drop_last());
        assert((a + b).drop_last() =~= a + b.drop_last());
        assert((a + b).last() == b.last());
        if !is_ws(b.last()) {
            assert(ws_free(a) + ws_free(b.drop_last()).push(b.last()) =~= (ws_free(a) + ws_free(
                b.drop_last(),
            )).push(b.last()));
        }
    }
}

proof fn lemma_trim_start_ws_free(s: Seq<char>)
    ensures
        ws_free(trim_start(s)) == ws_free(s),
    decreases s.len(),
{
    if s.len() > 0 && is_ws(s[0]) {
        lemma_trim_start_ws_free(s.drop_first());
        assert(s =~= seq![s[0]] + s.drop_first());
        lemma_ws_free_concat(seq![s[0]], s.drop_first());
        assert(seq![s[0]].drop_last() =~= Seq::<char>::empty());
        assert(seq![s[0]].last() == s[0]);
        assert(ws_free(Seq::<char>::empty()) == Seq::<char>::empty());
        assert(ws_free(seq![s[0]]) == ws_free(seq![s[0]].drop_last()));
        assert(ws_free(seq![s[0]]) =~= Seq::<char>::empty());
        assert(Seq::<char>::empty() + ws_free(s.drop_first()) =~= ws_free(s.drop_first()));
    }
}

proof fn lemma_trim_end_ws_free(s: Seq<char>)
    ensures
        ws_free(trim_end(s)) == ws_free(s),
    decreases s.len(),
{
    if s.len() > 0 && is_ws(s.last()) {
        lemma_trim_end_ws_free(s.drop_last());
    }
}

/// Blank text holds no character but white space.
proof fn lemma_blank_ws_free(s: Seq<char>)
    requires
        is_blank(s),
    ensures
        ws_free(s) == Seq::<char>::empty(),
{
    lemma_trim_start_ws_free(s);
    lemma_trim_end_ws_free(trim_start(s));
    assert(trim_end(trim_start(s)) =~= Seq::<char>::empty());
}

/// The text of a sequence of pieces, in order; a piece is marked `true` when the reader
/// returns it and `false` when it drops it.
pub open spec fn texts(ps: Seq<(bool, Seq<char>)>) -> Seq<char>
    decreases ps.len(),
{
    if ps.len() == 0 {
        Seq::empty()
    } else {
        texts(ps.drop_last()) + ps.last().1
    }
}

/// The pieces the reader returns, in order.
pub open spec fn returned(ps: Seq<(bool, Seq<char>)>) -> Seq<Seq<char>>
    decreases ps.len(),
{
    if ps.len() == 0 {
        Seq::empty()
    } else if ps.last().0 {
        returned(ps.drop_last()).push(ps.last().1)
    } else {
        returned(ps.drop_last())
    }
}

proof fn lemma_texts_single(p: (bool, Seq<char>))
    ensures
        texts(seq![p]) == p.1,
        returned(seq![p]) == if p.0 { seq![p.1] } else { Seq::<Seq<char>>::empty() },
{
    let one = seq![p];
    let none = Seq::<(bool, Seq<char>)>::empty();
    assert(one.drop_last() =~= none);
    assert(one.last() == p);
    assert(texts(none) == Seq::<char>::empty());
    assert(returned(none) == Seq::<Seq<char>>::empty());
    assert(texts(one) == texts(none) + p.1);
    assert(Seq::<char>::empty() + p.1 =~= p.1);
    assert(Seq::<Seq<char>>::empty().push(p.1) =~= seq![p.1]);
}

proof fn lemma_texts_concat(a: Seq<(bool, Seq<char>)>, b: Seq<(bool, Seq<char>)>)
    ensures
        texts(a + b) == texts(a) + texts(b),
        returned(a + b) == returned(a) + returned(b),
    decreases b.len(),
{
    if b.len() == 0 {
        assert(a + b =~= a);
        assert(texts(a) + texts(b) =~= texts(a));
        assert(returned(a) + returned(b) =~= returned(a));
    } else {
        lemma_texts_concat(a, b.drop_last());
        assert((a + b).drop_last() =~= a + b.drop_last());
        assert((a + b).last() == b.last());
        assert(texts(a) + (texts(b.drop_last()) + b.last().1) =~= (texts(a) + texts(b.drop_last())) + b.last().1);
        if b.last().0 {
            assert(returned(a) + returned(b.drop_last()).push(b.last().1) =~= (returned(a) + returned(
                b.drop_last(),
            )).push(b.last().1));
        }
    }
}

/// The pieces one poll takes out of the buffer: the unsupported statements it drops, then
/// the statement it returns.
pub open spec fn poll_pieces(buf: Seq<char>) -> Seq<(bool, Seq<char>)>
    decreases buf.len(),
{
    match split_first_statement(buf) {
        Some((stmt, rest)) => if rest.len() < buf.len() && is_unsupported(stmt) {
            seq![(false, stmt)] + poll_pieces(rest)
        } else {
            seq![(true, stmt)]
        },
        None => Seq::empty(),
    }
}

/// Splitting off the first statement keeps every character but white space.
proof fn lemma_split_ws_free(buf: Seq<char>)
    ensures
        split_first_statement(buf) matches Some((stmt, rest)) ==> ws_free(buf) == ws_free(stmt)
            + ws_free(rest),
{
    lemma_split_keeps_text(buf);
    lemma_statement_end_bounds(buf, 0, ScanState::Normal);
    if let Some((stmt, rest)) = split_first_statement(buf) {
        let tail = buf.skip(stmt.len() as int);
        assert(buf =~= stmt + tail);
        lemma_ws_free_concat(stmt, tail);
        if buf != stmt + rest {
            lemma_trim_start_ws_free(tail);
            assert(trim_start(tail) =~= Seq::<char>::empty());
            assert(ws_free(rest) =~= Seq::<char>::empty());
        } else {
            assert(tail =~= rest);
        }
    }
}

/// A poll keeps every character but white space: the pieces it takes out, followed by what
/// stays pending, hold the text of the buffer; the piece it returns is its statement; every
/// piece is a statement ending with its `;`.
pub proof fn lemma_poll_keeps_text(buf: Seq<char>)
    ensures
        ws_free(buf) == ws_free(texts(poll_pieces(buf)) + poll_spec(buf).1),
        returned(poll_pieces(buf)) == match poll_spec(buf).0 {
            Some(s) => seq![s],
            None => Seq::<Seq<char>>::empty(),
        },
        forall|i: int| 0 <= i < poll_pieces(buf).len() ==> (#[trigger] poll_pieces(buf)[i]).1.len() > 0
            && poll_pieces(buf)[i].1.last() == ';',
    decreases buf.len(),
{
    lemma_split_ws_free(buf);
    lemma_split_keeps_text(buf);
    match split_first_statement(buf) {
        Some((stmt, rest)) => {
            lemma_texts_single((true, stmt));
            if rest.len() < buf.len() && is_unsupported(stmt) {
                lemma_poll_keeps_text(rest);
                let first = seq![(false, stmt)];
                lemma_texts_single((false, stmt));
                lemma_texts_concat(first, poll_pieces(rest));
                lemma_ws_free_concat(texts(first), texts(poll_pieces(rest)));
                lemma_ws_free_concat(texts(first) + texts(poll_pieces(rest)), poll_spec(rest).1);
                lemma_ws_free_concat(texts(poll_pieces(rest)), poll_spec(rest).1);
                assert(ws_free(stmt) + ws_free(texts(poll_pieces(rest))) + ws_free(poll_spec(rest).1)
                    =~= ws_free(stmt) + (ws_free(texts(poll_pieces(rest))) + ws_free(poll_spec(rest).1)));
                assert(Seq::<Seq<char>>::empty() + returned(poll_pieces(rest)) =~= returned(poll_pieces(rest)));
                let ps = poll_pieces(buf);
                assert forall|i: int| 0 <= i < ps.len() implies (#[trigger] ps[i]).1.len() > 0 && ps[i].1.last() == ';' by {
                    if i > 0 {
                        assert(ps[i] == poll_pieces(rest)[i - 1]);
                    }
                }
            } else {
                lemma_ws_free_concat(stmt, rest);
            }
        },
        None => {
            assert(texts(Seq::<(bool, Seq<char>)>::empty()) + buf =~= buf);
        },
    }
}

/// A poll that returns a statement leaves less pending text than it found.
pub proof fn lemma_poll_shrinks(buf: Seq<char>)
    ensures
        poll_spec(buf).0 is Some ==> poll_spec(buf).1.len() < buf.len(),
    decreases buf.len(),
{
    lemma_statement_end_bounds(buf, 0, ScanState::Normal);
    if let Some(e) = statement_end(buf, 0, ScanState::Normal) {
        let pair = split_first_statement(buf)->0;
        let rest = pair.1;
        assert(rest.len() <= buf.len() - e);
        if rest.len() < buf.len() && is_unsupported(buf.take(e)) {
            lemma_poll_shrinks(rest);
        }
    }
}

/// The pieces that polling until nothing is returned takes out of the buffer, and what stays
/// pending then.
pub open spec fn drain(buf: Seq<char>) -> (Seq<(bool, Seq<char>)>, Seq<char>)
    decreases buf.len(),
{
    let rest = poll_spec(buf).1;
    if poll_spec(buf).0 is Some && rest.len() < buf.len() {
        let d = drain(rest);
        (poll_pieces(buf) + d.0, d.1)
    } else {
        (poll_pieces(buf), rest)
    }
}

proof fn lemma_drain_keeps_text(buf: Seq<char>)
    ensures
        ws_free(buf) == ws_free(texts(drain(buf).0)) + ws_free(drain(buf).1),
    decreases buf.len(),
{
    lemma_poll_keeps_text(buf);
    let rest = poll_spec(buf).1;
    lemma_ws_free_concat(texts(poll_pieces(buf)), rest);
    if poll_spec(buf).0 is Some && rest.len() < buf.len() {
        lemma_drain_keeps_text(rest);
        let d = drain(rest);
        lemma_texts_concat(poll_pieces(buf), d.0);
        lemma_ws_free_concat(texts(poll_pieces(buf)), texts(d.0));
        assert(ws_free(texts(poll_pieces(buf))) + ws_free(texts(d.0)) + ws_free(d.1) =~= ws_free(
            texts(poll_pieces(buf)),
        ) + (ws_free(texts(d.0)) + ws_free(d.1)));
    }
}

/// What reading the given lines does, statement by statement, as the reader is driven: before
/// each line is read, statements are polled until none is left; at the end of the input the
/// pending text is finished. The pieces taken out, in order, and the text of the lines that
/// were not dropped as `COPY` data.
pub open spec fn read_lines(st: ReaderView, lines: Seq<Seq<char>>) -> (Seq<(bool, Seq<char>)>, Seq<char>)
    decreases lines.len(),
{
    let d = drain(st.buffer);
    let st1 = ReaderView { buffer: d.1, skip_data: st.skip_data };
    if lines.len() == 0 {
        let f = finish_spec(st1.buffer);
        let last = if is_blank(st1.buffer) {
            Seq::<(bool, Seq<char>)>::empty()
        } else {
            seq![(f.0 is Some, st1.buffer)]
        };
        (d.0 + last, Seq::empty())
    } else {
        let step = push_spec(st1, lines[0]);
        let out = match step.0 {
            Some(t) => seq![(true, t)],
            None => Seq::<(bool, Seq<char>)>::empty(),
        };
        let kept = if st1.skip_data { Seq::<char>::empty() } else { lines[0] };
        let next = read_lines(step.1, lines.drop_first());
        (d.0 + out + next.0, kept + next.1)
    }
}

/// The text of a sequence of lines.
pub open spec fn joined(lines: Seq<Seq<char>>) -> Seq<char>
    decreases lines.len(),
{
    if lines.len() == 0 {
        Seq::empty()
    } else {
        lines[0] + joined(lines.drop_first())
    }
}

/// Reading lines loses nothing but white space: the pieces taken out (the statements
/// returned and the unsupported ones dropped, in order) hold, but for white space, the
/// pending text followed by every line that was not `COPY` data. When no line starts a
/// `COPY` statement, that is every line.
pub proof fn lemma_read_lines_keeps_text(st: ReaderView, lines: Seq<Seq<char>>)
    ensures
        ws_free(texts(read_lines(st, lines).0)) == ws_free(st.buffer + read_lines(st, lines).1),
        (!st.skip_data && forall|i: int| 0 <= i < lines.len() ==> !#[trigger] starts_copy(lines[i]))
            ==> read_lines(st, lines).1 == joined(lines),
    decreases lines.len(),
{
    lemma_drain_keeps_text(st.buffer);
    let d = drain(st.buffer);
    let st1 = ReaderView { buffer: d.1, skip_data: st.skip_data };
    let r = read_lines(st, lines);
    if lines.len() == 0 {
        let last = if is_blank(d.1) {
            Seq::<(bool, Seq<char>)>::empty()
        } else {
            seq![(finish_spec(d.1).0 is Some, d.1)]
        };
        lemma_texts_concat(d.0, last);
        lemma_ws_free_concat(texts(d.0), texts(last));
        if is_blank(d.1) {
            lemma_blank_ws_free(d.1);
            assert(texts(last) =~= Seq::<char>::empty());
        } else {
            lemma_texts_single((finish_spec(d.1).0 is Some, d.1));
        }
        assert(st.buffer + Seq::<char>::empty() =~= st.buffer);
    } else {
        let line = lines[0];
        let step = push_spec(st1, line);
        let out = match step.0 {
            Some(t) => seq![(true, t)],
            None => Seq::<(bool, Seq<char>)>::empty(),
        };
        let kept = if st1.skip_data { Seq::<char>::empty() } else { line };
        lemma_read_lines_keeps_text(step.1, lines.drop_first());
        let next = read_lines(step.1, lines.drop_first());
        lemma_texts_concat(d.0, out);
        lemma_texts_concat(d.0 + out, next.0);
        lemma_ws_free_concat(texts(d.0) + texts(out), texts(next.0));
        lemma_ws_free_concat(texts(d.0), texts(out));
        lemma_ws_free_concat(step.1.buffer, next.1);
        lemma_ws_free_concat(st.buffer, kept + next.1);
        lemma_ws_free_concat(kept, next.1);
        if st1.skip_data {
            assert(texts(out) =~= Seq::<char>::empty());
            assert(step.1.buffer == d.1);
        } else if starts_copy(line) {
            lemma_texts_single((true, d.1 + line));
            lemma_ws_free_concat(d.1, line);
            assert(step.1.buffer =~= Seq::<char>::empty());
        } else {
            assert(texts(out) =~= Seq::<char>::empty());
            assert(step.1.buffer == d.1 + line);
            lemma_ws_free_concat(d.1, line);
        }
        assert(r.0 == d.0 + out + next.0);
        assert(r.1 == kept + next.1);
        if !st.skip_data && forall|i: int| 0 <= i < lines.len() ==> !#[trigger] starts_copy(lines[i]) {
            assert(!starts_copy(lines[0]));
            assert(!step.1.skip_data);
            assert forall|i: int| 0 <= i < lines.drop_first().len() implies !#[trigger] starts_copy(
                lines.drop_first()[i],
            ) by {
                assert(lines.drop_first()[i] == lines[i + 1]);
            }
        }
    }
}

/// Text that holds only white space has no statement end.
proof fn lemma_ws_has_no_statement_end(s: Seq<char>, i: int)
    requires
        forall|k: int| 0 <= k < s.len() ==> is_ws(#[trigger] s[k]),
    ensures
        statement_end(s, i, ScanState::Normal) is None,
    decreases s.len() - i,
{
    if 0 <= i < s.len() {
        let c = s[i];
        assert(is_ws(c));
        assert(c != '-' && c != '/' && c != '\'' && c != '"' && c != ';');
        lemma_ws_has_no_statement_end(s, i + 1);
    }
}

proof fn lemma_ws_free_empty_all_ws(s: Seq<char>)
    requires
        ws_free(s).len() == 0,
    ensures
        forall|k: int| 0 <= k < s.len() ==> is_ws(#[trigger] s[k]),
    decreases s.len(),
{
    if s.len() > 0 {
        if !is_ws(s.last()) {
            assert(ws_free(s).len() == ws_free(s.drop_last()).len() + 1);
        }
        lemma_ws_free_empty_all_ws(s.drop_last());
        assert forall|k: int| 0 <= k < s.len() implies is_ws(#[trigger] s[k]) by {
            if k < s.len() - 1 {
                assert(s[k] == s.drop_last()[k]);
            }
        }
    }
}

/// Once the end of the input has been finished, the reader stays empty: the pending text is
/// blank, a poll returns nothing and leaves it, and finishing again returns nothing.
pub proof fn lemma_finished_reader_stays_empty(buf: Seq<char>)
    ensures
        is_blank(finish_spec(buf).1),
        poll_spec(finish_spec(buf).1) == (None::<Seq<char>>, finish_spec(buf).1),
        finish_spec(finish_spec(buf).1) == (None::<Seq<char>>, finish_spec(buf).1),
{
    let after = finish_spec(buf).1;
    if !is_blank(buf) {
        assert(after =~= Seq::<char>::empty());
        assert(trim_start(after) =~= Seq::<char>::empty());
        assert(trim_end(Seq::<char>::empty()) =~= Seq::<char>::empty());
    }
    assert(is_blank(after));
    lemma_blank_ws_free(after);
    lemma_ws_free_empty_all_ws(after);
    lemma_ws_has_no_statement_end(after, 0);
}

/// The binary expression `l op r`.
pub open spec fn binary(l: Expression, op: String, r: Expression) -> Expression {
    Expression::BinaryOp { left: Box::new(l), operator: op, right: Box::new(r) }
}

proof fn lemma_operator_literals_distinct()
    ensures
        "="@ != "!="@ && "="@ != ">"@ && "="@ != "<"@ && "="@ != ">="@ && "="@ != "<="@,
        "!="@ != ">"@ && "!="@ != "<"@ && "!="@ != ">="@ && "!="@ != "<="@,
        ">"@ != "<"@ && ">"@ != ">="@ && ">"@ != "<="@ && "<"@ != ">="@ && "<"@ != "<="@,
        ">="@ != "<="@,
        "+"@ != "-"@ && "+"@ != "*"@ && "+"@ != "/"@ && "-"@ != "*"@ && "-"@ != "/"@ && "*"@ != "/"@,
        "="@ != "+"@ && "="@ != "-"@ && "="@ != "*"@ && "="@ != "/"@,
        "!="@ != "+"@ && "!="@ != "-"@ && "!="@ != "*"@ && "!="@ != "/"@,
        ">"@ != "+"@ && ">"@ != "-"@ && ">"@ != "*"@ && ">"@ != "/"@,
        "<"@ != "+"@ && "<"@ != "-"@ && "<"@ != "*"@ && "<"@ != "/"@,
        ">="@ != "+"@ && ">="@ != "-"@ && ">="@ != "*"@ && ">="@ != "/"@,
        "<="@ != "+"@ && "<="@ != "-"@ && "<="@ != "*"@ && "<="@ != "/"@,
{
    reveal_strlit("=");
    reveal_strlit("!=");
    reveal_strlit(">");
    reveal_strlit("<");
    reveal_strlit(">=");
    reveal_strlit("<=");
    reveal_strlit("+");
    reveal_strlit("-");
    reveal_strlit("*");
    reveal_strlit("/");
    assert("="@[0] == '=' && "!="@[0] == '!' && ">"@[0] == '>' && "<"@[0] == '<');
    assert(">="@[0] == '>' && "<="@[0] == '<' && ">="@[1] == '=' && "<="@[1] == '=');
    assert("+"@[0] == '+' && "-"@[0] == '-' && "*"@[0] == '*' && "/"@[0] == '/');
    assert("="@.len() == 1 && ">"@.len() == 1 && "<"@.len() == 1 && "!="@.len() == 2);
    assert(">="@.len() == 2 && "<="@.len() == 2 && "+"@.len() == 1 && "-"@.len() == 1);
    assert("*"@.len() == 1 && "/"@.len() == 1);
}

/// Folding compares numbers as numbers: when both operands fold to the integers `x` and
/// `y`, each comparison operator folds to the truth of that comparison of `x` and `y`, and
/// `+`, `-`, `*` fold to the exact sum, difference and product when it fits an `i64`.
/// So `1 > 2` folds to false, and `a > b` folds as `b < a` does.
pub proof fn lemma_comparisons_fold_to_their_truth(l: Expression, r: Expression, op: String, x: i64, y: i64)
    requires
        eval(l) == EvalValue::Number(x),
        eval(r) == EvalValue::Number(y),
    ensures
        op@ == "="@ ==> eval(binary(l, op, r)) == EvalValue::Boolean(x == y),
        op@ == "!="@ ==> eval(binary(l, op, r)) == EvalValue::Boolean(x != y),
        op@ == ">"@ ==> eval(binary(l, op, r)) == EvalValue::Boolean(x > y),
        op@ == "<"@ ==> eval(binary(l, op, r)) == EvalValue::Boolean(x < y),
        op@ == ">="@ ==> eval(binary(l, op, r)) == EvalValue::Boolean(x >= y),
        op@ == "<="@ ==> eval(binary(l, op, r)) == EvalValue::Boolean(x <= y),
        op@ == "+"@ && i64::MIN <= x + y <= i64::MAX ==> eval(binary(l, op, r)) == EvalValue::Number(
            (x + y) as i64,
        ),
        op@ == "-"@ && i64::MIN <= x - y <= i64::MAX ==> eval(binary(l, op, r)) == EvalValue::Number(
            (x - y) as i64,
        ),
        op@ == "*"@ && i64::MIN <= x * y <= i64::MAX ==> eval(binary(l, op, r)) == EvalValue::Number(
            (x * y) as i64,
        ),
        op@ == "/"@ && y == 0 ==> eval(binary(l, op, r)) == EvalValue::Unknown,
{
    lemma_operator_literals_distinct();
}

/// Swapping the operands of `>` gives `<` (and of `>=`, `<=`): on numbers the two fold alike.
pub proof fn lemma_greater_is_swapped_less(l: Expression, r: Expression, gt: String, lt: String)
    requires
        eval(l) is Number,
        eval(r) is Number,
        (gt@ == ">"@ && lt@ == "<"@) || (gt@ == ">="@ && lt@ == "<="@),
    ensures
        eval(binary(l, gt, r)) == eval(binary(r, lt, l)),
{
    lemma_comparisons_fold_to_their_truth(l, r, gt, eval(l)->Number_0, eval(r)->Number_0);
    lemma_comparisons_fold_to_their_truth(r, l, lt, eval(r)->Number_0, eval(l)->Number_0);
}

/// A line of DDL that can give a column: its first word, when the line (trimmed and upper
/// cased) does not start with `CONSTRAINT`, `PRIMARY KEY`, `FOREIGN KEY` or `UNIQUE`.
pub open spec fn column_line(line: Seq<char>, c: Seq<char>) -> bool {
    let t = trim(line);
    let u = unicode_upper(t);
    &&& c == column_word(t)
    &&& !has_prefix(u, "CONSTRAINT"@)
    &&& !has_prefix(u, "PRIMARY KEY"@)
    &&& !has_prefix(u, "FOREIGN KEY"@)
    &&& !has_prefix(u, "UNIQUE"@)
}

/// Where a column of a loaded table comes from: it was a column of that table before the
/// load, or it is the first word of a line that is not a constraint line.
pub open spec fn column_origin(
    m: Map<Seq<char>, TableDefView>,
    lines: Seq<Seq<char>>,
    t: Seq<char>,
    c: Seq<char>,
) -> bool {
    (m.contains_key(t) && m[t].columns.contains(c)) || exists|i: int|
        0 <= i < lines.len() && #[trigger] column_line(lines[i], c)
}

proof fn lemma_ddl_fold_column_origin(st: DdlState, lines: Seq<Seq<char>>)
    ensures
        forall|t: Seq<char>, k: int|
            ddl_fold(st, lines).0.contains_key(t) && 0 <= k < ddl_fold(st, lines).0[t].columns.len()
                ==> column_origin(st.0, lines, t, #[trigger] ddl_fold(st, lines).0[t].columns[k]),
    decreases lines.len(),
{
    if lines.len() > 0 {
        let init = lines.drop_last();
        lemma_ddl_fold_column_origin(st, init);
        let prev = ddl_fold(st, init);
        let m = prev.0;
        let raw = lines.last();
        let next = ddl_fold(st, lines);
        assert(next == ddl_line(prev, raw));
        assert forall|t: Seq<char>, k: int|
            next.0.contains_key(t) && 0 <= k < next.0[t].columns.len() implies column_origin(
            st.0,
            lines,
            t,
            #[trigger] next.0[t].columns[k],
        ) by {
            let c = next.0[t].columns[k];
            if m.contains_key(t) && next.0[t] == m[t] {
                assert(column_origin(st.0, init, t, c));
                if !(st.0.contains_key(t) && st.0[t].columns.contains(c)) {
                    let i = choose|i: int| 0 <= i < init.len() && #[trigger] column_line(init[i], c);
                    assert(lines[i] == init[i]);
                }
            } else if next.0[t].columns.len() == 0 {
            } else {
                let line = trim(raw);
                let cur = prev.1->0;
                assert(t == cur);
                let d = m[t];
                if k < d.columns.len() {
                    assert(next.0[t].columns[k] == d.columns[k]);
                    assert(column_origin(st.0, init, t, c));
                    if !(st.0.contains_key(t) && st.0[t].columns.contains(c)) {
                        let i = choose|i: int| 0 <= i < init.len() && #[trigger] column_line(init[i], c);
                        assert(lines[i] == init[i]);
                    }
                } else {
                    assert(c == column_word(line));
                    reveal_strlit("CONSTRAINT");
                    assert(column_line(lines[lines.len() - 1], c));
                }
            }
        }
    }
}

/// Every column of a table loaded from DDL was a column of that table before, or is the
/// first word of a DDL line that is not a constraint line (`CONSTRAINT`, `PRIMARY KEY`,
/// `FOREIGN KEY` or `UNIQUE`, in any case): constraint lines never add a column.
pub proof fn lemma_ddl_columns_come_from_column_lines(m: Map<Seq<char>, TableDefView>, ddl: Seq<char>)
    ensures
        forall|t: Seq<char>, k: int|
            ddl_load(m, ddl).contains_key(t) && 0 <= k < ddl_load(m, ddl)[t].columns.len()
                ==> column_origin(
                m,
                crate::text::split_on(ddl, '\n'),
                t,
                #[trigger] ddl_load(m, ddl)[t].columns[k],
            ),
{
    lemma_ddl_fold_column_origin((m, None), crate::text::split_on(ddl, '\n'));
}

/// The keywords the fixer upper-cases, each with its upper-case form, in the order it
/// handles them.
pub open spec fn fixer_keywords() -> Seq<(Seq<char>, Seq<char>)> {
    seq![
        ("select"@, "SELECT"@),
        ("from"@, "FROM"@),
        ("where"@, "WHERE"@),
        ("join"@, "JOIN"@),
        ("on"@, "ON"@),
        ("and"@, "AND"@),
        ("or"@, "OR"@),
        ("drop"@, "DROP"@),
        ("alter"@, "ALTER"@),
        ("grant"@, "GRANT"@),
        ("table"@, "TABLE"@),
        ("all"@, "ALL"@),
        ("privileges"@, "PRIVILEGES"@),
    ]
}

/// The text after each keyword of `kws` in turn has had its whole-word, case-insensitive
/// occurrences replaced by its upper-case form.
pub open spec fn upcase_each(s: Seq<char>, kws: Seq<(Seq<char>, Seq<char>)>) -> Seq<char>
    decreases kws.len(),
{
    if kws.len() == 0 {
        s
    } else {
        upcase_step(upcase_each(s, kws.drop_last()), kws.last().0, kws.last().1)
    }
}

/// The fixer upper-cases every keyword it handles (`select`, `from`, `where`, `join`, `on`,
/// `and`, `or`, `drop`, `alter`, `grant`, `table`, `all`, `privileges`), none left out: a run
/// of code is fixed by replacing, keyword after keyword, every whole-word, case-insensitive
/// occurrence by the keyword's upper-case form; and each upper-case form is the ASCII upper
/// casing of its keyword.
pub proof fn lemma_fixer_handles_every_keyword(s: Seq<char>)
    ensures
        fix_code_spec(s) == upcase_each(s, fixer_keywords()),
        fixer_keywords().len() == 13,
        forall|i: int|
            0 <= i < fixer_keywords().len() ==> (#[trigger] fixer_keywords()[i]).1 == fixer_keywords()[i].0.map_values(
                |c: char| ascii_upper_char(c),
            ),
{
    let kws = fixer_keywords();
    reveal_with_fuel(upcase_each, 14);
    assert(kws.drop_last() =~= kws.take(12));
    assert forall|i: int| 0 <= i < kws.len() implies (#[trigger] kws[i]).1 == kws[i].0.map_values(
        |c: char| ascii_upper_char(c),
    ) by {
        reveal_strlit("select");
        reveal_strlit("SELECT");
        reveal_strlit("from");
        reveal_strlit("FROM");
        reveal_strlit("where");
        reveal_strlit("WHERE");
        reveal_strlit("join");
        reveal_strlit("JOIN");
        reveal_strlit("on");
        reveal_strlit("ON");
        reveal_strlit("and");
        reveal_strlit("AND");
        reveal_strlit("or");
        reveal_strlit("OR");
        reveal_strlit("drop");
        reveal_strlit("DROP");
        reveal_strlit("alter");
        reveal_strlit("ALTER");
        reveal_strlit("grant");
        reveal_strlit("GRANT");
        reveal_strlit("table");
        reveal_strlit("TABLE");
        reveal_strlit("all");
        reveal_strlit("ALL");
        reveal_strlit("privileges");
        reveal_strlit("PRIVILEGES");
        assert(kws[i].1 =~= kws[i].0.map_values(|c: char| ascii_upper_char(c)));
    }
}

/// An inner, left outer, right outer or full outer join with an `ON` condition keeps that
/// condition: the converted join's condition is the conversion of the `ON` expression.
pub proof fn lemma_join_keeps_on_condition(j: SqlJoin, out: JoinClause)
    requires
        join_converts(j, out),
        j.kind == SqlJoinKind::Inner || j.kind == SqlJoinKind::LeftOuter || j.kind
            == SqlJoinKind::RightOuter || j.kind == SqlJoinKind::FullOuter,
        j.on is Some,
    ensures
        expr_converts(j.on->0, out.on),
{
}

/// The names of the column leaves of an expression, left to right.
pub open spec fn column_leaves(e: Expression) -> Seq<Seq<char>>
    decreases e,
{
    match e {
        Expression::Column(c) => seq![c.name@],
        Expression::Number(_) => Seq::empty(),
        Expression::BinaryOp { left, right, .. } => column_leaves(*left) + column_leaves(*right),
    }
}

/// An expression mentions a column exactly when one of its column leaves, at any depth and
/// on either side of any operator, has that name (whatever its qualifier).
pub proof fn lemma_mentions_column_iff_leaf(e: Expression, col: Seq<char>)
    ensures
        mentions_column(e, col) <==> column_leaves(e).contains(col),
    decreases e,
{
    match e {
        Expression::Column(c) => {
            assert(seq![c.name@][0] == c.name@);
        },
        Expression::Number(_) => {},
        Expression::BinaryOp { left, right, .. } => {
            lemma_mentions_column_iff_leaf(*left, col);
            lemma_mentions_column_iff_leaf(*right, col);
            let a = column_leaves(*left);
            let b = column_leaves(*right);
            if a.contains(col) {
                let i = choose|i: int| 0 <= i < a.len() && a[i] == col;
                assert((a + b)[i] == col);
            }
            if b.contains(col) {
                let i = choose|i: int| 0 <= i < b.len() && b[i] == col;
                assert((a + b)[a.len() + i] == col);
            }
            if (a + b).contains(col) {
                let i = choose|i: int| 0 <= i < (a + b).len() && (a + b)[i] == col;
                if i < a.len() {
                    assert(a[i] == col);
                } else {
                    assert(b[i - a.len()] == col);
                }
            }
        },
    }
}

/// A join whose condition folds to a non-zero number or to `true` is warned about as a
/// possible cartesian product; one that folds to zero, `false` or nothing is not.
pub proof fn lemma_constant_join_conditions(j: JoinClause)
    ensures
        ((eval(j.on) matches EvalValue::Number(n) && n != 0) || eval(j.on) == EvalValue::Boolean(true))
            ==> cartesian_issues(seq![j]) == seq![IssueView::Warning(cartesian_msg(j.table@))],
        (eval(j.on) == EvalValue::Number(0) || eval(j.on) == EvalValue::Boolean(false) || eval(j.on)
            is Unknown) ==> cartesian_issues(seq![j]) == Seq::<IssueView>::empty(),
{
    let js = seq![j];
    assert(js.drop_last() =~= Seq::<JoinClause>::empty());
    assert(js.last() == j);
    assert(cartesian_issues(Seq::<JoinClause>::empty()) == Seq::<IssueView>::empty());
    assert(Seq::<IssueView>::empty() + seq![IssueView::Warning(cartesian_msg(j.table@))]
        =~= seq![IssueView::Warning(cartesian_msg(j.table@))]);
    assert(Seq::<IssueView>::empty() + Seq::<IssueView>::empty() =~= Seq::<IssueView>::empty());
}

/// A DDL column line that carries `COMMENT '@PII'` (or `'@pii'`) marks its column as
/// personal data, and one that carries `COMMENT '@PARTITION'` (or `'@partition'`) makes it
/// the partition column; a line with neither leaves the markings as they were.
pub proof fn lemma_ddl_comment_markers(d: TableDefView, c: Seq<char>, line: Seq<char>)
    ensures
        add_column(d, c, line).columns == d.columns.push(c),
        (crate::text::has_infix(line, "COMMENT '@PII'"@) || crate::text::has_infix(line, "COMMENT '@pii'"@))
            ==> add_column(d, c, line).pii_columns == d.pii_columns.push(c),
        !(crate::text::has_infix(line, "COMMENT '@PII'"@) || crate::text::has_infix(line, "COMMENT '@pii'"@))
            ==> add_column(d, c, line).pii_columns == d.pii_columns,
        (crate::text::has_infix(line, "COMMENT '@PARTITION'"@) || crate::text::has_infix(
            line,
            "COMMENT '@partition'"@,
        )) ==> add_column(d, c, line).partition_column == Some(c),
        !(crate::text::has_infix(line, "COMMENT '@PARTITION'"@) || crate::text::has_infix(
            line,
            "COMMENT '@partition'"@,
        )) ==> add_column(d, c, line).partition_column == d.partition_column,
{
}

proof fn lemma_statement_end_matches_lex(s: Seq<char>, i: int, st: ScanState)
    requires
        0 <= i <= s.len(),
    ensures
        match statement_end(s, i, st) {
            Some(e) => i < e <= s.len() && s[e - 1] == ';' && lex_kinds(s, i, st)[e - 1 - i] && forall|k: int|
                i <= k < e - 1 && #[trigger] s[k] == ';' ==> !lex_kinds(s, i, st)[k - i],
            None => forall|k: int| i <= k < s.len() && #[trigger] s[k] == ';' ==> !lex_kinds(s, i, st)[k - i],
        },
    decreases s.len() - i,
{
    lemma_lex_kinds_len(s, i, st);
    if i < s.len() {
        let c = s[i];
        let has_next = i + 1 < s.len();
        let ks = lex_kinds(s, i, st);
        let (n, next_st, step): (int, ScanState, Seq<bool>) = match st {
            ScanState::LineComment => if c == '\n' {
                (1, ScanState::Normal, seq![false])
            } else {
                (1, ScanState::LineComment, seq![false])
            },
            ScanState::BlockComment => if c == '*' && has_next && s[i + 1] == '/' {
                (2, ScanState::Normal, seq![false, false])
            } else {
                (1, ScanState::BlockComment, seq![false])
            },
            ScanState::SingleQuote => if c == '\'' {
                if has_next && s[i + 1] == '\'' {
                    (2, ScanState::SingleQuote, seq![false, false])
                } else {
                    (1, ScanState::Normal, seq![false])
                }
            } else {
                (1, ScanState::SingleQuote, seq![false])
            },
            ScanState::DoubleQuote => if c == '"' {
                if has_next && s[i + 1] == '"' {
                    (2, ScanState::DoubleQuote, seq![false, false])
                } else {
                    (1, ScanState::Normal, seq![false])
                }
            } else {
                (1, ScanState::DoubleQuote, seq![false])
            },
            ScanState::Normal => if c == '-' && has_next && s[i + 1] == '-' {
                (2, ScanState::LineComment, seq![false, false])
            } else if c == '/' && has_next && s[i + 1] == '*' {
                (2, ScanState::BlockComment, seq![false, false])
            } else if c == '\'' {
                (1, ScanState::SingleQuote, seq![false])
            } else if c == '"' {
                (1, ScanState::DoubleQuote, seq![false])
            } else {
                (1, ScanState::Normal, seq![true])
            },
        };
        assert(ks == step + lex_kinds(s, i + n, next_st));
        lemma_statement_end_matches_lex(s, i + n, next_st);
        lemma_lex_kinds_len(s, i + n, next_st);
        if st == ScanState::Normal && c == ';' {
            assert(statement_end(s, i, st) == Some(i + 1));
            assert(ks[0] == true);
        } else {
            assert(statement_end(s, i, st) == statement_end(s, i + n, next_st));
            let nk = lex_kinds(s, i + n, next_st);
            let bound = match statement_end(s, i + n, next_st) {
                Some(e) => e - 1,
                None => s.len() as int,
            };
            if let Some(e) = statement_end(s, i + n, next_st) {
                assert(ks[e - 1 - i] == nk[e - 1 - i - n]);
            }
            assert forall|k: int| i <= k < bound && #[trigger] s[k] == ';' implies !ks[k - i] by {
                if k >= i + n {
                    assert(ks[k - i] == nk[k - i - n]);
                } else {
                    assert(ks[k - i] == step[k - i]);
                }
            }
        }
    }
}

/// The first statement ends at the first semicolon that is code, not one inside a quoted
/// string or identifier or a comment: the scanner that splits statements agrees with the
/// scanner that tells code apart for the fixer.
pub proof fn lemma_statement_ends_at_first_code_semicolon(s: Seq<char>)
    ensures
        statement_end(s, 0, ScanState::Normal) matches Some(e) ==> {
            &&& s[e - 1] == ';'
            &&& code_mask(s)[e - 1]
            &&& forall|k: int| 0 <= k < e - 1 && #[trigger] s[k] == ';' ==> !code_mask(s)[k]
        },
        statement_end(s, 0, ScanState::Normal) is None ==> forall|k: int|
            0 <= k < s.len() && #[trigger] s[k] == ';' ==> !code_mask(s)[k],
{
    lemma_statement_end_matches_lex(s, 0, ScanState::Normal);
}

} // verus!
