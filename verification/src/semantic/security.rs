//! Security rules: unmasked personal data, destructive migrations, over-broad grants.
use vstd::prelude::*;
use crate::parser::{Statement, SelectStatement, ColumnRef, JoinClause};
use crate::semantic::{SchemaRegistry, TableDefView, strings_view, strings_contain, tables_having};
use crate::exec::rules::IssueView;

verus! {

/// A finding of the security rules.
#[derive(Debug)]
pub enum SecurityIssue {
    Error(String),
    Warning(String),
}

impl View for SecurityIssue {
    type V = IssueView;

    open spec fn view(&self) -> IssueView {
        match self {
            SecurityIssue::Error(m) => IssueView::Error(m@),
            SecurityIssue::Warning(m) => IssueView::Warning(m@),
        }
    }
}

pub open spec fn security_views(v: Seq<SecurityIssue>) -> Seq<IssueView> {
    v.map_values(|i: SecurityIssue| i@)
}

/// The tables a `SELECT` reads: its `FROM` table, then each joined table.
pub open spec fn queried_tables(sel: SelectStatement) -> Seq<Seq<char>> {
    seq![sel.table@] + sel.joins@.map_values(|j: JoinClause| j.table@)
}

pub open spec fn pii_msg(table: Seq<char>, column: Seq<char>) -> Seq<char> {
    "UnmaskedPIISelect: Selecting PII column '"@ + table + "."@ + column + "' without masking."@
}

pub open spec fn drop_msg(table: Seq<char>) -> Seq<char> {
    "DangerousMigration: Destructive DROP TABLE '"@ + table + "' detected."@
}

pub open spec fn alter_msg(table: Seq<char>) -> Seq<char> {
    "DangerousMigration: ALTER TABLE '"@ + table
        + "' detected. Review for destructive operations."@
}

pub open spec fn grant_msg() -> Seq<char> {
    "UnsafeGrant: GRANT ALL PRIVILEGES is overly permissive and prohibited."@
}

/// The tables in which a selected column is looked up: its qualifier, or else every queried
/// table that has a column of that name.
pub open spec fn lookup_tables(
    m: Map<Seq<char>, TableDefView>,
    sel: SelectStatement,
    col: ColumnRef,
) -> Seq<Seq<char>> {
    match col.table {
        Some(t) => seq![t@],
        None => tables_having(m, col.name@, queried_tables(sel)),
    }
}

/// One error per table of `ts` that marks `column` as personal data.
pub open spec fn pii_hits(
    m: Map<Seq<char>, TableDefView>,
    column: Seq<char>,
    ts: Seq<Seq<char>>,
) -> Seq<IssueView>
    decreases ts.len(),
{
    if ts.len() == 0 {
        Seq::empty()
    } else {
        let t = ts.last();
        pii_hits(m, column, ts.drop_last()) + if m.contains_key(t) && m[t].pii_columns.contains(
            column,
        ) {
            seq![IssueView::Error(pii_msg(t, column))]
        } else {
            Seq::empty()
        }
    }
}

/// The personal-data errors of the given selected columns, in order.
pub open spec fn select_pii_issues(
    m: Map<Seq<char>, TableDefView>,
    sel: SelectStatement,
    cols: Seq<ColumnRef>,
) -> Seq<IssueView>
    decreases cols.len(),
{
    if cols.len() == 0 {
        Seq::empty()
    } else {
        select_pii_issues(m, sel, cols.drop_last()) + pii_hits(
            m,
            cols.last().name@,
            lookup_tables(m, sel, cols.last()),
        )
    }
}

/// What the security rules report for a statement.
pub open spec fn security_issues(stmt: Statement, m: Map<Seq<char>, TableDefView>) -> Seq<
    IssueView,
> {
    match stmt {
        Statement::Select(sel) => select_pii_issues(m, sel, sel.columns@),
        Statement::Drop(d) => seq![IssueView::Error(drop_msg(d.table@))],
        Statement::Alter(a) => seq![IssueView::Warning(alter_msg(a.table@))],
        Statement::Grant(g) => if g.all_privileges {
            seq![IssueView::Error(grant_msg())]
        } else {
            Seq::empty()
        },
        Statement::Ignored => Seq::empty(),
    }
}

/// The `FROM` table followed by the joined tables.
pub fn active_tables(sel: &SelectStatement) -> (r: Vec<String>)
    ensures
        strings_view(r@) == queried_tables(*sel),
{
    let mut r: Vec<String> = Vec::new();
    r.push(sel.table.clone());
    let n = sel.joins.len();
    for i in 0..n
        invariant
            n == sel.joins@.len(),
            r@.len() == i + 1,
            r@[0]@ == sel.table@,
            forall|j: int| 0 <= j < i ==> #[trigger] r@[j + 1]@ == sel.joins@[j].table@,
    {
        r.push(sel.joins[i].table.clone());
    }
    assert forall|k: int| 0 <= k < r@.len() implies #[trigger] strings_view(r@)[k] == queried_tables(
        *sel,
    )[k] by {
        if k > 0 {
            assert(r@[(k - 1) + 1]@ == sel.joins@[k - 1].table@);
        }
    }
    assert(strings_view(r@) =~= queried_tables(*sel));
    r
}

fn concat3(a: &str, b: &str, c: &str) -> (r: String)
    ensures
        r@ == a@ + b@ + c@,
{
    let mut s = a.to_owned();
    s.append(b);
    s.append(c);
    s
}

fn pii_error(table: &str, column: &str) -> (r: SecurityIssue)
    ensures
        r@ == IssueView::Error(pii_msg(table@, column@)),
{
    let mut s = "UnmaskedPIISelect: Selecting PII column '".to_owned();
    s.append(table);
    s.append(".");
    s.append(column);
    s.append("' without masking.");
    SecurityIssue::Error(s)
}

fn push_pii_hits(
    registry: &SchemaRegistry,
    column: &String,
    tables: &Vec<String>,
    issues: &mut Vec<SecurityIssue>,
)
    ensures
        security_views(final(issues)@) == security_views(old(issues)@) + pii_hits(
            registry@,
            column@,
            strings_view(tables@),
        ),
{
    let ghost start = security_views(issues@);
    let n = tables.len();
    assert(pii_hits(registry@, column@, strings_view(tables@.take(0))) =~= Seq::<IssueView>::empty());
    for i in 0..n
        invariant
            n == tables@.len(),
            security_views(issues@) == start + pii_hits(
                registry@,
                column@,
                strings_view(tables@.take(i as int)),
            ),
    {
        let t = &tables[i];
        let ghost before = security_views(issues@);
        let ghost ts1 = strings_view(tables@.take(i + 1));
        assert(ts1.drop_last() =~= strings_view(tables@.take(i as int)));
        assert(ts1.last() == t@);
        let ghost hit = if registry@.contains_key(t@) && registry@[t@].pii_columns.contains(column@) {
            seq![IssueView::Error(pii_msg(t@, column@))]
        } else {
            Seq::<IssueView>::empty()
        };
        assert(pii_hits(registry@, column@, ts1) == pii_hits(
            registry@,
            column@,
            strings_view(tables@.take(i as int)),
        ) + hit);
        match registry.get_table(t.as_str()) {
            Some(def) => {
                if strings_contain(&def.pii_columns, column.as_str()) {
                    issues.push(pii_error(t.as_str(), column.as_str()));
                    assert(security_views(issues@) =~= before + hit);
                } else {
                    assert(security_views(issues@) =~= before + hit);
                }
            },
            None => {
                assert(security_views(issues@) =~= before + hit);
            },
        }
        assert(security_views(issues@) =~= start + pii_hits(
            registry@,
            column@,
            strings_view(tables@.take(i + 1)),
        ));
    }
    assert(tables@.take(n as int) =~= tables@);
}

/// Runs the security rules on a statement.
pub fn check_security_rules(stmt: &Statement, registry: &SchemaRegistry) -> (issues: Vec<
    SecurityIssue,
>)
    ensures
        security_views(issues@) == security_issues(*stmt, registry@),
{
    let mut issues: Vec<SecurityIssue> = Vec::new();
    match stmt {
        Statement::Select(select) => {
            let n = select.columns.len();
            for i in 0..n
                invariant
                    n == select.columns@.len(),
                    security_views(issues@) == select_pii_issues(
                        registry@,
                        *select,
                        select.columns@.take(i as int),
                    ),
            {
                let col = &select.columns[i];
                assert(select.columns@.take(i + 1).drop_last() =~= select.columns@.take(i as int));
                assert(select.columns@.take(i + 1).last() == *col);
                let tables_to_check: Vec<String> = match &col.table {
                    Some(t) => {
                        let mut v: Vec<String> = Vec::new();
                        v.push(t.clone());
                        assert(strings_view(v@) =~= seq![t@]);
                        v
                    },
                    None => {
                        let active = active_tables(select);
                        registry.find_tables_with_column(col.name.as_str(), active.as_slice())
                    },
                };
                push_pii_hits(registry, &col.name, &tables_to_check, &mut issues);
            }
            assert(select.columns@.take(n as int) =~= select.columns@);
        },
        Statement::Drop(drop) => {
            issues.push(
                SecurityIssue::Error(
                    concat3(
                        "DangerousMigration: Destructive DROP TABLE '",
                        drop.table.as_str(),
                        "' detected.",
                    ),
                ),
            );
            assert(security_views(issues@) =~= seq![IssueView::Error(drop_msg(drop.table@))]);
        },
        Statement::Alter(alter) => {
            issues.push(
                SecurityIssue::Warning(
                    concat3(
                        "DangerousMigration: ALTER TABLE '",
                        alter.table.as_str(),
                        "' detected. Review for destructive operations.",
                    ),
                ),
            );
            assert(security_views(issues@) =~= seq![IssueView::Warning(alter_msg(alter.table@))]);
        },
        Statement::Grant(grant) => {
            if grant.all_privileges {
                issues.push(
                    SecurityIssue::Error(
                        "UnsafeGrant: GRANT ALL PRIVILEGES is overly permissive and prohibited.".to_owned(),
                    ),
                );
                assert(security_views(issues@) =~= seq![IssueView::Error(grant_msg())]);
            } else {
                assert(security_views(issues@) =~= Seq::<IssueView>::empty());
            }
        },
        Statement::Ignored => {
            assert(security_views(issues@) =~= Seq::<IssueView>::empty());
        },
    }
    issues
}

} // verus!
