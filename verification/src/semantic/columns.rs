//! Resolution of the selected columns against the schema: unknown tables, unknown columns
//! and ambiguous unqualified columns.
use vstd::prelude::*;
use crate::parser::{SelectStatement, ColumnRef};
use crate::semantic::{SchemaRegistry, TableDefView, strings_view, strings_contain, column_known, tables_having};
use crate::semantic::security::{active_tables, queried_tables};
use crate::text::str_eq;

verus! {

/// The outcome of resolving one selected column.
#[derive(Debug)]
pub enum ColumnVerdict {
    /// The column is qualified by a table the query does not read.
    TableNotInQuery { table: String },
    /// The qualifying table has no column of that name.
    MissingColumn { table: String, column: String },
    /// The qualified column exists.
    QualifiedOk { table: String, column: String },
    /// No queried table has the unqualified column.
    NotFound { column: String },
    /// Several queried tables have the unqualified column.
    Ambiguous { column: String, tables: Vec<String> },
    /// Exactly one queried table has the unqualified column.
    Resolved { column: String, table: String },
}

pub enum VerdictView {
    TableNotInQuery(Seq<char>),
    MissingColumn(Seq<char>, Seq<char>),
    QualifiedOk(Seq<char>, Seq<char>),
    NotFound(Seq<char>),
    Ambiguous(Seq<char>, Seq<Seq<char>>),
    Resolved(Seq<char>, Seq<char>),
}

impl View for ColumnVerdict {
    type V = VerdictView;

    open spec fn view(&self) -> VerdictView {
        match self {
            ColumnVerdict::TableNotInQuery { table } => VerdictView::TableNotInQuery(table@),
            ColumnVerdict::MissingColumn { table, column } => VerdictView::MissingColumn(
                table@,
                column@,
            ),
            ColumnVerdict::QualifiedOk { table, column } => VerdictView::QualifiedOk(
                table@,
                column@,
            ),
            ColumnVerdict::NotFound { column } => VerdictView::NotFound(column@),
            ColumnVerdict::Ambiguous { column, tables } => VerdictView::Ambiguous(
                column@,
                strings_view(tables@),
            ),
            ColumnVerdict::Resolved { column, table } => VerdictView::Resolved(column@, table@),
        }
    }
}

impl ColumnVerdict {
    /// Whether the verdict is a semantic error.
    pub open spec fn spec_is_error(&self) -> bool {
        !(self is QualifiedOk || self is Resolved)
    }

    #[verifier::when_used_as_spec(spec_is_error)]
    pub fn is_error(&self) -> (r: bool)
        ensures
            r == self.spec_is_error(),
    {
        match self {
            ColumnVerdict::QualifiedOk { .. } | ColumnVerdict::Resolved { .. } => false,
            _ => true,
        }
    }
}

pub open spec fn verdict_views(v: Seq<ColumnVerdict>) -> Seq<VerdictView> {
    v.map_values(|x: ColumnVerdict| x@)
}

/// Columns that are not resolved: `*`, and (when asked) the placeholder that stands for a
/// selected expression.
pub open spec fn is_skipped(name: Seq<char>, skip_expressions: bool) -> bool {
    name == "*"@ || (skip_expressions && name == "function_or_expr"@)
}

/// The verdict on one selected column.
pub open spec fn verdict(
    m: Map<Seq<char>, TableDefView>,
    sel: SelectStatement,
    col: ColumnRef,
) -> VerdictView {
    let active = queried_tables(sel);
    match col.table {
        Some(t) => if !active.contains(t@) {
            VerdictView::TableNotInQuery(t@)
        } else if !column_known(m, t@, col.name@) {
            VerdictView::MissingColumn(t@, col.name@)
        } else {
            VerdictView::QualifiedOk(t@, col.name@)
        },
        None => {
            let ms = tables_having(m, col.name@, active);
            if ms.len() == 0 {
                VerdictView::NotFound(col.name@)
            } else if ms.len() > 1 {
                VerdictView::Ambiguous(col.name@, ms)
            } else {
                VerdictView::Resolved(col.name@, ms[0])
            }
        },
    }
}

/// The verdicts on the given columns, skipped ones left out, in order.
pub open spec fn verdicts(
    m: Map<Seq<char>, TableDefView>,
    sel: SelectStatement,
    cols: Seq<ColumnRef>,
    skip_expressions: bool,
) -> Seq<VerdictView>
    decreases cols.len(),
{
    if cols.len() == 0 {
        Seq::empty()
    } else {
        let prev = verdicts(m, sel, cols.drop_last(), skip_expressions);
        if is_skipped(cols.last().name@, skip_expressions) {
            prev
        } else {
            prev.push(verdict(m, sel, cols.last()))
        }
    }
}

fn resolve_column(registry: &SchemaRegistry, select: &SelectStatement, active: &Vec<String>, col: &ColumnRef) -> (r: ColumnVerdict)
    requires
        strings_view(active@) == queried_tables(*select),
    ensures
        r@ == verdict(registry@, *select, *col),
{
    match &col.table {
        Some(t) => {
            if !strings_contain(active, t.as_str()) {
                ColumnVerdict::TableNotInQuery { table: t.clone() }
            } else if !registry.validate_column(t.as_str(), col.name.as_str()) {
                ColumnVerdict::MissingColumn { table: t.clone(), column: col.name.clone() }
            } else {
                ColumnVerdict::QualifiedOk { table: t.clone(), column: col.name.clone() }
            }
        },
        None => {
            let matches = registry.find_tables_with_column(col.name.as_str(), active.as_slice());
            if matches.len() == 0 {
                ColumnVerdict::NotFound { column: col.name.clone() }
            } else if matches.len() > 1 {
                ColumnVerdict::Ambiguous { column: col.name.clone(), tables: matches }
            } else {
                ColumnVerdict::Resolved { column: col.name.clone(), table: matches[0].clone() }
            }
        },
    }
}

/// Resolves every selected column (but `*`, and the expression placeholder when
/// `skip_expressions` is set) against the tables the query reads.
pub fn check_column_references(
    select: &SelectStatement,
    registry: &SchemaRegistry,
    skip_expressions: bool,
) -> (r: Vec<ColumnVerdict>)
    ensures
        verdict_views(r@) == verdicts(registry@, *select, select.columns@, skip_expressions),
{
    let active = active_tables(select);
    let mut out: Vec<ColumnVerdict> = Vec::new();
    let n = select.columns.len();
    for i in 0..n
        invariant
            n == select.columns@.len(),
            strings_view(active@) == queried_tables(*select),
            verdict_views(out@) == verdicts(
                registry@,
                *select,
                select.columns@.take(i as int),
                skip_expressions,
            ),
    {
        let col = &select.columns[i];
        let ghost cs1 = select.columns@.take(i + 1);
        assert(cs1.drop_last() =~= select.columns@.take(i as int));
        assert(cs1.last() == *col);
        let skipped = str_eq(col.name.as_str(), "*") || (skip_expressions && str_eq(
            col.name.as_str(),
            "function_or_expr",
        ));
        if !skipped {
            let v = resolve_column(registry, select, &active, col);
            out.push(v);
            assert(verdict_views(out@) =~= verdicts(registry@, *select, cs1, skip_expressions));
        }
    }
    assert(select.columns@.take(n as int) =~= select.columns@);
    out
}

} // verus!
