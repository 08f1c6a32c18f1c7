//! What a rule plugin reports, and the checks of the sample plugin: no `SELECT *`, and at
//! most three joins.
use vstd::prelude::*;
use crate::parser::{Statement, ColumnRef};
use crate::text::{push_char, str_eq};

verus! {

/// A finding reported by a plugin.
#[derive(Debug)]
pub struct LintIssue {
    pub rule_name: String,
    pub severity: String,
    pub message: String,
}

pub struct LintIssueView {
    pub rule_name: Seq<char>,
    pub severity: Seq<char>,
    pub message: Seq<char>,
}

impl View for LintIssue {
    type V = LintIssueView;

    open spec fn view(&self) -> LintIssueView {
        LintIssueView { rule_name: self.rule_name@, severity: self.severity@, message: self.message@ }
    }
}

pub open spec fn lint_views(v: Seq<LintIssue>) -> Seq<LintIssueView> {
    v.map_values(|i: LintIssue| i@)
}

/// The decimal digit character of `d < 10`.
pub open spec fn digit_char(d: nat) -> char {
    (d + 48) as char
}

/// The decimal notation of a natural number, without sign or leading zeros.
pub open spec fn decimal(n: nat) -> Seq<char>
    decreases n,
{
    if n < 10 {
        seq![digit_char(n)]
    } else {
        decimal(n / 10).push(digit_char(n % 10))
    }
}

/// Writes a number in decimal.
pub fn decimal_string(n: usize) -> (r: String)
    ensures
        r@ == decimal(n as nat),
    decreases n,
{
    let d = (n % 10) as u8;
    let c = (48u8 + d) as char;
    assert(c == digit_char((n % 10) as nat));
    if n < 10 {
        let mut s = String::new();
        push_char(&mut s, c);
        s
    } else {
        let mut s = decimal_string(n / 10);
        push_char(&mut s, c);
        s
    }
}

pub open spec fn select_star_issue() -> LintIssueView {
    LintIssueView {
        rule_name: "NoSelectStar"@,
        severity: "Warning"@,
        message: "Avoid using SELECT *, specify columns explicitly."@,
    }
}

pub open spec fn too_many_joins_issue(n: nat) -> LintIssueView {
    LintIssueView {
        rule_name: "TooManyJoins"@,
        severity: "Warning"@,
        message: "Query has "@ + decimal(n) + " joins. Consider simplifying for performance."@,
    }
}

/// What the sample plugin reports for a statement: for a `SELECT`, one warning when some
/// column is `*`, then one when it has more than three joins; nothing for other statements.
pub open spec fn sample_plugin_spec(stmt: Statement) -> Seq<LintIssueView> {
    match stmt {
        Statement::Select(sel) => {
            let star = if exists|i: int| 0 <= i < sel.columns@.len() && #[trigger] sel.columns@[i].name@ == "*"@ {
                seq![select_star_issue()]
            } else {
                Seq::empty()
            };
            let joins = if sel.joins@.len() > 3 {
                seq![too_many_joins_issue(sel.joins@.len())]
            } else {
                Seq::empty()
            };
            star + joins
        },
        _ => Seq::empty(),
    }
}

fn selects_star(cols: &Vec<ColumnRef>) -> (r: bool)
    ensures
        r == exists|i: int| 0 <= i < cols@.len() && #[trigger] cols@[i].name@ == "*"@,
{
    let n = cols.len();
    for i in 0..n
        invariant
            n == cols@.len(),
            forall|j: int| 0 <= j < i ==> cols@[j].name@ != "*"@,
    {
        if str_eq(cols[i].name.as_str(), "*") {
            return true;
        }
    }
    false
}

/// The checks of the sample plugin, on the statement it receives.
pub fn sample_plugin_checks(stmt: &Statement) -> (r: Vec<LintIssue>)
    ensures
        lint_views(r@) == sample_plugin_spec(*stmt),
{
    let mut issues: Vec<LintIssue> = Vec::new();
    if let Statement::Select(select) = stmt {
        if selects_star(&select.columns) {
            issues.push(
                LintIssue {
                    rule_name: "NoSelectStar".to_owned(),
                    severity: "Warning".to_owned(),
                    message: "Avoid using SELECT *, specify columns explicitly.".to_owned(),
                },
            );
        }
        let ghost first = lint_views(issues@);
        let n = select.joins.len();
        if n > 3 {
            let mut message = "Query has ".to_owned();
            let count = decimal_string(n);
            message.append(count.as_str());
            message.append(" joins. Consider simplifying for performance.");
            issues.push(
                LintIssue { rule_name: "TooManyJoins".to_owned(), severity: "Warning".to_owned(), message },
            );
            assert(lint_views(issues@) =~= first.push(too_many_joins_issue(n as nat)));
        }
    }
    let ghost expect = sample_plugin_spec(*stmt);
    assert(lint_views(issues@) =~= expect);
    issues
}

} // verus!
