//! Keyword upper-casing used by the auto-fixer; quoted text and comments are kept.
use vstd::prelude::*;
use crate::style::lexical::{code_runs, code_runs_spec, join_runs, run_views};
use crate::pattern::{regex_replace, regex_compiles, regex_replace_all};
use crate::style::casing::keyword_pattern;

verus! {

/// Rewrites keywords in upper case.
pub struct TokenFixer;

/// Replaces every whole-word, case-insensitive occurrence of `kw` by `up`.
pub open spec fn upcase_step(sql: Seq<char>, kw: Seq<char>, up: Seq<char>) -> Seq<char> {
    let pat = keyword_pattern(kw);
    if regex_compiles(pat) {
        regex_replace_all(pat, sql, up)
    } else {
        sql
    }
}

/// The fixes of a run of code: the keywords `select`, `from`, `where`, `join`, `on`, `and`,
/// `or`, `drop`, `alter`, `grant`, `table`, `all` and `privileges` upper-cased, in that order.
pub open spec fn fix_code_spec(sql: Seq<char>) -> Seq<char> {
    let s1 = upcase_step(sql, "select"@, "SELECT"@);
    let s2 = upcase_step(s1, "from"@, "FROM"@);
    let s3 = upcase_step(s2, "where"@, "WHERE"@);
    let s4 = upcase_step(s3, "join"@, "JOIN"@);
    let s5 = upcase_step(s4, "on"@, "ON"@);
    let s6 = upcase_step(s5, "and"@, "AND"@);
    let s7 = upcase_step(s6, "or"@, "OR"@);
    let s8 = upcase_step(s7, "drop"@, "DROP"@);
    let s9 = upcase_step(s8, "alter"@, "ALTER"@);
    let s10 = upcase_step(s9, "grant"@, "GRANT"@);
    let s11 = upcase_step(s10, "table"@, "TABLE"@);
    let s12 = upcase_step(s11, "all"@, "ALL"@);
    upcase_step(s12, "privileges"@, "PRIVILEGES"@)
}

/// A run after fixing: a run of code gets its keywords upper-cased; quoted text and comments
/// are kept as they are.
pub open spec fn fix_run(r: (bool, Seq<char>)) -> (bool, Seq<char>) {
    if r.0 {
        (true, fix_code_spec(r.1))
    } else {
        r
    }
}

/// The fixer's result: each run of code of the statement fixed, the quoted and commented
/// runs kept, in order.
pub open spec fn fix_casing_spec(sql: Seq<char>) -> Seq<char> {
    join_runs(code_runs_spec(sql).map_values(|r: (bool, Seq<char>)| fix_run(r)))
}

fn upcase(sql: String, kw: &str, up: &str) -> (r: String)
    ensures
        r@ == upcase_step(sql@, kw@, up@),
{
    let mut pat = "(?i)\\b".to_owned();
    pat.append(kw);
    pat.append("\\b");
    match regex_replace(pat.as_str(), sql.as_str(), up) {
        Some(replaced) => replaced,
        None => sql,
    }
}

fn fix_code(sql: &str) -> (r: String)
    ensures
        r@ == fix_code_spec(sql@),
{
    let s = sql.to_owned();
    let s = upcase(s, "select", "SELECT");
    let s = upcase(s, "from", "FROM");
    let s = upcase(s, "where", "WHERE");
    let s = upcase(s, "join", "JOIN");
    let s = upcase(s, "on", "ON");
    let s = upcase(s, "and", "AND");
    let s = upcase(s, "or", "OR");
    let s = upcase(s, "drop", "DROP");
    let s = upcase(s, "alter", "ALTER");
    let s = upcase(s, "grant", "GRANT");
    let s = upcase(s, "table", "TABLE");
    let s = upcase(s, "all", "ALL");
    upcase(s, "privileges", "PRIVILEGES")
}

impl TokenFixer {
    /// Upper-cases the keywords of a statement outside string literals, quoted identifiers
    /// and comments, leaving everything else (white space included) as it is.
    pub fn fix_casing(sql: &str) -> (r: String)
        ensures
            r@ == fix_casing_spec(sql@),
    {
        let rs = code_runs(sql);
        let ghost fv = code_runs_spec(sql@).map_values(|r: (bool, Seq<char>)| fix_run(r));
        let mut out = String::new();
        let n = rs.len();
        assert(join_runs(fv.take(0)) =~= Seq::<char>::empty());
        for i in 0..n
            invariant
                n == rs@.len(),
                run_views(rs@) == code_runs_spec(sql@),
                fv == code_runs_spec(sql@).map_values(|r: (bool, Seq<char>)| fix_run(r)),
                out@ == join_runs(fv.take(i as int)),
        {
            let run = &rs[i];
            assert(fv.take(i + 1).drop_last() =~= fv.take(i as int));
            assert(fv.take(i + 1).last() == fix_run((run.0, run.1@)));
            if run.0 {
                let fixed = fix_code(run.1.as_str());
                out.append(fixed.as_str());
            } else {
                out.append(run.1.as_str());
            }
        }
        assert(fv.take(n as int) =~= fv);
        out
    }
}

} // verus!
