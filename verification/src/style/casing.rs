//! The keyword casing rule: SQL keywords are written in upper case.
use vstd::prelude::*;
use crate::style::StyleRule;
use crate::semantic::strings_view;
use crate::pattern::{
    regex_find_texts, regex_replace, regex_is_match, regex_compiles, regex_match_texts,
    regex_replace_all,
};
use crate::style::lexical::{code_runs, code_runs_spec, join_runs, join_code_runs, run_views};
use crate::text::str_eq;

verus! {

/// Upper-cases the keywords `select`, `from`, `where`, `join`, `on`, `and`, `or` and
/// `group by` wherever they stand as whole words, in any case, outside string literals,
/// quoted identifiers and comments.
pub struct KeywordCasingRule;

/// The case-insensitive whole-word pattern of a keyword.
pub open spec fn keyword_pattern(kw: Seq<char>) -> Seq<char> {
    "(?i)\\b"@ + kw + "\\b"@
}

pub open spec fn casing_fix_msg(up: Seq<char>) -> Seq<char> {
    "Capitalized keyword '"@ + up + "'"@
}

/// Some match of the pattern in a run of code differs from `up`.
pub open spec fn code_run_differs(rs: Seq<(bool, Seq<char>)>, pat: Seq<char>, up: Seq<char>) -> bool {
    exists|i: int, j: int|
        #![trigger regex_match_texts(pat, rs[i].1)[j]]
        0 <= i < rs.len() && rs[i].0 && 0 <= j < regex_match_texts(pat, rs[i].1).len()
            && regex_match_texts(pat, rs[i].1)[j] != up
}

/// A run after replacing the pattern by `up`: runs of code are rewritten, quoted and
/// commented runs are kept.
pub open spec fn replace_in_code(r: (bool, Seq<char>), pat: Seq<char>, up: Seq<char>) -> (bool, Seq<char>) {
    if r.0 {
        (true, regex_replace_all(pat, r.1, up))
    } else {
        r
    }
}

/// One keyword's step over the runs of a statement: when some occurrence in the code is not
/// already written `up`, every occurrence in the code is replaced by `up` and the fix is
/// recorded; quoted text and comments are never touched.
pub open spec fn casing_step(
    st: (Seq<(bool, Seq<char>)>, Seq<Seq<char>>),
    kw: Seq<char>,
    up: Seq<char>,
) -> (Seq<(bool, Seq<char>)>, Seq<Seq<char>>) {
    let pat = keyword_pattern(kw);
    if regex_compiles(pat) && code_run_differs(st.0, pat, up) {
        (
            st.0.map_values(|r: (bool, Seq<char>)| replace_in_code(r, pat, up)),
            st.1.push(casing_fix_msg(up)),
        )
    } else {
        st
    }
}

/// The runs after the steps for each keyword, in the rule's order, and the fixes.
pub open spec fn casing_runs(sql: Seq<char>) -> (Seq<(bool, Seq<char>)>, Seq<Seq<char>>) {
    let s0 = (code_runs_spec(sql), Seq::<Seq<char>>::empty());
    let s1 = casing_step(s0, "select"@, "SELECT"@);
    let s2 = casing_step(s1, "from"@, "FROM"@);
    let s3 = casing_step(s2, "where"@, "WHERE"@);
    let s4 = casing_step(s3, "join"@, "JOIN"@);
    let s5 = casing_step(s4, "on"@, "ON"@);
    let s6 = casing_step(s5, "and"@, "AND"@);
    let s7 = casing_step(s6, "or"@, "OR"@);
    casing_step(s7, "group by"@, "GROUP BY"@)
}

/// The rule's result: the statement the runs join into, and the fixes.
pub open spec fn casing_apply(sql: Seq<char>) -> (Seq<char>, Seq<Seq<char>>) {
    let r = casing_runs(sql);
    (join_runs(r.0), r.1)
}

fn concat3(a: &str, b: &str, c: &str) -> (r: String)
    ensures
        r@ == a@ + b@ + c@,
{
    let mut s = a.to_owned();
    s.append(b);
    s.append(c);
    s
}

/// Whether some of the texts differ from `up`.
pub fn any_text_differs(texts: &Vec<String>, up: &str) -> (r: bool)
    ensures
        r == exists|i: int| 0 <= i < texts@.len() && texts@[i]@ != up@,
{
    let n = texts.len();
    for i in 0..n
        invariant
            n == texts@.len(),
            forall|j: int| 0 <= j < i ==> texts@[j]@ == up@,
    {
        if !str_eq(texts[i].as_str(), up) {
            return true;
        }
    }
    false
}

fn capitalize_keyword(
    runs: Vec<(bool, String)>,
    fixes: &mut Vec<String>,
    kw: &str,
    up: &str,
) -> (r: Vec<(bool, String)>)
    ensures
        (run_views(r@), strings_view(final(fixes)@)) == casing_step(
            (run_views(runs@), strings_view(old(fixes)@)),
            kw@,
            up@,
        ),
{
    let pat = concat3("(?i)\\b", kw, "\\b");
    let ghost rv = run_views(runs@);
    if regex_is_match(pat.as_str(), "").is_none() {
        return runs;
    }
    let n = runs.len();
    let mut differs = false;
    for i in 0..n
        invariant
            n == runs@.len(),
            rv == run_views(runs@),
            regex_compiles(pat@),
            differs == exists|k: int, j: int|
                #![trigger regex_match_texts(pat@, rv[k].1)[j]]
                0 <= k < i && rv[k].0 && 0 <= j < regex_match_texts(pat@, rv[k].1).len()
                    && regex_match_texts(pat@, rv[k].1)[j] != up@,
    {
        let run = &runs[i];
        assert(rv[i as int] == (run.0, run.1@));
        if run.0 {
            match regex_find_texts(pat.as_str(), run.1.as_str()) {
                Some(ms) => {
                    let d = any_text_differs(&ms, up);
                    let ghost mt = regex_match_texts(pat@, run.1@);
                    assert(d == exists|j: int| 0 <= j < mt.len() && mt[j] != up@) by {
                        if d {
                            let j = choose|j: int| 0 <= j < ms@.len() && ms@[j]@ != up@;
                            assert(mt[j] == ms@[j]@);
                        } else if exists|j: int| 0 <= j < mt.len() && mt[j] != up@ {
                            let j = choose|j: int| 0 <= j < mt.len() && mt[j] != up@;
                            assert(mt[j] == ms@[j]@);
                        }
                    }
                    if d {
                        proof {
                            let j = choose|j: int| 0 <= j < mt.len() && mt[j] != up@;
                            assert(regex_match_texts(pat@, rv[i as int].1)[j] != up@);
                        }
                        differs = true;
                    }
                },
                None => {},
            }
        }
    }
    assert(pat@ == keyword_pattern(kw@));
    if !differs {
        return runs;
    }
    let ghost target = rv.map_values(|r: (bool, Seq<char>)| replace_in_code(r, pat@, up@));
    let mut out: Vec<(bool, String)> = Vec::new();
    for i in 0..n
        invariant
            n == runs@.len(),
            rv == run_views(runs@),
            regex_compiles(pat@),
            target == rv.map_values(|r: (bool, Seq<char>)| replace_in_code(r, pat@, up@)),
            run_views(out@) == target.take(i as int),
    {
        let run = &runs[i];
        assert(rv[i as int] == (run.0, run.1@));
        let ghost before = run_views(out@);
        if run.0 {
            let replaced = match regex_replace(pat.as_str(), run.1.as_str(), up) {
                Some(x) => x,
                None => run.1.clone(),
            };
            out.push((true, replaced));
        } else {
            out.push((false, run.1.clone()));
        }
        assert(run_views(out@) =~= before.push(target[i as int]));
        assert(target.take(i + 1) =~= target.take(i as int).push(target[i as int]));
    }
    assert(target.take(n as int) =~= target);
    let ghost before = strings_view(fixes@);
    fixes.push(concat3("Capitalized keyword '", up, "'"));
    assert(strings_view(fixes@) =~= before.push(casing_fix_msg(up@)));
    out
}

impl StyleRule for KeywordCasingRule {
    open spec fn spec_apply(&self, sql: Seq<char>) -> (Seq<char>, Seq<Seq<char>>) {
        casing_apply(sql)
    }

    fn apply(&self, sql: &str) -> (r: (String, Vec<String>)) {
        let mut fixes: Vec<String> = Vec::new();
        assert(strings_view(fixes@) =~= Seq::<Seq<char>>::empty());
        let s = code_runs(sql);
        let s = capitalize_keyword(s, &mut fixes, "select", "SELECT");
        let s = capitalize_keyword(s, &mut fixes, "from", "FROM");
        let s = capitalize_keyword(s, &mut fixes, "where", "WHERE");
        let s = capitalize_keyword(s, &mut fixes, "join", "JOIN");
        let s = capitalize_keyword(s, &mut fixes, "on", "ON");
        let s = capitalize_keyword(s, &mut fixes, "and", "AND");
        let s = capitalize_keyword(s, &mut fixes, "or", "OR");
        let s = capitalize_keyword(s, &mut fixes, "group by", "GROUP BY");
        (join_code_runs(&s), fixes)
    }
}

} // verus!
