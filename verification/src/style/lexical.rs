//! Telling SQL code apart from string literals, quoted identifiers and comments, so that the
//! style fixes touch the code alone.
use vstd::prelude::*;
use crate::stream::ScanState;
use crate::text::{push_char, to_chars};

verus! {

/// For each character of `s` from index `i` on, scanning from state `st`: whether it is code
/// (`true`) or part of a quoted string or identifier or a comment, delimiters included
/// (`false`). A doubled quote inside a quoted part stands for itself.
pub open spec fn lex_kinds(s: Seq<char>, i: int, st: ScanState) -> Seq<bool>
    decreases s.len() - i,
{
    if i < 0 || i >= s.len() {
        Seq::empty()
    } else {
        let c = s[i];
        let has_next = i + 1 < s.len();
        match st {
            ScanState::LineComment => if c == '\n' {
                seq![false] + lex_kinds(s, i + 1, ScanState::Normal)
            } else {
                seq![false] + lex_kinds(s, i + 1, ScanState::LineComment)
            },
            ScanState::BlockComment => if c == '*' && has_next && s[i + 1] == '/' {
                seq![false, false] + lex_kinds(s, i + 2, ScanState::Normal)
            } else {
                seq![false] + lex_kinds(s, i + 1, ScanState::BlockComment)
            },
            ScanState::SingleQuote => if c == '\'' {
                if has_next && s[i + 1] == '\'' {
                    seq![false, false] + lex_kinds(s, i + 2, ScanState::SingleQuote)
                } else {
                    seq![false] + lex_kinds(s, i + 1, ScanState::Normal)
                }
            } else {
                seq![false] + lex_kinds(s, i + 1, ScanState::SingleQuote)
            },
            ScanState::DoubleQuote => if c == '"' {
                if has_next && s[i + 1] == '"' {
                    seq![false, false] + lex_kinds(s, i + 2, ScanState::DoubleQuote)
                } else {
                    seq![false] + lex_kinds(s, i + 1, ScanState::Normal)
                }
            } else {
                seq![false] + lex_kinds(s, i + 1, ScanState::DoubleQuote)
            },
            ScanState::Normal => if c == '-' && has_next && s[i + 1] == '-' {
                seq![false, false] + lex_kinds(s, i + 2, ScanState::LineComment)
            } else if c == '/' && has_next && s[i + 1] == '*' {
                seq![false, false] + lex_kinds(s, i + 2, ScanState::BlockComment)
            } else if c == '\'' {
                seq![false] + lex_kinds(s, i + 1, ScanState::SingleQuote)
            } else if c == '"' {
                seq![false] + lex_kinds(s, i + 1, ScanState::DoubleQuote)
            } else {
                seq![true] + lex_kinds(s, i + 1, ScanState::Normal)
            },
        }
    }
}

pub proof fn lemma_lex_kinds_len(s: Seq<char>, i: int, st: ScanState)
    requires
        0 <= i <= s.len(),
    ensures
        lex_kinds(s, i, st).len() == s.len() - i,
    decreases s.len() - i,
{
    if i < s.len() {
        lemma_lex_kinds_len(s, i + 1, ScanState::Normal);
        lemma_lex_kinds_len(s, i + 1, ScanState::LineComment);
        lemma_lex_kinds_len(s, i + 1, ScanState::BlockComment);
        lemma_lex_kinds_len(s, i + 1, ScanState::SingleQuote);
        lemma_lex_kinds_len(s, i + 1, ScanState::DoubleQuote);
        if i + 1 < s.len() {
            lemma_lex_kinds_len(s, i + 2, ScanState::Normal);
            lemma_lex_kinds_len(s, i + 2, ScanState::LineComment);
            lemma_lex_kinds_len(s, i + 2, ScanState::BlockComment);
            lemma_lex_kinds_len(s, i + 2, ScanState::SingleQuote);
            lemma_lex_kinds_len(s, i + 2, ScanState::DoubleQuote);
        }
    }
}

/// Which characters of a statement are code.
pub open spec fn code_mask(s: Seq<char>) -> Seq<bool> {
    lex_kinds(s, 0, ScanState::Normal)
}

/// The maximal runs of characters of the same kind, in order: each run is its kind and its
/// text.
pub open spec fn runs(s: Seq<char>, m: Seq<bool>) -> Seq<(bool, Seq<char>)>
    decreases s.len(),
{
    if s.len() == 0 {
        Seq::empty()
    } else {
        let r = runs(s.drop_last(), m.drop_last());
        if r.len() > 0 && r.last().0 == m.last() {
            r.update(r.len() - 1, (m.last(), r.last().1.push(s.last())))
        } else {
            r.push((m.last(), seq![s.last()]))
        }
    }
}

/// The runs of code and of quoted or commented text of a statement.
pub open spec fn code_runs_spec(s: Seq<char>) -> Seq<(bool, Seq<char>)> {
    runs(s, code_mask(s))
}

/// The text of a sequence of runs, in order.
pub open spec fn join_runs(rs: Seq<(bool, Seq<char>)>) -> Seq<char>
    decreases rs.len(),
{
    if rs.len() == 0 {
        Seq::empty()
    } else {
        join_runs(rs.drop_last()) + rs.last().1
    }
}

/// The runs of a text, joined, give the text back.
pub proof fn lemma_runs_join(s: Seq<char>, m: Seq<bool>)
    ensures
        join_runs(runs(s, m)) == s,
    decreases s.len(),
{
    if s.len() > 0 {
        lemma_runs_join(s.drop_last(), m.drop_last());
        let r = runs(s.drop_last(), m.drop_last());
        if r.len() > 0 && r.last().0 == m.last() {
            let u = r.update(r.len() - 1, (m.last(), r.last().1.push(s.last())));
            assert(u.drop_last() =~= r.drop_last());
            assert(join_runs(r) == join_runs(r.drop_last()) + r.last().1);
            assert(join_runs(u) =~= join_runs(r).push(s.last()));
        } else {
            assert(r.push((m.last(), seq![s.last()])).drop_last() =~= r);
        }
        assert(s.drop_last().push(s.last()) =~= s);
    }
}

pub open spec fn run_views(v: Seq<(bool, String)>) -> Seq<(bool, Seq<char>)> {
    v.map_values(|r: (bool, String)| (r.0, r.1@))
}

/// Marks which characters are code, scanning as `lex_kinds` says.
fn code_mask_of(s: &Vec<char>) -> (r: Vec<bool>)
    ensures
        r@ == code_mask(s@),
{
    let n = s.len();
    let mut i: usize = 0;
    let mut st = ScanState::Normal;
    let mut out: Vec<bool> = Vec::new();
    assert(out@ + lex_kinds(s@, 0, ScanState::Normal) =~= lex_kinds(s@, 0, ScanState::Normal));
    while i < n
        invariant
            n == s@.len(),
            i <= n,
            out@ + lex_kinds(s@, i as int, st) == lex_kinds(s@, 0, ScanState::Normal),
        decreases n - i,
    {
        let c = s[i];
        let has_next = i + 1 < n;
        let ghost before = out@;
        let ghost rest = lex_kinds(s@, i as int, st);
        let two = match st {
            ScanState::LineComment => {
                if c == '\n' {
                    st = ScanState::Normal;
                }
                false
            },
            ScanState::BlockComment => {
                if c == '*' && (has_next && s[i + 1] == '/') {
                    st = ScanState::Normal;
                    true
                } else {
                    false
                }
            },
            ScanState::SingleQuote => {
                if c == '\'' {
                    if has_next && s[i + 1] == '\'' {
                        true
                    } else {
                        st = ScanState::Normal;
                        false
                    }
                } else {
                    false
                }
            },
            ScanState::DoubleQuote => {
                if c == '"' {
                    if has_next && s[i + 1] == '"' {
                        true
                    } else {
                        st = ScanState::Normal;
                        false
                    }
                } else {
                    false
                }
            },
            ScanState::Normal => {
                if c == '-' && (has_next && s[i + 1] == '-') {
                    st = ScanState::LineComment;
                    true
                } else if c == '/' && (has_next && s[i + 1] == '*') {
                    st = ScanState::BlockComment;
                    true
                } else if c == '\'' {
                    st = ScanState::SingleQuote;
                    false
                } else if c == '"' {
                    st = ScanState::DoubleQuote;
                    false
                } else {
                    out.push(true);
                    i = i + 1;
                    assert(before + rest =~= out@ + lex_kinds(s@, i as int, st));
                    continue;
                }
            },
        };
        if two {
            out.push(false);
            out.push(false);
            i = i + 2;
        } else {
            out.push(false);
            i = i + 1;
        }
        assert(before + rest =~= out@ + lex_kinds(s@, i as int, st));
    }
    assert(lex_kinds(s@, i as int, st) =~= Seq::<bool>::empty());
    assert(out@ =~= out@ + lex_kinds(s@, i as int, st));
    out
}

/// The runs of code and of quoted or commented text of a statement, in order.
pub fn code_runs(sql: &str) -> (r: Vec<(bool, String)>)
    ensures
        run_views(r@) == code_runs_spec(sql@),
{
    let s = to_chars(sql);
    let m = code_mask_of(&s);
    proof {
        lemma_lex_kinds_len(s@, 0, ScanState::Normal);
    }
    let n = s.len();
    let mut done: Vec<(bool, String)> = Vec::new();
    let mut cur = String::new();
    let mut cur_kind = false;
    for i in 0..n
        invariant
            n == s@.len(),
            m@.len() == n,
            s@ == sql@,
            m@ == code_mask(sql@),
            i == 0 ==> done@.len() == 0,
            i > 0 ==> run_views(done@).push((cur_kind, cur@)) == runs(s@.take(i as int), m@.take(i as int)),
    {
        let ghost prev = runs(s@.take(i as int), m@.take(i as int));
        assert(s@.take(i + 1).drop_last() =~= s@.take(i as int));
        assert(m@.take(i + 1).drop_last() =~= m@.take(i as int));
        assert(s@.take(i + 1).last() == s@[i as int]);
        assert(m@.take(i + 1).last() == m@[i as int]);
        if i == 0 {
            cur = String::new();
            push_char(&mut cur, s[i]);
            cur_kind = m[i];
            assert(s@.take(0) =~= Seq::<char>::empty());
            assert(cur@ =~= seq![s@[0]]);
            assert(run_views(done@).push((cur_kind, cur@)) =~= runs(s@.take(1), m@.take(1)));
        } else if m[i] == cur_kind {
            let ghost old_cur = cur@;
            push_char(&mut cur, s[i]);
            assert(prev.last() == (cur_kind, old_cur));
            assert(run_views(done@).push((cur_kind, cur@)) =~= prev.update(
                prev.len() - 1,
                (m@[i as int], old_cur.push(s@[i as int])),
            ));
        } else {
            let ghost old_done = run_views(done@);
            let ghost cv = cur@;
            done.push((cur_kind, cur));
            assert(run_views(done@) =~= old_done.push((cur_kind, cv)));
            assert(run_views(done@) =~= prev);
            cur = String::new();
            push_char(&mut cur, s[i]);
            cur_kind = m[i];
            assert(cur@ =~= seq![s@[i as int]]);
        }
    }
    if n > 0 {
        done.push((cur_kind, cur));
    }
    assert(s@.take(n as int) =~= s@);
    assert(m@.take(n as int) =~= m@);
    if n == 0 {
        assert(run_views(done@) =~= Seq::<(bool, Seq<char>)>::empty());
    }
    done
}

/// The text of a sequence of runs, in order.
pub fn join_code_runs(rs: &Vec<(bool, String)>) -> (r: String)
    ensures
        r@ == join_runs(run_views(rs@)),
{
    let ghost rv = run_views(rs@);
    let mut out = String::new();
    let n = rs.len();
    assert(join_runs(rv.take(0)) =~= Seq::<char>::empty());
    for i in 0..n
        invariant
            n == rs@.len(),
            rv == run_views(rs@),
            out@ == join_runs(rv.take(i as int)),
    {
        assert(rv.take(i + 1).drop_last() =~= rv.take(i as int));
        assert(rv.take(i + 1).last() == (rs[i as int].0, rs[i as int].1@));
        out.append(rs[i].1.as_str());
    }
    assert(rv.take(n as int) =~= rv);
    out
}

} // verus!
