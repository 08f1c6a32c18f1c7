//! Style rules and the engine that applies them in turn.
pub mod casing;
pub mod commas;
pub mod fix;
pub mod lexical;

use vstd::prelude::*;
use crate::semantic::strings_view;

verus! {

/// A style rule rewrites a statement and describes each fix it made.
pub trait StyleRule {
    /// The statement, and the descriptions of the fixes, that the rule produces for `sql`.
    spec fn spec_apply(&self, sql: Seq<char>) -> (Seq<char>, Seq<Seq<char>>);

    fn apply(&self, sql: &str) -> (r: (String, Vec<String>))
        ensures
            (r.0@, strings_view(r.1@)) == self.spec_apply(sql@),
    ;
}

/// The statement after applying the rules in order, with all their fixes in order.
pub open spec fn run_rules(rules: Seq<Box<dyn StyleRule>>, sql: Seq<char>) -> (
    Seq<char>,
    Seq<Seq<char>>,
)
    decreases rules.len(),
{
    if rules.len() == 0 {
        (sql, Seq::empty())
    } else {
        let prev = run_rules(rules.drop_last(), sql);
        let step = rules.last().spec_apply(prev.0);
        (step.0, prev.1 + step.1)
    }
}

/// An ordered list of style rules.
pub struct StyleEngine {
    rules: Vec<Box<dyn StyleRule>>,
}

impl View for StyleEngine {
    type V = Seq<Box<dyn StyleRule>>;

    closed spec fn view(&self) -> Seq<Box<dyn StyleRule>> {
        self.rules@
    }
}

impl StyleEngine {
    /// An engine without rules.
    pub fn new() -> (r: Self)
        ensures
            r@ == Seq::<Box<dyn StyleRule>>::empty(),
    {
        let r = StyleEngine { rules: Vec::new() };
        assert(r@ =~= Seq::<Box<dyn StyleRule>>::empty());
        r
    }

    /// Appends a rule; rules run in the order they were added.
    pub fn add_rule(&mut self, rule: Box<dyn StyleRule>)
        ensures
            final(self)@ == old(self)@.push(rule),
    {
        self.rules.push(rule);
    }

    /// Applies every rule in turn, each to the previous one's output, and gathers the
    /// descriptions of the fixes.
    pub fn apply_rules(&self, sql: &str) -> (r: (String, Vec<String>))
        ensures
            (r.0@, strings_view(r.1@)) == run_rules(self@, sql@),
    {
        let mut current_sql = sql.to_owned();
        let mut all_fixes: Vec<String> = Vec::new();
        let n = self.rules.len();
        assert(strings_view(all_fixes@) =~= Seq::<Seq<char>>::empty());
        assert(self@.take(0) =~= Seq::<Box<dyn StyleRule>>::empty());
        for i in 0..n
            invariant
                n == self@.len(),
                (current_sql@, strings_view(all_fixes@)) == run_rules(self@.take(i as int), sql@),
        {
            let rule = &self.rules[i];
            assert(self@.take(i + 1).drop_last() =~= self@.take(i as int));
            assert(self@.take(i + 1).last() == *rule);
            let (new_sql, fixes) = rule.apply(current_sql.as_str());
            let ghost before = strings_view(all_fixes@);
            let m = fixes.len();
            for k in 0..m
                invariant
                    m == fixes@.len(),
                    strings_view(all_fixes@) == before + strings_view(fixes@.take(k as int)),
            {
                let ghost prev = all_fixes@;
                all_fixes.push(fixes[k].clone());
                assert(strings_view(fixes@.take(k + 1)) =~= strings_view(fixes@.take(k as int)).push(
                    fixes@[k as int]@,
                ));
                assert(strings_view(all_fixes@) =~= strings_view(prev).push(fixes@[k as int]@));
                assert(strings_view(all_fixes@) =~= before + strings_view(fixes@.take(k + 1)));
            }
            assert(fixes@.take(m as int) =~= fixes@);
            current_sql = new_sql;
        }
        assert(self@.take(n as int) =~= self@);
        (current_sql, all_fixes)
    }
}

} // verus!
