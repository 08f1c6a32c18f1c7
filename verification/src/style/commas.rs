//! The trailing comma rule: no comma right before `FROM`.
use vstd::prelude::*;
use crate::style::StyleRule;
use crate::semantic::strings_view;
use crate::pattern::{regex_is_match, regex_replace, regex_compiles, regex_matches, regex_replace_all};

verus! {

/// Removes a comma (and the white space after it) that stands before the keyword `FROM`.
pub struct TrailingCommaRule;

pub open spec fn trailing_comma_pattern() -> Seq<char> {
    "(?i),\\s+FROM\\b"@
}

pub open spec fn trailing_comma_msg() -> Seq<char> {
    "Removed trailing comma before FROM"@
}

/// The rule's result: when the pattern matches, every match becomes `" FROM"` and the fix
/// is recorded; otherwise the statement is left as it is.
pub open spec fn commas_apply(sql: Seq<char>) -> (Seq<char>, Seq<Seq<char>>) {
    let pat = trailing_comma_pattern();
    if regex_compiles(pat) && regex_matches(pat, sql) {
        (regex_replace_all(pat, sql, " FROM"@), seq![trailing_comma_msg()])
    } else {
        (sql, Seq::empty())
    }
}

impl StyleRule for TrailingCommaRule {
    open spec fn spec_apply(&self, sql: Seq<char>) -> (Seq<char>, Seq<Seq<char>>) {
        commas_apply(sql)
    }

    fn apply(&self, sql: &str) -> (r: (String, Vec<String>)) {
        let mut fixes: Vec<String> = Vec::new();
        let pat = "(?i),\\s+FROM\\b";
        if let Some(true) = regex_is_match(pat, sql) {
            if let Some(replaced) = regex_replace(pat, sql, " FROM") {
                fixes.push("Removed trailing comma before FROM".to_owned());
                assert(strings_view(fixes@) =~= seq![trailing_comma_msg()]);
                return (replaced, fixes);
            }
        }
        assert(strings_view(fixes@) =~= Seq::<Seq<char>>::empty());
        (sql.to_owned(), fixes)
    }
}

} // verus!
