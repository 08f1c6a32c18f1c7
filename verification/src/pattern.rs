//! The regular expressions the linter uses, evaluated by the `regex` crate.
use vstd::prelude::*;
use crate::text::{newlines_of, newline_count};

verus! {

/// Whether `regex::Regex::new` accepts the pattern.
pub uninterp spec fn regex_compiles(pattern: Seq<char>) -> bool;

/// What `Regex::is_match` answers for the compiled pattern on a text.
pub uninterp spec fn regex_matches(pattern: Seq<char>, text: Seq<char>) -> bool;

/// The texts of the successive non-overlapping matches that `Regex::find_iter` yields.
pub uninterp spec fn regex_match_texts(pattern: Seq<char>, text: Seq<char>) -> Seq<Seq<char>>;

/// What `Regex::replace_all` returns for a pattern, a text and a replacement string.
pub uninterp spec fn regex_replace_all(pattern: Seq<char>, text: Seq<char>, rep: Seq<char>) -> Seq<char>;

/// Compiles `pattern` with `regex::Regex::new` and calls `Regex::is_match` on `text`.
/// `None` when the pattern does not compile. The answer is named `regex_matches`;
/// nothing more of it is stated.
#[verifier::external_body]
pub(crate) fn regex_is_match(pattern: &str, text: &str) -> (r: Option<bool>)
    ensures
        r is Some <==> regex_compiles(pattern@),
        r matches Some(b) ==> b == regex_matches(pattern@, text@),
{
    match regex::Regex::new(pattern) {
        Ok(re) => Some(re.is_match(text)),
        Err(_) => None,
    }
}

/// Compiles `pattern` with `regex::Regex::new` and collects the texts of the matches of
/// `Regex::find_iter` on `text`. `None` when the pattern does not compile. The texts are
/// named `regex_match_texts`; nothing more of them is stated.
#[verifier::external_body]
pub(crate) fn regex_find_texts(pattern: &str, text: &str) -> (r: Option<Vec<String>>)
    ensures
        r is Some <==> regex_compiles(pattern@),
        r matches Some(v) ==> v@.map_values(|s: String| s@) == regex_match_texts(pattern@, text@),
{
    match regex::Regex::new(pattern) {
        Ok(re) => Some(re.find_iter(text).map(|m| m.as_str().to_string()).collect()),
        Err(_) => None,
    }
}

/// Compiles `pattern` with `regex::Regex::new` and calls `Regex::replace_all` on `text`
/// with the replacement string `rep`. `None` when the pattern does not compile. The result
/// is named `regex_replace_all`; the one fact stated of it is the documented one that a
/// text without any match comes back unchanged.
#[verifier::external_body]
pub(crate) fn regex_replace(pattern: &str, text: &str, rep: &str) -> (r: Option<String>)
    ensures
        r is Some <==> regex_compiles(pattern@),
        r matches Some(s) ==> s@ == regex_replace_all(pattern@, text@, rep@),
        r matches Some(s) ==> (!regex_matches(pattern@, text@) ==> s@ == text@),
{
    match regex::Regex::new(pattern) {
        Ok(re) => Some(re.replace_all(text, rep).into_owned()),
        Err(_) => None,
    }
}

/// The character ranges (start, end) of the successive non-overlapping matches of the
/// compiled pattern in a text, as `Regex::find_iter` yields them.
pub uninterp spec fn regex_match_spans(pattern: Seq<char>, text: Seq<char>) -> Seq<(int, int)>;

/// Ranges of a text of length `n` that lie within it, in order and without overlap.
pub open spec fn spans_ordered(n: int, spans: Seq<(int, int)>) -> bool {
    &&& forall|i: int| 0 <= i < spans.len() ==> 0 <= (#[trigger] spans[i]).0 <= spans[i].1 <= n
    &&& forall|i: int, j: int| 0 <= i < j < spans.len() ==> (#[trigger] spans[i]).1 <= (#[trigger] spans[j]).0
}

/// As many line feeds as `s` holds.
pub open spec fn line_feeds_of(s: Seq<char>) -> Seq<char> {
    Seq::new(newline_count(s), |i: int| '\n')
}

/// The text with each of the given ranges replaced by the line feeds it holds, the text
/// between them kept.
pub open spec fn blank_spans(text: Seq<char>, spans: Seq<(int, int)>) -> Seq<char>
    decreases spans.len(),
{
    if spans.len() == 0 {
        text
    } else {
        let last = spans.last();
        blank_spans(text.take(last.0), spans.drop_last()) + line_feeds_of(
            text.subrange(last.0, last.1),
        ) + text.skip(last.1)
    }
}

proof fn lemma_newline_count_concat(a: Seq<char>, b: Seq<char>)
    ensures
        newline_count(a + b) == newline_count(a) + newline_count(b),
    decreases b.len(),
{
    if b.len() == 0 {
        assert(a + b =~= a);
    } else {
        lemma_newline_count_concat(a, b.drop_last());
        assert((a + b).drop_last() =~= a + b.drop_last());
        assert((a + b).last() == b.last());
    }
}

proof fn lemma_line_feeds_count(k: nat)
    ensures
        newline_count(Seq::new(k, |i: int| '\n')) == k,
    decreases k,
{
    if k > 0 {
        lemma_line_feeds_count((k - 1) as nat);
        assert(Seq::new(k, |i: int| '\n').drop_last() =~= Seq::new((k - 1) as nat, |i: int| '\n'));
    }
}

/// Blanking ranges out keeps every line feed: the result holds as many as the text.
pub proof fn lemma_blank_spans_keeps_lines(text: Seq<char>, spans: Seq<(int, int)>)
    requires
        spans_ordered(text.len() as int, spans),
    ensures
        newline_count(blank_spans(text, spans)) == newline_count(text),
    decreases spans.len(),
{
    if spans.len() > 0 {
        let last = spans.last();
        let k = spans.len() - 1;
        assert(spans[k] == last);
        let head = text.take(last.0);
        let mid = text.subrange(last.0, last.1);
        let tail = text.skip(last.1);
        let init = spans.drop_last();
        assert forall|i: int| 0 <= i < init.len() implies 0 <= (#[trigger] init[i]).0 <= init[i].1 <= head.len() by {
            assert(init[i] == spans[i]);
            assert(spans[i].1 <= spans[k].0);
        }
        assert forall|i: int, j: int| 0 <= i < j < init.len() implies (#[trigger] init[i]).1 <= (#[trigger] init[j]).0 by {
            assert(init[i] == spans[i]);
            assert(init[j] == spans[j]);
        }
        lemma_blank_spans_keeps_lines(head, init);
        lemma_line_feeds_count(newline_count(mid));
        let b = blank_spans(head, init);
        lemma_newline_count_concat(b, line_feeds_of(mid));
        lemma_newline_count_concat(b + line_feeds_of(mid), tail);
        lemma_newline_count_concat(head, mid);
        lemma_newline_count_concat(head + mid, tail);
        assert(text =~= head + mid + tail);
    }
}

/// Compiles `pattern` with `regex::Regex::new` and calls `Regex::replace_all` on `text` with
/// a replacer that puts, in place of each match, the line feeds of the match (computed by
/// `newlines_of`). `None` when the pattern does not compile. The matches are named
/// `regex_match_spans`; stated of them is what the documentation says: they come in order,
/// without overlap, and there is one exactly when `Regex::is_match` answers yes. The result
/// is the text with each match replaced by the replacer's output and the text between
/// matches kept, as `replace_all` documents.
#[verifier::external_body]
pub(crate) fn regex_blank_out(pattern: &str, text: &str) -> (r: Option<String>)
    ensures
        r is Some <==> regex_compiles(pattern@),
        r is Some ==> spans_ordered(text@.len() as int, regex_match_spans(pattern@, text@)),
        r is Some ==> (regex_matches(pattern@, text@) <==> regex_match_spans(pattern@, text@).len() > 0),
        r matches Some(s) ==> s@ == blank_spans(text@, regex_match_spans(pattern@, text@)),
{
    match regex::Regex::new(pattern) {
        Ok(re) => Some(re.replace_all(text, |caps: &regex::Captures| newlines_of(&caps[0])).into_owned()),
        Err(_) => None,
    }
}

} // verus!
