//! Where editor diagnostics point: the first place a name occurs in a document, and the
//! position of a parse error, both counted from zero.
use vstd::prelude::*;
use crate::parser::{ParseError, SelectStatement};
use crate::semantic::SchemaRegistry;
use crate::semantic::columns::{ColumnVerdict, VerdictView, verdict_views, verdicts, check_column_references};
use vstd::string::StringSliceAdditionalSpecFns;
use vstd::utf8::encode_utf8;

verus! {

/// The pieces of a byte string between line feeds (always at least one).
pub open spec fn byte_pieces(b: Seq<u8>) -> Seq<Seq<u8>>
    decreases b.len(),
{
    if b.len() == 0 {
        seq![Seq::empty()]
    } else {
        let p = byte_pieces(b.drop_last());
        if b.last() == 10 {
            p.push(Seq::empty())
        } else {
            p.update(p.len() - 1, p.last().push(b.last()))
        }
    }
}

pub proof fn lemma_byte_pieces_nonempty(b: Seq<u8>)
    ensures
        byte_pieces(b).len() >= 1,
    decreases b.len(),
{
    if b.len() > 0 {
        lemma_byte_pieces_nonempty(b.drop_last());
    }
}

/// A line as `str::lines` yields it: a piece that a line feed ended loses one trailing
/// carriage return.
pub open spec fn line_text(piece: Seq<u8>, terminated: bool) -> Seq<u8> {
    if terminated && piece.len() > 0 && piece.last() == 13 {
        piece.drop_last()
    } else {
        piece
    }
}

/// The lines of a text, as `str::lines` yields them (no line after a final line feed).
pub open spec fn text_lines(b: Seq<u8>) -> Seq<Seq<u8>> {
    let ps = byte_pieces(b);
    let n = if ps.last().len() == 0 { ps.len() - 1 } else { ps.len() as int };
    Seq::new(n as nat, |i: int| line_text(ps[i], i < ps.len() - 1))
}

pub open spec fn bytes_at(s: Seq<u8>, p: Seq<u8>, i: int) -> bool {
    0 <= i && i + p.len() <= s.len() && s.subrange(i, i + p.len()) == p
}

pub open spec fn contains_bytes(s: Seq<u8>, p: Seq<u8>) -> bool {
    exists|j: int| bytes_at(s, p, j)
}

/// `i` is where `str::find` finds `p` in `s` (as a byte offset).
pub open spec fn first_at(s: Seq<u8>, p: Seq<u8>, i: int) -> bool {
    bytes_at(s, p, i) && forall|j: int| 0 <= j < i ==> !bytes_at(s, p, j)
}

/// The range a name gets in a document: on the first line that contains it, from where it
/// starts to where it ends (byte offsets); `None` when no line contains it.
pub open spec fn column_range_ok(b: Seq<u8>, name: Seq<u8>, r: Option<(usize, usize, usize)>) -> bool {
    let ls = text_lines(b);
    match r {
        Some((line, start, end)) => {
            &&& line < ls.len()
            &&& first_at(ls[line as int], name, start as int)
            &&& end == start + name.len()
            &&& forall|k: int| 0 <= k < line ==> !contains_bytes(#[trigger] ls[k], name)
        },
        None => forall|k: int| 0 <= k < ls.len() ==> !contains_bytes(#[trigger] ls[k], name),
    }
}

fn bytes_match_at(s: &[u8], p: &[u8], i: usize) -> (r: bool)
    ensures
        r == bytes_at(s@, p@, i as int),
{
    if i > s.len() || p.len() > s.len() - i {
        return false;
    }
    for k in 0..p.len()
        invariant
            i + p@.len() <= s@.len(),
            s@.len() == s.len(),
            forall|j: int| 0 <= j < k ==> s@[i + j] == p@[j],
    {
        if s[i + k] != p[k] {
            assert(s@.subrange(i as int, i + p@.len())[k as int] != p@[k as int]);
            return false;
        }
    }
    assert(s@.subrange(i as int, i + p@.len()) =~= p@);
    true
}

fn find_bytes(s: &[u8], p: &[u8]) -> (r: Option<usize>)
    ensures
        match r {
            Some(i) => first_at(s@, p@, i as int),
            None => !contains_bytes(s@, p@),
        },
{
    let mut i: usize = 0;
    while i < s.len()
        invariant
            forall|j: int| 0 <= j < i ==> !bytes_at(s@, p@, j),
            i <= s@.len(),
        decreases s@.len() - i,
    {
        if bytes_match_at(s, p, i) {
            return Some(i);
        }
        i = i + 1;
    }
    if bytes_match_at(s, p, i) {
        return Some(i);
    }
    assert(!contains_bytes(s@, p@)) by {
        if contains_bytes(s@, p@) {
            let j = choose|j: int| bytes_at(s@, p@, j);
            assert(j <= i);
        }
    }
    None
}

proof fn lemma_pieces_prefix(b: Seq<u8>, i: int, j: int)
    requires
        0 <= i <= j <= b.len(),
    ensures
        byte_pieces(b.take(j)).len() >= byte_pieces(b.take(i)).len(),
        forall|k: int|
            0 <= k < byte_pieces(b.take(i)).len() - 1 ==> #[trigger] byte_pieces(b.take(j))[k]
                == byte_pieces(b.take(i))[k],
    decreases j - i,
{
    if j > i {
        lemma_pieces_prefix(b, i, j - 1);
        lemma_byte_pieces_nonempty(b.take(j - 1));
        assert(b.take(j).drop_last() =~= b.take(j - 1));
    }
}

/// Finds the first line of `text` that contains `name`, and where in that line.
pub fn find_column_range(text: &str, name: &str) -> (r: Option<(usize, usize, usize)>)
    ensures
        column_range_ok(text.spec_bytes(), name.spec_bytes(), r),
{
    let b = text.as_bytes();
    let p = name.as_bytes();
    let n = b.len();
    let mut piece: Vec<u8> = Vec::new();
    let mut line_no: usize = 0;
    let ghost bb = b@;
    proof {
        assert(bb.take(0) =~= Seq::<u8>::empty());
    }
    let mut i: usize = 0;
    while i < n
        invariant
            i <= n,
            line_no <= i,
            n == bb.len(),
            bb == b@,
            p@ == name.spec_bytes(),
            bb == text.spec_bytes(),
            byte_pieces(bb.take(i as int)).len() == line_no + 1,
            byte_pieces(bb.take(i as int)).last() == piece@,
            forall|k: int|
                0 <= k < line_no ==> !contains_bytes(
                    #[trigger] line_text(byte_pieces(bb.take(i as int))[k], true),
                    p@,
                ),
        decreases n - i,
    {
        let c = b[i];
        let ghost ps = byte_pieces(bb.take(i as int));
        assert(bb.take(i + 1).drop_last() =~= bb.take(i as int));
        if c == 10u8 {
            let mut line = piece;
            let ghost raw = line@;
            if line.len() > 0 && line[line.len() - 1] == 13u8 {
                line.pop();
                assert(line@ =~= raw.drop_last());
            }
            assert(line@ == line_text(raw, true));
            let ghost ps1 = byte_pieces(bb.take(i + 1));
            assert(ps1 == ps.push(Seq::<u8>::empty()));
            match find_bytes(line.as_slice(), p) {
                Some(start) => {
                    proof {
                        lemma_pieces_prefix(bb, i + 1, n as int);
                        assert(bb.take(n as int) =~= bb);
                        let full = byte_pieces(bb);
                        assert forall|k: int| 0 <= k <= line_no implies #[trigger] text_lines(bb)[k]
                            == line_text(ps[k], true) by {
                            assert(full[k] == ps1[k]);
                        }
                        assert forall|k: int| 0 <= k < line_no implies !contains_bytes(#[trigger] text_lines(bb)[k], p@) by {
                            assert(text_lines(bb)[k] == line_text(ps[k], true));
                            assert(!contains_bytes(line_text(ps[k], true), p@));
                        }
                        assert(text_lines(bb)[line_no as int] == line@);
                    }
                    return Some((line_no, start, start + p.len()));
                },
                None => {},
            }
            proof {
                assert forall|k: int| 0 <= k < line_no + 1 implies !contains_bytes(#[trigger] line_text(ps1[k], true), p@) by {
                    assert(ps1[k] == ps[k]);
                    if k < line_no {
                        assert(!contains_bytes(line_text(ps[k], true), p@));
                    } else {
                        assert(ps[k] == raw);
                    }
                }
            }
            piece = Vec::new();
            line_no = line_no + 1;
        } else {
            let ghost ps1 = byte_pieces(bb.take(i + 1));
            assert(ps1 == ps.update(ps.len() - 1, ps.last().push(c)));
            piece.push(c);
            assert forall|k: int| 0 <= k < line_no implies !contains_bytes(#[trigger] line_text(ps1[k], true), p@) by {
                assert(ps1[k] == ps[k]);
                assert(!contains_bytes(line_text(ps[k], true), p@));
            }
        }
        i = i + 1;
    }
    assert(bb.take(n as int) =~= bb);
    let ghost full = byte_pieces(bb);
    if piece.len() > 0 {
        match find_bytes(piece.as_slice(), p) {
            Some(start) => {
                assert(text_lines(bb)[line_no as int] == piece@);
                assert forall|k: int| 0 <= k < line_no implies !contains_bytes(#[trigger] text_lines(bb)[k], p@) by {
                    assert(text_lines(bb)[k] == line_text(full[k], true));
                    assert(!contains_bytes(line_text(byte_pieces(bb.take(n as int))[k], true), p@));
                }
                return Some((line_no, start, start + p.len()));
            },
            None => {
                assert forall|k: int| 0 <= k < text_lines(bb).len() implies !contains_bytes(#[trigger] text_lines(bb)[k], p@) by {
                    if k < line_no {
                        assert(text_lines(bb)[k] == line_text(full[k], true));
                        assert(!contains_bytes(line_text(byte_pieces(bb.take(n as int))[k], true), p@));
                    } else {
                        assert(text_lines(bb)[k] == piece@);
                    }
                }
            },
        }
    } else {
        assert forall|k: int| 0 <= k < text_lines(bb).len() implies !contains_bytes(#[trigger] text_lines(bb)[k], p@) by {
            assert(text_lines(bb)[k] == line_text(full[k], true));
            assert(!contains_bytes(line_text(byte_pieces(bb.take(n as int))[k], true), p@));
        }
    }
    None
}

impl ParseError {
    /// The error's line and column counted from zero.
    pub fn zero_based_position(&self) -> (r: (usize, usize))
        ensures
            r.0 == if self.line > 0 { self.line - 1 } else { 0 },
            r.1 == if self.col > 0 { self.col - 1 } else { 0 },
    {
        let l = if self.line > 0 { self.line - 1 } else { 0 };
        let c = if self.col > 0 { self.col - 1 } else { 0 };
        (l, c)
    }
}

/// A diagnostic for an editor: a range on the document (lines and byte columns counted from
/// zero) and a message. Every diagnostic of the linter is an error.
#[derive(Debug)]
pub struct EditorDiagnostic {
    pub start_line: usize,
    pub start_col: usize,
    pub end_line: usize,
    pub end_col: usize,
    pub message: String,
}

pub struct EditorDiagnosticView {
    pub start_line: usize,
    pub start_col: usize,
    pub end_line: usize,
    pub end_col: usize,
    pub message: Seq<char>,
}

impl View for EditorDiagnostic {
    type V = EditorDiagnosticView;

    open spec fn view(&self) -> EditorDiagnosticView {
        EditorDiagnosticView {
            start_line: self.start_line,
            start_col: self.start_col,
            end_line: self.end_line,
            end_col: self.end_col,
            message: self.message@,
        }
    }
}

/// The diagnostic of a parse error: one character wide at the error's position.
pub open spec fn parse_error_view(e: ParseError) -> EditorDiagnosticView {
    let l = if e.line > 0 { (e.line - 1) as usize } else { 0usize };
    let c = if e.col > 0 { (e.col - 1) as usize } else { 0usize };
    EditorDiagnosticView {
        start_line: l,
        start_col: c,
        end_line: l,
        end_col: (c + 1) as usize,
        message: "Parse Error: "@ + e.message@,
    }
}

/// The editor diagnostic of a parse error.
pub fn parse_error_diagnostic(e: &ParseError) -> (r: EditorDiagnostic)
    ensures
        r@ == parse_error_view(*e),
{
    let (l, c) = e.zero_based_position();
    let mut message = "Parse Error: ".to_owned();
    message.append(e.message.as_str());
    EditorDiagnostic { start_line: l, start_col: c, end_line: l, end_col: c + 1, message }
}

/// The name that the diagnostic of a column verdict points at, and its message; `None` for
/// the verdicts that are no error.
pub open spec fn verdict_target(v: VerdictView) -> Option<(Seq<char>, Seq<char>)> {
    match v {
        VerdictView::TableNotInQuery(t) => Some(
            (t, "Semantic Error: Table '"@ + t + "' is not part of the query."@),
        ),
        VerdictView::MissingColumn(t, c) => Some(
            (c, "Semantic Error: Column '"@ + t + "."@ + c + "' does not exist in schema."@),
        ),
        VerdictView::NotFound(c) => Some(
            (c, "Semantic Error: Column '"@ + c + "' not found in any queried tables."@),
        ),
        VerdictView::Ambiguous(c, _) => Some((c, "Semantic Error: Ambiguous column '"@ + c + "'."@)),
        _ => None,
    }
}

/// The targets of the verdicts that are reported, in order.
pub open spec fn reported_targets(vs: Seq<VerdictView>) -> Seq<(Seq<char>, Seq<char>)>
    decreases vs.len(),
{
    if vs.len() == 0 {
        Seq::empty()
    } else {
        let prev = reported_targets(vs.drop_last());
        match verdict_target(vs.last()) {
            Some(t) => prev.push(t),
            None => prev,
        }
    }
}

/// A diagnostic's range is where `name` first occurs in the document, on one line; or the
/// empty range at the start when the document does not contain it.
pub open spec fn range_points_at(text: Seq<u8>, name: Seq<char>, d: EditorDiagnosticView) -> bool {
    let nb = encode_utf8(name);
    ||| d.start_line == d.end_line && column_range_ok(text, nb, Some((d.start_line, d.start_col, d.end_col)))
    ||| d.start_line == 0 && d.start_col == 0 && d.end_line == 0 && d.end_col == 0
        && column_range_ok(text, nb, None)
}

/// The diagnostic of one reported verdict.
pub open spec fn diagnostic_of(text: Seq<u8>, target: (Seq<char>, Seq<char>), d: EditorDiagnosticView) -> bool {
    d.message == target.1 && range_points_at(text, target.0, d)
}

fn located(text: &str, name: &String, message: String) -> (r: EditorDiagnostic)
    ensures
        r@.message == message@,
        range_points_at(text.spec_bytes(), name@, r@),
{
    match find_column_range(text, name.as_str()) {
        Some((line, start, end)) => EditorDiagnostic {
            start_line: line,
            start_col: start,
            end_line: line,
            end_col: end,
            message,
        },
        None => EditorDiagnostic { start_line: 0, start_col: 0, end_line: 0, end_col: 0, message },
    }
}

fn concat3(a: &str, b: &str, c: &str) -> (r: String)
    ensures
        r@ == a@ + b@ + c@,
{
    let mut s = a.to_owned();
    s.append(b);
    s.append(c);
    s
}

fn verdict_diagnostic(text: &str, v: &ColumnVerdict) -> (r: Option<EditorDiagnostic>)
    ensures
        match verdict_target(v@) {
            Some(t) => r matches Some(d) && diagnostic_of(text.spec_bytes(), t, d@),
            None => r is None,
        },
{
    match v {
        ColumnVerdict::TableNotInQuery { table } => {
            let m = concat3("Semantic Error: Table '", table.as_str(), "' is not part of the query.");
            Some(located(text, table, m))
        },
        ColumnVerdict::MissingColumn { table, column } => {
            let mut m = concat3("Semantic Error: Column '", table.as_str(), ".");
            m.append(column.as_str());
            m.append("' does not exist in schema.");
            Some(located(text, column, m))
        },
        ColumnVerdict::NotFound { column } => {
            let m = concat3(
                "Semantic Error: Column '",
                column.as_str(),
                "' not found in any queried tables.",
            );
            Some(located(text, column, m))
        },
        ColumnVerdict::Ambiguous { column, .. } => {
            let m = concat3("Semantic Error: Ambiguous column '", column.as_str(), "'.");
            Some(located(text, column, m))
        },
        _ => None,
    }
}

/// The editor diagnostics of a `SELECT`'s columns (every column but `*` is resolved): for
/// each column that does not resolve, in order, its message and the place in the document
/// where the offending name first occurs.
pub fn column_diagnostics(text: &str, select: &SelectStatement, registry: &SchemaRegistry) -> (r: Vec<
    EditorDiagnostic,
>)
    ensures
        r@.len() == reported_targets(verdicts(registry@, *select, select.columns@, false)).len(),
        forall|k: int|
            0 <= k < r@.len() ==> diagnostic_of(
                text.spec_bytes(),
                reported_targets(verdicts(registry@, *select, select.columns@, false))[k],
                #[trigger] r@[k]@,
            ),
{
    let vs = check_column_references(select, registry, false);
    let ghost vv = verdict_views(vs@);
    let mut out: Vec<EditorDiagnostic> = Vec::new();
    let n = vs.len();
    for i in 0..n
        invariant
            n == vs@.len(),
            vv == verdict_views(vs@),
            out@.len() == reported_targets(vv.take(i as int)).len(),
            forall|k: int|
                0 <= k < out@.len() ==> diagnostic_of(
                    text.spec_bytes(),
                    reported_targets(vv.take(i as int))[k],
                    #[trigger] out@[k]@,
                ),
    {
        assert(vv.take(i + 1).drop_last() =~= vv.take(i as int));
        assert(vv.take(i + 1).last() == vs@[i as int]@);
        let ghost before = out@;
        match verdict_diagnostic(text, &vs[i]) {
            Some(d) => {
                out.push(d);
                assert forall|k: int| 0 <= k < out@.len() implies diagnostic_of(
                    text.spec_bytes(),
                    reported_targets(vv.take(i + 1))[k],
                    #[trigger] out@[k]@,
                ) by {
                    if k < before.len() {
                        assert(out@[k] == before[k]);
                    }
                }
            },
            None => {},
        }
    }
    assert(vv.take(n as int) =~= vv);
    out
}

} // verus!
