//! Splitting a stream of SQL text into statements at top-level semicolons, skipping
//! `COPY ... FROM stdin` data blocks and statements the linter does not handle.
use vstd::prelude::*;
use crate::text::{
    to_chars, string_from_chars, is_blank, trim_start, trim_end, trim_chars, trim_start_chars,
    trim_end_chars, has_prefix, has_suffix, starts_with, ends_with, chars_eq, unicode_upper,
    upper_chars,
};
use crate::pattern::{regex_is_match, regex_compiles, regex_matches};

verus! {

/// Where the scanner is: in plain text, a `--` comment, a `/* */` comment, or a quoted
/// string or identifier.
#[derive(PartialEq, Eq, Structural, Clone, Copy)]
pub enum ScanState {
    Normal,
    LineComment,
    BlockComment,
    SingleQuote,
    DoubleQuote,
}

/// The index just after the first `;` at or after `i` that lies outside comments and
/// quotes, scanning from state `st`. A doubled quote inside a quoted part stands for itself.
pub open spec fn statement_end(s: Seq<char>, i: int, st: ScanState) -> Option<int>
    decreases s.len() - i,
{
    if i < 0 || i >= s.len() {
        None
    } else {
        let c = s[i];
        let has_next = i + 1 < s.len();
        match st {
            ScanState::LineComment => if c == '\n' {
                statement_end(s, i + 1, ScanState::Normal)
            } else {
                statement_end(s, i + 1, ScanState::LineComment)
            },
            ScanState::BlockComment => if c == '*' && has_next && s[i + 1] == '/' {
                statement_end(s, i + 2, ScanState::Normal)
            } else {
                statement_end(s, i + 1, ScanState::BlockComment)
            },
            ScanState::SingleQuote => if c == '\'' {
                if has_next && s[i + 1] == '\'' {
                    statement_end(s, i + 2, ScanState::SingleQuote)
                } else {
                    statement_end(s, i + 1, ScanState::Normal)
                }
            } else {
                statement_end(s, i + 1, ScanState::SingleQuote)
            },
            ScanState::DoubleQuote => if c == '"' {
                if has_next && s[i + 1] == '"' {
                    statement_end(s, i + 2, ScanState::DoubleQuote)
                } else {
                    statement_end(s, i + 1, ScanState::Normal)
                }
            } else {
                statement_end(s, i + 1, ScanState::DoubleQuote)
            },
            ScanState::Normal => if c == '-' && has_next && s[i + 1] == '-' {
                statement_end(s, i + 2, ScanState::LineComment)
            } else if c == '/' && has_next && s[i + 1] == '*' {
                statement_end(s, i + 2, ScanState::BlockComment)
            } else if c == '\'' {
                statement_end(s, i + 1, ScanState::SingleQuote)
            } else if c == '"' {
                statement_end(s, i + 1, ScanState::DoubleQuote)
            } else if c == ';' {
                Some(i + 1)
            } else {
                statement_end(s, i + 1, ScanState::Normal)
            },
        }
    }
}

pub proof fn lemma_statement_end_bounds(s: Seq<char>, i: int, st: ScanState)
    ensures
        statement_end(s, i, st) matches Some(e) ==> 0 <= i < e <= s.len() && s[e - 1] == ';',
    decreases s.len() - i,
{
    if 0 <= i < s.len() {
        let has_next = i + 1 < s.len();
        lemma_statement_end_bounds(s, i + 1, ScanState::Normal);
        lemma_statement_end_bounds(s, i + 1, ScanState::LineComment);
        lemma_statement_end_bounds(s, i + 1, ScanState::BlockComment);
        lemma_statement_end_bounds(s, i + 1, ScanState::SingleQuote);
        lemma_statement_end_bounds(s, i + 1, ScanState::DoubleQuote);
        if has_next {
            lemma_statement_end_bounds(s, i + 2, ScanState::Normal);
            lemma_statement_end_bounds(s, i + 2, ScanState::LineComment);
            lemma_statement_end_bounds(s, i + 2, ScanState::BlockComment);
            lemma_statement_end_bounds(s, i + 2, ScanState::SingleQuote);
            lemma_statement_end_bounds(s, i + 2, ScanState::DoubleQuote);
        }
    }
}

/// The first complete statement of a buffer and what is left after it (nothing, when only
/// white space is left), or `None` when the buffer holds no complete statement.
pub open spec fn split_first_statement(buf: Seq<char>) -> Option<(Seq<char>, Seq<char>)> {
    match statement_end(buf, 0, ScanState::Normal) {
        Some(e) => {
            let rest = buf.skip(e);
            Some((buf.take(e), if trim_start(rest).len() == 0 { Seq::empty() } else { rest }))
        },
        None => None,
    }
}

/// The pattern of the statements the reader drops: ownership changes, sequences and
/// aggregates.
pub open spec fn unsupported_pattern() -> Seq<char> {
    "(?i)\\b(ALTER\\s+.*?\\s+OWNER\\s+TO|CREATE\\s+SEQUENCE|CREATE\\s+AGGREGATE)\\b"@
}

/// A statement the reader drops.
pub open spec fn is_unsupported(stmt: Seq<char>) -> bool {
    regex_compiles(unsupported_pattern()) && regex_matches(unsupported_pattern(), stmt)
}

fn unsupported(stmt: &[char]) -> (r: bool)
    ensures
        r == is_unsupported(stmt@),
{
    let text = string_from_chars(stmt);
    match regex_is_match(
        "(?i)\\b(ALTER\\s+.*?\\s+OWNER\\s+TO|CREATE\\s+SEQUENCE|CREATE\\s+AGGREGATE)\\b",
        text.as_str(),
    ) {
        Some(b) => b,
        None => false,
    }
}

/// The first supported statement left in the buffer, and the buffer after it:
/// unsupported statements before it are dropped.
pub open spec fn poll_spec(buf: Seq<char>) -> (Option<Seq<char>>, Seq<char>)
    decreases buf.len(),
{
    match split_first_statement(buf) {
        Some((stmt, rest)) => {
            if rest.len() < buf.len() && is_unsupported(stmt) {
                poll_spec(rest)
            } else {
                (Some(stmt), rest)
            }
        },
        None => (None, buf),
    }
}

/// The text of a data line that ends a `COPY ... FROM stdin` block.
pub open spec fn ends_copy_data(line: Seq<char>) -> bool {
    trim_end(line) == "\\."@
}

/// A line that starts a `COPY ... FROM stdin` statement.
pub open spec fn starts_copy(line: Seq<char>) -> bool {
    has_prefix(unicode_upper(line), "COPY "@) && has_suffix(
        unicode_upper(trim_end(line)),
        " FROM STDIN;"@,
    )
}

/// A reader's state: the pending text, and whether it is inside a `COPY` data block.
pub struct ReaderView {
    pub buffer: Seq<char>,
    pub skip_data: bool,
}

/// What feeding one line does: inside a `COPY` data block the line is dropped, the block
/// ending at a line `\\.`; a line that starts a `COPY ... FROM stdin;` statement completes
/// the pending text, which comes out whole; any other line is appended to the pending text.
pub open spec fn push_spec(st: ReaderView, line: Seq<char>) -> (Option<Seq<char>>, ReaderView) {
    if st.skip_data {
        (None, ReaderView { buffer: st.buffer, skip_data: !ends_copy_data(line) })
    } else if starts_copy(line) {
        (Some(st.buffer + line), ReaderView { buffer: Seq::empty(), skip_data: true })
    } else {
        (None, ReaderView { buffer: st.buffer + line, skip_data: false })
    }
}

/// What the end of the input does to the pending text: a blank text gives nothing and
/// stays; otherwise the text is taken, and comes out unless it is unsupported.
pub open spec fn finish_spec(buf: Seq<char>) -> (Option<Seq<char>>, Seq<char>) {
    if is_blank(buf) {
        (None, buf)
    } else if is_unsupported(buf) {
        (None, Seq::empty())
    } else {
        (Some(buf), Seq::empty())
    }
}

/// Incremental statement splitting: lines are pushed in, statements come out.
pub struct StreamingSqlReader {
    buffer: Vec<char>,
    skip_data: bool,
}

impl View for StreamingSqlReader {
    type V = ReaderView;

    closed spec fn view(&self) -> ReaderView {
        ReaderView { buffer: self.buffer@, skip_data: self.skip_data }
    }
}

impl StreamingSqlReader {
    /// A reader with nothing pending.
    pub fn new() -> (r: Self)
        ensures
            r@ == (ReaderView { buffer: Seq::empty(), skip_data: false }),
    {
        let r = StreamingSqlReader { buffer: Vec::new(), skip_data: false };
        assert(r@.buffer =~= Seq::<char>::empty());
        r
    }

    /// Takes the first complete statement out of the buffer.
    fn extract_statement(&mut self) -> (r: Option<Vec<char>>)
        ensures
            final(self).skip_data == old(self).skip_data,
            match split_first_statement(old(self).buffer@) {
                Some((stmt, rest)) => r matches Some(v) && v@ == stmt && final(self).buffer@ == rest,
                None => r is None && final(self).buffer@ == old(self).buffer@,
            },
    {
        let chars = &self.buffer;
        let n = chars.len();
        let mut i: usize = 0;
        let mut st = ScanState::Normal;
        let mut statement_end_at: Option<usize> = None;
        while i < n
            invariant_except_break
                statement_end_at is None,
                statement_end(chars@, 0, ScanState::Normal) == statement_end(chars@, i as int, st),
            invariant
                n == chars@.len(),
                i <= n,
            ensures
                match statement_end_at {
                    Some(e) => statement_end(chars@, 0, ScanState::Normal) == Some(e as int),
                    None => statement_end(chars@, 0, ScanState::Normal) is None,
                },
            decreases n - i,
        {
            let c = chars[i];
            let has_next = i + 1 < n;
            match st {
                ScanState::LineComment => {
                    if c == '\n' {
                        st = ScanState::Normal;
                    }
                    i = i + 1;
                },
                ScanState::BlockComment => {
                    if c == '*' && (has_next && chars[i + 1] == '/') {
                        st = ScanState::Normal;
                        i = i + 2;
                    } else {
                        i = i + 1;
                    }
                },
                ScanState::SingleQuote => {
                    if c == '\'' {
                        if has_next && chars[i + 1] == '\'' {
                            i = i + 2;
                        } else {
                            st = ScanState::Normal;
                            i = i + 1;
                        }
                    } else {
                        i = i + 1;
                    }
                },
                ScanState::DoubleQuote => {
                    if c == '"' {
                        if (has_next && chars[i + 1] == '"') {
                            i = i + 2;
                        } else {
                            st = ScanState::Normal;
                            i = i + 1;
                        }
                    } else {
                        i = i + 1;
                    }
                },
                ScanState::Normal => {
                    if c == '-' && (has_next && chars[i + 1] == '-') {
                        st = ScanState::LineComment;
                        i = i + 2;
                    } else if c == '/' && (has_next && chars[i + 1] == '*') {
                        st = ScanState::BlockComment;
                        i = i + 2;
                    } else if c == '\'' {
                        st = ScanState::SingleQuote;
                        i = i + 1;
                    } else if c == '"' {
                        st = ScanState::DoubleQuote;
                        i = i + 1;
                    } else if c == ';' {
                        statement_end_at = Some(i + 1);
                        break;
                    } else {
                        i = i + 1;
                    }
                },
            }
        }
        proof {
            lemma_statement_end_bounds(chars@, 0, ScanState::Normal);
        }
        match statement_end_at {
            Some(e) => {
                let mut stmt: Vec<char> = Vec::new();
                let mut rest: Vec<char> = Vec::new();
                let mut k: usize = 0;
                while k < e
                    invariant
                        e <= n == chars@.len(),
                        k <= e,
                        stmt@ == chars@.take(k as int),
                    decreases e - k,
                {
                    stmt.push(chars[k]);
                    assert(chars@.take(k + 1) =~= chars@.take(k as int).push(chars@[k as int]));
                    k = k + 1;
                }
                while k < n
                    invariant
                        e <= k <= n == chars@.len(),
                        rest@ == chars@.subrange(e as int, k as int),
                    decreases n - k,
                {
                    rest.push(chars[k]);
                    assert(chars@.subrange(e as int, k + 1) =~= chars@.subrange(e as int, k as int).push(chars@[k as int]));
                    k = k + 1;
                }
                assert(rest@ =~= chars@.skip(e as int));
                let lead = trim_start_chars(rest.as_slice());
                if lead.len() == 0 {
                    self.buffer = Vec::new();
                    assert(self.buffer@ =~= Seq::<char>::empty());
                } else {
                    self.buffer = rest;
                }
                Some(stmt)
            },
            None => None,
        }
    }

    /// Takes the next statement the linter handles out of the pending text, dropping the
    /// unsupported ones before it; `None` when no complete statement is pending.
    pub fn poll_statement(&mut self) -> (r: Option<String>)
        ensures
            final(self)@.skip_data == old(self)@.skip_data,
            final(self)@.buffer == poll_spec(old(self)@.buffer).1,
            match poll_spec(old(self)@.buffer).0 {
                Some(stmt) => r matches Some(s) && s@ == stmt,
                None => r is None,
            },
        decreases old(self)@.buffer.len(),
    {
        let ghost b0 = self.buffer@;
        match self.extract_statement() {
            Some(stmt) => {
                proof {
                    lemma_statement_end_bounds(b0, 0, ScanState::Normal);
                }
                assert(self.buffer@.len() < b0.len());
                if unsupported(stmt.as_slice()) {
                    self.poll_statement()
                } else {
                    Some(string_from_chars(stmt.as_slice()))
                }
            },
            None => None,
        }
    }

    /// Feeds one line (with its line ending) read from the input. Inside a `COPY` data
    /// block the line is dropped, the block ending at a line `\\.`; a line that starts a
    /// `COPY ... FROM stdin;` statement completes the pending text, which is returned whole.
    pub fn push_line(&mut self, line: &str) -> (r: Option<String>)
        ensures
            final(self)@ == push_spec(old(self)@, line@).1,
            match push_spec(old(self)@, line@).0 {
                Some(t) => r matches Some(s) && s@ == t,
                None => r is None,
            },
    {
        let cs = to_chars(line);
        if self.skip_data {
            let t = trim_end_chars(cs.as_slice());
            let terminator = to_chars("\\.");
            if chars_eq(t.as_slice(), terminator.as_slice()) {
                self.skip_data = false;
            }
            return None;
        }
        let upper = upper_chars(cs.as_slice());
        let trimmed = trim_end_chars(cs.as_slice());
        let upper_trimmed = upper_chars(trimmed.as_slice());
        let copy = to_chars("COPY ");
        let from_stdin = to_chars(" FROM STDIN;");
        let ghost b0 = self.buffer@;
        for i in 0..cs.len()
            invariant
                self.buffer@ == b0 + cs@.take(i as int),
                self.skip_data == old(self).skip_data,
        {
            self.buffer.push(cs[i]);
            assert(b0 + cs@.take(i + 1) =~= (b0 + cs@.take(i as int)).push(cs@[i as int]));
        }
        assert(cs@.take(cs@.len() as int) =~= cs@);
        if starts_with(upper.as_slice(), copy.as_slice()) && ends_with(
            upper_trimmed.as_slice(),
            from_stdin.as_slice(),
        ) {
            self.skip_data = true;
            let result = string_from_chars(self.buffer.as_slice());
            self.buffer = Vec::new();
            assert(self.buffer@ =~= Seq::<char>::empty());
            return Some(result);
        }
        None
    }

    /// At the end of the input: the pending text, unless it is blank or unsupported.
    pub fn finish(&mut self) -> (r: Option<String>)
        ensures
            final(self)@.skip_data == old(self)@.skip_data,
            final(self)@.buffer == finish_spec(old(self)@.buffer).1,
            match finish_spec(old(self)@.buffer).0 {
                Some(t) => r matches Some(s) && s@ == t,
                None => r is None,
            },
    {
        let t = trim_chars(self.buffer.as_slice());
        if t.len() == 0 {
            return None;
        }
        let result = string_from_chars(self.buffer.as_slice());
        let bad = unsupported(self.buffer.as_slice());
        self.buffer = Vec::new();
        assert(self.buffer@ =~= Seq::<char>::empty());
        if bad {
            None
        } else {
            Some(result)
        }
    }
}

} // verus!
