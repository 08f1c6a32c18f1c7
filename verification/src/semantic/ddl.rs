//! Reading table definitions out of `CREATE TABLE` DDL text.
use vstd::prelude::*;
use crate::semantic::{SchemaRegistry, TableDef, TableDefView, empty_table, opt_string_view};
use crate::text::{
    split_on, lemma_split_on_nonempty,
    to_chars, trim, trim_chars, has_prefix, has_infix, starts_with, chars_eq, contains, words,
    split_whitespace, trim_end_char, trim_end_matches_char, unicode_upper, upper_chars,
    string_from_chars,
};

verus! {

/// The loader's state between lines: the tables so far and the table being defined.
pub type DdlState = (Map<Seq<char>, TableDefView>, Option<Seq<char>>);

/// The table name of a `CREATE TABLE` line's words: the third word with trailing `(`
/// removed, or the fourth one when that leaves nothing.
pub open spec fn create_table_name(parts: Seq<Seq<char>>) -> Seq<char> {
    let n0 = trim_end_char(parts[2], '(');
    if n0.len() == 0 && parts.len() > 3 {
        trim_end_char(parts[3], '(')
    } else {
        n0
    }
}

/// A line of a table body that declares a constraint rather than a column.
pub open spec fn is_constraint_line(upper: Seq<char>) -> bool {
    has_prefix(upper, "CONSTRAINT"@) || has_prefix(upper, "PRIMARY KEY"@) || has_prefix(
        upper,
        "FOREIGN KEY"@,
    ) || has_prefix(upper, "UNIQUE"@)
}

/// The column named by a line of a table body: its first word without trailing commas.
pub open spec fn column_word(line: Seq<char>) -> Seq<char> {
    let ws = words(line);
    trim_end_char(if ws.len() > 0 { ws[0] } else { Seq::empty() }, ',')
}

pub open spec fn marks_pii(line: Seq<char>) -> bool {
    has_infix(line, "COMMENT '@PII'"@) || has_infix(line, "COMMENT '@pii'"@)
}

pub open spec fn marks_partition(line: Seq<char>) -> bool {
    has_infix(line, "COMMENT '@PARTITION'"@) || has_infix(line, "COMMENT '@partition'"@)
}

/// A table definition with one more column, marked as the line's comment says.
pub open spec fn add_column(d: TableDefView, col: Seq<char>, line: Seq<char>) -> TableDefView {
    TableDefView {
        columns: d.columns.push(col),
        pii_columns: if marks_pii(line) { d.pii_columns.push(col) } else { d.pii_columns },
        partition_column: if marks_partition(line) { Some(col) } else { d.partition_column },
    }
}

/// What one DDL line does to the loader's state.
pub open spec fn ddl_line(st: DdlState, raw: Seq<char>) -> DdlState {
    let m = st.0;
    let cur = st.1;
    let line = trim(raw);
    if line.len() == 0 || has_prefix(line, "--"@) {
        st
    } else if has_prefix(unicode_upper(line), "CREATE TABLE"@) {
        let parts = words(line);
        if parts.len() >= 3 {
            let name = create_table_name(parts);
            (m.insert(name, empty_table()), Some(name))
        } else {
            st
        }
    } else if has_prefix(line, ");"@) || line == ")"@ {
        (m, None)
    } else {
        match cur {
            Some(t) => {
                if is_constraint_line(unicode_upper(line)) {
                    st
                } else {
                    let col = column_word(line);
                    if col.len() > 0 && !has_prefix(col, "("@) && m.contains_key(t) {
                        (m.insert(t, add_column(m[t], col, line)), cur)
                    } else {
                        st
                    }
                }
            },
            None => st,
        }
    }
}

/// The loader's state after a sequence of lines.
pub open spec fn ddl_fold(st: DdlState, lines: Seq<Seq<char>>) -> DdlState
    decreases lines.len(),
{
    if lines.len() == 0 {
        st
    } else {
        ddl_line(ddl_fold(st, lines.drop_last()), lines.last())
    }
}

/// The tables after loading a DDL text into `m`.
pub open spec fn ddl_load(m: Map<Seq<char>, TableDefView>, ddl: Seq<char>) -> Map<
    Seq<char>,
    TableDefView,
> {
    ddl_fold((m, None), split_on(ddl, '\n')).0
}

impl SchemaRegistry {
    /// Loads the tables that the `CREATE TABLE` statements of a DDL text define. Column
    /// lines whose comment is `'@PII'` or `'@PARTITION'` mark personal-data columns and the
    /// partition column.
    pub fn load_from_ddl(&mut self, ddl: &str)
        ensures
            final(self)@ == ddl_load(old(self)@, ddl@),
    {
        let s = to_chars(ddl);
        let mut current: Option<String> = None;
        let mut line: Vec<char> = Vec::new();
        let n = s.len();
        proof {
            lemma_split_on_nonempty(s@.take(0), '\n');
            assert(s@.take(0) =~= Seq::<char>::empty());
            assert(split_on(s@.take(0), '\n').drop_last() =~= Seq::<Seq<char>>::empty());
        }
        for i in 0..n
            invariant
                n == s@.len(),
                s@ == ddl@,
                split_on(s@.take(i as int), '\n').len() >= 1,
                (self@, opt_string_view(current)) == ddl_fold(
                    (old(self)@, None),
                    split_on(s@.take(i as int), '\n').drop_last(),
                ),
                line@ == split_on(s@.take(i as int), '\n').last(),
        {
            let c = s[i];
            let ghost p = split_on(s@.take(i as int), '\n');
            assert(s@.take(i + 1).drop_last() =~= s@.take(i as int));
            assert(s@.take(i + 1).last() == c);
            if c == '\n' {
                assert(split_on(s@.take(i + 1), '\n') == p.push(Seq::<char>::empty()));
                assert(p.push(Seq::<char>::empty()).drop_last() =~= p);
                assert(p =~= p.drop_last().push(p.last()));
                self.load_ddl_line(&mut current, line.as_slice());
                line = Vec::new();
            } else {
                assert(split_on(s@.take(i + 1), '\n') == p.update(p.len() - 1, p.last().push(c)));
                assert(p.update(p.len() - 1, p.last().push(c)).drop_last() =~= p.drop_last());
                line.push(c);
            }
            proof {
                lemma_split_on_nonempty(s@.take(i + 1), '\n');
            }
        }
        let ghost p = split_on(s@.take(n as int), '\n');
        assert(s@.take(n as int) =~= s@);
        assert(p =~= p.drop_last().push(p.last()));
        self.load_ddl_line(&mut current, line.as_slice());
    }

    fn load_ddl_line(&mut self, current: &mut Option<String>, raw: &[char])
        ensures
            (final(self)@, opt_string_view(*final(current))) == ddl_line(
                (old(self)@, opt_string_view(*old(current))),
                raw@,
            ),
    {
        let line = trim_chars(raw);
        let dashes = to_chars("--");
        if line.len() == 0 || starts_with(line.as_slice(), dashes.as_slice()) {
            return;
        }
        let upper = upper_chars(line.as_slice());
        let create = to_chars("CREATE TABLE");
        if starts_with(upper.as_slice(), create.as_slice()) {
            let parts = split_whitespace(line.as_slice());
            if parts.len() >= 3 {
                let mut name = trim_end_matches_char(parts[2].as_slice(), '(');
                if name.len() == 0 && parts.len() > 3 {
                    name = trim_end_matches_char(parts[3].as_slice(), '(');
                }
                let name_s = string_from_chars(name.as_slice());
                self.insert_table(name_s.clone(), TableDef::empty());
                *current = Some(name_s);
            }
            return;
        }
        let close1 = to_chars(");");
        let close2 = to_chars(")");
        if starts_with(line.as_slice(), close1.as_slice()) || chars_eq(
            line.as_slice(),
            close2.as_slice(),
        ) {
            *current = None;
            return;
        }
        match current {
            Some(table_name) => {
                let k1 = to_chars("CONSTRAINT");
                let k2 = to_chars("PRIMARY KEY");
                let k3 = to_chars("FOREIGN KEY");
                let k4 = to_chars("UNIQUE");
                if starts_with(upper.as_slice(), k1.as_slice()) || starts_with(
                    upper.as_slice(),
                    k2.as_slice(),
                ) || starts_with(upper.as_slice(), k3.as_slice()) || starts_with(
                    upper.as_slice(),
                    k4.as_slice(),
                ) {
                    return;
                }
                let ws = split_whitespace(line.as_slice());
                let first: Vec<char> = if ws.len() > 0 {
                    trim_end_matches_char(ws[0].as_slice(), ',')
                } else {
                    let e: Vec<char> = Vec::new();
                    assert(e@ =~= trim_end_char(Seq::<char>::empty(), ','));
                    e
                };
                let paren = to_chars("(");
                if first.len() > 0 && !starts_with(first.as_slice(), paren.as_slice()) {
                    match self.get_table(table_name.as_str()) {
                        Some(def) => {
                            let mut d = def.duplicate();
                            let col_name = string_from_chars(first.as_slice());
                            d.columns.push(col_name.clone());
                            let p1 = to_chars("COMMENT '@PII'");
                            let p2 = to_chars("COMMENT '@pii'");
                            if contains(line.as_slice(), p1.as_slice()) || contains(
                                line.as_slice(),
                                p2.as_slice(),
                            ) {
                                d.pii_columns.push(col_name.clone());
                            }
                            let q1 = to_chars("COMMENT '@PARTITION'");
                            let q2 = to_chars("COMMENT '@partition'");
                            if contains(line.as_slice(), q1.as_slice()) || contains(
                                line.as_slice(),
                                q2.as_slice(),
                            ) {
                                d.partition_column = Some(col_name);
                            }
                            let ghost old_d = def@;
                            assert(d@.columns =~= old_d.columns.push(first@));
                            assert(d@.pii_columns =~= add_column(old_d, first@, line@).pii_columns);
                            assert(d@ == add_column(old_d, first@, line@));
                            let tn = table_name.clone();
                            self.insert_table(tn, d);
                        },
                        None => {},
                    }
                }
            },
            None => {},
        }
    }
}

} // verus!
