//! The schema registry: tables, their columns, and the columns marked as personal data
//! or as the partition key.
pub mod ddl;
pub mod dbt;
pub mod security;
pub mod cost;
pub mod columns;

use vstd::prelude::*;
use vstd::hash_map::StringHashMap;
use crate::text::str_eq;

verus! {

/// The columns of one table, with the personal-data columns and the partition column.
#[derive(Debug)]
pub struct TableDef {
    pub columns: Vec<String>,
    pub pii_columns: Vec<String>,
    pub partition_column: Option<String>,
}

/// What a `TableDef` holds, as character sequences.
pub struct TableDefView {
    pub columns: Seq<Seq<char>>,
    pub pii_columns: Seq<Seq<char>>,
    pub partition_column: Option<Seq<char>>,
}

pub open spec fn strings_view(v: Seq<String>) -> Seq<Seq<char>> {
    v.map_values(|s: String| s@)
}

pub open spec fn opt_string_view(o: Option<String>) -> Option<Seq<char>> {
    match o {
        Some(s) => Some(s@),
        None => None,
    }
}

impl View for TableDef {
    type V = TableDefView;

    open spec fn view(&self) -> TableDefView {
        TableDefView {
            columns: strings_view(self.columns@),
            pii_columns: strings_view(self.pii_columns@),
            partition_column: opt_string_view(self.partition_column),
        }
    }
}

pub open spec fn empty_table() -> TableDefView {
    TableDefView { columns: Seq::empty(), pii_columns: Seq::empty(), partition_column: None }
}

/// A copy of a list of strings.
pub fn clone_strings(v: &Vec<String>) -> (r: Vec<String>)
    ensures
        r@ == v@,
{
    let mut r: Vec<String> = Vec::new();
    for i in 0..v.len()
        invariant
            r@ == v@.take(i as int),
    {
        r.push(v[i].clone());
        assert(v@.take(i + 1) =~= v@.take(i as int).push(v@[i as int]));
    }
    assert(v@.take(v@.len() as int) =~= v@);
    r
}

pub fn clone_opt_string(o: &Option<String>) -> (r: Option<String>)
    ensures
        r == *o,
{
    match o {
        Some(s) => Some(s.clone()),
        None => None,
    }
}

/// Whether a list of strings holds `x`.
pub fn strings_contain(v: &Vec<String>, x: &str) -> (r: bool)
    ensures
        r == strings_view(v@).contains(x@),
{
    let n = v.len();
    for i in 0..n
        invariant
            n == v@.len(),
            forall|j: int| 0 <= j < i ==> v@[j]@ != x@,
    {
        if str_eq(v[i].as_str(), x) {
            assert(strings_view(v@)[i as int] == x@);
            return true;
        }
    }
    assert(!strings_view(v@).contains(x@)) by {
        if strings_view(v@).contains(x@) {
            let k = choose|k: int| 0 <= k < strings_view(v@).len() && strings_view(v@)[k] == x@;
            assert(v@[k]@ == x@);
        }
    }
    false
}

impl TableDef {
    pub fn empty() -> (r: TableDef)
        ensures
            r@ == empty_table(),
    {
        let r = TableDef { columns: Vec::new(), pii_columns: Vec::new(), partition_column: None };
        assert(r@.columns =~= Seq::<Seq<char>>::empty());
        assert(r@.pii_columns =~= Seq::<Seq<char>>::empty());
        r
    }

    pub fn duplicate(&self) -> (r: TableDef)
        ensures
            r.columns@ == self.columns@,
            r.pii_columns@ == self.pii_columns@,
            r.partition_column == self.partition_column,
            r@ == self@,
    {
        TableDef {
            columns: clone_strings(&self.columns),
            pii_columns: clone_strings(&self.pii_columns),
            partition_column: clone_opt_string(&self.partition_column),
        }
    }
}

/// Whether `column` is listed among the columns of table `table`.
pub open spec fn column_known(m: Map<Seq<char>, TableDefView>, table: Seq<char>, column: Seq<char>) -> bool {
    m.contains_key(table) && m[table].columns.contains(column)
}

/// The tables of `ts` (in their order, repeats kept) that have `column`.
pub open spec fn tables_having(
    m: Map<Seq<char>, TableDefView>,
    column: Seq<char>,
    ts: Seq<Seq<char>>,
) -> Seq<Seq<char>>
    decreases ts.len(),
{
    if ts.len() == 0 {
        Seq::empty()
    } else {
        let prev = tables_having(m, column, ts.drop_last());
        if column_known(m, ts.last(), column) {
            prev.push(ts.last())
        } else {
            prev
        }
    }
}

/// The registry of known tables, keyed by table name.
pub struct SchemaRegistry {
    tables: StringHashMap<TableDef>,
}

impl View for SchemaRegistry {
    type V = Map<Seq<char>, TableDefView>;

    closed spec fn view(&self) -> Map<Seq<char>, TableDefView> {
        self.tables@.map_values(|d: TableDef| d@)
    }
}

impl SchemaRegistry {
    /// An empty registry.
    pub fn new() -> (r: Self)
        ensures
            r@ == Map::<Seq<char>, TableDefView>::empty(),
    {
        let r = SchemaRegistry { tables: StringHashMap::new() };
        assert(r@ =~= Map::<Seq<char>, TableDefView>::empty());
        r
    }

    /// The definition of a table, if the registry knows it.
    pub fn get_table(&self, name: &str) -> (r: Option<&TableDef>)
        ensures
            match r {
                Some(d) => self@.contains_key(name@) && d@ == self@[name@],
                None => !self@.contains_key(name@),
            },
    {
        self.tables.get(name)
    }

    /// Adds (or replaces) a table definition.
    pub fn insert_table(&mut self, name: String, def: TableDef)
        ensures
            final(self)@ == old(self)@.insert(name@, def@),
    {
        let ghost dv = def@;
        self.tables.insert(name, def);
        assert(self@ =~= old(self)@.insert(name@, dv));
    }

    /// Registers the fixed demonstration table `users(user_id, email, age)`.
    pub fn load_mock_schema(&mut self)
        ensures
            final(self)@ == old(self)@.insert(
                "users"@,
                TableDefView {
                    columns: seq!["user_id"@, "email"@, "age"@],
                    pii_columns: Seq::empty(),
                    partition_column: None,
                },
            ),
    {
        let mut columns: Vec<String> = Vec::new();
        columns.push("user_id".to_owned());
        columns.push("email".to_owned());
        columns.push("age".to_owned());
        let def = TableDef { columns, pii_columns: Vec::new(), partition_column: None };
        assert(def@.columns =~= seq!["user_id"@, "email"@, "age"@]);
        assert(def@.pii_columns =~= Seq::<Seq<char>>::empty());
        self.insert_table("users".to_owned(), def);
    }

    /// Whether `column` is a column of `table`.
    pub fn validate_column(&self, table: &str, column: &str) -> (r: bool)
        ensures
            r == column_known(self@, table@, column@),
    {
        match self.get_table(table) {
            Some(def) => strings_contain(&def.columns, column),
            None => false,
        }
    }

    /// The active tables (in order) that have `column`.
    pub fn find_tables_with_column(&self, column: &str, active_tables: &[String]) -> (r: Vec<String>)
        ensures
            strings_view(r@) == tables_having(self@, column@, strings_view(active_tables@)),
    {
        let mut matches: Vec<String> = Vec::new();
        let n = active_tables.len();
        for i in 0..n
            invariant
                n == active_tables@.len(),
                strings_view(matches@) == tables_having(
                    self@,
                    column@,
                    strings_view(active_tables@.take(i as int)),
                ),
        {
            let t = &active_tables[i];
            assert(strings_view(active_tables@.take(i + 1)).drop_last() =~= strings_view(
                active_tables@.take(i as int),
            ));
            assert(strings_view(active_tables@.take(i + 1)).last() == t@);
            if self.validate_column(t.as_str(), column) {
                matches.push(t.clone());
                assert(strings_view(matches@) =~= tables_having(
                    self@,
                    column@,
                    strings_view(active_tables@.take(i as int)),
                ).push(t@));
            }
        }
        assert(active_tables@.take(n as int) =~= active_tables@);
        matches
    }
}

} // verus!
