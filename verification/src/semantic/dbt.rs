//! Table definitions of a dbt project's manifest: models and sources with their columns.
use vstd::prelude::*;
use crate::semantic::{SchemaRegistry, TableDef, TableDefView, strings_view};
use crate::text::str_eq;

verus! {

/// A value of a dbt `meta` entry, as far as the loader reads it.
#[derive(Debug, PartialEq)]
pub enum MetaValue {
    Bool(bool),
    Str(String),
    Other,
}

/// A column of a dbt node.
#[derive(Debug)]
pub struct DbtColumn {
    pub name: String,
    pub data_type: Option<String>,
    pub meta: Vec<(String, MetaValue)>,
}

/// A dbt node (model, seed, source, ...). `columns` and `meta` hold the manifest's objects
/// as key-value pairs in the order they were read.
#[derive(Debug)]
pub struct DbtNode {
    pub name: String,
    pub resource_type: String,
    pub columns: Vec<(String, DbtColumn)>,
    pub meta: Vec<(String, MetaValue)>,
}

/// The nodes and sources of a dbt manifest, keyed by their unique ids.
#[derive(Debug)]
pub struct DbtManifest {
    pub nodes: Vec<(String, DbtNode)>,
    pub sources: Vec<(String, DbtNode)>,
}

/// The value stored under `key` (the first entry with that key).
pub open spec fn meta_get(meta: Seq<(String, MetaValue)>, key: Seq<char>) -> Option<MetaValue>
    decreases meta.len(),
{
    if meta.len() == 0 {
        None
    } else if meta[0].0@ == key {
        Some(meta[0].1)
    } else {
        meta_get(meta.drop_first(), key)
    }
}

/// The column keys, in order.
pub open spec fn column_keys(cols: Seq<(String, DbtColumn)>) -> Seq<Seq<char>> {
    cols.map_values(|c: (String, DbtColumn)| c.0@)
}

/// The column keys (in order) whose `meta` has `pii: true`.
pub open spec fn pii_keys(cols: Seq<(String, DbtColumn)>) -> Seq<Seq<char>>
    decreases cols.len(),
{
    if cols.len() == 0 {
        Seq::empty()
    } else {
        let prev = pii_keys(cols.drop_last());
        if meta_get(cols.last().1.meta@, "pii"@) == Some(MetaValue::Bool(true)) {
            prev.push(cols.last().0@)
        } else {
            prev
        }
    }
}

/// The table definition of a dbt node: its column keys, the ones marked `pii: true`, and
/// the string under `partition_column` in the node's `meta`.
pub open spec fn node_table(n: DbtNode) -> TableDefView {
    TableDefView {
        columns: column_keys(n.columns@),
        pii_columns: pii_keys(n.columns@),
        partition_column: match meta_get(n.meta@, "partition_column"@) {
            Some(MetaValue::Str(p)) => Some(p@),
            _ => None,
        },
    }
}

/// The nodes that become tables: models, sources and seeds.
pub open spec fn is_table_node(n: DbtNode) -> bool {
    n.resource_type@ == "model"@ || n.resource_type@ == "source"@ || n.resource_type@ == "seed"@
}

/// The tables after registering the given nodes in order, each under its `name`.
pub open spec fn dbt_fold(m: Map<Seq<char>, TableDefView>, nodes: Seq<(String, DbtNode)>) -> Map<
    Seq<char>,
    TableDefView,
>
    decreases nodes.len(),
{
    if nodes.len() == 0 {
        m
    } else {
        let prev = dbt_fold(m, nodes.drop_last());
        let n = nodes.last().1;
        if is_table_node(n) {
            prev.insert(n.name@, node_table(n))
        } else {
            prev
        }
    }
}

/// The tables after loading a manifest: its nodes, then its sources.
pub open spec fn dbt_load(m: Map<Seq<char>, TableDefView>, manifest: DbtManifest) -> Map<
    Seq<char>,
    TableDefView,
> {
    dbt_fold(dbt_fold(m, manifest.nodes@), manifest.sources@)
}

/// Looks up `key` in a list of `meta` entries.
pub fn meta_lookup<'a>(meta: &'a Vec<(String, MetaValue)>, key: &str) -> (r: Option<&'a MetaValue>)
    ensures
        match r {
            Some(v) => meta_get(meta@, key@) == Some(*v),
            None => meta_get(meta@, key@) is None,
        },
{
    let n = meta.len();
    assert(meta@.skip(0) =~= meta@);
    for i in 0..n
        invariant
            n == meta@.len(),
            meta_get(meta@, key@) == meta_get(meta@.skip(i as int), key@),
    {
        let entry = &meta[i];
        assert(meta@.skip(i as int)[0] == meta@[i as int]);
        if str_eq(entry.0.as_str(), key) {
            return Some(&entry.1);
        }
        assert(meta@.skip(i as int).drop_first() =~= meta@.skip(i + 1));
    }
    None
}

fn node_to_table(node: &DbtNode) -> (r: TableDef)
    ensures
        r@ == node_table(*node),
{
    let mut columns: Vec<String> = Vec::new();
    let mut pii_columns: Vec<String> = Vec::new();
    let n = node.columns.len();
    for i in 0..n
        invariant
            n == node.columns@.len(),
            columns@.len() == i,
            forall|j: int| 0 <= j < i ==> #[trigger] columns@[j]@ == node.columns@[j].0@,
            strings_view(pii_columns@) == pii_keys(node.columns@.take(i as int)),
    {
        let entry = &node.columns[i];
        let col_name = &entry.0;
        let col_def = &entry.1;
        assert(node.columns@.take(i + 1).drop_last() =~= node.columns@.take(i as int));
        assert(node.columns@.take(i + 1).last() == *entry);
        columns.push(col_name.clone());
        match meta_lookup(&col_def.meta, "pii") {
            Some(MetaValue::Bool(true)) => {
                pii_columns.push(col_name.clone());
                assert(strings_view(pii_columns@) =~= pii_keys(node.columns@.take(i + 1)));
            },
            _ => {},
        }
    }
    assert(node.columns@.take(n as int) =~= node.columns@);
    assert(strings_view(columns@) =~= column_keys(node.columns@));
    let partition_column = match meta_lookup(&node.meta, "partition_column") {
        Some(MetaValue::Str(p)) => Some(p.clone()),
        _ => None,
    };
    TableDef { columns, pii_columns, partition_column }
}

fn is_table_resource(node: &DbtNode) -> (r: bool)
    ensures
        r == is_table_node(*node),
{
    str_eq(node.resource_type.as_str(), "model") || str_eq(node.resource_type.as_str(), "source")
        || str_eq(node.resource_type.as_str(), "seed")
}

impl SchemaRegistry {
    fn register_nodes(&mut self, nodes: &Vec<(String, DbtNode)>)
        ensures
            final(self)@ == dbt_fold(old(self)@, nodes@),
    {
        let n = nodes.len();
        for i in 0..n
            invariant
                n == nodes@.len(),
                self@ == dbt_fold(old(self)@, nodes@.take(i as int)),
        {
            let node = &nodes[i].1;
            assert(nodes@.take(i + 1).drop_last() =~= nodes@.take(i as int));
            if is_table_resource(node) {
                let def = node_to_table(node);
                self.insert_table(node.name.clone(), def);
            }
        }
        assert(nodes@.take(n as int) =~= nodes@);
    }

    /// Registers the models, sources and seeds of a dbt manifest as tables, nodes first and
    /// sources after, each under its node name.
    pub fn load_from_dbt_manifest(&mut self, manifest: &DbtManifest)
        ensures
            final(self)@ == dbt_load(old(self)@, *manifest),
    {
        self.register_nodes(&manifest.nodes);
        self.register_nodes(&manifest.sources);
    }
}

} // verus!
