//! The command line: `lint` and `lsp`.
use vstd::prelude::*;

verus! {

/// The parsed command line.
#[derive(Debug)]
pub struct Cli {
    pub command: Commands,
}

/// The sub-commands.
#[derive(Debug)]
pub enum Commands {
    /// Lint a SQL file, optionally against a DDL schema, a dbt manifest and a WASM plugin,
    /// optionally fixing style issues in place.
    Lint {
        path: String,
        schema: Option<String>,
        dbt_manifest: Option<String>,
        plugin: Option<String>,
        fix: bool,
        verbose: bool,
        dialect: String,
    },
    /// Start the language server, optionally with a DDL schema.
    Lsp { schema: Option<String>, dialect: String },
}

} // verus!
