# omnisql

A schema-aware SQL linter whose core is verified with Verus.

## Layout

- `src/` — the verified library.
  - `stream.rs`: splitting SQL text into statements at top-level semicolons (quotes and
    comments respected), skipping `COPY ... FROM stdin` data and unsupported statements.
  - `parser.rs`, `parser/sqltree.rs`: parsing with `sqlparser` and converting its tree into
    the linter's syntax tree.
  - `semantic.rs` and `semantic/`: the schema registry, the DDL and dbt loaders, column
    resolution, and the security and cost rules.
  - `exec/`: constant folding and the dry-run rules (impossible filters, division by zero).
  - `style.rs` and `style/`: the style rules, the rule engine and the keyword fixer; the
    keyword fixes apply to code only, never to string literals, quoted identifiers or
    comments (`style/lexical.rs`).
  - `diagnostics.rs`: editor diagnostics (where a name occurs, parse error positions).
  - `plugin.rs`: plugin findings and the sample plugin's checks.
  - `properties.rs`: properties of the linter as a whole, proved over the specifications.
  - `text.rs`, `numeric.rs`, `pattern.rs`: string and number helpers, and the regular
    expressions (evaluated by the `regex` crate).
- `app/` — the `omnisql` command: argument parsing (`clap`), file I/O, the dbt manifest
  reader (`serde_json`), the WASM plugin host (`wasmtime`) and the language server
  (`tower-lsp`).
- `tests/` — tests of the library.
