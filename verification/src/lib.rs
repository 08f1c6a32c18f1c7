//! OmniSQL: a schema-aware SQL linter. The statement splitter, the parser's tree
//! conversion, the schema loaders and the style, semantic, security, cost and dry-run rules
//! are verified with Verus.
pub mod text;
pub mod numeric;
pub mod pattern;
pub mod lexer;
pub mod parser;
pub mod exec;
pub mod semantic;
pub mod style;
pub mod stream;
pub mod diagnostics;
pub mod cli;
pub mod plugin;
pub mod properties;
