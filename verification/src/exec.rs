//! Virtual execution: constant folding and dry-run rules.
pub mod eval;
pub mod rules;
