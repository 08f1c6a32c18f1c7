//! The tokens of the linter's SQL lexer.
use vstd::prelude::*;

verus! {

/// A token: keywords (matched in any case), identifiers, numbers, punctuation and
/// operator runs made of `= < > ! + - /`.
#[derive(Debug, PartialEq)]
pub enum Token {
    Select,
    From,
    Where,
    Join,
    On,
    And,
    Or,
    Group,
    By,
    Drop,
    Alter,
    Grant,
    Table,
    All,
    Privileges,
    Identifier(String),
    Number(String),
    Asterisk,
    Comma,
    Dot,
    Semicolon,
    Operator(String),
}

} // verus!
