use vstd::prelude::*;

use crate::token::TokenType;

verus! {

/// Every way a compilation can fail. All of them abort the compilation.
#[derive(Debug, PartialEq, Eq)]
pub enum CompileError {
    /// A character that may not appear where it was found: inside a string
    /// literal, or after the decimal point of a number.
    IllegalCharacter(char),
    /// A character that starts no token (a `!` without `=` reports the
    /// character that follows it).
    UnexpectedCharacter(char),
    /// The current token is not of the kind the grammar requires here.
    ExpectedToken { expected: TokenType, found: TokenType },
    /// A statement starts with a token that begins no statement.
    InvalidStatement(String),
    /// A primary expression is neither a number nor a variable.
    UnexpectedToken(String),
    /// A condition has no comparison operator after its first expression.
    MissingComparison(String),
    /// A variable is read before any `LET` or `INPUT` has assigned it.
    UndeclaredVariable(String),
    /// A label is declared a second time.
    DuplicateLabel(String),
    /// Labels that a `GOTO` names but no `LABEL` declares, in the order of
    /// their first reference.
    UndeclaredLabel(Vec<String>),
}

} // verus!
