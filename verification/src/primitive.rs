//! The types that a column can have.

use crate::token::{KeywordKind, SpecToken, Token};
use vstd::prelude::*;

verus! {

/// The type of a column.
#[derive(Debug, PartialEq, Eq, Clone, Copy, Structural)]
pub enum Type {
    Int,
    StrLiteral,
}

/// Tells whether a token names a column type.
pub open spec fn is_type_token(token: SpecToken) -> bool {
    token == SpecToken::Keyword(KeywordKind::Int) || token == SpecToken::Keyword(
        KeywordKind::StrLiteral,
    )
}

/// The column type that a token names.
pub open spec fn type_of_token(token: SpecToken) -> Type {
    if token == SpecToken::Keyword(KeywordKind::Int) {
        Type::Int
    } else {
        Type::StrLiteral
    }
}

impl Type {
    /// The column type that the keyword `t` names.
    pub fn from_token(t: Token) -> (typ: Self)
        requires
            is_type_token(t@),
        ensures
            typ == type_of_token(t@),
    {
        match t {
            Token::Keyword(KeywordKind::Int) => Type::Int,
            _ => Type::StrLiteral,
        }
    }
}

} // verus!
