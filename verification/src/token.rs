//! The vocabulary shared by the tokenizer and the parser.

use vstd::prelude::*;
use vstd::string::*;

verus! {

/// The reserved words of the language.
#[derive(Debug, PartialEq, Eq, Clone, Copy, Structural)]
pub enum KeywordKind {
    Table,
    Int,
    StrLiteral,
}

/// An atomic lexical unit.
#[derive(Debug, PartialEq)]
pub enum Token {
    Number(i32),
    Ident(String),
    Symbol(char),
    StrLiteral(String),
    Keyword(KeywordKind),
    EqEq,
    Add,
    Minus,
    Mul,
    Slash,
}

/// What a [`Token`] stands for: the same variants, with text as a sequence of
/// characters.
pub ghost enum SpecToken {
    Number(i32),
    Ident(Seq<char>),
    Symbol(char),
    StrLiteral(Seq<char>),
    Keyword(KeywordKind),
    EqEq,
    Add,
    Minus,
    Mul,
    Slash,
}

impl View for Token {
    type V = SpecToken;

    open spec fn view(&self) -> SpecToken {
        match self {
            Token::Number(n) => SpecToken::Number(*n),
            Token::Ident(s) => SpecToken::Ident(s@),
            Token::Symbol(c) => SpecToken::Symbol(*c),
            Token::StrLiteral(s) => SpecToken::StrLiteral(s@),
            Token::Keyword(k) => SpecToken::Keyword(*k),
            Token::EqEq => SpecToken::EqEq,
            Token::Add => SpecToken::Add,
            Token::Minus => SpecToken::Minus,
            Token::Mul => SpecToken::Mul,
            Token::Slash => SpecToken::Slash,
        }
    }
}

impl DeepView for Token {
    type V = SpecToken;

    open spec fn deep_view(&self) -> SpecToken {
        self.view()
    }
}

/// The text of the keyword that introduces a table definition.
pub open spec fn table_word() -> Seq<char> {
    seq!['T', 'a', 'b', 'l', 'e']
}

/// The text of the keyword that names the integer column type.
pub open spec fn int_word() -> Seq<char> {
    seq!['i', 'n', 't']
}

/// The text of the keyword that names the string column type.
pub open spec fn string_word() -> Seq<char> {
    seq!['s', 't', 'r', 'i', 'n', 'g']
}

/// The token that a run of letters stands for: a keyword where the run is
/// exactly a reserved word, an identifier otherwise.
pub open spec fn word_token(text: Seq<char>) -> SpecToken {
    if text == table_word() {
        SpecToken::Keyword(KeywordKind::Table)
    } else if text == int_word() {
        SpecToken::Keyword(KeywordKind::Int)
    } else if text == string_word() {
        SpecToken::Keyword(KeywordKind::StrLiteral)
    } else {
        SpecToken::Ident(text)
    }
}

impl Token {
    /// Resolves a word against the reserved words.
    pub fn lookup(literal: String) -> (token: Token)
        ensures
            token@ == word_token(literal@),
    {
        proof {
            reveal_strlit("Table");
            reveal_strlit("int");
            reveal_strlit("string");
            assert("Table"@ =~= table_word());
            assert("int"@ =~= int_word());
            assert("string"@ =~= string_word());
        }
        if literal == String::from_str("Table") {
            Token::Keyword(KeywordKind::Table)
        } else if literal == String::from_str("int") {
            Token::Keyword(KeywordKind::Int)
        } else if literal == String::from_str("string") {
            Token::Keyword(KeywordKind::StrLiteral)
        } else {
            Token::Ident(literal)
        }
    }
}

} // verus!
