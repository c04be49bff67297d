//! A small query language over an in-memory store of typed tables.
//!
//! Source text is split into tokens by [`tokenizer::Tokenizer`], one statement
//! is read from the tokens by [`parser::Parser`], and the resulting tree is
//! run by [`database::Database`] against schema-checked row storage.
//!
//! Every function carries a contract over a mathematical model of its data:
//! text is a `Seq<char>`, and each datatype has a view in which strings are
//! such sequences. The models are functions of their own: [`tokenizer::lex_from`]
//! for the tokens of a text, [`grammar::parse_statement`] for the statement at
//! the front of some tokens, [`value::eval`] for the value of an expression,
//! [`table::run`] for a command on a table and [`database::step`] for a
//! statement on a store. What holds of these models in general is proved
//! beside them, and in [`spacing`] for blanks between tokens.

pub mod ast;
pub mod database;
pub mod grammar;
pub mod parser;
pub mod primitive;
pub mod spacing;
pub mod table;
pub mod token;
pub mod tokenizer;
pub mod value;
