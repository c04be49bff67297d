use statikk_db::ast::{Member, AST, OP};
use statikk_db::grammar::{Expected, ParseError};
use statikk_db::parser::Parser;
use statikk_db::primitive::Type;
use statikk_db::token::{KeywordKind, Token};
use statikk_db::tokenizer::Tokenizer;
use std::collections::VecDeque;

#[test]
fn parser_new() {
    let tokens = Tokenizer::new("hogefuga").lex_all().unwrap();
    assert_eq!(Parser::new(tokens).index(), 0);
}

#[test]
fn term() {
    let s = "\"kuru\"";
    let tokens = Tokenizer::new(&s).lex_all().unwrap();
    assert_eq!(
        Parser::new(tokens).term(),
        Ok(AST::StrLiteral("kuru".to_string()))
    );
}

#[test]
fn add() {
    let tokens = Tokenizer::new("1 + 2 + 3").lex_all().unwrap();
    assert_eq!(
        Parser::new(tokens).add(),
        Ok(AST::binop(
            AST::binop(AST::Number(1), OP::Add, AST::Number(2)),
            OP::Add,
            AST::Number(3)
        ))
    );
}

#[test]
fn mul() {
    let tokens = Tokenizer::new("1 + 2 * 3").lex_all().unwrap();
    assert_eq!(
        Parser::new(tokens).add(),
        Ok(AST::binop(
            AST::Number(1),
            OP::Add,
            AST::binop(AST::Number(2), OP::Mul, AST::Number(3))
        ))
    );

    let tokens = Tokenizer::new("1 + 2 / 3").lex_all().unwrap();
    assert_eq!(
        Parser::new(tokens).add(),
        Ok(AST::binop(
            AST::Number(1),
            OP::Add,
            AST::binop(AST::Number(2), OP::Div, AST::Number(3))
        ))
    );
}

#[test]
fn equal() {
    let tokens = Tokenizer::new("4 == 2 + 3").lex_all().unwrap();
    assert_eq!(
        Parser::new(tokens).equal(),
        Ok(AST::binop(
            AST::Number(4),
            OP::EqEq,
            AST::binop(AST::Number(2), OP::Add, AST::Number(3))
        ))
    );
}

#[test]
fn method_call() {
    let tokens = Tokenizer::new("User.select()").lex_all().unwrap();
    assert_eq!(
        Parser::new(tokens).method_call(),
        Ok(AST::MethodCall {
            table: "User".to_string(),
            name: "select".to_string(),
            args: vec![]
        })
    );

    let tokens = Tokenizer::new("User.select(1)").lex_all().unwrap();
    assert_eq!(
        Parser::new(tokens).method_call(),
        Ok(AST::MethodCall {
            table: "User".to_string(),
            name: "select".to_string(),
            args: vec![AST::Number(1)]
        })
    );

    let tokens = Tokenizer::new("User.select(1+1, 2)").lex_all().unwrap();
    assert_eq!(
        Parser::new(tokens).method_call(),
        Ok(AST::MethodCall {
            table: "User".to_string(),
            name: "select".to_string(),
            args: vec![
                AST::binop(AST::Number(1), OP::Add, AST::Number(1)),
                AST::Number(2)
            ]
        })
    );
}

#[test]
fn table_def() {
    let tokens = Tokenizer::new("Table NewUser {}").lex_all().unwrap();
    assert_eq!(
        Parser::new(tokens).table_def(),
        Ok(AST::TableDef {
            name: "NewUser".to_string(),
            members: vec![]
        })
    );

    let tokens = Tokenizer::new("Table NewUser {id: int}").lex_all().unwrap();
    assert_eq!(
        Parser::new(tokens).table_def(),
        Ok(AST::TableDef {
            name: "NewUser".to_string(),
            members: vec![Member {
                typ: Type::Int,
                field: "id".to_string(),
            }]
        })
    );

    let tokens = Tokenizer::new("Table NewUser {id: int, name: string,}")
        .lex_all()
        .unwrap();
    assert_eq!(
        Parser::new(tokens).table_def(),
        Ok(AST::TableDef {
            name: "NewUser".to_string(),
            members: vec![
                Member {
                    typ: Type::Int,
                    field: "id".to_string(),
                },
                Member {
                    typ: Type::StrLiteral,
                    field: "name".to_string(),
                }
            ]
        })
    );

    let tokens = Tokenizer::new("Table NewUser {id: int, name: string}")
        .lex_all()
        .unwrap();
    assert_eq!(
        Parser::new(tokens).table_def(),
        Ok(AST::TableDef {
            name: "NewUser".to_string(),
            members: vec![
                Member {
                    typ: Type::Int,
                    field: "id".to_string(),
                },
                Member {
                    typ: Type::StrLiteral,
                    field: "name".to_string(),
                }
            ]
        })
    );
}

fn parse_text(text: &str) -> Result<AST, ParseError> {
    Parser::new(Tokenizer::new(text).lex_all().unwrap()).parse()
}

fn num(n: i32) -> AST {
    AST::Number(n)
}

#[test]
fn parse_dispatches_on_first_token() {
    assert_eq!(parse_text("7"), Ok(num(7)));
    assert_eq!(
        parse_text("\"a\" == \"b\""),
        Ok(AST::binop(
            AST::StrLiteral("a".to_string()),
            OP::EqEq,
            AST::StrLiteral("b".to_string())
        ))
    );
    assert_eq!(
        parse_text("User.insert(1)"),
        Ok(AST::MethodCall {
            table: "User".to_string(),
            name: "insert".to_string(),
            args: vec![num(1)]
        })
    );
    assert_eq!(
        parse_text("Table T {}"),
        Ok(AST::TableDef {
            name: "T".to_string(),
            members: vec![]
        })
    );
}

#[test]
fn parse_unsupported_statement() {
    assert_eq!(
        parse_text("+ 1"),
        Err(ParseError::UnexpectedToken {
            expected: Expected::Statement,
            found: Token::Add
        })
    );
    assert_eq!(
        parse_text("int x"),
        Err(ParseError::UnexpectedToken {
            expected: Expected::Statement,
            found: Token::Keyword(KeywordKind::Int)
        })
    );
    assert_eq!(parse_text(""), Err(ParseError::UnexpectedEnd));
}

#[test]
fn parse_is_left_associative() {
    assert_eq!(
        parse_text("8 - 4 - 2"),
        Ok(AST::binop(
            AST::binop(num(8), OP::Minus, num(4)),
            OP::Minus,
            num(2)
        ))
    );
    assert_eq!(
        parse_text("8 / 4 * 2"),
        Ok(AST::binop(
            AST::binop(num(8), OP::Div, num(4)),
            OP::Mul,
            num(2)
        ))
    );
    assert_eq!(
        parse_text("1 == 2 == 3"),
        Ok(AST::binop(
            AST::binop(num(1), OP::EqEq, num(2)),
            OP::EqEq,
            num(3)
        ))
    );
}

#[test]
fn parse_precedence() {
    assert_eq!(
        parse_text("1 * 2 + 3 * 4 == 5 - 6 / 7"),
        Ok(AST::binop(
            AST::binop(
                AST::binop(num(1), OP::Mul, num(2)),
                OP::Add,
                AST::binop(num(3), OP::Mul, num(4))
            ),
            OP::EqEq,
            AST::binop(
                num(5),
                OP::Minus,
                AST::binop(num(6), OP::Div, num(7))
            )
        ))
    );
}

#[test]
fn parse_leaves_what_follows_the_statement() {
    let tokens = Tokenizer::new("User.select(); 1 + 2").lex_all().unwrap();
    let mut parser = Parser::new(tokens);
    assert!(parser.parse().is_ok());
    assert_eq!(parser.index(), 5);
    assert_eq!(parser.peek(), Some(&Token::Symbol(';')));
    assert_eq!(parser.get(), Ok(Token::Symbol(';')));
    assert_eq!(
        parser.parse(),
        Ok(AST::binop(num(1), OP::Add, num(2)))
    );
    assert_eq!(parser.index(), 9);
    assert_eq!(parser.peek(), None);
    assert_eq!(parser.get(), Err(ParseError::UnexpectedEnd));
    assert_eq!(parser.index(), 9);
}

#[test]
fn parse_expression_errors() {
    assert_eq!(parse_text("1 +"), Err(ParseError::UnexpectedEnd));
    assert_eq!(
        parse_text("1 + *"),
        Err(ParseError::UnexpectedToken {
            expected: Expected::Term,
            found: Token::Mul
        })
    );
    assert_eq!(
        parse_text("1 * x"),
        Err(ParseError::UnexpectedToken {
            expected: Expected::Term,
            found: Token::Ident("x".to_string())
        })
    );
    let mut parser = Parser::new(VecDeque::new());
    assert_eq!(parser.term(), Err(ParseError::UnexpectedEnd));
    assert_eq!(parser.mul(), Err(ParseError::UnexpectedEnd));
    assert_eq!(parser.expr(), Err(ParseError::UnexpectedEnd));
}

#[test]
fn parse_method_call_errors() {
    assert_eq!(
        parse_text("User select()"),
        Err(ParseError::UnexpectedToken {
            expected: Expected::Symbol('.'),
            found: Token::Ident("select".to_string())
        })
    );
    assert_eq!(
        parse_text("User.1()"),
        Err(ParseError::UnexpectedToken {
            expected: Expected::Identifier,
            found: Token::Number(1)
        })
    );
    assert_eq!(
        parse_text("User.select)"),
        Err(ParseError::UnexpectedToken {
            expected: Expected::Symbol('('),
            found: Token::Symbol(')')
        })
    );
    assert_eq!(
        parse_text("User.select(1,)"),
        Err(ParseError::UnexpectedToken {
            expected: Expected::Term,
            found: Token::Symbol(')')
        })
    );
    assert_eq!(
        parse_text("User.select(1 2)"),
        Err(ParseError::UnexpectedToken {
            expected: Expected::Symbol(')'),
            found: Token::Number(2)
        })
    );
    assert_eq!(parse_text("User.select(1"), Err(ParseError::UnexpectedEnd));
    assert_eq!(parse_text("User.select("), Err(ParseError::UnexpectedEnd));
    assert_eq!(parse_text("User"), Err(ParseError::UnexpectedEnd));
}

#[test]
fn parse_table_def_separators() {
    let empty = Ok(AST::TableDef {
        name: "T".to_string(),
        members: vec![],
    });
    assert_eq!(parse_text("Table T {,}"), empty);

    assert_eq!(
        parse_text("Table T {a: int,}"),
        Ok(AST::TableDef {
            name: "T".to_string(),
            members: vec![Member {
                typ: Type::Int,
                field: "a".to_string()
            }]
        })
    );
    assert_eq!(
        parse_text("Table T {a: int,,}"),
        Err(ParseError::UnexpectedToken {
            expected: Expected::Symbol('}'),
            found: Token::Symbol(',')
        })
    );
    assert_eq!(
        parse_text("Table T {a: int b: int}"),
        Err(ParseError::UnexpectedToken {
            expected: Expected::Symbol('}'),
            found: Token::Ident("b".to_string())
        })
    );
    assert_eq!(
        parse_text("Table T {,a: int}"),
        Err(ParseError::UnexpectedToken {
            expected: Expected::Symbol('}'),
            found: Token::Ident("a".to_string())
        })
    );
}

#[test]
fn parse_table_def_errors() {
    assert_eq!(
        parse_text("Table 1 {}"),
        Err(ParseError::UnexpectedToken {
            expected: Expected::Identifier,
            found: Token::Number(1)
        })
    );
    assert_eq!(
        parse_text("Table T (a: int)"),
        Err(ParseError::UnexpectedToken {
            expected: Expected::Symbol('{'),
            found: Token::Symbol('(')
        })
    );
    assert_eq!(
        parse_text("Table T {a int}"),
        Err(ParseError::UnexpectedToken {
            expected: Expected::Symbol(':'),
            found: Token::Keyword(KeywordKind::Int)
        })
    );
    assert_eq!(
        parse_text("Table T {a: Table}"),
        Err(ParseError::UnexpectedToken {
            expected: Expected::TypeName,
            found: Token::Keyword(KeywordKind::Table)
        })
    );
    assert_eq!(
        parse_text("Table T {a: b}"),
        Err(ParseError::UnexpectedToken {
            expected: Expected::TypeName,
            found: Token::Ident("b".to_string())
        })
    );
    assert_eq!(parse_text("Table T {a: int"), Err(ParseError::UnexpectedEnd));
    assert_eq!(parse_text("Table T {a:"), Err(ParseError::UnexpectedEnd));
    assert_eq!(parse_text("Table"), Err(ParseError::UnexpectedEnd));

    let tokens = Tokenizer::new("NewUser {}").lex_all().unwrap();
    assert_eq!(
        Parser::new(tokens).table_def(),
        Err(ParseError::UnexpectedToken {
            expected: Expected::TableKeyword,
            found: Token::Ident("NewUser".to_string())
        })
    );
}

#[test]
fn parse_table_def_keeps_declaration_order() {
    let expected = |fields: &[(&str, Type)]| {
        Ok(AST::TableDef {
            name: "User".to_string(),
            members: fields
                .iter()
                .map(|(field, typ)| Member {
                    typ: *typ,
                    field: field.to_string(),
                })
                .collect(),
        })
    };
    assert_eq!(
        parse_text("Table User { b: string, a: int, c: int }"),
        expected(&[("b", Type::StrLiteral), ("a", Type::Int), ("c", Type::Int)])
    );
    assert_eq!(
        parse_text("Table User { c: int, a: int, b: string, }"),
        expected(&[("c", Type::Int), ("a", Type::Int), ("b", Type::StrLiteral)])
    );
}

#[test]
fn from_token_conversions() {
    assert_eq!(OP::from_token(Token::EqEq), OP::EqEq);
    assert_eq!(OP::from_token(Token::Add), OP::Add);
    assert_eq!(OP::from_token(Token::Minus), OP::Minus);
    assert_eq!(OP::from_token(Token::Mul), OP::Mul);
    assert_eq!(OP::from_token(Token::Slash), OP::Div);
    assert_eq!(
        Type::from_token(Token::Keyword(KeywordKind::Int)),
        Type::Int
    );
    assert_eq!(
        Type::from_token(Token::Keyword(KeywordKind::StrLiteral)),
        Type::StrLiteral
    );
}
