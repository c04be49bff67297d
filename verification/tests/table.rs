use statikk_db::ast::{Member, AST, OP};
use statikk_db::parser::Parser;
use statikk_db::primitive::Type;
use statikk_db::table::{Table, TableError};
use statikk_db::tokenizer::Tokenizer;
use statikk_db::value::{EvalError, Value};

#[test]
fn table_new() {
    let t = Table::new("NewUser".to_string(), vec![]);
    assert_eq!(t.rows().len(), 0);
}

#[test]
fn eval_args() {
    let args = vec![AST::Number(1), AST::Number(2)];
    assert_eq!(
        Table::eval_args(args),
        Ok(vec![Value::Int(1), Value::Int(2)])
    );

    let args = vec![AST::Number(1), AST::StrLiteral("kuru".to_string())];
    assert_eq!(
        Table::eval_args(args),
        Ok(vec![Value::Int(1), Value::StrLiteral("kuru".to_string())])
    );
}

#[test]
fn type_check() {
    let table = Table::new(
        "NewUser".to_string(),
        vec![Member {
            field: "id".to_string(),
            typ: Type::Int,
        }],
    );

    assert_eq!(table.type_check(&vec![]), Err(TableError::WrongArity));
    assert_eq!(
        TableError::WrongArity.message(),
        "Wrong number of arguments."
    );

    assert_eq!(table.type_check(&vec![Value::Int(10)]), Ok(()));

    assert_eq!(
        table.type_check(&vec![Value::StrLiteral("hoge".to_string())]),
        Err(TableError::TypeMismatch { position: 0 })
    );
    assert_eq!(
        TableError::TypeMismatch { position: 0 }.message(),
        "Unmatched type of arg."
    );
}

#[test]
fn eval_ast() {
    let ast = AST::binop(AST::Number(1), OP::Add, AST::Number(2));
    assert_eq!(Value::eval_ast(ast), Ok(Value::Int(3)));

    let ast = AST::binop(
        AST::binop(AST::Number(1), OP::Add, AST::Number(2)),
        OP::Add,
        AST::Number(3),
    );
    assert_eq!(Value::eval_ast(ast), Ok(Value::Int(6)));

    let ast = AST::binop(
        AST::binop(AST::Number(1), OP::Mul, AST::Number(2)),
        OP::Add,
        AST::Number(3),
    );
    assert_eq!(Value::eval_ast(ast), Ok(Value::Int(5)));

    let ast = AST::binop(
        AST::binop(AST::Number(1), OP::Mul, AST::Number(2)),
        OP::Minus,
        AST::Number(3),
    );
    assert_eq!(Value::eval_ast(ast), Ok(Value::Int(-1)));

    let ast = AST::binop(
        AST::binop(AST::Number(1), OP::Mul, AST::Number(2)),
        OP::EqEq,
        AST::Number(2),
    );
    assert_eq!(Value::eval_ast(ast), Ok(Value::Bool(true)));
}

fn evaluate(text: &str) -> Result<Value, EvalError> {
    let tokens = Tokenizer::new(text).lex_all().unwrap();
    Value::eval_ast(Parser::new(tokens).parse().unwrap())
}

fn text(s: &str) -> AST {
    AST::StrLiteral(s.to_string())
}

fn users() -> Table {
    Table::new(
        "User".to_string(),
        vec![
            Member {
                field: "id".to_string(),
                typ: Type::Int,
            },
            Member {
                field: "name".to_string(),
                typ: Type::StrLiteral,
            },
        ],
    )
}

#[test]
fn evaluate_from_text() {
    assert_eq!(evaluate("1 + 2 + 3"), Ok(Value::Int(6)));
    assert_eq!(evaluate("1 + 2 * 3"), Ok(Value::Int(7)));
    assert_eq!(evaluate("1 * 2 == 2"), Ok(Value::Bool(true)));
    assert_eq!(evaluate("1 * 2 == 3"), Ok(Value::Bool(false)));
    assert_eq!(evaluate("10 - 4 - 3"), Ok(Value::Int(3)));
    assert_eq!(evaluate("0 - 5"), Ok(Value::Int(-5)));
    assert_eq!(
        evaluate("\"kuru\""),
        Ok(Value::StrLiteral("kuru".to_string()))
    );
}

#[test]
fn evaluate_unsupported_operations() {
    assert_eq!(evaluate("6 / 3"), Err(EvalError::UnsupportedOperation));
    assert_eq!(
        evaluate("\"a\" + \"b\""),
        Err(EvalError::UnsupportedOperation)
    );
    assert_eq!(
        evaluate("\"a\" == \"a\""),
        Err(EvalError::UnsupportedOperation)
    );
    assert_eq!(evaluate("1 + \"a\""), Err(EvalError::UnsupportedOperation));
    assert_eq!(
        evaluate("1 == 1 == 1"),
        Err(EvalError::UnsupportedOperation)
    );
    assert_eq!(
        Value::combine(Value::Bool(true), OP::EqEq, Value::Bool(true)),
        Err(EvalError::UnsupportedOperation)
    );
}

#[test]
fn evaluate_overflow() {
    assert_eq!(evaluate("2147483647 + 1"), Err(EvalError::Overflow));
    assert_eq!(evaluate("2147483647 + 0"), Ok(Value::Int(2147483647)));
    assert_eq!(evaluate("0 - 2147483647 - 2"), Err(EvalError::Overflow));
    assert_eq!(
        evaluate("0 - 2147483647 - 1"),
        Ok(Value::Int(-2147483648))
    );
    assert_eq!(evaluate("65536 * 32768"), Err(EvalError::Overflow));
    assert_eq!(evaluate("65536 * 32767"), Ok(Value::Int(2147418112)));
}

#[test]
fn evaluate_left_error_comes_first() {
    assert_eq!(
        evaluate("1 / 1 + 2147483647 * 2"),
        Err(EvalError::UnsupportedOperation)
    );
    assert_eq!(
        evaluate("2147483647 * 2 + 1 / 1"),
        Err(EvalError::Overflow)
    );
}

#[test]
fn evaluate_statement_is_an_error() {
    let call = AST::MethodCall {
        table: "User".to_string(),
        name: "select".to_string(),
        args: vec![],
    };
    assert_eq!(Value::eval_ast(call), Err(EvalError::NotAnExpression));
    let def = AST::TableDef {
        name: "User".to_string(),
        members: vec![],
    };
    assert_eq!(
        Value::eval_ast(AST::binop(AST::Number(1), OP::Add, def)),
        Err(EvalError::NotAnExpression)
    );
}

#[test]
fn eval_args_first_error_in_order() {
    let args = vec![
        AST::Number(1),
        AST::binop(AST::Number(1), OP::Div, AST::Number(1)),
        AST::binop(AST::Number(2147483647), OP::Add, AST::Number(1)),
    ];
    assert_eq!(
        Table::eval_args(args),
        Err(EvalError::UnsupportedOperation)
    );
    assert_eq!(Table::eval_args(vec![]), Ok(vec![]));
}

#[test]
fn insert_type_safety() {
    let mut table = Table::new(
        "T".to_string(),
        vec![Member {
            field: "id".to_string(),
            typ: Type::Int,
        }],
    );
    assert_eq!(
        table.execute("insert".to_string(), vec![text("hello")]),
        Err(TableError::TypeMismatch { position: 0 })
    );
    assert_eq!(table.rows().len(), 0);

    assert_eq!(
        table.execute("insert".to_string(), vec![AST::Number(10)]),
        Ok(())
    );
    assert_eq!(table.rows().len(), 1);
    assert_eq!(table.rows()[0], vec![Value::Int(10)]);
}

#[test]
fn insert_arity_safety() {
    let mut table = Table::new(
        "T".to_string(),
        vec![Member {
            field: "id".to_string(),
            typ: Type::Int,
        }],
    );
    assert_eq!(
        table.execute("insert".to_string(), vec![]),
        Err(TableError::WrongArity)
    );
    assert_eq!(
        table.execute(
            "insert".to_string(),
            vec![AST::Number(1), AST::Number(2)]
        ),
        Err(TableError::WrongArity)
    );
    assert_eq!(table.rows().len(), 0);
}

#[test]
fn insert_appends_in_order() {
    let mut table = users();
    for (id, name) in [(3, "c"), (1, "a"), (3, "c")] {
        assert_eq!(
            table.execute("insert".to_string(), vec![AST::Number(id), text(name)]),
            Ok(())
        );
    }
    assert_eq!(
        table.rows(),
        &vec![
            vec![Value::Int(3), Value::StrLiteral("c".to_string())],
            vec![Value::Int(1), Value::StrLiteral("a".to_string())],
            vec![Value::Int(3), Value::StrLiteral("c".to_string())],
        ]
    );
    assert_eq!(table.name(), "User");
    assert_eq!(table.members().len(), 2);
}

#[test]
fn insert_names_the_first_mismatch() {
    let mut table = users();
    assert_eq!(
        table.execute("insert".to_string(), vec![AST::Number(1), AST::Number(2)]),
        Err(TableError::TypeMismatch { position: 1 })
    );
    assert_eq!(
        table.execute("insert".to_string(), vec![text("a"), AST::Number(2)]),
        Err(TableError::TypeMismatch { position: 0 })
    );
    assert_eq!(
        table.execute(
            "insert".to_string(),
            vec![
                AST::binop(AST::Number(1), OP::EqEq, AST::Number(1)),
                text("a")
            ]
        ),
        Err(TableError::TypeMismatch { position: 0 })
    );
    assert_eq!(table.rows().len(), 0);
}

#[test]
fn insert_evaluates_its_arguments() {
    let mut table = users();
    assert_eq!(
        table.execute(
            "insert".to_string(),
            vec![
                AST::binop(AST::Number(2), OP::Mul, AST::Number(21)),
                text("x")
            ]
        ),
        Ok(())
    );
    assert_eq!(
        table.rows()[0],
        vec![Value::Int(42), Value::StrLiteral("x".to_string())]
    );
    assert_eq!(
        table.execute(
            "insert".to_string(),
            vec![
                AST::binop(AST::Number(2), OP::Div, AST::Number(1)),
                text("x")
            ]
        ),
        Err(TableError::Eval(EvalError::UnsupportedOperation))
    );
    assert_eq!(table.rows().len(), 1);
}

fn three_rows() -> Table {
    let mut table = Table::new(
        "T".to_string(),
        vec![Member {
            field: "id".to_string(),
            typ: Type::Int,
        }],
    );
    for id in [10, 20, 30] {
        table
            .execute("insert".to_string(), vec![AST::Number(id)])
            .unwrap();
    }
    table
}

#[test]
fn delete_removes_the_row_at_the_index() {
    let mut table = three_rows();
    assert_eq!(
        table.execute("delete".to_string(), vec![AST::Number(1)]),
        Ok(())
    );
    assert_eq!(
        table.rows(),
        &vec![vec![Value::Int(10)], vec![Value::Int(30)]]
    );
    assert_eq!(
        table.execute("delete".to_string(), vec![AST::Number(0)]),
        Ok(())
    );
    assert_eq!(table.rows(), &vec![vec![Value::Int(30)]]);
}

#[test]
fn delete_out_of_range() {
    let mut table = three_rows();
    assert_eq!(
        table.execute("delete".to_string(), vec![AST::Number(3)]),
        Err(TableError::IndexOutOfRange)
    );
    assert_eq!(
        table.execute(
            "delete".to_string(),
            vec![AST::binop(AST::Number(0), OP::Minus, AST::Number(1))]
        ),
        Err(TableError::IndexOutOfRange)
    );
    assert_eq!(table.rows().len(), 3);
    assert_eq!(
        table.execute("delete".to_string(), vec![AST::Number(2)]),
        Ok(())
    );
    assert_eq!(table.rows().len(), 2);
}

#[test]
fn delete_without_an_index_does_nothing() {
    let mut table = three_rows();
    assert_eq!(table.execute("delete".to_string(), vec![]), Ok(()));
    assert_eq!(
        table.execute("delete".to_string(), vec![text("a")]),
        Ok(())
    );
    assert_eq!(table.rows().len(), 3);
}

#[test]
fn unknown_method() {
    let mut table = three_rows();
    assert_eq!(
        table.execute("select".to_string(), vec![]),
        Err(TableError::UnknownMethod)
    );
    assert_eq!(
        table.execute("Insert".to_string(), vec![AST::Number(1)]),
        Err(TableError::UnknownMethod)
    );
    assert_eq!(
        table.execute(
            "update".to_string(),
            vec![AST::binop(AST::Number(1), OP::Div, AST::Number(1))]
        ),
        Err(TableError::Eval(EvalError::UnsupportedOperation))
    );
    assert_eq!(table.rows().len(), 3);
}

#[test]
fn table_error_messages() {
    assert_eq!(TableError::UnknownMethod.message(), "Unknown method.");
    assert_eq!(TableError::IndexOutOfRange.message(), "Index out of range.");
    assert_eq!(
        TableError::Eval(EvalError::UnsupportedOperation).message(),
        "Unsupported operation for types."
    );
    assert_eq!(
        TableError::Eval(EvalError::Overflow).message(),
        "Arithmetic overflow."
    );
    assert_eq!(
        TableError::Eval(EvalError::NotAnExpression).message(),
        "Not an expression."
    );
}
