use statikk_db::ast::{Member, AST};
use statikk_db::database::{CatalogError, Database};
use statikk_db::parser::Parser;
use statikk_db::primitive::Type;
use statikk_db::table::TableError;
use statikk_db::tokenizer::Tokenizer;
use statikk_db::value::Value;

#[test]
fn database_new() {
    let db = Database::new();
    assert_eq!(db.tables().len(), 0);
}

#[test]
fn execute() {
    let mut db = Database::new();
    // Create new table
    assert_eq!(
        db.execute(AST::TableDef {
            name: "Hoge".to_string(),
            members: vec![]
        }),
        Ok(())
    );

    assert_eq!(
        db.execute(AST::MethodCall {
            table: "Fuga".to_string(),
            name: "insert".to_string(),
            args: vec![]
        }),
        Err(CatalogError::TableNotFound)
    );
    assert_eq!(CatalogError::TableNotFound.message(), "Table not found!!");
}

fn run(db: &mut Database, line: &str) -> Result<(), CatalogError> {
    let tokens = Tokenizer::new(line).lex_all().unwrap();
    db.execute(Parser::new(tokens).parse().unwrap())
}

#[test]
fn session_from_text() {
    let mut db = Database::new();
    assert_eq!(run(&mut db, "Table User { id: int, name: string }"), Ok(()));
    assert_eq!(run(&mut db, "User.insert(1, \"kuru\")"), Ok(()));
    assert_eq!(run(&mut db, "User.insert(1 + 1, \"hoge\")"), Ok(()));
    assert_eq!(run(&mut db, "User.delete(0)"), Ok(()));
    assert_eq!(db.tables().len(), 1);
    let table = &db.tables()[0];
    assert_eq!(table.name(), "User");
    assert_eq!(
        table.members(),
        &vec![
            Member {
                typ: Type::Int,
                field: "id".to_string()
            },
            Member {
                typ: Type::StrLiteral,
                field: "name".to_string()
            }
        ]
    );
    assert_eq!(
        table.rows(),
        &vec![vec![Value::Int(2), Value::StrLiteral("hoge".to_string())]]
    );
}

#[test]
fn unknown_table_changes_nothing() {
    let mut db = Database::new();
    run(&mut db, "Table A { id: int }").unwrap();
    run(&mut db, "A.insert(7)").unwrap();
    assert_eq!(run(&mut db, "B.insert(7)"), Err(CatalogError::TableNotFound));
    assert_eq!(run(&mut db, "a.insert(7)"), Err(CatalogError::TableNotFound));
    assert_eq!(run(&mut db, "B.delete(0)"), Err(CatalogError::TableNotFound));
    assert_eq!(db.tables().len(), 1);
    assert_eq!(db.tables()[0].name(), "A");
    assert_eq!(db.tables()[0].rows(), &vec![vec![Value::Int(7)]]);
}

#[test]
fn table_errors_are_passed_on() {
    let mut db = Database::new();
    run(&mut db, "Table A { id: int }").unwrap();
    assert_eq!(
        run(&mut db, "A.insert(\"x\")"),
        Err(CatalogError::Table(TableError::TypeMismatch { position: 0 }))
    );
    assert_eq!(
        run(&mut db, "A.insert()"),
        Err(CatalogError::Table(TableError::WrongArity))
    );
    assert_eq!(
        run(&mut db, "A.select()"),
        Err(CatalogError::Table(TableError::UnknownMethod))
    );
    assert_eq!(
        run(&mut db, "A.delete(0)"),
        Err(CatalogError::Table(TableError::IndexOutOfRange))
    );
    assert_eq!(db.tables()[0].rows().len(), 0);
    assert_eq!(
        CatalogError::Table(TableError::WrongArity).message(),
        "Wrong number of arguments."
    );
}

#[test]
fn expression_is_no_command() {
    let mut db = Database::new();
    assert_eq!(run(&mut db, "1 + 2"), Err(CatalogError::Unimplemented));
    assert_eq!(run(&mut db, "\"a\""), Err(CatalogError::Unimplemented));
    assert_eq!(db.tables().len(), 0);
    assert_eq!(CatalogError::Unimplemented.message(), "Unimplemented AST!!");
}

#[test]
fn defining_a_table_again_replaces_it() {
    let mut db = Database::new();
    run(&mut db, "Table A { id: int }").unwrap();
    run(&mut db, "Table B { id: int }").unwrap();
    run(&mut db, "A.insert(1)").unwrap();
    run(&mut db, "B.insert(2)").unwrap();
    run(&mut db, "Table A { name: string }").unwrap();
    assert_eq!(db.tables().len(), 2);
    let a = db.tables().iter().find(|t| t.name() == "A").unwrap();
    assert_eq!(a.rows().len(), 0);
    assert_eq!(a.members()[0].typ, Type::StrLiteral);
    let b = db.tables().iter().find(|t| t.name() == "B").unwrap();
    assert_eq!(b.rows(), &vec![vec![Value::Int(2)]]);
    assert_eq!(run(&mut db, "A.insert(\"x\")"), Ok(()));
}

#[test]
fn tables_are_independent() {
    let mut first = Database::new();
    let mut second = Database::new();
    run(&mut first, "Table A { id: int }").unwrap();
    assert_eq!(
        run(&mut second, "A.insert(1)"),
        Err(CatalogError::TableNotFound)
    );
    assert_eq!(second.tables().len(), 0);
    assert_eq!(first.tables().len(), 1);
}
