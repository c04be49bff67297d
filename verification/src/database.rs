//! The tables of a session, found by their names.

use crate::ast::{AstView, MemberView, AST};
use crate::table::{lemma_run_keeps_valid, run, valid, Table, TableError, TableView};
use vstd::prelude::*;
use vstd::string::*;

verus! {

/// Why a statement was not carried out.
#[derive(Debug, PartialEq, Eq, Clone, Copy, Structural)]
pub enum CatalogError {
    /// No table has the name that the statement gives.
    TableNotFound,
    /// The table refused the command.
    Table(TableError),
    /// The statement is an expression, which the store cannot carry out.
    Unimplemented,
}

/// The text that names each error for a reader.
pub open spec fn error_text(e: CatalogError) -> Seq<char> {
    match e {
        CatalogError::TableNotFound => "Table not found!!"@,
        CatalogError::Table(e) => crate::table::error_text(e),
        CatalogError::Unimplemented => "Unimplemented AST!!"@,
    }
}

impl CatalogError {
    /// A line that names the error for a reader.
    pub fn message(&self) -> (text: String)
        ensures
            text@ == error_text(*self),
    {
        match self {
            CatalogError::TableNotFound => String::from_str("Table not found!!"),
            CatalogError::Table(e) => e.message(),
            CatalogError::Unimplemented => String::from_str("Unimplemented AST!!"),
        }
    }
}

/// What a store holds: its tables, each under its name.
pub type Catalog = Map<Seq<char>, TableView>;

/// A table without rows.
pub open spec fn empty_table(name: Seq<char>, schema: Seq<MemberView>) -> TableView {
    TableView { name, schema, rows: Seq::empty() }
}

/// What a statement makes of a store.
///
/// A table definition puts an empty table under its name, in place of the
/// table that had the name before. A method call goes to the table of that
/// name, which must exist. An expression is no command.
pub open spec fn step(catalog: Catalog, tree: AstView) -> Result<Catalog, CatalogError> {
    match tree {
        AstView::TableDef { name, members } => Ok(catalog.insert(name, empty_table(name, members))),
        AstView::MethodCall { table, name, args } => if catalog.contains_key(table) {
            match run(catalog[table], name, args) {
                Ok(after) => Ok(catalog.insert(table, after)),
                Err(e) => Err(CatalogError::Table(e)),
            }
        } else {
            Err(CatalogError::TableNotFound)
        },
        _ => Err(CatalogError::Unimplemented),
    }
}

/// A method call that names a table which the store does not hold is refused
/// as such, whatever the method and its arguments are.
pub proof fn lemma_unknown_table(
    catalog: Catalog,
    table: Seq<char>,
    name: Seq<char>,
    args: Seq<AstView>,
)
    requires
        !catalog.contains_key(table),
    ensures
        step(catalog, AstView::MethodCall { table, name, args }) == Err::<Catalog, CatalogError>(
            CatalogError::TableNotFound,
        ),
{
}

/// A statement changes no table but the one that it names.
pub proof fn lemma_step_is_local(catalog: Catalog, tree: AstView, other: Seq<char>)
    requires
        step(catalog, tree) is Ok,
        tree matches AstView::TableDef { name, .. } ==> name != other,
        tree matches AstView::MethodCall { table, .. } ==> table != other,
    ensures
        step(catalog, tree)->Ok_0.contains_key(other) == catalog.contains_key(other),
        catalog.contains_key(other) ==> step(catalog, tree)->Ok_0[other] == catalog[other],
{
}

/// Tells whether every table of a store stands under its own name and has
/// only rows that conform to its schema.
pub open spec fn consistent(catalog: Catalog) -> bool {
    forall|name: Seq<char>| #[trigger]
        catalog.contains_key(name) ==> catalog[name].name == name && valid(catalog[name])
}

/// A statement that is carried out on a consistent store leaves a consistent
/// store.
pub proof fn lemma_step_keeps_consistent(catalog: Catalog, tree: AstView)
    requires
        consistent(catalog),
        step(catalog, tree) is Ok,
    ensures
        consistent(step(catalog, tree)->Ok_0),
{
    let after = step(catalog, tree)->Ok_0;
    match tree {
        AstView::MethodCall { table, name, args } => {
            assert(catalog.contains_key(table));
            lemma_run_keeps_valid(catalog[table], name, args);
            assert forall|n: Seq<char>| #[trigger] after.contains_key(n) implies after[n].name == n
                && valid(after[n]) by {
                if n != table {
                    assert(catalog.contains_key(n));
                }
            }
        },
        AstView::TableDef { name, members } => {
            assert forall|n: Seq<char>| #[trigger] after.contains_key(n) implies after[n].name == n
                && valid(after[n]) by {
                if n != name {
                    assert(catalog.contains_key(n));
                }
            }
        },
        _ => {},
    }
}

/// Tables with distinct names, each with rows that conform to its schema,
/// make a consistent store.
pub proof fn lemma_catalog_consistent(tables: Seq<TableView>)
    requires
        distinct_names(tables),
        forall|i: int| 0 <= i < tables.len() ==> valid(#[trigger] tables[i]),
    ensures
        consistent(catalog_of(tables)),
{
    assert forall|name: Seq<char>| #[trigger]
        catalog_of(tables).contains_key(name) implies catalog_of(tables)[name].name == name
        && valid(catalog_of(tables)[name]) by {
        let i = choose|i: int| 0 <= i < tables.len() && (#[trigger] tables[i]).name == name;
        lemma_catalog_at(tables, i);
    }
}

/// Tells whether no two of the tables have the same name.
pub open spec fn distinct_names(tables: Seq<TableView>) -> bool {
    forall|i: int, j: int|
        0 <= i < tables.len() && 0 <= j < tables.len() && i != j ==> (#[trigger] tables[i]).name
            != (#[trigger] tables[j]).name
}

/// Tells whether one of the tables has the name.
pub open spec fn has_name(tables: Seq<TableView>, name: Seq<char>) -> bool {
    exists|i: int| 0 <= i < tables.len() && (#[trigger] tables[i]).name == name
}

/// The tables, each under its name.
pub open spec fn catalog_of(tables: Seq<TableView>) -> Catalog {
    Map::new(
        |name: Seq<char>| has_name(tables, name),
        |name: Seq<char>|
            tables[choose|i: int| 0 <= i < tables.len() && (#[trigger] tables[i]).name == name],
    )
}

/// Each table is found under its own name.
pub proof fn lemma_catalog_at(tables: Seq<TableView>, i: int)
    requires
        distinct_names(tables),
        0 <= i < tables.len(),
    ensures
        catalog_of(tables).contains_key(tables[i].name),
        catalog_of(tables)[tables[i].name] == tables[i],
{
    let name = tables[i].name;
    let j = choose|j: int| 0 <= j < tables.len() && (#[trigger] tables[j]).name == name;
    assert(j == i);
}

/// A table with a new name, added behind the others, is one more entry.
pub proof fn lemma_catalog_push(tables: Seq<TableView>, table: TableView)
    requires
        distinct_names(tables),
        !has_name(tables, table.name),
    ensures
        distinct_names(tables.push(table)),
        catalog_of(tables.push(table)) == catalog_of(tables).insert(table.name, table),
{
    let more = tables.push(table);
    assert forall|i: int, j: int|
        0 <= i < more.len() && 0 <= j < more.len() && i != j implies (#[trigger] more[i]).name != (
        #[trigger] more[j]).name by {
        if i < tables.len() {
            assert(more[i] == tables[i]);
        }
        if j < tables.len() {
            assert(more[j] == tables[j]);
        }
    }
    assert forall|name: Seq<char>|
        catalog_of(more).contains_key(name) <==> catalog_of(tables).insert(
            table.name,
            table,
        ).contains_key(name) by {
        if has_name(tables, name) {
            let i = choose|i: int| 0 <= i < tables.len() && (#[trigger] tables[i]).name == name;
            assert(more[i].name == name);
        }
        if name == table.name {
            assert(more[tables.len() as int].name == name);
        }
        if has_name(more, name) && name != table.name {
            let i = choose|i: int| 0 <= i < more.len() && (#[trigger] more[i]).name == name;
            assert(tables[i].name == name);
        }
    }
    assert forall|name: Seq<char>| catalog_of(more).contains_key(name) implies catalog_of(
        more,
    )[name] == catalog_of(tables).insert(table.name, table)[name] by {
        let i = choose|i: int| 0 <= i < more.len() && (#[trigger] more[i]).name == name;
        lemma_catalog_at(more, i);
        if i < tables.len() {
            assert(more[i] == tables[i]);
            lemma_catalog_at(tables, i);
        }
    }
    assert(catalog_of(more) =~= catalog_of(tables).insert(table.name, table));
}

/// A table put in the place of one of the same name takes its entry.
pub proof fn lemma_catalog_update(tables: Seq<TableView>, i: int, table: TableView)
    requires
        distinct_names(tables),
        0 <= i < tables.len(),
        table.name == tables[i].name,
    ensures
        distinct_names(tables.update(i, table)),
        catalog_of(tables.update(i, table)) == catalog_of(tables).insert(table.name, table),
{
    let changed = tables.update(i, table);
    assert forall|j: int, k: int|
        0 <= j < changed.len() && 0 <= k < changed.len() && j != k implies (
        #[trigger] changed[j]).name != (#[trigger] changed[k]).name by {
        assert(changed[j].name == tables[j].name);
        assert(changed[k].name == tables[k].name);
    }
    assert forall|name: Seq<char>|
        catalog_of(changed).contains_key(name) <==> catalog_of(tables).insert(
            table.name,
            table,
        ).contains_key(name) by {
        if has_name(tables, name) {
            let j = choose|j: int| 0 <= j < tables.len() && (#[trigger] tables[j]).name == name;
            assert(changed[j].name == name);
        }
        if name == table.name {
            assert(changed[i].name == name);
        }
        if has_name(changed, name) {
            let j = choose|j: int| 0 <= j < changed.len() && (#[trigger] changed[j]).name == name;
            assert(tables[j].name == name);
        }
    }
    assert forall|name: Seq<char>| catalog_of(changed).contains_key(name) implies catalog_of(
        changed,
    )[name] == catalog_of(tables).insert(table.name, table)[name] by {
        let j = choose|j: int| 0 <= j < changed.len() && (#[trigger] changed[j]).name == name;
        lemma_catalog_at(changed, j);
        if j != i {
            assert(changed[j] == tables[j]);
            lemma_catalog_at(tables, j);
        }
    }
    assert(catalog_of(changed) =~= catalog_of(tables).insert(table.name, table));
}

/// The views of the tables, in their order.
pub open spec fn views(tables: Seq<Table>) -> Seq<TableView> {
    Seq::new(tables.len(), |i: int| tables[i]@)
}

/// The tables of a session.
#[derive(Debug)]
pub struct Database {
    table: Vec<Table>,
}

impl View for Database {
    type V = Catalog;

    closed spec fn view(&self) -> Catalog {
        catalog_of(views(self.table@))
    }
}

impl Database {
    #[verifier::type_invariant]
    spec fn well_formed(self) -> bool {
        &&& distinct_names(views(self.table@))
        &&& forall|i: int| 0 <= i < self.table@.len() ==> valid(#[trigger] views(self.table@)[i])
    }

    /// A store without tables.
    pub fn new() -> (db: Self)
        ensures
            db@ == Map::<Seq<char>, TableView>::empty(),
            consistent(db@),
    {
        let db = Self { table: Vec::new() };
        proof {
            assert(views(db.table@) =~= Seq::<TableView>::empty());
            assert(db@ =~= Map::<Seq<char>, TableView>::empty());
        }
        db
    }

    /// The tables of the store. No two of them have the same name.
    pub fn tables(&self) -> (tables: &Vec<Table>)
        ensures
            distinct_names(views(tables@)),
            catalog_of(views(tables@)) == self@,
            consistent(self@),
    {
        proof {
            use_type_invariant(self);
            lemma_catalog_consistent(views(self.table@));
        }
        &self.table
    }

    /// The place of the table of that name among the tables.
    fn find(&self, name: &String) -> (index: Option<usize>)
        ensures
            match index {
                Some(i) => i < self.table@.len() && self.table@[i as int]@.name == name@,
                None => !self@.contains_key(name@),
            },
    {
        let mut index: usize = 0;
        while index < self.table.len()
            invariant
                index <= self.table@.len(),
                forall|k: int| 0 <= k < index ==> (#[trigger] self.table@[k])@.name != name@,
            decreases self.table@.len() - index,
        {
            if *self.table[index].name() == *name {
                return Some(index);
            }
            index += 1;
        }
        proof {
            let tables = views(self.table@);
            if has_name(tables, name@) {
                let k = choose|k: int| 0 <= k < tables.len() && (#[trigger] tables[k]).name == name@;
                assert(self.table@[k]@.name == name@);
            }
        }
        None
    }

    /// Puts `table` among the tables, in place of the one of the same name if
    /// there is one.
    fn put(&mut self, table: Table)
        requires
            valid(table@),
        ensures
            final(self)@ == old(self)@.insert(table@.name, table@),
    {
        proof {
            use_type_invariant(&*self);
        }
        let found = self.find(table.name());
        let ghost before = views(self.table@);
        let mut tables: Vec<Table> = Vec::new();
        std::mem::swap(&mut tables, &mut self.table);
        proof {
            assert(views(self.table@) =~= Seq::<TableView>::empty());
        }
        match found {
            Some(index) => {
                proof {
                    lemma_catalog_update(before, index as int, table@);
                }
                tables[index] = table;
                proof {
                    assert(views(tables@) =~= before.update(index as int, table@));
                }
            },
            None => {
                proof {
                    lemma_catalog_push(before, table@);
                }
                tables.push(table);
                proof {
                    assert(views(tables@) =~= before.push(table@));
                }
            },
        }
        self.table = tables;
    }

    /// Hands a command to the table at `index`.
    fn call(&mut self, index: usize, name: String, args: Vec<AST>) -> (result: Result<
        (),
        TableError,
    >)
        requires
            index < old(self).table@.len(),
        ensures
            match run(old(self).table@[index as int]@, name@, args.deep_view()) {
                Ok(after) => {
                    &&& result is Ok
                    &&& final(self)@ == old(self)@.insert(old(self).table@[index as int]@.name, after)
                },
                Err(e) => result == Err::<(), TableError>(e) && final(self)@ == old(self)@,
            },
    {
        proof {
            use_type_invariant(&*self);
        }
        let ghost before = views(self.table@);
        let mut tables: Vec<Table> = Vec::new();
        std::mem::swap(&mut tables, &mut self.table);
        proof {
            assert(views(self.table@) =~= Seq::<TableView>::empty());
        }
        let result = tables[index].execute(name, args);
        proof {
            let after = tables@[index as int]@;
            assert(views(tables@) =~= before.update(index as int, after));
            lemma_catalog_update(before, index as int, after);
            lemma_catalog_at(before, index as int);
            if result is Err {
                assert(after == before[index as int]);
                assert(catalog_of(before).insert(after.name, after) =~= catalog_of(before));
            }
        }
        self.table = tables;
        result
    }

    /// Carries out a statement.
    ///
    /// A table definition makes an empty table, in place of the table that
    /// had its name before. A method call goes to the table that it names.
    /// A statement that fails leaves the store as it was.
    pub fn execute(&mut self, tree: AST) -> (result: Result<(), CatalogError>)
        ensures
            match step(old(self)@, tree@) {
                Ok(after) => result is Ok && final(self)@ == after,
                Err(e) => result == Err::<(), CatalogError>(e) && final(self)@ == old(self)@,
            },
            tree@ matches AstView::MethodCall { table, .. } && !old(self)@.contains_key(table) ==> {
                &&& result == Err::<(), CatalogError>(CatalogError::TableNotFound)
                &&& final(self)@ == old(self)@
            },
            consistent(final(self)@),
    {
        proof {
            use_type_invariant(&*self);
            lemma_catalog_consistent(views(self.table@));
            if step(self@, tree@) is Ok {
                lemma_step_keeps_consistent(self@, tree@);
            }
        }
        match tree {
            AST::TableDef { name, members } => {
                self.put(Table::new(name, members));
                Ok(())
            },
            AST::MethodCall { table, name, args } => {
                proof {
                    assert(tree@->MethodCall_args =~= args.deep_view());
                }
                match self.find(&table) {
                    Some(index) => {
                        proof {
                            lemma_catalog_at(views(self.table@), index as int);
                        }
                        match self.call(index, name, args) {
                            Ok(()) => Ok(()),
                            Err(e) => Err(CatalogError::Table(e)),
                        }
                    },
                    None => Err(CatalogError::TableNotFound),
                }
            },
            _ => Err(CatalogError::Unimplemented),
        }
    }
}

} // verus!
