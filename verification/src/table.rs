//! A table: a fixed schema and the rows that conform to it.

use crate::ast::{AstView, Member, MemberView, AST};
use crate::primitive::Type;
use crate::value::{eval, value_outcome, EvalError, Value, ValueView};
use vstd::prelude::*;
use vstd::string::*;

verus! {

/// Why a command was not carried out on a table.
#[derive(Debug, PartialEq, Eq, Clone, Copy, Structural)]
pub enum TableError {
    /// An argument has no value.
    Eval(EvalError),
    /// The number of values is not the number of columns.
    WrongArity,
    /// The value at `position` is not of the type of the column there, and
    /// every value before it is.
    TypeMismatch { position: usize },
    /// The table has no method of that name.
    UnknownMethod,
    /// The table has no row at that index.
    IndexOutOfRange,
}

/// The text that names each error for a reader.
pub open spec fn error_text(e: TableError) -> Seq<char> {
    match e {
        TableError::Eval(EvalError::UnsupportedOperation) => "Unsupported operation for types."@,
        TableError::Eval(EvalError::Overflow) => "Arithmetic overflow."@,
        TableError::Eval(EvalError::NotAnExpression) => "Not an expression."@,
        TableError::WrongArity => "Wrong number of arguments."@,
        TableError::TypeMismatch { position } => "Unmatched type of arg."@,
        TableError::UnknownMethod => "Unknown method."@,
        TableError::IndexOutOfRange => "Index out of range."@,
    }
}

impl TableError {
    /// A line that names the error for a reader.
    pub fn message(&self) -> (text: String)
        ensures
            text@ == error_text(*self),
    {
        match self {
            TableError::Eval(EvalError::UnsupportedOperation) => String::from_str(
                "Unsupported operation for types.",
            ),
            TableError::Eval(EvalError::Overflow) => String::from_str("Arithmetic overflow."),
            TableError::Eval(EvalError::NotAnExpression) => String::from_str("Not an expression."),
            TableError::WrongArity => String::from_str("Wrong number of arguments."),
            TableError::TypeMismatch { position } => String::from_str("Unmatched type of arg."),
            TableError::UnknownMethod => String::from_str("Unknown method."),
            TableError::IndexOutOfRange => String::from_str("Index out of range."),
        }
    }
}

/// Tells whether a value is of a column type.
pub open spec fn fits(typ: Type, value: ValueView) -> bool {
    match (typ, value) {
        (Type::Int, ValueView::Int(_)) => true,
        (Type::StrLiteral, ValueView::StrLiteral(_)) => true,
        _ => false,
    }
}

/// Tells whether a row has one value for each column, each of the column's
/// type.
pub open spec fn conforms(schema: Seq<MemberView>, row: Seq<ValueView>) -> bool {
    &&& row.len() == schema.len()
    &&& forall|i: int| 0 <= i < row.len() ==> fits(schema[i].typ, #[trigger] row[i])
}

/// The first place at or after `i` where the value of `row` is not of the
/// column's type, or the length of the row if there is none.
pub open spec fn mismatch_from(schema: Seq<MemberView>, row: Seq<ValueView>, i: nat) -> nat
    decreases row.len() - i,
{
    if i < row.len() && fits(schema[i as int].typ, row[i as int]) {
        mismatch_from(schema, row, i + 1)
    } else {
        i
    }
}

/// Holds a row against a schema.
pub open spec fn check_row(schema: Seq<MemberView>, row: Seq<ValueView>) -> Result<
    (),
    TableError,
> {
    if row.len() != schema.len() {
        Err(TableError::WrongArity)
    } else if mismatch_from(schema, row, 0) < row.len() {
        Err(TableError::TypeMismatch { position: mismatch_from(schema, row, 0) as usize })
    } else {
        Ok(())
    }
}

/// Up to the first mismatch every value is of its column's type, and the
/// value at the mismatch is not.
pub proof fn lemma_mismatch_from(schema: Seq<MemberView>, row: Seq<ValueView>, i: nat)
    requires
        i <= row.len(),
    ensures
        i <= mismatch_from(schema, row, i) <= row.len(),
        forall|k: int|
            i <= k < mismatch_from(schema, row, i) ==> fits(schema[k].typ, #[trigger] row[k]),
        mismatch_from(schema, row, i) < row.len() ==> !fits(
            schema[mismatch_from(schema, row, i) as int].typ,
            row[mismatch_from(schema, row, i) as int],
        ),
    decreases row.len() - i,
{
    if i < row.len() && fits(schema[i as int].typ, row[i as int]) {
        lemma_mismatch_from(schema, row, i + 1);
    }
}

/// A row passes the check exactly if it conforms to the schema.
pub proof fn lemma_check_row(schema: Seq<MemberView>, row: Seq<ValueView>)
    ensures
        check_row(schema, row) is Ok <==> conforms(schema, row),
{
    lemma_mismatch_from(schema, row, 0);
}

/// The values of the trees, in their order, or the error of the first tree
/// that has none.
pub open spec fn eval_all(args: Seq<AstView>) -> Result<Seq<ValueView>, EvalError>
    decreases args.len(),
{
    if args.len() == 0 {
        Ok(Seq::empty())
    } else {
        match eval_all(args.drop_last()) {
            Err(e) => Err(e),
            Ok(values) => match eval(args.last()) {
                Err(e) => Err(e),
                Ok(value) => Ok(values.push(value)),
            },
        }
    }
}

/// What a [`Table`] stands for.
pub ghost struct TableView {
    pub name: Seq<char>,
    pub schema: Seq<MemberView>,
    pub rows: Seq<Seq<ValueView>>,
}

/// Tells whether every row of a table conforms to its schema.
pub open spec fn valid(table: TableView) -> bool {
    forall|i: int| 0 <= i < table.rows.len() ==> conforms(table.schema, #[trigger] table.rows[i])
}

/// The text of the method that adds a row.
pub open spec fn insert_word() -> Seq<char> {
    seq!['i', 'n', 's', 'e', 'r', 't']
}

/// The text of the method that removes a row.
pub open spec fn delete_word() -> Seq<char> {
    seq!['d', 'e', 'l', 'e', 't', 'e']
}

/// The table with `row` added behind its rows, if the row conforms.
pub open spec fn insert_row(table: TableView, row: Seq<ValueView>) -> Result<
    TableView,
    TableError,
> {
    match check_row(table.schema, row) {
        Err(e) => Err(e),
        Ok(()) => Ok(TableView { rows: table.rows.push(row), ..table }),
    }
}

/// The table without the row whose index, counted from 0, is the first of
/// `values`; the table as it is where there is no first value or it is no
/// integer.
pub open spec fn delete_row(table: TableView, values: Seq<ValueView>) -> Result<
    TableView,
    TableError,
> {
    if values.len() > 0 && values[0] is Int {
        let index = values[0]->Int_0;
        if 0 <= index < table.rows.len() {
            Ok(TableView { rows: table.rows.remove(index as int), ..table })
        } else {
            Err(TableError::IndexOutOfRange)
        }
    } else {
        Ok(table)
    }
}

/// What a command makes of a table.
///
/// The arguments are evaluated first. Then `insert` adds them as a row and
/// `delete` removes the row that the first of them counts to; no other method
/// exists.
pub open spec fn run(table: TableView, method: Seq<char>, args: Seq<AstView>) -> Result<
    TableView,
    TableError,
> {
    match eval_all(args) {
        Err(e) => Err(TableError::Eval(e)),
        Ok(values) => if method == insert_word() {
            insert_row(table, values)
        } else if method == delete_word() {
            delete_row(table, values)
        } else {
            Err(TableError::UnknownMethod)
        },
    }
}

/// A row is added exactly if it conforms to the schema: then it becomes the
/// last row and nothing else changes. A row of another length is refused as
/// of the wrong arity, and one with a value of another type than its column
/// as a mismatch.
pub proof fn lemma_insert_row(table: TableView, row: Seq<ValueView>)
    ensures
        conforms(table.schema, row) ==> insert_row(table, row) == Ok::<TableView, TableError>(
            TableView { rows: table.rows.push(row), ..table },
        ),
        row.len() != table.schema.len() ==> insert_row(table, row) == Err::<
            TableView,
            TableError,
        >(TableError::WrongArity),
        row.len() == table.schema.len() && !conforms(table.schema, row) ==> insert_row(
            table,
            row,
        ) is Err && insert_row(table, row)->Err_0 is TypeMismatch,
{
    lemma_check_row(table.schema, row);
}

/// A command keeps the name and the schema of a table, and the rows of a
/// table whose rows conform to its schema still do so after it.
pub proof fn lemma_run_keeps_valid(table: TableView, method: Seq<char>, args: Seq<AstView>)
    requires
        valid(table),
        run(table, method, args) is Ok,
    ensures
        run(table, method, args)->Ok_0.name == table.name,
        run(table, method, args)->Ok_0.schema == table.schema,
        valid(run(table, method, args)->Ok_0),
{
    let after = run(table, method, args)->Ok_0;
    let values = eval_all(args)->Ok_0;
    if method == insert_word() {
        lemma_check_row(table.schema, values);
        assert forall|i: int| 0 <= i < after.rows.len() implies conforms(
            after.schema,
            #[trigger] after.rows[i],
        ) by {
            if i < table.rows.len() {
                assert(after.rows[i] == table.rows[i]);
            }
        }
    } else if method == delete_word() {
        if values.len() > 0 && values[0] is Int {
            let index = values[0]->Int_0 as int;
            assert forall|i: int| 0 <= i < after.rows.len() implies conforms(
                after.schema,
                #[trigger] after.rows[i],
            ) by {
                if i < index {
                    assert(after.rows[i] == table.rows[i]);
                } else {
                    assert(after.rows[i] == table.rows[i + 1]);
                }
            }
        }
    }
}

/// A table: a name, a schema that is fixed when the table is made, and rows
/// that each conform to the schema.
#[derive(Debug)]
pub struct Table {
    name: String,
    members: Vec<Member>,
    column: Vec<Vec<Value>>,
}

impl View for Table {
    type V = TableView;

    closed spec fn view(&self) -> TableView {
        TableView {
            name: self.name@,
            schema: self.members.deep_view(),
            rows: self.column.deep_view(),
        }
    }
}

impl Table {
    #[verifier::type_invariant]
    spec fn well_formed(self) -> bool {
        forall|i: int|
            0 <= i < self.column@.len() ==> conforms(
                self.members.deep_view(),
                #[trigger] self.column.deep_view()[i],
            )
    }

    /// An empty table.
    pub fn new(name: String, members: Vec<Member>) -> (table: Self)
        ensures
            table@ == (TableView {
                name: name@,
                schema: members.deep_view(),
                rows: Seq::empty(),
            }),
            valid(table@),
    {
        let table = Self { name, members, column: Vec::new() };
        proof {
            assert(table.column.deep_view() =~= Seq::<Seq<ValueView>>::empty());
        }
        table
    }

    /// The name of the table.
    pub fn name(&self) -> (name: &String)
        ensures
            name@ == self@.name,
    {
        &self.name
    }

    /// The columns of the table, in their order.
    pub fn members(&self) -> (members: &Vec<Member>)
        ensures
            members.deep_view() == self@.schema,
    {
        &self.members
    }

    /// The rows of the table, in the order in which they were added.
    pub fn rows(&self) -> (rows: &Vec<Vec<Value>>)
        ensures
            rows.deep_view() == self@.rows,
            valid(self@),
    {
        proof {
            use_type_invariant(self);
        }
        &self.column
    }

    /// Evaluates the arguments of a command, in their order.
    pub fn eval_args(args: Vec<AST>) -> (result: Result<Vec<Value>, EvalError>)
        ensures
            value_outcome(result) == eval_all(args.deep_view()),
    {
        let ghost items = args@;
        let ghost trees = args.deep_view();
        let mut column: Vec<Value> = Vec::new();
        proof {
            assert(column.deep_view() =~= Seq::<ValueView>::empty());
            assert(trees.take(0) =~= Seq::<AstView>::empty());
        }
        for tree in it: args.into_iter()
            invariant
                it.seq() == items,
                trees == args.deep_view(),
                trees.len() == items.len(),
                forall|k: int| 0 <= k < items.len() ==> trees[k] == (#[trigger] items[k])@,
                eval_all(trees.take(it.index() as int)) == Ok::<Seq<ValueView>, EvalError>(
                    column.deep_view(),
                ),
        {
            let ghost done = column.deep_view();
            let ghost i = it.index() as int;
            proof {
                assert(trees.take(i + 1).drop_last() =~= trees.take(i));
                assert(trees.take(i + 1).last() == tree@);
            }
            match Value::eval_ast(tree) {
                Ok(value) => {
                    column.push(value);
                    proof {
                        assert(column.deep_view() =~= done.push(value@));
                    }
                },
                Err(e) => {
                    proof {
                        lemma_eval_all_prefix_error(trees, i + 1);
                    }
                    return Err(e);
                },
            }
        }
        proof {
            assert(trees.take(trees.len() as int) =~= trees);
        }
        Ok(column)
    }

    /// Tells whether a value is of a column type.
    fn value_fits(typ: Type, value: &Value) -> (b: bool)
        ensures
            b == fits(typ, value@),
    {
        match (typ, value) {
            (Type::Int, Value::Int(_)) => true,
            (Type::StrLiteral, Value::StrLiteral(_)) => true,
            _ => false,
        }
    }

    /// Holds a row against the schema of the table.
    ///
    /// The row passes if it has one value for each column, each of the
    /// column's type. The error names the first value that is not.
    pub fn type_check(&self, args: &Vec<Value>) -> (result: Result<(), TableError>)
        ensures
            result == check_row(self@.schema, args.deep_view()),
            result is Ok <==> conforms(self@.schema, args.deep_view()),
    {
        let ghost schema = self.members.deep_view();
        let ghost row = args.deep_view();
        proof {
            lemma_check_row(schema, row);
        }
        if args.len() != self.members.len() {
            return Err(TableError::WrongArity);
        }
        let mut index: usize = 0;
        while index < args.len()
            invariant
                index <= args.len(),
                args.len() == self.members.len(),
                schema == self.members.deep_view(),
                row == args.deep_view(),
                mismatch_from(schema, row, index as nat) == mismatch_from(schema, row, 0),
            decreases args.len() - index,
        {
            if !Self::value_fits(self.members[index].typ, &args[index]) {
                return Err(TableError::TypeMismatch { position: index });
            }
            index += 1;
        }
        Ok(())
    }

    /// Adds a row that conforms to the schema behind the rows of the table.
    fn push_row(&mut self, row: Vec<Value>)
        requires
            conforms(old(self)@.schema, row.deep_view()),
        ensures
            final(self)@ == (TableView {
                rows: old(self)@.rows.push(row.deep_view()),
                ..old(self)@
            }),
    {
        proof {
            use_type_invariant(&*self);
        }
        let ghost before = self.column.deep_view();
        let mut column: Vec<Vec<Value>> = Vec::new();
        std::mem::swap(&mut column, &mut self.column);
        column.push(row);
        proof {
            assert(column.deep_view() =~= before.push(row.deep_view()));
        }
        self.column = column;
    }

    /// Removes the row at `index`.
    fn remove_row(&mut self, index: usize)
        requires
            index < old(self)@.rows.len(),
        ensures
            final(self)@ == (TableView {
                rows: old(self)@.rows.remove(index as int),
                ..old(self)@
            }),
    {
        proof {
            use_type_invariant(&*self);
        }
        let ghost before = self.column.deep_view();
        let mut column: Vec<Vec<Value>> = Vec::new();
        std::mem::swap(&mut column, &mut self.column);
        let _ = column.remove(index);
        proof {
            assert(column.deep_view() =~= before.remove(index as int));
        }
        self.column = column;
    }

    /// Carries out a command on the table.
    ///
    /// The arguments are evaluated first. `insert` adds them as a row, if they
    /// conform to the schema. `delete` removes the row whose index, counted
    /// from 0, is the first of them, and does nothing where there is no first
    /// argument or it is no integer. A command that fails leaves the table as
    /// it was.
    pub fn execute(&mut self, name: String, args: Vec<AST>) -> (result: Result<(), TableError>)
        ensures
            match run(old(self)@, name@, args.deep_view()) {
                Ok(after) => result is Ok && final(self)@ == after,
                Err(e) => result == Err::<(), TableError>(e) && final(self)@ == old(self)@,
            },
            valid(final(self)@),
    {
        proof {
            use_type_invariant(&*self);
            reveal_strlit("insert");
            reveal_strlit("delete");
            assert("insert"@ =~= insert_word());
            assert("delete"@ =~= delete_word());
        }
        let values = match Self::eval_args(args) {
            Ok(values) => values,
            Err(e) => return Err(TableError::Eval(e)),
        };
        if name == String::from_str("insert") {
            match self.type_check(&values) {
                Ok(()) => {
                    self.push_row(values);
                    proof {
                        use_type_invariant(&*self);
                    }
                    Ok(())
                },
                Err(e) => Err(e),
            }
        } else if name == String::from_str("delete") {
            if values.len() == 0 {
                return Ok(());
            }
            match values[0] {
                Value::Int(index) => {
                    if index < 0 || index as usize >= self.column.len() {
                        Err(TableError::IndexOutOfRange)
                    } else {
                        self.remove_row(index as usize);
                        proof {
                            use_type_invariant(&*self);
                        }
                        Ok(())
                    }
                },
                _ => Ok(()),
            }
        } else {
            Err(TableError::UnknownMethod)
        }
    }
}

/// Where a prefix of the trees has an error, the whole has the same.
pub proof fn lemma_eval_all_prefix_error(args: Seq<AstView>, n: int)
    requires
        0 <= n <= args.len(),
        eval_all(args.take(n)) is Err,
    ensures
        eval_all(args) == eval_all(args.take(n)),
    decreases args.len() - n,
{
    if n < args.len() {
        assert(args.drop_last().take(n) =~= args.take(n));
        lemma_eval_all_prefix_error(args.drop_last(), n);
    } else {
        assert(args.take(n) =~= args);
    }
}

} // verus!
