//! The storage engine: tables, their codec, the buffer and the executor.

pub mod buffer;
pub mod relation;
pub mod render;
pub mod storage;
pub mod table;

use self::buffer::{lookup, table_index, with_table, BufferPool};
use self::relation::{
    condition_view, select_misses, selected, update_misses, updated, Selection, SelectionView,
};
use self::render::selection_lines;
use self::storage::flush::table_bytes;
use self::storage::load::parse_table;
use self::storage::{table_storage_path, Storage};
use self::table::{ColumnView, Record, Table, TableView, ValueView};
use crate::error::Error;
use crate::names::lemma_first_index;
use crate::query::ast::{assignments_view, declared_view, names_view, ConditionView, QueryStatement};
use vstd::prelude::*;
use vstd::string::StringExecFns;

verus! {

/// What running one statement comes to: what the caller is to do, or what
/// it is told.
#[derive(Debug, PartialEq)]
pub enum Outcome {
    /// The file at `path` is to hold `bytes`, in place of what it held.
    Write { path: String, bytes: Vec<u8> },
    /// The rows that a select found, of which there is at least one.
    Rows(Selection),
    /// A select found no row.
    Empty,
    /// No further statement is to be run.
    Exit,
    /// The statement failed. Nothing is to be written.
    Failed(Error),
}

/// An outcome as contracts see it.
pub enum OutcomeView {
    Write { path: Seq<char>, bytes: Seq<u8> },
    Rows(SelectionView),
    Empty,
    Exit,
    Failed(Error),
}

impl View for Outcome {
    type V = OutcomeView;

    open spec fn view(&self) -> OutcomeView {
        match self {
            Outcome::Write { path, bytes } => OutcomeView::Write { path: path@, bytes: bytes@ },
            Outcome::Rows(selection) => OutcomeView::Rows(selection@),
            Outcome::Empty => OutcomeView::Empty,
            Outcome::Exit => OutcomeView::Exit,
            Outcome::Failed(e) => OutcomeView::Failed(*e),
        }
    }
}

/// The lines that an outcome has printed: those of the rows of a select,
/// `Empty set` where it found none, `bye!` at the exit, and none otherwise.
pub open spec fn outcome_lines(outcome: OutcomeView) -> Seq<Seq<char>> {
    match outcome {
        OutcomeView::Rows(selection) => selection_lines(selection),
        OutcomeView::Empty => seq!["Empty set"@],
        OutcomeView::Exit => seq!["bye!"@],
        _ => Seq::empty(),
    }
}

impl Outcome {
    /// Whether the statements that follow are to be run: after everything
    /// but an exit.
    pub fn proceeds(&self) -> (b: bool)
        ensures
            b == !(self@ is Exit),
    {
        match self {
            Outcome::Exit => false,
            _ => true,
        }
    }

    /// The lines that the outcome has printed.
    pub fn lines(&self) -> (out: Vec<String>)
        ensures
            names_view(out@) == outcome_lines(self@),
    {
        match self {
            Outcome::Rows(selection) => selection.lines(),
            Outcome::Empty => {
                let mut out: Vec<String> = Vec::new();
                out.push(String::from_str("Empty set"));
                assert(names_view(out@) =~= seq!["Empty set"@]);
                out
            },
            Outcome::Exit => {
                let mut out: Vec<String> = Vec::new();
                out.push(String::from_str("bye!"));
                assert(names_view(out@) =~= seq!["bye!"@]);
                out
            },
            _ => {
                let out: Vec<String> = Vec::new();
                assert(names_view(out@) =~= Seq::<Seq<char>>::empty());
                out
            },
        }
    }
}

/// The table that a statement on `name` works on: the one that the buffer
/// holds under that name, else the one that the table's file holds. `stored`
/// is the content of that file, empty where there is none.
pub open spec fn resolved(tables: Seq<TableView>, name: Seq<char>, stored: Seq<u8>) -> Result<TableView, Error> {
    match lookup(tables, name) {
        Some(table) => Ok(table),
        None => if stored.len() == 0 {
            Err(Error::NotFound)
        } else {
            match parse_table(stored) {
                Some(table) => Ok(table),
                None => Err(Error::MalformedEncoding),
            }
        },
    }
}

/// The table that a create makes: the name, the columns and no row.
pub open spec fn created(name: Seq<char>, columns: Seq<ColumnView>) -> TableView {
    TableView { name, columns, records: Seq::empty() }
}

/// What a select comes to.
pub open spec fn select_outcome(
    tables: Seq<TableView>,
    name: Seq<char>,
    is_all: bool,
    names: Seq<Seq<char>>,
    cond: Option<ConditionView>,
    stored: Seq<u8>,
) -> OutcomeView {
    match resolved(tables, name, stored) {
        Ok(table) => if select_misses(table, names, cond) {
            OutcomeView::Failed(Error::NotFound)
        } else if selected(table, is_all, names, cond).rows.len() == 0 {
            OutcomeView::Empty
        } else {
            OutcomeView::Rows(selected(table, is_all, names, cond))
        },
        Err(e) => OutcomeView::Failed(e),
    }
}

/// What an update comes to, and the tables that the buffer holds after it.
pub open spec fn update_outcome(
    tables: Seq<TableView>,
    dir: Seq<char>,
    name: Seq<char>,
    set: Seq<ConditionView>,
    cond: ConditionView,
    stored: Seq<u8>,
) -> (OutcomeView, Seq<TableView>) {
    match resolved(tables, name, stored) {
        Ok(table) => if update_misses(table, set, cond) {
            (OutcomeView::Failed(Error::NotFound), tables)
        } else {
            let after = updated(table, set, cond);
            (
                OutcomeView::Write { path: table_storage_path(dir, after.name), bytes: table_bytes(after) },
                with_table(tables, after),
            )
        },
        Err(e) => (OutcomeView::Failed(e), tables),
    }
}

/// What a create comes to, and the tables that the buffer holds after it.
pub open spec fn create_outcome(
    tables: Seq<TableView>,
    dir: Seq<char>,
    name: Seq<char>,
    columns: Seq<ColumnView>,
) -> (OutcomeView, Seq<TableView>) {
    let table = created(name, columns);
    (
        OutcomeView::Write { path: table_storage_path(dir, name), bytes: table_bytes(table) },
        with_table(tables, table),
    )
}

/// What a statement comes to, and the tables that the buffer holds after it.
pub open spec fn step_outcome(tables: Seq<TableView>, dir: Seq<char>, stmt: QueryStatement, stored: Seq<u8>) -> (
    OutcomeView,
    Seq<TableView>,
) {
    match stmt {
        QueryStatement::CreateTable(name, columns) => create_outcome(tables, dir, name@, declared_view(columns@)),
        QueryStatement::Select(name, is_all, columns, cond) => (
            select_outcome(tables, name@, is_all, names_view(columns@), condition_view(cond), stored),
            tables,
        ),
        QueryStatement::Update(name, set, cond) => update_outcome(
            tables,
            dir,
            name@,
            assignments_view(set@),
            (cond.0@, cond.1@),
            stored,
        ),
        QueryStatement::Exit => (OutcomeView::Exit, tables),
    }
}

/// The name of the table whose file a statement may need: that of a select
/// or an update.
pub open spec fn subject(stmt: QueryStatement) -> Option<Seq<char>> {
    match stmt {
        QueryStatement::Select(name, _, _, _) => Some(name@),
        QueryStatement::Update(name, _, _) => Some(name@),
        _ => None,
    }
}

/// The files, by their paths, after the caller has done what an outcome
/// asks: the file that is to be written holds its new bytes, every other
/// file holds what it held.
pub open spec fn files_after(files: Map<Seq<char>, Seq<u8>>, outcome: OutcomeView) -> Map<Seq<char>, Seq<u8>> {
    match outcome {
        OutcomeView::Write { path, bytes } => files.insert(path, bytes),
        _ => files,
    }
}

/// Whether a select or an update names a table or a column that does not
/// exist: a table that neither the buffer nor a file holds, or a column
/// that the table does not have.
pub open spec fn names_missing(tables: Seq<TableView>, stmt: QueryStatement, stored: Seq<u8>) -> bool {
    match stmt {
        QueryStatement::Select(name, is_all, columns, cond) => match resolved(tables, name@, stored) {
            Ok(table) => select_misses(table, names_view(columns@), condition_view(cond)),
            Err(e) => e == Error::NotFound,
        },
        QueryStatement::Update(name, set, cond) => match resolved(tables, name@, stored) {
            Ok(table) => update_misses(table, assignments_view(set@), (cond.0@, cond.1@)),
            Err(e) => e == Error::NotFound,
        },
        _ => false,
    }
}

/// A select or an update that names a table or a column that does not exist
/// fails with `NotFound`. Every file holds what it held, and so does the
/// buffer.
pub proof fn lemma_missing_name_is_not_found(
    tables: Seq<TableView>,
    dir: Seq<char>,
    stmt: QueryStatement,
    stored: Seq<u8>,
    files: Map<Seq<char>, Seq<u8>>,
)
    requires
        names_missing(tables, stmt, stored),
    ensures
        step_outcome(tables, dir, stmt, stored) == (OutcomeView::Failed(Error::NotFound), tables),
        files_after(files, step_outcome(tables, dir, stmt, stored).0) == files,
{
}

/// A statement that fails leaves the buffer and the files as they were,
/// and so do a select and an exit. A file is written for a create and for
/// an update that does not fail, and for nothing else.
pub proof fn lemma_what_a_statement_changes(
    tables: Seq<TableView>,
    dir: Seq<char>,
    stmt: QueryStatement,
    stored: Seq<u8>,
    files: Map<Seq<char>, Seq<u8>>,
)
    ensures
        step_outcome(tables, dir, stmt, stored).0 is Failed || stmt is Select || stmt is Exit ==> step_outcome(
            tables,
            dir,
            stmt,
            stored,
        ).1 == tables && files_after(files, step_outcome(tables, dir, stmt, stored).0) == files,
        step_outcome(tables, dir, stmt, stored).0 is Write <==> stmt is CreateTable || (stmt is Update
            && !(step_outcome(tables, dir, stmt, stored).0 is Failed)),
{
}

/// What is written for an update is the table after the update, which the
/// buffer then holds under its name: the table that the statement worked on,
/// with the assignments made in the rows that meet the equality and every
/// other row as it was. The file of that table then holds its bytes, and no
/// other file is changed. Where that table fits the layout, the bytes that
/// are written read back as that table.
pub proof fn lemma_update_writes_what_it_leaves(
    tables: Seq<TableView>,
    dir: Seq<char>,
    name: Seq<char>,
    set: Seq<ConditionView>,
    cond: ConditionView,
    stored: Seq<u8>,
    files: Map<Seq<char>, Seq<u8>>,
)
    requires
        update_outcome(tables, dir, name, set, cond, stored).0 is Write,
    ensures
        resolved(tables, name, stored) matches Ok(before) && ({
            let after = updated(before, set, cond);
            let (outcome, left) = update_outcome(tables, dir, name, set, cond, stored);
            let path = table_storage_path(dir, after.name);
            &&& outcome == OutcomeView::Write { path, bytes: table_bytes(after) }
            &&& files_after(files, outcome) == files.insert(path, table_bytes(after))
            &&& lookup(left, after.name) == Some(after)
            &&& after.name == before.name
            &&& after.columns == before.columns
            &&& after.records.len() == before.records.len()
            &&& after.encodable() ==> parse_table(files_after(files, outcome)[path]) == Some(after)
        }),
{
    let before = resolved(tables, name, stored)->Ok_0;
    let after = updated(before, set, cond);
    buffer::lemma_lookup_with_table(tables, after, after.name);
    if after.encodable() {
        storage::inverse::lemma_decode_encode(after, Seq::empty());
        assert(table_bytes(after) + Seq::<u8>::empty() =~= table_bytes(after));
    }
}

/// Runs statements against the tables of the session and the bytes of their
/// files. It reads and writes no file itself: it says which file it needs,
/// takes the content, and says what is to be written.
pub struct Executer {
    buffer: BufferPool,
    pub storage: Storage,
}

impl Executer {
    /// The tables that the buffer holds.
    pub closed spec fn tables(&self) -> Seq<TableView> {
        self.buffer@
    }

    /// The directory under which the tables are kept.
    pub closed spec fn dir(&self) -> Seq<char> {
        self.storage.storage_dir@
    }

    /// Every table that the buffer holds is well formed.
    pub closed spec fn wf(&self) -> bool {
        forall|i: int| 0 <= i < self.buffer@.len() ==> (#[trigger] self.buffer@[i]).well_formed()
    }

    /// An executer whose tables are kept under `storage_path`, with an empty
    /// buffer.
    pub fn new(storage_path: String) -> (e: Self)
        ensures
            e.wf(),
            e.tables() == Seq::<TableView>::empty(),
            e.dir() == storage_path@,
    {
        let storage = Storage::new(storage_path);
        let buffer = BufferPool::new();
        assert(buffer@ =~= Seq::<TableView>::empty());
        Self { buffer, storage }
    }

    /// The path of the file whose content `step` needs for `stmt`: that of
    /// the table of a select or an update which the buffer does not hold.
    pub fn wants(&self, stmt: &QueryStatement) -> (r: Option<String>)
        ensures
            match r {
                Some(path) => subject(*stmt) matches Some(name) && lookup(self.tables(), name) is None && path@
                    == table_storage_path(self.dir(), name),
                None => subject(*stmt) matches Some(name) ==> lookup(self.tables(), name) is Some,
            },
    {
        match stmt {
            QueryStatement::Select(name, _, _, _) => self.wants_table(name),
            QueryStatement::Update(name, _, _) => self.wants_table(name),
            _ => None,
        }
    }

    /// The path of the file of the table `name`, where the buffer does not
    /// hold that table.
    fn wants_table(&self, name: &String) -> (r: Option<String>)
        ensures
            match r {
                Some(path) => lookup(self.tables(), name@) is None && path@ == table_storage_path(
                    self.dir(),
                    name@,
                ),
                None => lookup(self.tables(), name@) is Some,
            },
    {
        match self.buffer.position(name) {
            Some(_) => None,
            None => Some(self.storage.get_table_storage_path(name.as_str())),
        }
    }

    /// Runs one statement. `stored` is the content of the file that `wants`
    /// names for it, empty where there is no such file; where `wants` names
    /// none, `stored` is not looked at.
    pub fn step(&mut self, stmt: QueryStatement, stored: &[u8]) -> (outcome: Outcome)
        requires
            old(self).wf(),
        ensures
            final(self).wf(),
            final(self).dir() == old(self).dir(),
            (outcome@, final(self).tables()) == step_outcome(
                old(self).tables(),
                old(self).dir(),
                stmt,
                stored@,
            ),
    {
        match stmt {
            QueryStatement::CreateTable(table_name, columns) => self.create_table(table_name, columns),
            QueryStatement::Select(table_name, is_all, columns, cond) => self.select(
                table_name,
                is_all,
                columns,
                cond,
                stored,
            ),
            QueryStatement::Update(table_name, set, cond) => self.update(table_name, set, cond, stored),
            QueryStatement::Exit => Outcome::Exit,
        }
    }

    /// Makes an empty table, puts it into the buffer, and says what is to be
    /// written for it.
    pub fn create_table(&mut self, table_name: String, columns: Vec<(String, crate::query::ast::DataType)>) -> (outcome:
        Outcome)
        requires
            old(self).wf(),
        ensures
            final(self).wf(),
            final(self).dir() == old(self).dir(),
            (outcome@, final(self).tables()) == create_outcome(
                old(self).tables(),
                old(self).dir(),
                table_name@,
                declared_view(columns@),
            ),
    {
        let ghost declared = declared_view(columns@);
        let mut schema: Vec<(String, table::DataType)> = Vec::new();
        let mut i: usize = 0;
        while i < columns.len()
            invariant
                i <= columns.len(),
                declared == declared_view(columns@),
                table::columns_view(schema@) == declared.take(i as int),
            decreases columns.len() - i,
        {
            let ghost before = table::columns_view(schema@);
            let data_type = match columns[i].1 {
                crate::query::ast::DataType::Int => table::DataType::Int,
                crate::query::ast::DataType::VarChar(size) => table::DataType::VarChar(size),
            };
            let name = columns[i].0.clone();
            assert((name@, data_type) == declared[i as int]);
            schema.push((name, data_type));
            assert(table::columns_view(schema@) =~= before.push(declared[i as int]));
            assert(table::columns_view(schema@) =~= declared.take(i + 1));
            i += 1;
        }
        assert(declared.take(i as int) =~= declared);
        let table = Table::new(table_name, schema, Vec::new());
        assert(table@.records =~= Seq::<Seq<ValueView>>::empty());
        assert(table@ == created(table_name@, declared));
        let (path, bytes) = self.storage.prepare(&table);
        self.put(table);
        Outcome::Write { path, bytes }
    }

    /// Puts a well-formed table into the buffer.
    fn put(&mut self, table: Table)
        requires
            old(self).wf(),
            table@.well_formed(),
        ensures
            final(self).wf(),
            final(self).dir() == old(self).dir(),
            final(self).tables() == with_table(old(self).tables(), table@),
    {
        proof {
            lemma_first_index(buffer::table_names(self.buffer@), table@.name);
        }
        self.buffer.insert(table);
    }

    /// Finds the table, in the buffer or else in `stored`, and selects from
    /// it. The buffer is left as it is.
    pub fn select(
        &self,
        table_name: String,
        is_all: bool,
        columns: Vec<String>,
        cond: Option<(String, crate::query::ast::Value)>,
        stored: &[u8],
    ) -> (outcome: Outcome)
        ensures
            outcome@ == select_outcome(
                self.tables(),
                table_name@,
                is_all,
                names_view(columns@),
                condition_view(cond),
                stored@,
            ),
    {
        match self.buffer.find(&table_name) {
            Some(table) => Self::select_from(table, is_all, &columns, &cond),
            None => match Storage::restore(stored) {
                Ok(Some(table)) => Self::select_from(&table, is_all, &columns, &cond),
                Ok(None) => Outcome::Failed(Error::NotFound),
                Err(e) => Outcome::Failed(e),
            },
        }
    }

    /// What a select on `table` comes to.
    fn select_from(
        table: &Table,
        is_all: bool,
        columns: &Vec<String>,
        cond: &Option<(String, crate::query::ast::Value)>,
    ) -> (outcome: Outcome)
        ensures
            outcome@ == (if select_misses(table@, names_view(columns@), condition_view(*cond)) {
                OutcomeView::Failed(Error::NotFound)
            } else if selected(table@, is_all, names_view(columns@), condition_view(*cond)).rows.len() == 0 {
                OutcomeView::Empty
            } else {
                OutcomeView::Rows(selected(table@, is_all, names_view(columns@), condition_view(*cond)))
            }),
    {
        match table.select(is_all, columns, cond) {
            Ok(selection) => {
                if selection.rows.len() == 0 {
                    Outcome::Empty
                } else {
                    Outcome::Rows(selection)
                }
            },
            Err(e) => Outcome::Failed(e),
        }
    }

    /// Finds the table, in the buffer or else in `stored`, makes the
    /// assignments in every row that meets the equality, leaves the table in
    /// the buffer, and says what is to be written for it. Where it fails,
    /// the buffer is left as it is.
    pub fn update(
        &mut self,
        table_name: String,
        set: Vec<(String, crate::query::ast::Value)>,
        cond: (String, crate::query::ast::Value),
        stored: &[u8],
    ) -> (outcome: Outcome)
        requires
            old(self).wf(),
        ensures
            final(self).wf(),
            final(self).dir() == old(self).dir(),
            (outcome@, final(self).tables()) == update_outcome(
                old(self).tables(),
                old(self).dir(),
                table_name@,
                assignments_view(set@),
                (cond.0@, cond.1@),
                stored@,
            ),
    {
        let ghost before = self.buffer@;
        match self.buffer.position(&table_name) {
            Some(i) => {
                proof {
                    lemma_first_index(buffer::table_names(before), table_name@);
                    assert(before[i as int].well_formed());
                    assert(before[i as int].name == table_name@);
                }
                let ghost found = self.buffer.body@[i as int]@;
                assert(found == before[i as int]);
                match self.buffer.body[i].update(&set, &cond) {
                    Ok(_) => {
                        let ghost after = self.buffer.body@[i as int]@;
                        assert(self.buffer@ =~= before.update(i as int, after));
                        assert(after.name == table_name@);
                        let (path, bytes) = self.storage.prepare(&self.buffer.body[i]);
                        Outcome::Write { path, bytes }
                    },
                    Err(e) => {
                        assert(self.buffer@ =~= before);
                        Outcome::Failed(e)
                    },
                }
            },
            None => match Storage::restore(stored) {
                Ok(Some(table)) => {
                    let mut table = table;
                    match table.update(&set, &cond) {
                        Ok(_) => {
                            let (path, bytes) = self.storage.prepare(&table);
                            self.put(table);
                            Outcome::Write { path, bytes }
                        },
                        Err(e) => Outcome::Failed(e),
                    }
                },
                Ok(None) => Outcome::Failed(Error::NotFound),
                Err(e) => Outcome::Failed(e),
            },
        }
    }
}

} // verus!
