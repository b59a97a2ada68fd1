//! The statements that the engine runs.

use crate::engine::table::ValueView;
use vstd::prelude::*;

verus! {

/// The declared type of a column, as a statement names it.
#[derive(Debug, Clone, Copy, PartialEq, Eq, Structural)]
pub enum DataType {
    Int,
    VarChar(u16),
}

/// A literal value in a statement.
#[derive(Debug, PartialEq)]
pub enum Value {
    Int(i32),
    VarChar(String),
}

impl View for Value {
    type V = ValueView;

    open spec fn view(&self) -> ValueView {
        match self {
            Value::Int(v) => ValueView::Int(*v),
            Value::VarChar(s) => ValueView::VarChar(s@),
        }
    }
}

impl Clone for Value {
    fn clone(&self) -> (v: Self)
        ensures
            v == *self,
    {
        match self {
            Value::Int(n) => Value::Int(*n),
            Value::VarChar(s) => Value::VarChar(s.clone()),
        }
    }
}

/// One statement.
#[derive(Debug, PartialEq)]
pub enum QueryStatement {
    /// The table's name, whether all columns are asked for, the columns asked
    /// for by name, and the equality that a row must meet, if there is one.
    Select(String, bool, Vec<String>, Option<(String, Value)>),
    /// The table's name, the assignments, and the equality that a row must
    /// meet to be assigned to.
    Update(String, Vec<(String, Value)>, (String, Value)),
    /// The table's name and its columns.
    CreateTable(String, Vec<(String, DataType)>),
    /// Stop.
    Exit,
}

/// A statement as contracts see it.
pub enum StatementView {
    Select(Seq<char>, bool, Seq<Seq<char>>, Option<ConditionView>),
    Update(Seq<char>, Seq<ConditionView>, ConditionView),
    CreateTable(Seq<char>, Seq<(Seq<char>, crate::engine::table::DataType)>),
    Exit,
}

impl View for QueryStatement {
    type V = StatementView;

    open spec fn view(&self) -> StatementView {
        match self {
            QueryStatement::Select(table, is_all, columns, cond) => StatementView::Select(
                table@,
                *is_all,
                names_view(columns@),
                match cond {
                    Some(c) => Some((c.0@, c.1@)),
                    None => None,
                },
            ),
            QueryStatement::Update(table, set, cond) => StatementView::Update(
                table@,
                assignments_view(set@),
                (cond.0@, cond.1@),
            ),
            QueryStatement::CreateTable(table, columns) => StatementView::CreateTable(
                table@,
                declared_view(columns@),
            ),
            QueryStatement::Exit => StatementView::Exit,
        }
    }
}

/// The views of a list of statements.
pub open spec fn statements_view(statements: Seq<QueryStatement>) -> Seq<StatementView> {
    statements.map_values(|s: QueryStatement| s@)
}

/// A list of statements.
#[derive(Debug)]
pub struct Query(Vec<QueryStatement>);

/// An equality as contracts see it: a column's name and a value.
pub type ConditionView = (Seq<char>, ValueView);

/// The views of a list of names.
pub open spec fn names_view(names: Seq<String>) -> Seq<Seq<char>> {
    names.map_values(|s: String| s@)
}

/// The views of a list of assignments.
pub open spec fn assignments_view(set: Seq<(String, Value)>) -> Seq<ConditionView> {
    set.map_values(|a: (String, Value)| (a.0@, a.1@))
}

/// The views of the columns of a statement that creates a table.
pub open spec fn declared_view(columns: Seq<(String, DataType)>) -> Seq<(Seq<char>, crate::engine::table::DataType)> {
    columns.map_values(|c: (String, DataType)| (c.0@, c.1@))
}

impl View for DataType {
    type V = crate::engine::table::DataType;

    open spec fn view(&self) -> crate::engine::table::DataType {
        match self {
            DataType::Int => crate::engine::table::DataType::Int,
            DataType::VarChar(size) => crate::engine::table::DataType::VarChar(*size),
        }
    }
}

} // verus!
