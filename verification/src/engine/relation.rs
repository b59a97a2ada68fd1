//! What a statement asks of one table: the rows that meet an equality, the
//! columns that are asked for, and the rows after an update.

use super::table::{
    columns_view, record_matches, records_view, value_has_type, ColumnView, DataType, Record, Table,
    TableView, Value, ValueView,
};
use crate::error::Error;
use crate::names::{first_index, is_first, lemma_first_index};
use crate::query::ast::{assignments_view, names_view, ConditionView};
use vstd::prelude::*;

verus! {

/// The names of a list of columns.
pub open spec fn column_names(columns: Seq<ColumnView>) -> Seq<Seq<char>> {
    columns.map_values(|c: ColumnView| c.0)
}

/// The position of the column that `name` refers to: the first of that name.
pub open spec fn column_index(columns: Seq<ColumnView>, name: Seq<char>) -> Option<int> {
    first_index(column_names(columns), name)
}

/// Equality of a cell and a value: they are of the same variant and hold the
/// same. An integer never equals a string.
pub open spec fn values_match(cell: ValueView, value: ValueView) -> bool {
    match cell {
        ValueView::Int(a) => value matches ValueView::Int(b) && a == b,
        ValueView::VarChar(a) => value matches ValueView::VarChar(b) && a == b,
    }
}

/// Whether a row has at position `at` a cell that equals `value`.
pub open spec fn row_meets(row: Seq<ValueView>, at: int, value: ValueView) -> bool {
    0 <= at < row.len() && values_match(row[at], value)
}

/// The rows that have at position `at` a cell that equals `value`, in the
/// order in which they stand.
pub open spec fn rows_meeting(rows: Seq<Seq<ValueView>>, at: int, value: ValueView) -> Seq<Seq<ValueView>> {
    rows.filter(|row: Seq<ValueView>| row_meets(row, at, value))
}

/// For each column, whether its name is among `names`.
pub open spec fn wanted(columns: Seq<ColumnView>, names: Seq<Seq<char>>) -> Seq<bool> {
    Seq::new(columns.len(), |i: int| names.contains(columns[i].0))
}

/// The items that stand where `mask` holds, in the order in which they stand.
pub open spec fn pick<T>(items: Seq<T>, mask: Seq<bool>) -> Seq<T>
    decreases items.len(),
{
    if items.len() == 0 {
        Seq::empty()
    } else {
        let others = pick(items.drop_last(), mask);
        if items.len() <= mask.len() && mask[items.len() - 1] {
            others.push(items.last())
        } else {
            others
        }
    }
}

/// The items at the positions of the columns named in `names`, in the order
/// of the columns.
pub open spec fn project<T>(items: Seq<T>, columns: Seq<ColumnView>, names: Seq<Seq<char>>) -> Seq<T> {
    pick(items, wanted(columns, names))
}

/// What a select gives: the names of the columns, and the rows.
#[derive(Debug, PartialEq)]
pub struct Selection {
    pub columns: Vec<String>,
    pub rows: Vec<Record>,
}

/// A selection as contracts see it.
pub struct SelectionView {
    pub columns: Seq<Seq<char>>,
    pub rows: Seq<Seq<ValueView>>,
}

impl View for Selection {
    type V = SelectionView;

    open spec fn view(&self) -> SelectionView {
        SelectionView { columns: names_view(self.columns@), rows: records_view(self.rows@) }
    }
}

/// Whether a select names a column that the table does not have: in its
/// equality, or among the columns that it names, be it beside an asterisk.
pub open spec fn select_misses(table: TableView, names: Seq<Seq<char>>, cond: Option<ConditionView>) -> bool {
    ||| cond matches Some(c) && column_index(table.columns, c.0) is None
    ||| exists|k: int| 0 <= k < names.len() && column_index(table.columns, #[trigger] names[k]) is None
}

/// The rows of `table` that a select with the equality `cond` keeps.
pub open spec fn kept_rows(table: TableView, cond: Option<ConditionView>) -> Seq<Seq<ValueView>> {
    match cond {
        Some(c) => rows_meeting(table.records, column_index(table.columns, c.0)->0, c.1),
        None => table.records,
    }
}

/// What a select gives on `table`: the rows that meet the equality, and of
/// them, where not all columns are asked for, the cells of the columns asked
/// for, in the order of the schema.
pub open spec fn selected(
    table: TableView,
    is_all: bool,
    names: Seq<Seq<char>>,
    cond: Option<ConditionView>,
) -> SelectionView {
    let kept = kept_rows(table, cond);
    if is_all {
        SelectionView { columns: column_names(table.columns), rows: kept }
    } else {
        SelectionView {
            columns: project(column_names(table.columns), table.columns, names),
            rows: kept.map_values(|row: Seq<ValueView>| project(row, table.columns, names)),
        }
    }
}

/// The rows that are kept are exactly those that meet the equality: every
/// row that is kept is a row of the table and meets it, every row of the
/// table that meets it is kept, and where no row meets it none is kept.
pub proof fn lemma_rows_meeting(rows: Seq<Seq<ValueView>>, at: int, value: ValueView)
    ensures
        forall|k: int|
            0 <= k < rows_meeting(rows, at, value).len() ==> row_meets(
                #[trigger] rows_meeting(rows, at, value)[k],
                at,
                value,
            ) && rows.contains(rows_meeting(rows, at, value)[k]),
        forall|r: int|
            0 <= r < rows.len() && row_meets(#[trigger] rows[r], at, value) ==> rows_meeting(rows, at, value).contains(
                rows[r],
            ),
        rows_meeting(rows, at, value).len() <= rows.len(),
        (forall|r: int| 0 <= r < rows.len() ==> !row_meets(#[trigger] rows[r], at, value)) ==> rows_meeting(
            rows,
            at,
            value,
        ).len() == 0,
    decreases rows.len(),
{
    reveal(Seq::filter);
    let kept = rows_meeting(rows, at, value);
    if rows.len() > 0 {
        let init = rows.drop_last();
        let before = rows_meeting(init, at, value);
        lemma_rows_meeting(init, at, value);
        assert forall|k: int| 0 <= k < kept.len() implies row_meets(#[trigger] kept[k], at, value) && rows.contains(
            kept[k],
        ) by {
            if k < before.len() {
                assert(kept[k] == before[k]);
                let j = choose|j: int| 0 <= j < init.len() && init[j] == before[k];
                assert(rows[j] == kept[k]);
            } else {
                assert(kept[k] == rows.last());
                assert(rows[rows.len() - 1] == kept[k]);
            }
        }
        assert forall|r: int| 0 <= r < rows.len() && row_meets(#[trigger] rows[r], at, value) implies kept.contains(
            rows[r],
        ) by {
            if r < init.len() {
                assert(init[r] == rows[r]);
                let j = choose|j: int| 0 <= j < before.len() && before[j] == init[r];
                assert(kept[j] == rows[r]);
            } else {
                assert(kept[kept.len() - 1] == rows[r]);
            }
        }
        if forall|r: int| 0 <= r < rows.len() ==> !row_meets(#[trigger] rows[r], at, value) {
            assert forall|r: int| 0 <= r < init.len() implies !row_meets(#[trigger] init[r], at, value) by {
                assert(init[r] == rows[r]);
            }
            assert(!row_meets(rows[rows.len() - 1], at, value));
        }
    }
}

/// Which columns are asked for does not depend on the order in which they
/// are named, nor on how often: two lists of the same names give the same
/// cells, in the order of the schema.
pub proof fn lemma_project_ignores_order<T>(
    items: Seq<T>,
    columns: Seq<ColumnView>,
    names: Seq<Seq<char>>,
    others: Seq<Seq<char>>,
)
    requires
        forall|name: Seq<char>| names.contains(name) <==> others.contains(name),
    ensures
        project(items, columns, names) == project(items, columns, others),
{
    assert(wanted(columns, names) =~= wanted(columns, others));
}

/// A row after one assignment: the cell of the column that the assignment
/// names holds the new value, where that value is of the column's type. An
/// assignment of a value of another type leaves the row as it was.
pub open spec fn assigned(row: Seq<ValueView>, columns: Seq<ColumnView>, assignment: ConditionView) -> Seq<ValueView> {
    match column_index(columns, assignment.0) {
        Some(at) => if at < row.len() && value_has_type(assignment.1, columns[at].1) {
            row.update(at, assignment.1)
        } else {
            row
        },
        None => row,
    }
}

/// A row after the assignments of `set`, made in their order.
pub open spec fn assigned_all(row: Seq<ValueView>, columns: Seq<ColumnView>, set: Seq<ConditionView>) -> Seq<ValueView>
    decreases set.len(),
{
    if set.len() == 0 {
        row
    } else {
        assigned(assigned_all(row, columns, set.drop_last()), columns, set.last())
    }
}

/// Whether an update names a column that the table does not have: in its
/// equality or in one of its assignments.
pub open spec fn update_misses(table: TableView, set: Seq<ConditionView>, cond: ConditionView) -> bool {
    ||| column_index(table.columns, cond.0) is None
    ||| exists|k: int| 0 <= k < set.len() && column_index(table.columns, (#[trigger] set[k]).0) is None
}

/// A row after an update: with the assignments made where it meets the
/// equality, as it was where it does not.
pub open spec fn updated_row(row: Seq<ValueView>, columns: Seq<ColumnView>, set: Seq<ConditionView>, cond: ConditionView) -> Seq<ValueView> {
    if row_meets(row, column_index(columns, cond.0)->0, cond.1) {
        assigned_all(row, columns, set)
    } else {
        row
    }
}

/// The table after an update: every row that meets the equality has the
/// assignments made, every other row is as it was.
pub open spec fn updated(table: TableView, set: Seq<ConditionView>, cond: ConditionView) -> TableView {
    TableView {
        name: table.name,
        columns: table.columns,
        records: table.records.map_values(|row: Seq<ValueView>| updated_row(row, table.columns, set, cond)),
    }
}

/// An assignment keeps the length of a row, and a row that matches the
/// schema still matches it.
pub proof fn lemma_assigned_matches(row: Seq<ValueView>, columns: Seq<ColumnView>, set: Seq<ConditionView>)
    ensures
        assigned_all(row, columns, set).len() == row.len(),
        record_matches(row, columns) ==> record_matches(assigned_all(row, columns, set), columns),
    decreases set.len(),
{
    if set.len() > 0 {
        lemma_assigned_matches(row, columns, set.drop_last());
        lemma_first_index(column_names(columns), set.last().0);
    }
}

/// An update keeps a table that is well formed well formed.
pub proof fn lemma_updated_well_formed(table: TableView, set: Seq<ConditionView>, cond: ConditionView)
    requires
        table.well_formed(),
    ensures
        updated(table, set, cond).well_formed(),
{
    let after = updated(table, set, cond);
    assert forall|r: int| 0 <= r < after.records.len() implies record_matches(
        #[trigger] after.records[r],
        after.columns,
    ) by {
        assert(record_matches(table.records[r], table.columns));
        lemma_assigned_matches(table.records[r], table.columns, set);
    }
}

/// What an update does to each row. A row that does not meet the equality
/// is the same after it. In a row that meets it, the cell of a column that
/// an assignment names holds the value of the last such assignment that is
/// of the column's type, and every cell that no such assignment names is the
/// same.
pub proof fn lemma_update_effect(table: TableView, set: Seq<ConditionView>, cond: ConditionView, r: int)
    requires
        0 <= r < table.records.len(),
    ensures
        updated(table, set, cond).records.len() == table.records.len(),
        updated(table, set, cond).records[r].len() == table.records[r].len(),
        !row_meets(table.records[r], column_index(table.columns, cond.0)->0, cond.1) ==> updated(
            table,
            set,
            cond,
        ).records[r] == table.records[r],
        row_meets(table.records[r], column_index(table.columns, cond.0)->0, cond.1) ==> forall|i: int|
            0 <= i < table.records[r].len() ==> #[trigger] updated(table, set, cond).records[r][i] == (
            match last_assignment(table.columns, set, i) {
                Some(k) => set[k].1,
                None => table.records[r][i],
            }),
{
    let row = table.records[r];
    lemma_assigned_matches(row, table.columns, set);
    assert forall|i: int| 0 <= i < row.len() implies #[trigger] assigned_all(row, table.columns, set)[i] == (
    match last_assignment(table.columns, set, i) {
        Some(k) => set[k].1,
        None => row[i],
    }) by {
        lemma_assigned_cell(row, table.columns, set, i);
    }
}

/// Whether the assignment `set[k]` takes effect on the cell at position `i`:
/// it names the column there, and its value is of that column's type.
pub open spec fn assigns(columns: Seq<ColumnView>, set: Seq<ConditionView>, k: int, i: int) -> bool {
    &&& 0 <= k < set.len()
    &&& column_index(columns, set[k].0) == Some(i)
    &&& value_has_type(set[k].1, columns[i].1)
}

/// The last assignment of `set` that takes effect on the cell at position
/// `i`, if there is one.
pub open spec fn last_assignment(columns: Seq<ColumnView>, set: Seq<ConditionView>, i: int) -> Option<int>
    decreases set.len(),
{
    if set.len() == 0 {
        None
    } else if assigns(columns, set, set.len() - 1, i) {
        Some(set.len() - 1)
    } else {
        last_assignment(columns, set.drop_last(), i)
    }
}

/// `last_assignment` is what its name says: an assignment that takes effect
/// on the cell, with none after it that does.
pub proof fn lemma_last_assignment(columns: Seq<ColumnView>, set: Seq<ConditionView>, i: int)
    ensures
        match last_assignment(columns, set, i) {
            Some(k) => assigns(columns, set, k, i) && forall|j: int| k < j < set.len() ==> !assigns(columns, set, j, i),
            None => forall|j: int| 0 <= j < set.len() ==> !assigns(columns, set, j, i),
        },
    decreases set.len(),
{
    if set.len() > 0 && !assigns(columns, set, set.len() - 1, i) {
        let init = set.drop_last();
        lemma_last_assignment(columns, init, i);
        assert forall|j: int| 0 <= j < init.len() implies assigns(columns, init, j, i) == assigns(
            columns,
            set,
            j,
            i,
        ) by {
            assert(init[j] == set[j]);
        }
    }
}

/// The cell at position `i` of a row after the assignments of `set`.
pub proof fn lemma_assigned_cell(row: Seq<ValueView>, columns: Seq<ColumnView>, set: Seq<ConditionView>, i: int)
    requires
        0 <= i < row.len(),
    ensures
        assigned_all(row, columns, set)[i] == (match last_assignment(columns, set, i) {
            Some(k) => set[k].1,
            None => row[i],
        }),
    decreases set.len(),
{
    if set.len() > 0 {
        let init = set.drop_last();
        lemma_assigned_cell(row, columns, init, i);
        lemma_assigned_matches(row, columns, init);
        lemma_first_index(column_names(columns), set.last().0);
        match last_assignment(columns, init, i) {
            Some(k) => {
                lemma_last_assignment(columns, init, i);
                assert(init[k] == set[k]);
            },
            None => {},
        }
    }
}

/// Whether `cell` equals the statement's `value`.
pub fn value_equals(cell: &Value, value: &crate::query::ast::Value) -> (b: bool)
    ensures
        b == values_match(cell@, value@),
{
    match cell {
        Value::Int(a) => match value {
            crate::query::ast::Value::Int(b) => *a == *b,
            crate::query::ast::Value::VarChar(_) => false,
        },
        Value::VarChar(a) => match value {
            crate::query::ast::Value::Int(_) => false,
            crate::query::ast::Value::VarChar(b) => *a == *b,
        },
    }
}

/// The statement's `value` as a cell.
pub fn to_cell(value: &crate::query::ast::Value) -> (cell: Value)
    ensures
        cell@ == value@,
{
    match value {
        crate::query::ast::Value::Int(n) => Value::Int(*n),
        crate::query::ast::Value::VarChar(s) => Value::VarChar(s.clone()),
    }
}

/// The items of `items` that stand where `mask` holds.
fn pick_values(items: &Vec<Value>, mask: &Vec<bool>) -> (out: Vec<Value>)
    ensures
        out@.map_values(|v: Value| v@) == pick(items@.map_values(|v: Value| v@), mask@),
{
    let ghost all = items@.map_values(|v: Value| v@);
    let mut out: Vec<Value> = Vec::new();
    let mut i: usize = 0;
    while i < items.len()
        invariant
            i <= items.len(),
            all == items@.map_values(|v: Value| v@),
            out@.map_values(|v: Value| v@) == pick(all.take(i as int), mask@),
        decreases items.len() - i,
    {
        let ghost before = out@.map_values(|v: Value| v@);
        proof {
            assert(all.take(i + 1).drop_last() =~= all.take(i as int));
            assert(all.take(i + 1).last() == items@[i as int]@);
        }
        if i < mask.len() && mask[i] {
            out.push(items[i].clone());
            assert(out@.map_values(|v: Value| v@) =~= before.push(items@[i as int]@));
        }
        i += 1;
    }
    assert(all.take(i as int) =~= all);
    out
}

impl Table {
    /// The position of the column that `name` refers to: the first of that
    /// name.
    pub fn column_index(&self, name: &String) -> (r: Option<usize>)
        ensures
            match r {
                Some(i) => column_index(self@.columns, name@) == Some(i as int) && i < self.columns@.len(),
                None => column_index(self@.columns, name@) is None,
            },
    {
        let ghost all = column_names(self@.columns);
        let mut i: usize = 0;
        while i < self.columns.len()
            invariant
                i <= self.columns.len(),
                all == column_names(self@.columns),
                forall|j: int| 0 <= j < i ==> all[j] != name@,
            decreases self.columns.len() - i,
        {
            proof {
                assert(all[i as int] == self.columns@[i as int].0@);
            }
            if self.columns[i].0 == *name {
                proof {
                    assert(is_first(all, name@, i as int));
                    lemma_first_index(all, name@);
                }
                return Some(i);
            }
            i += 1;
        }
        proof {
            if all.contains(name@) {
                let k = choose|k: int| 0 <= k < all.len() && all[k] == name@;
                assert(all[k] != name@);
            }
        }
        None
    }

    /// For each column, whether its name is among `names`; or nothing, where
    /// one of `names` is the name of no column.
    fn wanted_columns(&self, names: &Vec<String>) -> (r: Option<Vec<bool>>)
        ensures
            match r {
                Some(mask) => mask@ == wanted(self@.columns, names_view(names@)) && forall|k: int|
                    0 <= k < names@.len() ==> column_index(self@.columns, #[trigger] names_view(names@)[k]) is Some,
                None => exists|k: int|
                    0 <= k < names@.len() && column_index(self@.columns, #[trigger] names_view(names@)[k]) is None,
            },
    {
        let ghost asked = names_view(names@);
        let mut k: usize = 0;
        while k < names.len()
            invariant
                k <= names.len(),
                asked == names_view(names@),
                forall|j: int| 0 <= j < k ==> column_index(self@.columns, #[trigger] asked[j]) is Some,
            decreases names.len() - k,
        {
            if self.column_index(&names[k]).is_none() {
                assert(column_index(self@.columns, asked[k as int]) is None);
                return None;
            }
            k += 1;
        }
        let mut mask: Vec<bool> = Vec::new();
        let mut i: usize = 0;
        while i < self.columns.len()
            invariant
                i <= self.columns.len(),
                asked == names_view(names@),
                mask@ == wanted(self@.columns, asked).take(i as int),
            decreases self.columns.len() - i,
        {
            let found = crate::names::find_name(names, &self.columns[i].0);
            proof {
                lemma_first_index(asked, self.columns@[i as int].0@);
                assert(self@.columns[i as int].0 == self.columns@[i as int].0@);
            }
            mask.push(found.is_some());
            assert(mask@ =~= wanted(self@.columns, asked).take(i + 1));
            i += 1;
        }
        assert(wanted(self@.columns, asked).take(i as int) =~= wanted(self@.columns, asked));
        Some(mask)
    }

    /// Copies of the rows that have at position `at` a cell that equals
    /// `value`.
    fn rows_meeting(&self, at: usize, value: &crate::query::ast::Value) -> (rows: Vec<Record>)
        ensures
            records_view(rows@) == rows_meeting(self@.records, at as int, value@),
    {
        let ghost all = self@.records;
        let mut rows: Vec<Record> = Vec::new();
        let mut r: usize = 0;
        proof {
            reveal(Seq::filter);
        }
        while r < self.records.len()
            invariant
                r <= self.records.len(),
                all == self@.records,
                records_view(rows@) == rows_meeting(all.take(r as int), at as int, value@),
            decreases self.records.len() - r,
        {
            let record = &self.records[r];
            let ghost before = records_view(rows@);
            proof {
                reveal(Seq::filter);
                assert(all.take(r + 1).drop_last() =~= all.take(r as int));
                assert(all.take(r + 1).last() == record@);
            }
            if at < record.values.len() && value_equals(&record.values[at], value) {
                rows.push(record.clone());
                assert(records_view(rows@) =~= before.push(record@));
            }
            r += 1;
        }
        assert(all.take(r as int) =~= all);
        rows
    }

    /// Copies of all rows.
    fn all_rows(&self) -> (rows: Vec<Record>)
        ensures
            records_view(rows@) == self@.records,
    {
        let mut rows: Vec<Record> = Vec::new();
        let mut r: usize = 0;
        while r < self.records.len()
            invariant
                r <= self.records.len(),
                records_view(rows@) == self@.records.take(r as int),
            decreases self.records.len() - r,
        {
            let ghost before = records_view(rows@);
            let row = self.records[r].clone();
            assert(row@ == self@.records[r as int]);
            rows.push(row);
            assert(records_view(rows@) =~= before.push(row@));
            assert(records_view(rows@) =~= self@.records.take(r + 1));
            r += 1;
        }
        assert(self@.records.take(r as int) =~= self@.records);
        rows
    }

    /// What a select gives on this table. With an equality `cond`, only the
    /// rows that meet it are kept. Unless `is_all`, of each row only the
    /// cells of the columns named in `columns` are kept, in the order of the
    /// schema. Fails with `NotFound` where a column that is named does not
    /// exist, in the equality or in `columns`, whether `is_all` or not.
    pub fn select(&self, is_all: bool, columns: &Vec<String>, cond: &Option<(String, crate::query::ast::Value)>) -> (r:
        Result<Selection, Error>)
        ensures
            match r {
                Ok(s) => !select_misses(self@, names_view(columns@), condition_view(*cond)) && s@ == selected(
                    self@,
                    is_all,
                    names_view(columns@),
                    condition_view(*cond),
                ),
                Err(e) => e == Error::NotFound && select_misses(self@, names_view(columns@), condition_view(*cond)),
            },
    {
        let ghost names = names_view(columns@);
        // filter by where
        let kept = match cond {
            Some(c) => match self.column_index(&c.0) {
                Some(at) => self.rows_meeting(at, &c.1),
                None => {
                    return Err(Error::NotFound);
                },
            },
            None => self.all_rows(),
        };
        assert(records_view(kept@) == kept_rows(self@, condition_view(*cond)));
        let mut header: Vec<String> = Vec::new();
        let mut h: usize = 0;
        while h < self.columns.len()
            invariant
                h <= self.columns.len(),
                names_view(header@) == column_names(self@.columns).take(h as int),
            decreases self.columns.len() - h,
        {
            let ghost before = names_view(header@);
            let title = self.columns[h].0.clone();
            assert(title@ == column_names(self@.columns)[h as int]);
            header.push(title);
            assert(names_view(header@) =~= before.push(title@));
            assert(names_view(header@) =~= column_names(self@.columns).take(h + 1));
            h += 1;
        }
        assert(column_names(self@.columns).take(h as int) =~= column_names(self@.columns));
        let mask = match self.wanted_columns(columns) {
            Some(mask) => mask,
            None => {
                return Err(Error::NotFound);
            },
        };
        if is_all {
            return Ok(Selection { columns: header, rows: kept });
        }
        let ghost all = records_view(kept@);
        let mut rows: Vec<Record> = Vec::new();
        let mut r: usize = 0;
        while r < kept.len()
            invariant
                r <= kept.len(),
                all == records_view(kept@),
                names == names_view(columns@),
                mask@ == wanted(self@.columns, names),
                records_view(rows@) == all.take(r as int).map_values(
                    |row: Seq<ValueView>| project(row, self@.columns, names),
                ),
            decreases kept.len() - r,
        {
            let row = Record::new(pick_values(&kept[r].values, &mask));
            let ghost before = records_view(rows@);
            rows.push(row);
            assert(records_view(rows@) =~= before.push(row@));
            assert(records_view(rows@) =~= all.take(r + 1).map_values(
                |row: Seq<ValueView>| project(row, self@.columns, names),
            ));
            r += 1;
        }
        assert(all.take(r as int) =~= all);
        let mut picked: Vec<String> = Vec::new();
        let mut i: usize = 0;
        let ghost titles = names_view(header@);
        while i < header.len()
            invariant
                i <= header.len(),
                titles == names_view(header@),
                names_view(picked@) == pick(titles.take(i as int), mask@),
            decreases header.len() - i,
        {
            let ghost before = names_view(picked@);
            proof {
                assert(titles.take(i + 1).drop_last() =~= titles.take(i as int));
                assert(titles.take(i + 1).last() == header@[i as int]@);
            }
            if i < mask.len() && mask[i] {
                picked.push(header[i].clone());
                assert(names_view(picked@) =~= before.push(header@[i as int]@));
            }
            i += 1;
        }
        assert(titles.take(i as int) =~= titles);
        Ok(Selection { columns: picked, rows })
    }

    /// The places of the columns that the assignments of `set` name; or
    /// nothing, where one of them names no column.
    fn assignment_columns(&self, set: &Vec<(String, crate::query::ast::Value)>) -> (r: Option<Vec<usize>>)
        ensures
            match r {
                Some(places) => places@.len() == set@.len() && forall|k: int|
                    0 <= k < set@.len() ==> column_index(self@.columns, (#[trigger] assignments_view(set@)[k]).0)
                        == Some(places@[k] as int),
                None => exists|k: int|
                    0 <= k < set@.len() && column_index(self@.columns, (#[trigger] assignments_view(set@)[k]).0) is None,
            },
    {
        let ghost asked = assignments_view(set@);
        let mut places: Vec<usize> = Vec::new();
        let mut k: usize = 0;
        while k < set.len()
            invariant
                k <= set.len(),
                asked == assignments_view(set@),
                places@.len() == k,
                forall|j: int|
                    0 <= j < k ==> column_index(self@.columns, (#[trigger] asked[j]).0) == Some(places@[j] as int),
            decreases set.len() - k,
        {
            assert(asked[k as int].0 == set@[k as int].0@);
            match self.column_index(&set[k].0) {
                Some(at) => {
                    places.push(at);
                },
                None => {
                    return None;
                },
            }
            k += 1;
        }
        Some(places)
    }

    /// A copy of `record` with the assignments of `set` made, in their order.
    /// `places` holds the place of the column that each of them names.
    fn assign_all(&self, record: &Record, set: &Vec<(String, crate::query::ast::Value)>, places: &Vec<usize>) -> (row:
        Record)
        requires
            places@.len() == set@.len(),
            forall|k: int|
                0 <= k < set@.len() ==> column_index(self@.columns, (#[trigger] assignments_view(set@)[k]).0)
                    == Some(places@[k] as int),
        ensures
            row@ == assigned_all(record@, self@.columns, assignments_view(set@)),
    {
        let ghost asked = assignments_view(set@);
        let ghost columns = self@.columns;
        let mut values = record.clone().values;
        let mut k: usize = 0;
        assert(asked.take(0) =~= Seq::<ConditionView>::empty());
        while k < set.len()
            invariant
                k <= set.len(),
                asked == assignments_view(set@),
                columns == self@.columns,
                places@.len() == set@.len(),
                forall|j: int|
                    0 <= j < set@.len() ==> column_index(columns, (#[trigger] asked[j]).0) == Some(places@[j] as int),
                values@.map_values(|v: Value| v@) == assigned_all(record@, columns, asked.take(k as int)),
            decreases set.len() - k,
        {
            let ghost before = values@.map_values(|v: Value| v@);
            let at = places[k];
            proof {
                assert(asked.take(k + 1).drop_last() =~= asked.take(k as int));
                assert(asked.take(k + 1).last() == asked[k as int]);
                assert(asked[k as int] == (set@[k as int].0@, set@[k as int].1@));
                lemma_first_index(column_names(columns), asked[k as int].0);
                assert(columns[at as int].1 == self.columns@[at as int].1);
            }
            if at < values.len() && to_cell(&set[k].1).has_type(&self.columns[at].1) {
                values[at] = to_cell(&set[k].1);
                assert(values@.map_values(|v: Value| v@) =~= before.update(at as int, set@[k as int].1@));
            }
            k += 1;
        }
        assert(asked.take(k as int) =~= asked);
        Record::new(values)
    }

    /// Makes the assignments of `set` in every row that meets the equality
    /// `cond`. An assignment of a value that is not of its column's type is
    /// passed over. Fails with `NotFound`, and changes nothing, where the
    /// equality or an assignment names a column that does not exist.
    pub fn update(&mut self, set: &Vec<(String, crate::query::ast::Value)>, cond: &(String, crate::query::ast::Value)) -> (r:
        Result<(), Error>)
        ensures
            match r {
                Ok(_) => !update_misses(old(self)@, assignments_view(set@), (cond.0@, cond.1@)) && final(self)@
                    == updated(old(self)@, assignments_view(set@), (cond.0@, cond.1@)),
                Err(e) => e == Error::NotFound && update_misses(
                    old(self)@,
                    assignments_view(set@),
                    (cond.0@, cond.1@),
                ) && *final(self) == *old(self),
            },
            final(self).name == old(self).name,
            final(self).columns == old(self).columns,
            old(self)@.well_formed() ==> final(self)@.well_formed(),
    {
        let ghost asked = assignments_view(set@);
        let ghost equality = (cond.0@, cond.1@);
        let ghost before = self@;
        let key_idx = match self.column_index(&cond.0) {
            Some(at) => at,
            None => {
                return Err(Error::NotFound);
            },
        };
        let places = match self.assignment_columns(set) {
            Some(places) => places,
            None => {
                return Err(Error::NotFound);
            },
        };
        let mut new_rows: Vec<Record> = Vec::new();
        let mut r: usize = 0;
        while r < self.records.len()
            invariant
                r <= self.records.len(),
                *self == *old(self),
                before == self@,
                asked == assignments_view(set@),
                equality == (cond.0@, cond.1@),
                column_index(before.columns, equality.0) == Some(key_idx as int),
                places@.len() == set@.len(),
                forall|k: int|
                    0 <= k < set@.len() ==> column_index(before.columns, (#[trigger] asked[k]).0) == Some(
                        places@[k] as int,
                    ),
                records_view(new_rows@) == before.records.take(r as int).map_values(
                    |row: Seq<ValueView>| updated_row(row, before.columns, asked, equality),
                ),
            decreases self.records.len() - r,
        {
            let row = &self.records[r];
            let ghost done = records_view(new_rows@);
            assert(row@ == before.records[r as int]);
            let new_row = if key_idx < row.values.len() && value_equals(&row.values[key_idx], &cond.1) {
                self.assign_all(row, set, &places)
            } else {
                row.clone()
            };
            assert(new_row@ == updated_row(row@, before.columns, asked, equality));
            new_rows.push(new_row);
            assert(records_view(new_rows@) =~= done.push(new_row@));
            assert(records_view(new_rows@) =~= before.records.take(r + 1).map_values(
                |row: Seq<ValueView>| updated_row(row, before.columns, asked, equality),
            ));
            r += 1;
        }
        assert(before.records.take(r as int) =~= before.records);
        self.records = new_rows;
        proof {
            if before.well_formed() {
                lemma_updated_well_formed(before, asked, equality);
            }
        }
        Ok(())
    }
}

/// The view of a statement's equality, if it has one.
pub open spec fn condition_view(cond: Option<(String, crate::query::ast::Value)>) -> Option<ConditionView> {
    match cond {
        Some(c) => Some((c.0@, c.1@)),
        None => None,
    }
}

} // verus!
