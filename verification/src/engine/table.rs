//! The data model: tables, columns, records and values, and the fixed-width
//! byte layout of a table.

use crate::bytes::{i32_be, push_bytes, push_i32_be, push_str_bytes, push_u16_be, str_byte_len, u16_be, utf8};
use vstd::prelude::*;

verus! {

/// The type tags that stand for a column's declared type in encoded form.
pub struct DataTypeByteMap;

impl DataTypeByteMap {
    pub const INT: u8 = 0;

    pub const VARCHAR: u8 = 10;
}

/// The declared type of a column.
#[derive(Debug, Clone, Copy, PartialEq, Eq, Structural)]
pub enum DataType {
    /// A 32-bit signed integer, four bytes when encoded.
    Int,
    /// A string with its declared capacity in bytes.
    VarChar(u16),
}

/// One cell of a record.
#[derive(Debug, PartialEq)]
pub enum Value {
    Int(i32),
    VarChar(String),
}

/// A value as contracts see it: a string stands as its characters.
pub enum ValueView {
    Int(i32),
    VarChar(Seq<char>),
}

impl View for Value {
    type V = ValueView;

    open spec fn view(&self) -> ValueView {
        match self {
            Value::Int(v) => ValueView::Int(*v),
            Value::VarChar(s) => ValueView::VarChar(s@),
        }
    }
}

/// One row: a value for each column, in the order the columns were declared.
#[derive(Debug, PartialEq)]
pub struct Record {
    pub values: Vec<Value>,
}

impl View for Record {
    type V = Seq<ValueView>;

    open spec fn view(&self) -> Seq<ValueView> {
        self.values@.map_values(|v: Value| v@)
    }
}

impl Clone for Value {
    fn clone(&self) -> (v: Self)
        ensures
            v == *self,
    {
        match self {
            Value::Int(n) => Value::Int(*n),
            Value::VarChar(s) => Value::VarChar(s.clone()),
        }
    }
}

impl Clone for Record {
    fn clone(&self) -> (r: Self)
        ensures
            r.values@ == self.values@,
            r@ == self@,
    {
        let mut values: Vec<Value> = Vec::new();
        let mut i: usize = 0;
        while i < self.values.len()
            invariant
                i <= self.values.len(),
                values@ == self.values@.take(i as int),
            decreases self.values.len() - i,
        {
            values.push(self.values[i].clone());
            assert(values@ =~= self.values@.take(i + 1));
            i += 1;
        }
        assert(self.values@.take(i as int) =~= self.values@);
        Record { values }
    }
}

/// A column as contracts see it: its name and its declared type.
pub type ColumnView = (Seq<char>, DataType);

/// A named schema and the rows stored under it.
#[derive(Debug, PartialEq)]
pub struct Table {
    pub name: String,
    pub columns: Vec<(String, DataType)>,
    pub records: Vec<Record>,
}

/// A table as contracts see it.
pub struct TableView {
    pub name: Seq<char>,
    pub columns: Seq<ColumnView>,
    pub records: Seq<Seq<ValueView>>,
}

/// The views of a list of columns.
pub open spec fn columns_view(columns: Seq<(String, DataType)>) -> Seq<ColumnView> {
    columns.map_values(|c: (String, DataType)| (c.0@, c.1))
}

/// The views of a list of records.
pub open spec fn records_view(records: Seq<Record>) -> Seq<Seq<ValueView>> {
    records.map_values(|r: Record| r@)
}

impl View for Table {
    type V = TableView;

    open spec fn view(&self) -> TableView {
        TableView {
            name: self.name@,
            columns: columns_view(self.columns@),
            records: records_view(self.records@),
        }
    }
}

/// Whether a value is of the variant that a column of type `data_type` holds.
pub open spec fn value_has_type(value: ValueView, data_type: DataType) -> bool {
    match value {
        ValueView::Int(_) => data_type is Int,
        ValueView::VarChar(_) => data_type is VarChar,
    }
}

/// Whether a record has one value per column, each of its column's type.
pub open spec fn record_matches(values: Seq<ValueView>, columns: Seq<ColumnView>) -> bool {
    &&& values.len() == columns.len()
    &&& forall|i: int| 0 <= i < values.len() ==> value_has_type(#[trigger] values[i], columns[i].1)
}

impl TableView {
    /// Every record matches the schema.
    pub open spec fn well_formed(self) -> bool {
        forall|r: int| 0 <= r < self.records.len() ==> record_matches(#[trigger] self.records[r], self.columns)
    }
}

/// The encoded form of a declared type: its tag, and for a string type the
/// declared capacity.
pub open spec fn data_type_bytes(data_type: DataType) -> Seq<u8> {
    match data_type {
        DataType::Int => seq![0u8],
        DataType::VarChar(size) => seq![10u8] + u16_be(size),
    }
}

/// The encoded form of one column: the length of its name, the name, the type.
pub open spec fn column_bytes(column: ColumnView) -> Seq<u8> {
    u16_be(utf8(column.0).len() as u16) + utf8(column.0) + data_type_bytes(column.1)
}

/// The encoded forms of the columns, one after another.
pub open spec fn columns_bytes(columns: Seq<ColumnView>) -> Seq<u8>
    decreases columns.len(),
{
    if columns.len() == 0 {
        Seq::empty()
    } else {
        columns_bytes(columns.drop_last()) + column_bytes(columns.last())
    }
}

/// What precedes the rows in every layout of a table: the name with its
/// one-byte length, the number of columns and the columns.
pub open spec fn schema_bytes(name: Seq<char>, columns: Seq<ColumnView>) -> Seq<u8> {
    seq![utf8(name).len() as u8] + utf8(name) + u16_be(columns.len() as u16) + columns_bytes(columns)
}

/// `bytes` cut or filled with zero bytes on the right to exactly `width` bytes.
pub open spec fn padded(bytes: Seq<u8>, width: nat) -> Seq<u8> {
    Seq::new(
        width,
        |i: int|
            if i < bytes.len() {
                bytes[i]
            } else {
                0u8
            },
    )
}

/// A value in the fixed-width layout: an integer as four big-endian bytes, a
/// string as exactly as many bytes as its column declares.
pub open spec fn fixed_value_bytes(value: ValueView, data_type: DataType) -> Seq<u8> {
    match value {
        ValueView::Int(v) => i32_be(v),
        ValueView::VarChar(s) => match data_type {
            DataType::VarChar(size) => padded(utf8(s), size as nat),
            DataType::Int => Seq::empty(),
        },
    }
}

/// A record in the fixed-width layout: its values one after another.
pub open spec fn fixed_record_bytes(values: Seq<ValueView>, columns: Seq<ColumnView>) -> Seq<u8>
    decreases values.len(),
{
    if values.len() == 0 {
        Seq::empty()
    } else {
        fixed_record_bytes(values.drop_last(), columns) + fixed_value_bytes(
            values.last(),
            columns[values.len() - 1].1,
        )
    }
}

/// The records in the fixed-width layout, one after another.
pub open spec fn fixed_records_bytes(records: Seq<Seq<ValueView>>, columns: Seq<ColumnView>) -> Seq<u8>
    decreases records.len(),
{
    if records.len() == 0 {
        Seq::empty()
    } else {
        fixed_records_bytes(records.drop_last(), columns) + fixed_record_bytes(records.last(), columns)
    }
}

/// A table in the fixed-width layout.
pub open spec fn fixed_table_bytes(table: TableView) -> Seq<u8> {
    schema_bytes(table.name, table.columns) + u16_be(table.records.len() as u16) + fixed_records_bytes(
        table.records,
        table.columns,
    )
}

impl DataType {
    /// The number of bytes that a value of this type fills in the fixed-width
    /// layout.
    pub open spec fn spec_size(self) -> nat {
        match self {
            DataType::Int => 4,
            DataType::VarChar(size) => size as nat,
        }
    }

    /// The number of bytes that a value of this type fills in the fixed-width
    /// layout.
    pub fn size(&self) -> (n: usize)
        ensures
            n == self.spec_size(),
    {
        match self {
            DataType::Int => 4,
            DataType::VarChar(size) => *size as usize,
        }
    }

    /// The encoded form of the type: the tag, then for a string type the
    /// declared capacity in two big-endian bytes.
    pub fn as_bytes(&self) -> (b: Vec<u8>)
        ensures
            b@ == data_type_bytes(*self),
    {
        match self {
            DataType::Int => {
                let mut b: Vec<u8> = Vec::new();
                b.push(DataTypeByteMap::INT);
                assert(b@ =~= data_type_bytes(*self));
                b
            },
            DataType::VarChar(size) => {
                let mut b: Vec<u8> = Vec::new();
                b.push(DataTypeByteMap::VARCHAR);
                push_u16_be(&mut b, *size);
                assert(b@ =~= data_type_bytes(*self));
                b
            },
        }
    }
}

impl Value {
    /// Whether the value is of the variant that a column of type `data_type`
    /// holds.
    pub fn has_type(&self, data_type: &DataType) -> (b: bool)
        ensures
            b == value_has_type(self@, *data_type),
    {
        match self {
            Value::Int(_) => match data_type {
                DataType::Int => true,
                DataType::VarChar(_) => false,
            },
            Value::VarChar(_) => match data_type {
                DataType::Int => false,
                DataType::VarChar(_) => true,
            },
        }
    }

    /// The value in the fixed-width layout. A string is cut or zero-filled to
    /// the capacity that its column declares.
    pub fn as_bytes(&self, data_type: &DataType) -> (b: Vec<u8>)
        requires
            self@ is VarChar ==> *data_type is VarChar,
        ensures
            b@ == fixed_value_bytes(self@, *data_type),
    {
        let mut b: Vec<u8> = Vec::new();
        match self {
            Value::Int(value) => {
                push_i32_be(&mut b, *value);
                assert(b@ =~= i32_be(*value));
            },
            Value::VarChar(value) => match data_type {
                DataType::VarChar(size) => {
                    push_str_bytes(&mut b, value);
                    let ghost raw = b@;
                    assert(raw =~= utf8(value@));
                    b.resize(*size as usize, 0);
                    assert(b@ =~= padded(raw, *size as nat));
                },
                DataType::Int => {},
            },
        }
        b
    }
}

impl Record {
    /// A record of the given values.
    pub fn new(values: Vec<Value>) -> (r: Self)
        ensures
            r.values == values,
    {
        Self { values }
    }

    /// Whether the record has one value per column, each of its column's type.
    pub fn matches(&self, columns: &Vec<(String, DataType)>) -> (b: bool)
        ensures
            b == record_matches(self@, columns_view(columns@)),
    {
        if self.values.len() != columns.len() {
            return false;
        }
        let mut i: usize = 0;
        while i < self.values.len()
            invariant
                i <= self.values.len(),
                self.values.len() == columns.len(),
                forall|j: int| 0 <= j < i ==> value_has_type(#[trigger] self@[j], columns_view(columns@)[j].1),
            decreases self.values.len() - i,
        {
            if !self.values[i].has_type(&columns[i].1) {
                assert(!value_has_type(self@[i as int], columns_view(columns@)[i as int].1));
                return false;
            }
            i += 1;
        }
        true
    }
}

impl Table {
    /// A table of the given name, columns and records. Nothing is checked:
    /// whether the records match the columns is what `is_well_formed` tells.
    pub fn new(name: String, columns: Vec<(String, DataType)>, records: Vec<Record>) -> (t: Self)
        ensures
            t.name == name,
            t.columns == columns,
            t.records == records,
    {
        Self { name, columns, records }
    }

    /// Appends a record after those that the table holds.
    pub fn insert(&mut self, record: Record)
        ensures
            final(self).name == old(self).name,
            final(self).columns == old(self).columns,
            final(self).records@ == old(self).records@.push(record),
            final(self)@.records == old(self)@.records.push(record@),
            old(self)@.well_formed() && record_matches(record@, old(self)@.columns) ==> final(self)@.well_formed(),
    {
        self.records.push(record);
        assert(self@.records =~= old(self)@.records.push(record@));
    }

    /// Whether every record matches the schema.
    pub fn is_well_formed(&self) -> (b: bool)
        ensures
            b == self@.well_formed(),
    {
        let mut r: usize = 0;
        while r < self.records.len()
            invariant
                r <= self.records.len(),
                forall|k: int| 0 <= k < r ==> record_matches(#[trigger] self@.records[k], self@.columns),
            decreases self.records.len() - r,
        {
            if !self.records[r].matches(&self.columns) {
                assert(!record_matches(self@.records[r as int], self@.columns));
                return false;
            }
            r += 1;
        }
        true
    }

    /// Appends the part of the layout that precedes the rows.
    pub(crate) fn push_schema(&self, b: &mut Vec<u8>)
        ensures
            final(b)@ == old(b)@ + schema_bytes(self@.name, self@.columns),
    {
        b.push(#[verifier::truncate] (str_byte_len(&self.name) as u8));
        push_str_bytes(b, &self.name);
        push_u16_be(b, #[verifier::truncate] (self.columns.len() as u16));
        let ghost head = b@;
        let ghost columns = self@.columns;
        let mut i: usize = 0;
        while i < self.columns.len()
            invariant
                i <= self.columns.len(),
                columns == self@.columns,
                b@ == head + columns_bytes(columns.take(i as int)),
            decreases self.columns.len() - i,
        {
            let column = &self.columns[i];
            proof {
                assert(columns.take(i + 1).drop_last() =~= columns.take(i as int));
                assert(columns.take(i + 1).last() == (column.0@, column.1));
            }
            push_u16_be(b, #[verifier::truncate] (str_byte_len(&column.0) as u16));
            push_str_bytes(b, &column.0);
            let t = column.1.as_bytes();
            push_bytes(b, t.as_slice());
            assert(b@ =~= head + columns_bytes(columns.take(i + 1)));
            i += 1;
        }
        assert(columns.take(i as int) =~= columns);
        assert(b@ =~= old(b)@ + schema_bytes(self@.name, self@.columns));
    }

    /// The table in the fixed-width layout: schema, number of records, then
    /// every value at the width that its column declares.
    pub fn as_bytes(&self) -> (b: Vec<u8>)
        requires
            self@.well_formed(),
        ensures
            b@ == fixed_table_bytes(self@),
    {
        let mut b: Vec<u8> = Vec::new();
        self.push_schema(&mut b);
        push_u16_be(&mut b, #[verifier::truncate] (self.records.len() as u16));
        let ghost head = b@;
        let ghost columns = self@.columns;
        let ghost records = self@.records;
        let mut r: usize = 0;
        while r < self.records.len()
            invariant
                r <= self.records.len(),
                self@.well_formed(),
                columns == self@.columns,
                records == self@.records,
                b@ == head + fixed_records_bytes(records.take(r as int), columns),
            decreases self.records.len() - r,
        {
            let record = &self.records[r];
            let ghost values = record@;
            let ghost before = b@;
            proof {
                assert(records.take(r + 1).drop_last() =~= records.take(r as int));
                assert(records.take(r + 1).last() == values);
                assert(values == records[r as int]);
                assert(record_matches(values, columns));
            }
            let mut i: usize = 0;
            while i < record.values.len()
                invariant
                    i <= record.values.len(),
                    values == record@,
                    columns == self@.columns,
                    record_matches(values, columns),
                    b@ == before + fixed_record_bytes(values.take(i as int), columns),
                decreases record.values.len() - i,
            {
                proof {
                    assert(values.take(i + 1).drop_last() =~= values.take(i as int));
                    assert(values.take(i + 1).last() == record.values[i as int]@);
                    assert(value_has_type(values[i as int], columns[i as int].1));
                    assert(columns[i as int].1 == self.columns[i as int].1);
                }
                let v = record.values[i].as_bytes(&self.columns[i].1);
                push_bytes(&mut b, v.as_slice());
                assert(b@ =~= before + fixed_record_bytes(values.take(i + 1), columns));
                i += 1;
            }
            assert(values.take(i as int) =~= values);
            assert(b@ =~= head + fixed_records_bytes(records.take(r + 1), columns));
            r += 1;
        }
        assert(records.take(r as int) =~= records);
        assert(b@ =~= fixed_table_bytes(self@));
        b
    }
}

} // verus!
