//! Encoding a table in the length-prefixed layout.

use super::Storage;
use crate::bytes::{i32_be, push_bytes, push_i32_be, push_str_bytes, push_u16_be, str_byte_len, u16_be, utf8};
use crate::engine::table::{
    data_type_bytes, record_matches, schema_bytes, value_has_type, DataType, Table, TableView, Value,
    ValueView,
};
use vstd::prelude::*;

verus! {

/// A value in the length-prefixed layout: an integer as four big-endian
/// bytes, a string as its length in two big-endian bytes and then its bytes.
pub open spec fn value_bytes(value: ValueView) -> Seq<u8> {
    match value {
        ValueView::Int(v) => i32_be(v),
        ValueView::VarChar(s) => u16_be(utf8(s).len() as u16) + utf8(s),
    }
}

/// A record in the length-prefixed layout: its values one after another.
pub open spec fn record_bytes(values: Seq<ValueView>) -> Seq<u8>
    decreases values.len(),
{
    if values.len() == 0 {
        Seq::empty()
    } else {
        record_bytes(values.drop_last()) + value_bytes(values.last())
    }
}

/// The records in the length-prefixed layout, one after another.
pub open spec fn records_bytes(records: Seq<Seq<ValueView>>) -> Seq<u8>
    decreases records.len(),
{
    if records.len() == 0 {
        Seq::empty()
    } else {
        records_bytes(records.drop_last()) + record_bytes(records.last())
    }
}

/// A table in the length-prefixed layout: the schema, the number of records
/// in two big-endian bytes, and the records.
pub open spec fn table_bytes(table: TableView) -> Seq<u8> {
    schema_bytes(table.name, table.columns) + u16_be(table.records.len() as u16) + records_bytes(
        table.records,
    )
}

/// Whether a value fits the length-prefixed layout: a string of at most
/// 65535 bytes.
pub open spec fn value_fits(value: ValueView) -> bool {
    match value {
        ValueView::Int(_) => true,
        ValueView::VarChar(s) => utf8(s).len() <= 0xffff,
    }
}

impl TableView {
    /// Whether the table fits the length-prefixed layout: every record
    /// matches the schema, and every length fits the field that holds it.
    pub open spec fn encodable(self) -> bool {
        &&& self.well_formed()
        &&& utf8(self.name).len() <= 0xff
        &&& self.columns.len() <= 0xffff
        &&& forall|i: int| 0 <= i < self.columns.len() ==> utf8((#[trigger] self.columns[i]).0).len() <= 0xffff
        &&& self.records.len() <= 0xffff
        &&& forall|r: int, i: int|
            0 <= r < self.records.len() && 0 <= i < self.records[r].len() ==> value_fits(
                #[trigger] self.records[r][i],
            )
    }
}

impl Storage {
    /// The bytes that are kept for `table`: the table in the length-prefixed
    /// layout.
    pub fn table_to_bytes(table: &Table) -> (b: Vec<u8>)
        requires
            table@.well_formed(),
        ensures
            b@ == table_bytes(table@),
    {
        let mut b: Vec<u8> = Vec::new();
        table.push_schema(&mut b);
        push_u16_be(&mut b, #[verifier::truncate] (table.records.len() as u16));
        let ghost head = b@;
        let ghost columns = table@.columns;
        let ghost records = table@.records;
        let mut r: usize = 0;
        while r < table.records.len()
            invariant
                r <= table.records.len(),
                table@.well_formed(),
                columns == table@.columns,
                records == table@.records,
                b@ == head + records_bytes(records.take(r as int)),
            decreases table.records.len() - r,
        {
            let record = &table.records[r];
            let ghost values = record@;
            let ghost before = b@;
            proof {
                assert(records.take(r + 1).drop_last() =~= records.take(r as int));
                assert(records.take(r + 1).last() == values);
                assert(values == records[r as int]);
                assert(record_matches(values, columns));
            }
            let mut i: usize = 0;
            while i < record.values.len()
                invariant
                    i <= record.values.len(),
                    values == record@,
                    columns == table@.columns,
                    record_matches(values, columns),
                    b@ == before + record_bytes(values.take(i as int)),
                decreases record.values.len() - i,
            {
                proof {
                    assert(values.take(i + 1).drop_last() =~= values.take(i as int));
                    assert(values.take(i + 1).last() == record.values[i as int]@);
                    assert(value_has_type(values[i as int], columns[i as int].1));
                    assert(columns[i as int].1 == table.columns[i as int].1);
                }
                let v = Self::test_value_as_bytes(&record.values[i], &table.columns[i].1);
                push_bytes(&mut b, v.as_slice());
                assert(b@ =~= before + record_bytes(values.take(i + 1)));
                i += 1;
            }
            assert(values.take(i as int) =~= values);
            assert(b@ =~= head + records_bytes(records.take(r + 1)));
            r += 1;
        }
        assert(records.take(r as int) =~= records);
        assert(b@ =~= table_bytes(table@));
        b
    }

    /// The encoded form of a declared type: the tag, then for a string type
    /// the declared capacity in two big-endian bytes.
    pub fn data_type_to_bytes(data_type: &DataType) -> (b: Vec<u8>)
        ensures
            b@ == data_type_bytes(*data_type),
    {
        data_type.as_bytes()
    }

    /// A value of a column of type `data_type` in the length-prefixed layout.
    pub fn test_value_as_bytes(value: &Value, data_type: &DataType) -> (b: Vec<u8>)
        requires
            value@ is VarChar ==> *data_type is VarChar,
        ensures
            b@ == value_bytes(value@),
    {
        let mut b: Vec<u8> = Vec::new();
        match value {
            Value::Int(value) => {
                push_i32_be(&mut b, *value);
                assert(b@ =~= i32_be(*value));
            },
            Value::VarChar(value) => {
                push_u16_be(&mut b, #[verifier::truncate] (str_byte_len(value) as u16));
                push_str_bytes(&mut b, value);
                assert(b@ =~= u16_be(utf8(value@).len() as u16) + utf8(value@));
            },
        }
        b
    }
}

} // verus!
