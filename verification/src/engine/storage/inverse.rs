//! Decoding inverts encoding: what the length-prefixed layout gives for a
//! table reads back as that table.

use super::flush::{record_bytes, records_bytes, table_bytes, value_bytes, value_fits};
use super::load::{
    parse_column, parse_columns, parse_data_type, parse_record, parse_records, parse_schema, parse_table,
    parse_value,
};
use crate::bytes::{
    i32_be, lemma_bytes_of_parsed_i32, lemma_bytes_of_parsed_str, lemma_bytes_of_parsed_u16,
    lemma_parse_i32_of_bytes, lemma_parse_str_of_bytes, lemma_parse_u16_of_bytes, parse_i32, parse_str,
    parse_u16, u16_be, utf8,
};
use crate::engine::table::{
    column_bytes, columns_bytes, data_type_bytes, record_matches, schema_bytes, value_has_type, ColumnView,
    DataType, Table, TableView, ValueView,
};
use vstd::prelude::*;

verus! {

/// The columns' bytes are those of the first column and then those of the
/// others.
pub proof fn lemma_columns_bytes_first(columns: Seq<ColumnView>)
    requires
        columns.len() > 0,
    ensures
        columns_bytes(columns) == column_bytes(columns[0]) + columns_bytes(columns.drop_first()),
    decreases columns.len(),
{
    if columns.len() == 1 {
        assert(columns.drop_last() =~= Seq::<ColumnView>::empty());
        assert(columns.drop_first() =~= Seq::<ColumnView>::empty());
        assert(columns_bytes(columns) =~= column_bytes(columns[0]) + columns_bytes(columns.drop_first()));
    } else {
        lemma_columns_bytes_first(columns.drop_last());
        assert(columns.drop_last().drop_first() =~= columns.drop_first().drop_last());
        assert(columns_bytes(columns) =~= column_bytes(columns[0]) + columns_bytes(columns.drop_first()));
    }
}

/// A record's bytes are those of its first value and then those of the
/// others.
pub proof fn lemma_record_bytes_first(values: Seq<ValueView>)
    requires
        values.len() > 0,
    ensures
        record_bytes(values) == value_bytes(values[0]) + record_bytes(values.drop_first()),
    decreases values.len(),
{
    if values.len() == 1 {
        assert(values.drop_last() =~= Seq::<ValueView>::empty());
        assert(values.drop_first() =~= Seq::<ValueView>::empty());
        assert(record_bytes(values) =~= value_bytes(values[0]) + record_bytes(values.drop_first()));
    } else {
        lemma_record_bytes_first(values.drop_last());
        assert(values.drop_last().drop_first() =~= values.drop_first().drop_last());
        assert(record_bytes(values) =~= value_bytes(values[0]) + record_bytes(values.drop_first()));
    }
}

/// The records' bytes are those of the first record and then those of the
/// others.
pub proof fn lemma_records_bytes_first(records: Seq<Seq<ValueView>>)
    requires
        records.len() > 0,
    ensures
        records_bytes(records) == record_bytes(records[0]) + records_bytes(records.drop_first()),
    decreases records.len(),
{
    if records.len() == 1 {
        assert(records.drop_last() =~= Seq::<Seq<ValueView>>::empty());
        assert(records.drop_first() =~= Seq::<Seq<ValueView>>::empty());
        assert(records_bytes(records) =~= record_bytes(records[0]) + records_bytes(records.drop_first()));
    } else {
        lemma_records_bytes_first(records.drop_last());
        assert(records.drop_last().drop_first() =~= records.drop_first().drop_last());
        assert(records_bytes(records) =~= record_bytes(records[0]) + records_bytes(records.drop_first()));
    }
}

/// A declared type reads back, whatever follows it.
pub proof fn lemma_parse_data_type_of_bytes(data_type: DataType, rest: Seq<u8>)
    ensures
        parse_data_type(data_type_bytes(data_type) + rest) == Some(
            (data_type, data_type_bytes(data_type).len() as int),
        ),
{
    let b = data_type_bytes(data_type) + rest;
    match data_type {
        DataType::Int => {
            assert(b[0] == 0);
        },
        DataType::VarChar(size) => {
            assert(b[0] == 10);
            assert(b.skip(1) =~= u16_be(size) + rest);
            lemma_parse_u16_of_bytes(size, rest);
        },
    }
}

/// A value reads back as a value of its column's type, whatever follows it.
pub proof fn lemma_parse_value_of_bytes(value: ValueView, data_type: DataType, rest: Seq<u8>)
    requires
        value_has_type(value, data_type),
        value_fits(value),
    ensures
        parse_value(value_bytes(value) + rest, data_type) == Some((value, value_bytes(value).len() as int)),
{
    let b = value_bytes(value) + rest;
    match value {
        ValueView::Int(v) => {
            lemma_parse_i32_of_bytes(v, rest);
        },
        ValueView::VarChar(s) => {
            let len = utf8(s).len() as u16;
            assert(b =~= u16_be(len) + (utf8(s) + rest));
            lemma_parse_u16_of_bytes(len, utf8(s) + rest);
            assert(b.skip(2) =~= utf8(s) + rest);
            lemma_parse_str_of_bytes(s, rest);
        },
    }
}

/// A column reads back, whatever follows it.
pub proof fn lemma_parse_column_of_bytes(column: ColumnView, rest: Seq<u8>)
    requires
        utf8(column.0).len() <= 0xffff,
    ensures
        parse_column(column_bytes(column) + rest) == Some((column, column_bytes(column).len() as int)),
{
    let b = column_bytes(column) + rest;
    let name = utf8(column.0);
    let len = name.len() as u16;
    let kind = data_type_bytes(column.1);
    assert(b =~= u16_be(len) + (name + kind + rest));
    lemma_parse_u16_of_bytes(len, name + kind + rest);
    assert(b.skip(2) =~= name + (kind + rest));
    lemma_parse_str_of_bytes(column.0, kind + rest);
    assert(b.skip(2 + len) =~= kind + rest);
    lemma_parse_data_type_of_bytes(column.1, rest);
}

/// A list of columns reads back, whatever follows it.
pub proof fn lemma_parse_columns_of_bytes(columns: Seq<ColumnView>, rest: Seq<u8>)
    requires
        forall|i: int| 0 <= i < columns.len() ==> utf8((#[trigger] columns[i]).0).len() <= 0xffff,
    ensures
        parse_columns(columns_bytes(columns) + rest, columns.len()) == Some(
            (columns, columns_bytes(columns).len() as int),
        ),
    decreases columns.len(),
{
    let b = columns_bytes(columns) + rest;
    if columns.len() == 0 {
        assert(columns =~= Seq::<ColumnView>::empty());
    } else {
        let first = columns[0];
        let others = columns.drop_first();
        lemma_columns_bytes_first(columns);
        assert(b =~= column_bytes(first) + (columns_bytes(others) + rest));
        lemma_parse_column_of_bytes(first, columns_bytes(others) + rest);
        let n = column_bytes(first).len() as int;
        assert(b.skip(n) =~= columns_bytes(others) + rest);
        assert forall|i: int| 0 <= i < others.len() implies utf8((#[trigger] others[i]).0).len() <= 0xffff by {
            assert(others[i] == columns[i + 1]);
        }
        lemma_parse_columns_of_bytes(others, rest);
        assert(seq![first] + others =~= columns);
    }
}

/// A record that matches the schema reads back, whatever follows it.
pub proof fn lemma_parse_record_of_bytes(values: Seq<ValueView>, columns: Seq<ColumnView>, rest: Seq<u8>)
    requires
        record_matches(values, columns),
        forall|i: int| 0 <= i < values.len() ==> value_fits(#[trigger] values[i]),
    ensures
        parse_record(record_bytes(values) + rest, columns) == Some((values, record_bytes(values).len() as int)),
    decreases columns.len(),
{
    let b = record_bytes(values) + rest;
    if columns.len() == 0 {
        assert(values =~= Seq::<ValueView>::empty());
    } else {
        let first = values[0];
        let others = values.drop_first();
        lemma_record_bytes_first(values);
        assert(b =~= value_bytes(first) + (record_bytes(others) + rest));
        lemma_parse_value_of_bytes(first, columns[0].1, record_bytes(others) + rest);
        let n = value_bytes(first).len() as int;
        assert(b.skip(n) =~= record_bytes(others) + rest);
        assert(record_matches(others, columns.drop_first())) by {
            assert forall|i: int| 0 <= i < others.len() implies value_has_type(
                #[trigger] others[i],
                columns.drop_first()[i].1,
            ) by {
                assert(others[i] == values[i + 1]);
            }
        }
        assert forall|i: int| 0 <= i < others.len() implies value_fits(#[trigger] others[i]) by {
            assert(others[i] == values[i + 1]);
        }
        lemma_parse_record_of_bytes(others, columns.drop_first(), rest);
        assert(seq![first] + others =~= values);
    }
}

/// A list of records that match the schema reads back, whatever follows it.
pub proof fn lemma_parse_records_of_bytes(records: Seq<Seq<ValueView>>, columns: Seq<ColumnView>, rest: Seq<u8>)
    requires
        forall|r: int| 0 <= r < records.len() ==> record_matches(#[trigger] records[r], columns),
        forall|r: int, i: int|
            0 <= r < records.len() && 0 <= i < records[r].len() ==> value_fits(#[trigger] records[r][i]),
    ensures
        parse_records(records_bytes(records) + rest, columns, records.len()) == Some(
            (records, records_bytes(records).len() as int),
        ),
    decreases records.len(),
{
    let b = records_bytes(records) + rest;
    if records.len() == 0 {
        assert(records =~= Seq::<Seq<ValueView>>::empty());
    } else {
        let first = records[0];
        let others = records.drop_first();
        lemma_records_bytes_first(records);
        assert(b =~= record_bytes(first) + (records_bytes(others) + rest));
        assert forall|i: int| 0 <= i < first.len() implies value_fits(#[trigger] first[i]) by {
            assert(value_fits(records[0][i]));
        }
        lemma_parse_record_of_bytes(first, columns, records_bytes(others) + rest);
        let n = record_bytes(first).len() as int;
        assert(b.skip(n) =~= records_bytes(others) + rest);
        assert forall|r: int| 0 <= r < others.len() implies record_matches(#[trigger] others[r], columns) by {
            assert(others[r] == records[r + 1]);
        }
        assert forall|r: int, i: int| 0 <= r < others.len() && 0 <= i < others[r].len() implies value_fits(
            #[trigger] others[r][i],
        ) by {
            assert(others[r] == records[r + 1]);
            assert(value_fits(records[r + 1][i]));
        }
        lemma_parse_records_of_bytes(others, columns, rest);
        assert(seq![first] + others =~= records);
    }
}

/// A name and columns read back, whatever follows them.
pub proof fn lemma_parse_schema_of_bytes(name: Seq<char>, columns: Seq<ColumnView>, rest: Seq<u8>)
    requires
        utf8(name).len() <= 0xff,
        columns.len() <= 0xffff,
        forall|i: int| 0 <= i < columns.len() ==> utf8((#[trigger] columns[i]).0).len() <= 0xffff,
    ensures
        parse_schema(schema_bytes(name, columns) + rest) == Some(
            (name, columns, schema_bytes(name, columns).len() as int),
        ),
{
    let b = schema_bytes(name, columns) + rest;
    let count = u16_be(columns.len() as u16);
    let list = columns_bytes(columns);
    let len = utf8(name).len() as int;
    assert(b[0] == len);
    assert(b.skip(1) =~= utf8(name) + (count + list + rest));
    lemma_parse_str_of_bytes(name, count + list + rest);
    assert(b.skip(1 + len) =~= count + (list + rest));
    lemma_parse_u16_of_bytes(columns.len() as u16, list + rest);
    assert(b.skip(3 + len) =~= list + rest);
    lemma_parse_columns_of_bytes(columns, rest);
}

/// Reading the bytes of a table gives the table back: its name, its columns
/// in order, its records in order and their values in order. This holds of
/// every table that fits the layout, and whatever bytes follow it.
pub proof fn lemma_decode_encode(table: TableView, rest: Seq<u8>)
    requires
        table.encodable(),
    ensures
        parse_table(table_bytes(table) + rest) == Some(table),
{
    let b = table_bytes(table) + rest;
    let schema = schema_bytes(table.name, table.columns);
    let count = u16_be(table.records.len() as u16);
    let rows = records_bytes(table.records);
    assert(b =~= schema + (count + rows + rest));
    lemma_parse_schema_of_bytes(table.name, table.columns, count + rows + rest);
    let n = schema.len() as int;
    assert(b.skip(n) =~= count + (rows + rest));
    lemma_parse_u16_of_bytes(table.records.len() as u16, rows + rest);
    assert(b.skip(n + 2) =~= rows + rest);
    lemma_parse_records_of_bytes(table.records, table.columns, rest);
}

/// What was read as a declared type is the bytes of that type.
pub proof fn lemma_bytes_of_parsed_data_type(b: Seq<u8>)
    requires
        parse_data_type(b) is Some,
    ensures
        parse_data_type(b) matches Some((data_type, n)) && 0 <= n <= b.len() && data_type_bytes(data_type)
            == b.take(n),
{
    if b[0] == 0 {
        assert(data_type_bytes(DataType::Int) =~= b.take(1));
    } else {
        lemma_bytes_of_parsed_u16(b.skip(1));
        let size = parse_u16(b.skip(1))->0;
        assert(b.skip(1).take(2) =~= b.subrange(1, 3));
        assert(data_type_bytes(DataType::VarChar(size)) =~= b.take(3));
    }
}

/// What was read as a value is the bytes of that value, which is of the
/// column's type and fits the layout.
pub proof fn lemma_bytes_of_parsed_value(b: Seq<u8>, data_type: DataType)
    requires
        parse_value(b, data_type) is Some,
    ensures
        parse_value(b, data_type) matches Some((value, n)) && 0 <= n <= b.len() && value_bytes(value)
            == b.take(n) && value_has_type(value, data_type) && value_fits(value),
{
    match data_type {
        DataType::Int => {
            lemma_bytes_of_parsed_i32(b);
        },
        DataType::VarChar(_) => {
            let len = parse_u16(b)->0;
            lemma_bytes_of_parsed_u16(b);
            lemma_bytes_of_parsed_str(b.skip(2), len as nat);
            let s = parse_str(b.skip(2), len as nat)->0;
            assert(b.skip(2).take(len as int) =~= b.subrange(2, 2 + len));
            assert(utf8(s).len() == len);
            assert(value_bytes(ValueView::VarChar(s)) =~= b.take(2 + len));
        },
    }
}

/// What was read as a column is the bytes of that column, whose name fits
/// the layout.
pub proof fn lemma_bytes_of_parsed_column(b: Seq<u8>)
    requires
        parse_column(b) is Some,
    ensures
        parse_column(b) matches Some((column, n)) && 0 <= n <= b.len() && column_bytes(column) == b.take(n)
            && utf8(column.0).len() <= 0xffff,
{
    let len = parse_u16(b)->0;
    lemma_bytes_of_parsed_u16(b);
    lemma_bytes_of_parsed_str(b.skip(2), len as nat);
    let name = parse_str(b.skip(2), len as nat)->0;
    assert(b.skip(2).take(len as int) =~= b.subrange(2, 2 + len));
    assert(utf8(name).len() == len);
    lemma_bytes_of_parsed_data_type(b.skip(2 + len));
    match parse_data_type(b.skip(2 + len)) {
        Some((data_type, k)) => {
            assert(b.skip(2 + len).take(k) =~= b.subrange(2 + len, 2 + len + k));
            assert(column_bytes((name, data_type)) =~= b.take(2 + len + k));
        },
        None => {},
    }
}

/// What was read as `count` columns is the bytes of those columns, of which
/// there are `count`, with names that fit the layout.
pub proof fn lemma_bytes_of_parsed_columns(b: Seq<u8>, count: nat)
    requires
        parse_columns(b, count) is Some,
    ensures
        parse_columns(b, count) matches Some((columns, n)) && 0 <= n <= b.len() && columns.len() == count
            && columns_bytes(columns) == b.take(n) && forall|i: int|
            0 <= i < columns.len() ==> utf8((#[trigger] columns[i]).0).len() <= 0xffff,
    decreases count,
{
    if count == 0 {
        assert(columns_bytes(Seq::<ColumnView>::empty()) =~= b.take(0));
    } else {
        lemma_bytes_of_parsed_column(b);
        let (first, k) = parse_column(b)->0;
        let rest = b.skip(k);
        lemma_bytes_of_parsed_columns(rest, (count - 1) as nat);
        let (others, m) = parse_columns(rest, (count - 1) as nat)->0;
        let columns = seq![first] + others;
        assert(parse_columns(b, count) == Some((columns, k + m)));
        assert(columns_bytes(columns) == b.take(k + m)) by {
            assert(columns.drop_first() =~= others);
            assert(columns[0] == first);
            lemma_columns_bytes_first(columns);
            assert(rest.take(m) =~= b.subrange(k, k + m));
            assert(b.take(k) + b.subrange(k, k + m) =~= b.take(k + m));
        }
        assert forall|i: int| 0 <= i < columns.len() implies utf8((#[trigger] columns[i]).0).len() <= 0xffff by {
            if i > 0 {
                assert(columns[i] == others[i - 1]);
            }
        }
    }
}

/// What was read as a record is the bytes of that record, which matches the
/// schema and fits the layout.
pub proof fn lemma_bytes_of_parsed_record(b: Seq<u8>, columns: Seq<ColumnView>)
    requires
        parse_record(b, columns) is Some,
    ensures
        parse_record(b, columns) matches Some((values, n)) && 0 <= n <= b.len() && record_bytes(values)
            == b.take(n) && record_matches(values, columns) && forall|i: int|
            0 <= i < values.len() ==> value_fits(#[trigger] values[i]),
    decreases columns.len(),
{
    if columns.len() == 0 {
        assert(record_bytes(Seq::<ValueView>::empty()) =~= b.take(0));
    } else {
        lemma_bytes_of_parsed_value(b, columns[0].1);
        let (first, k) = parse_value(b, columns[0].1)->0;
        let rest = b.skip(k);
        lemma_bytes_of_parsed_record(rest, columns.drop_first());
        let (others, m) = parse_record(rest, columns.drop_first())->0;
        let values = seq![first] + others;
        assert(parse_record(b, columns) == Some((values, k + m)));
        assert(record_bytes(values) == b.take(k + m)) by {
            assert(values.drop_first() =~= others);
            assert(values[0] == first);
            lemma_record_bytes_first(values);
            assert(rest.take(m) =~= b.subrange(k, k + m));
            assert(b.take(k) + b.subrange(k, k + m) =~= b.take(k + m));
        }
        assert forall|i: int| 0 <= i < values.len() implies value_has_type(#[trigger] values[i], columns[i].1)
            && value_fits(values[i]) by {
            if i > 0 {
                assert(values[i] == others[i - 1]);
                assert(columns[i] == columns.drop_first()[i - 1]);
            }
        }
    }
}

/// What was read as `count` records is the bytes of those records, of which
/// there are `count`, each matching the schema and fitting the layout.
pub proof fn lemma_bytes_of_parsed_records(b: Seq<u8>, columns: Seq<ColumnView>, count: nat)
    requires
        parse_records(b, columns, count) is Some,
    ensures
        parse_records(b, columns, count) matches Some((records, n)) && 0 <= n <= b.len() && records.len()
            == count && records_bytes(records) == b.take(n) && (forall|r: int|
            0 <= r < records.len() ==> record_matches(#[trigger] records[r], columns)) && (forall|
            r: int,
            i: int,
        | 0 <= r < records.len() && 0 <= i < records[r].len() ==> value_fits(#[trigger] records[r][i])),
    decreases count,
{
    if count == 0 {
        assert(records_bytes(Seq::<Seq<ValueView>>::empty()) =~= b.take(0));
    } else {
        lemma_bytes_of_parsed_record(b, columns);
        let (first, k) = parse_record(b, columns)->0;
        let rest = b.skip(k);
        lemma_bytes_of_parsed_records(rest, columns, (count - 1) as nat);
        let (others, m) = parse_records(rest, columns, (count - 1) as nat)->0;
        let records = seq![first] + others;
        assert(parse_records(b, columns, count) == Some((records, k + m)));
        assert(records_bytes(records) == b.take(k + m)) by {
            assert(records.drop_first() =~= others);
            assert(records[0] == first);
            lemma_records_bytes_first(records);
            assert(rest.take(m) =~= b.subrange(k, k + m));
            assert(b.take(k) + b.subrange(k, k + m) =~= b.take(k + m));
        }
        assert forall|r: int| 0 <= r < records.len() implies record_matches(#[trigger] records[r], columns) by {
            if r > 0 {
                assert(records[r] == others[r - 1]);
            }
        }
        assert forall|r: int, i: int| 0 <= r < records.len() && 0 <= i < records[r].len() implies value_fits(
            #[trigger] records[r][i],
        ) by {
            if r > 0 {
                assert(records[r] == others[r - 1]);
                assert(value_fits(others[r - 1][i]));
            }
        }
    }
}

/// What was read as a name and columns is the bytes of that name and those
/// columns, all of which fit the layout.
pub proof fn lemma_bytes_of_parsed_schema(b: Seq<u8>)
    requires
        parse_schema(b) is Some,
    ensures
        parse_schema(b) matches Some((name, columns, n)) && 0 <= n <= b.len() && schema_bytes(name, columns)
            == b.take(n) && utf8(name).len() <= 0xff && columns.len() <= 0xffff && forall|i: int|
            0 <= i < columns.len() ==> utf8((#[trigger] columns[i]).0).len() <= 0xffff,
{
    let len = b[0] as int;
    lemma_bytes_of_parsed_str(b.skip(1), len as nat);
    let name = parse_str(b.skip(1), len as nat)->0;
    assert(b.skip(1).take(len) =~= b.subrange(1, 1 + len));
    assert(utf8(name).len() == len);
    lemma_bytes_of_parsed_u16(b.skip(1 + len));
    let count = parse_u16(b.skip(1 + len))->0;
    assert(b.skip(1 + len).take(2) =~= b.subrange(1 + len, 3 + len));
    lemma_bytes_of_parsed_columns(b.skip(3 + len), count as nat);
    match parse_columns(b.skip(3 + len), count as nat) {
        Some((columns, k)) => {
            let n = 3 + len + k;
            assert(b.skip(3 + len).take(k) =~= b.subrange(3 + len, n));
            let head = seq![len as u8] + utf8(name) + u16_be(count);
            assert(head =~= b.take(3 + len));
            assert(schema_bytes(name, columns) == head + columns_bytes(columns));
            assert(head + columns_bytes(columns) =~= b.take(n));
        },
        None => {},
    }
}

/// What was read as a table is a table that fits the layout, and the bytes it
/// was read from begin with the bytes of that table.
pub proof fn lemma_encode_decode(b: Seq<u8>)
    requires
        parse_table(b) is Some,
    ensures
        parse_table(b)->0.encodable(),
        table_bytes(parse_table(b)->0).is_prefix_of(b),
{
    lemma_bytes_of_parsed_schema(b);
    match parse_schema(b) {
        Some((name, columns, n)) => {
            let head = schema_bytes(name, columns);
            lemma_bytes_of_parsed_u16(b.skip(n));
            let rows = parse_u16(b.skip(n))->0;
            assert(b.skip(n).take(2) =~= b.subrange(n, n + 2));
            lemma_bytes_of_parsed_records(b.skip(n + 2), columns, rows as nat);
            match parse_records(b.skip(n + 2), columns, rows as nat) {
                Some((records, m)) => {
                    let table = TableView { name, columns, records };
                    assert(parse_table(b) == Some(table));
                    assert(b.skip(n + 2).take(m) =~= b.subrange(n + 2, n + 2 + m));
                    let tail = records_bytes(records);
                    assert(table_bytes(table) == head + u16_be(rows) + tail);
                    assert(head + u16_be(rows) + tail =~= b.take(n + 2 + m));
                    assert(table.well_formed());
                    assert(table.encodable());
                },
                None => {},
            }
        },
        None => {},
    }
}

/// No table that fits the layout has bytes with which `b` begins, where `b`
/// does not read as a table.
pub proof fn lemma_unreadable_is_no_encoding(b: Seq<u8>)
    requires
        parse_table(b) is None,
    ensures
        forall|table: TableView| table.encodable() ==> !(#[trigger] table_bytes(table)).is_prefix_of(b),
{
    assert forall|table: TableView| table.encodable() implies !(#[trigger] table_bytes(table)).is_prefix_of(
        b,
    ) by {
        let e = table_bytes(table);
        if e.is_prefix_of(b) {
            let rest = b.skip(e.len() as int);
            assert(b =~= e + rest);
            lemma_decode_encode(table, rest);
        }
    }
}

/// Two tables that contracts cannot tell apart have the same bytes: the
/// layout depends on nothing but the name, the columns and the records.
pub proof fn lemma_encoding_is_a_function(a: Table, b: Table)
    requires
        a@ == b@,
    ensures
        table_bytes(a@) == table_bytes(b@),
{
}

} // verus!
