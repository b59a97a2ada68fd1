//! Decoding a table from the length-prefixed layout.

use super::flush::{table_bytes, value_bytes, value_fits};
use super::inverse::{
    lemma_bytes_of_parsed_data_type, lemma_bytes_of_parsed_value, lemma_encode_decode,
    lemma_parse_data_type_of_bytes, lemma_parse_value_of_bytes, lemma_unreadable_is_no_encoding,
};
use super::Storage;
use crate::bytes::{
    lemma_prepend_nothing, lemma_prepend_twice, parse_i32, parse_str, parse_u16, prepend, read_i32, read_str,
    read_u16,
};
use crate::engine::table::{
    columns_view, data_type_bytes, record_matches, records_view, value_has_type, ColumnView, DataType,
    DataTypeByteMap, Record, Table, TableView, Value, ValueView,
};
use crate::error::Error;
use vstd::prelude::*;
use vstd::slice::slice_subrange;

verus! {

/// The declared type at the start of `b`, and the number of bytes it fills.
pub open spec fn parse_data_type(b: Seq<u8>) -> Option<(DataType, int)> {
    if b.len() >= 1 && b[0] == 0 {
        Some((DataType::Int, 1))
    } else if b.len() >= 3 && b[0] == 10 {
        Some((DataType::VarChar(parse_u16(b.skip(1))->0), 3))
    } else {
        None
    }
}

/// The value of type `data_type` at the start of `b`, and the number of bytes
/// it fills.
pub open spec fn parse_value(b: Seq<u8>, data_type: DataType) -> Option<(ValueView, int)> {
    match data_type {
        DataType::Int => match parse_i32(b) {
            Some(v) => Some((ValueView::Int(v), 4)),
            None => None,
        },
        DataType::VarChar(_) => match parse_u16(b) {
            Some(len) => match parse_str(b.skip(2), len as nat) {
                Some(s) => Some((ValueView::VarChar(s), 2 + len)),
                None => None,
            },
            None => None,
        },
    }
}

/// The column at the start of `b`, and the number of bytes it fills.
pub open spec fn parse_column(b: Seq<u8>) -> Option<(ColumnView, int)> {
    match parse_u16(b) {
        Some(len) => match parse_str(b.skip(2), len as nat) {
            Some(name) => match parse_data_type(b.skip(2 + len)) {
                Some((data_type, n)) => Some(((name, data_type), 2 + len + n)),
                None => None,
            },
            None => None,
        },
        None => None,
    }
}

/// The `count` columns at the start of `b`, and the number of bytes they fill.
pub open spec fn parse_columns(b: Seq<u8>, count: nat) -> Option<(Seq<ColumnView>, int)>
    decreases count,
{
    if count == 0 {
        Some((Seq::empty(), 0))
    } else {
        match parse_column(b) {
            Some((column, n)) => prepend(seq![column], n, parse_columns(b.skip(n), (count - 1) as nat)),
            None => None,
        }
    }
}

/// The record at the start of `b`, one value for each of `columns`, and the
/// number of bytes it fills.
pub open spec fn parse_record(b: Seq<u8>, columns: Seq<ColumnView>) -> Option<(Seq<ValueView>, int)>
    decreases columns.len(),
{
    if columns.len() == 0 {
        Some((Seq::empty(), 0))
    } else {
        match parse_value(b, columns[0].1) {
            Some((value, n)) => prepend(seq![value], n, parse_record(b.skip(n), columns.drop_first())),
            None => None,
        }
    }
}

/// The `count` records at the start of `b`, and the number of bytes they fill.
pub open spec fn parse_records(b: Seq<u8>, columns: Seq<ColumnView>, count: nat) -> Option<
    (Seq<Seq<ValueView>>, int),
>
    decreases count,
{
    if count == 0 {
        Some((Seq::empty(), 0))
    } else {
        match parse_record(b, columns) {
            Some((record, n)) => prepend(
                seq![record],
                n,
                parse_records(b.skip(n), columns, (count - 1) as nat),
            ),
            None => None,
        }
    }
}

/// The name and the columns at the start of `b`, and the number of bytes they
/// fill.
pub open spec fn parse_schema(b: Seq<u8>) -> Option<(Seq<char>, Seq<ColumnView>, int)> {
    if b.len() >= 1 {
        match parse_str(b.skip(1), b[0] as nat) {
            Some(name) => match parse_u16(b.skip(1 + b[0])) {
                Some(count) => match parse_columns(b.skip(3 + b[0]), count as nat) {
                    Some((columns, n)) => Some((name, columns, 3 + b[0] + n)),
                    None => None,
                },
                None => None,
            },
            None => None,
        }
    } else {
        None
    }
}

/// The table at the start of `b`. Bytes that follow it are not looked at.
pub open spec fn parse_table(b: Seq<u8>) -> Option<TableView> {
    match parse_schema(b) {
        Some((name, columns, n)) => match parse_u16(b.skip(n)) {
            Some(count) => match parse_records(b.skip(n + 2), columns, count as nat) {
                Some((records, _)) => Some(TableView { name, columns, records }),
                None => None,
            },
            None => None,
        },
        None => None,
    }
}

/// A value that was read for a column is of the column's type.
pub proof fn lemma_parsed_value_has_type(b: Seq<u8>, data_type: DataType)
    ensures
        parse_value(b, data_type) matches Some((value, _)) ==> value_has_type(value, data_type),
{
}

impl Storage {
    /// What the content of a table's file stands for: no table where the
    /// file is empty or absent, else the table that the bytes hold.
    pub fn restore(stored: &[u8]) -> (r: Result<Option<Table>, Error>)
        ensures
            match r {
                Ok(Some(table)) => stored@.len() > 0 && parse_table(stored@) == Some(table@) && table@.encodable(),
                Ok(None) => stored@.len() == 0,
                Err(e) => e == Error::MalformedEncoding && stored@.len() > 0 && parse_table(stored@) is None,
            },
    {
        if stored.len() == 0 {
            return Ok(None);
        }
        match Self::bytes_to_table(stored) {
            Ok(table) => Ok(Some(table)),
            Err(e) => Err(e),
        }
    }

    /// The table that `bytes` hold in the length-prefixed layout. Fails where
    /// a field reaches past the end, a type tag is unknown, or a name or a
    /// string is not UTF-8. Bytes after the last record are not looked at.
    ///
    /// What is read is the one table that fits the layout and with whose
    /// bytes `bytes` begin; the read fails exactly where there is no such
    /// table.
    pub fn bytes_to_table(bytes: &[u8]) -> (r: Result<Table, Error>)
        ensures
            match r {
                Ok(table) => parse_table(bytes@) == Some(table@) && table@.encodable() && table_bytes(
                    table@,
                ).is_prefix_of(bytes@),
                Err(e) => e == Error::MalformedEncoding && parse_table(bytes@) is None && forall|t: TableView|
                    t.encodable() ==> !(#[trigger] table_bytes(t)).is_prefix_of(bytes@),
            },
    {
        proof {
            if parse_table(bytes@) is Some {
                lemma_encode_decode(bytes@);
            } else {
                lemma_unreadable_is_no_encoding(bytes@);
            }
        }
        let ghost b = bytes@;
        if bytes.len() < 1 {
            return Err(Error::MalformedEncoding);
        }
        // name
        let name_len: usize = bytes[0] as usize;
        let name = match read_str(bytes, 1, name_len) {
            Some(name) => name,
            None => {
                return Err(Error::MalformedEncoding);
            },
        };
        let mut offset: usize = 1 + name_len;

        // columns
        let columns_len = match read_u16(bytes, offset) {
            Some(n) => n,
            None => {
                return Err(Error::MalformedEncoding);
            },
        };
        offset += 2;
        let (columns, size) = match Self::read_columns(bytes, offset, columns_len) {
            Ok(found) => found,
            Err(e) => {
                return Err(e);
            },
        };
        offset += size;
        assert(parse_schema(b) == Some((name@, columns_view(columns@), offset as int)));

        // records
        let records_len = match read_u16(bytes, offset) {
            Some(n) => n,
            None => {
                return Err(Error::MalformedEncoding);
            },
        };
        offset += 2;
        let (records, _) = match Self::read_records(bytes, offset, &columns, records_len) {
            Ok(found) => found,
            Err(e) => {
                return Err(e);
            },
        };
        Ok(Table::new(name, columns, records))
    }

    /// Reads one column at `offset`: the length of its name, the name, the
    /// type. Returns it with the number of bytes it fills.
    fn read_column(bytes: &[u8], offset: usize) -> (r: Result<((String, DataType), usize), Error>)
        requires
            offset <= bytes@.len(),
        ensures
            match r {
                Ok((column, n)) => parse_column(bytes@.skip(offset as int)) == Some(
                    ((column.0@, column.1), n as int),
                ) && offset + n <= bytes@.len(),
                Err(e) => e == Error::MalformedEncoding && parse_column(bytes@.skip(offset as int)) is None,
            },
    {
        let ghost b = bytes@.skip(offset as int);
        let end = bytes.len();
        let name_len = match read_u16(bytes, offset) {
            Some(n) => n as usize,
            None => {
                return Err(Error::MalformedEncoding);
            },
        };
        assert(b.skip(2) =~= bytes@.skip(offset + 2));
        let name = match read_str(bytes, offset + 2, name_len) {
            Some(s) => s,
            None => {
                return Err(Error::MalformedEncoding);
            },
        };
        let at: usize = offset + 2 + name_len;
        let rest = slice_subrange(bytes, at, end);
        assert(rest@ =~= b.skip(2 + name_len));
        match Self::bytes_to_data_type(rest) {
            Ok((data_type, n)) => Ok(((name, data_type), 2 + name_len + n)),
            Err(e) => Err(e),
        }
    }

    /// Reads `count` columns at `offset`. Returns them with the number of
    /// bytes they fill.
    fn read_columns(bytes: &[u8], offset: usize, count: u16) -> (r: Result<
        (Vec<(String, DataType)>, usize),
        Error,
    >)
        requires
            offset <= bytes@.len(),
        ensures
            match r {
                Ok((columns, n)) => parse_columns(bytes@.skip(offset as int), count as nat) == Some(
                    (columns_view(columns@), n as int),
                ) && offset + n <= bytes@.len(),
                Err(e) => e == Error::MalformedEncoding && parse_columns(
                    bytes@.skip(offset as int),
                    count as nat,
                ) is None,
            },
    {
        let ghost b = bytes@;
        let ghost whole = parse_columns(b.skip(offset as int), count as nat);
        let end = bytes.len();
        let mut columns: Vec<(String, DataType)> = Vec::new();
        let mut at: usize = offset;
        let mut i: u16 = 0;
        proof {
            lemma_prepend_nothing(whole);
        }
        while i < count
            invariant
                b == bytes@,
                i <= count,
                offset <= at <= b.len() <= usize::MAX,
                whole == parse_columns(b.skip(offset as int), count as nat),
                whole == prepend(
                    columns_view(columns@),
                    at - offset,
                    parse_columns(b.skip(at as int), (count - i) as nat),
                ),
            decreases count - i,
        {
            let ghost before = columns_view(columns@);
            let (column, n) = match Self::read_column(bytes, at) {
                Ok(found) => found,
                Err(e) => {
                    return Err(e);
                },
            };
            proof {
                let c = (column.0@, column.1);
                assert(b.skip(at as int).skip(n as int) =~= b.skip(at + n));
                lemma_prepend_twice(
                    before,
                    at - offset,
                    seq![c],
                    n as int,
                    parse_columns(b.skip(at + n), (count - i - 1) as nat),
                );
                assert(before + seq![c] =~= before.push(c));
            }
            columns.push(column);
            assert(columns_view(columns@) =~= before.push((column.0@, column.1)));
            at += n;
            i += 1;
        }
        assert(columns_view(columns@) + Seq::<ColumnView>::empty() =~= columns_view(columns@));
        Ok((columns, at - offset))
    }

    /// Reads one record at `offset`, a value for each of `columns`. Returns
    /// it with the number of bytes it fills.
    fn read_record(bytes: &[u8], offset: usize, columns: &Vec<(String, DataType)>) -> (r: Result<
        (Record, usize),
        Error,
    >)
        requires
            offset <= bytes@.len(),
        ensures
            match r {
                Ok((record, n)) => parse_record(bytes@.skip(offset as int), columns_view(columns@)) == Some(
                    (record@, n as int),
                ) && offset + n <= bytes@.len() && record_matches(record@, columns_view(columns@)),
                Err(e) => e == Error::MalformedEncoding && parse_record(
                    bytes@.skip(offset as int),
                    columns_view(columns@),
                ) is None,
            },
    {
        let ghost b = bytes@;
        let ghost schema = columns_view(columns@);
        let ghost whole = parse_record(b.skip(offset as int), schema);
        let end = bytes.len();
        let mut values: Vec<Value> = Vec::new();
        let mut at: usize = offset;
        let mut j: usize = 0;
        proof {
            lemma_prepend_nothing(whole);
            assert(schema.skip(0) =~= schema);
        }
        while j < columns.len()
            invariant
                b == bytes@,
                end == b.len(),
                j <= columns.len(),
                schema == columns_view(columns@),
                offset <= at <= b.len() <= usize::MAX,
                whole == parse_record(b.skip(offset as int), schema),
                values@.len() == j,
                whole == prepend(
                    values@.map_values(|v: Value| v@),
                    at - offset,
                    parse_record(b.skip(at as int), schema.skip(j as int)),
                ),
                forall|k: int| 0 <= k < j ==> value_has_type(#[trigger] values@[k]@, schema[k].1),
            decreases columns.len() - j,
        {
            let ghost read = values@.map_values(|v: Value| v@);
            let rest = slice_subrange(bytes, at, end);
            assert(rest@ =~= b.skip(at as int));
            let (value, n) = match Self::bytes_to_value(rest, &columns[j].1) {
                Ok(found) => found,
                Err(e) => {
                    return Err(e);
                },
            };
            proof {
                assert(schema.skip(j as int)[0] == schema[j as int]);
                assert(schema.skip(j as int).drop_first() =~= schema.skip(j + 1));
                assert(b.skip(at as int).skip(n as int) =~= b.skip(at + n));
                lemma_prepend_twice(
                    read,
                    at - offset,
                    seq![value@],
                    n as int,
                    parse_record(b.skip(at + n), schema.skip(j + 1)),
                );
                assert(read + seq![value@] =~= read.push(value@));
                lemma_parsed_value_has_type(rest@, columns[j as int].1);
            }
            values.push(value);
            assert(values@.map_values(|v: Value| v@) =~= read.push(value@));
            at += n;
            j += 1;
        }
        let record = Record::new(values);
        proof {
            assert(schema.skip(j as int) =~= Seq::<ColumnView>::empty());
            assert(record@ + Seq::<ValueView>::empty() =~= record@);
        }
        Ok((record, at - offset))
    }

    /// Reads `count` records at `offset`, each with a value for each of
    /// `columns`. Returns them with the number of bytes they fill.
    fn read_records(bytes: &[u8], offset: usize, columns: &Vec<(String, DataType)>, count: u16) -> (r:
        Result<(Vec<Record>, usize), Error>)
        requires
            offset <= bytes@.len(),
        ensures
            match r {
                Ok((records, n)) => parse_records(
                    bytes@.skip(offset as int),
                    columns_view(columns@),
                    count as nat,
                ) == Some((records_view(records@), n as int)) && offset + n <= bytes@.len()
                    && forall|k: int|
                    0 <= k < records@.len() ==> record_matches(
                        #[trigger] records_view(records@)[k],
                        columns_view(columns@),
                    ),
                Err(e) => e == Error::MalformedEncoding && parse_records(
                    bytes@.skip(offset as int),
                    columns_view(columns@),
                    count as nat,
                ) is None,
            },
    {
        let ghost b = bytes@;
        let ghost schema = columns_view(columns@);
        let ghost whole = parse_records(b.skip(offset as int), schema, count as nat);
        let end = bytes.len();
        let mut records: Vec<Record> = Vec::new();
        let mut at: usize = offset;
        let mut r: u16 = 0;
        proof {
            lemma_prepend_nothing(whole);
        }
        while r < count
            invariant
                b == bytes@,
                r <= count,
                schema == columns_view(columns@),
                offset <= at <= b.len() <= usize::MAX,
                whole == parse_records(b.skip(offset as int), schema, count as nat),
                whole == prepend(
                    records_view(records@),
                    at - offset,
                    parse_records(b.skip(at as int), schema, (count - r) as nat),
                ),
                forall|k: int|
                    0 <= k < records@.len() ==> record_matches(#[trigger] records_view(records@)[k], schema),
            decreases count - r,
        {
            let ghost before = records_view(records@);
            let (record, n) = match Self::read_record(bytes, at, columns) {
                Ok(found) => found,
                Err(e) => {
                    return Err(e);
                },
            };
            proof {
                assert(b.skip(at as int).skip(n as int) =~= b.skip(at + n));
                lemma_prepend_twice(
                    before,
                    at - offset,
                    seq![record@],
                    n as int,
                    parse_records(b.skip(at + n), schema, (count - r - 1) as nat),
                );
                assert(before + seq![record@] =~= before.push(record@));
            }
            records.push(record);
            assert(records_view(records@) =~= before.push(record@));
            at += n;
            r += 1;
        }
        assert(records_view(records@) + Seq::<Seq<ValueView>>::empty() =~= records_view(records@));
        Ok((records, at - offset))
    }

    /// The declared type at the start of `bytes`, and the number of bytes it
    /// fills. Fails where the tag is unknown or bytes are missing.
    ///
    /// What is read is the one type with whose bytes `bytes` begin; the read
    /// fails exactly where there is no such type.
    pub fn bytes_to_data_type(bytes: &[u8]) -> (r: Result<(DataType, usize), Error>)
        ensures
            match r {
                Ok((data_type, n)) => parse_data_type(bytes@) == Some((data_type, n as int)) && n
                    <= bytes@.len() && data_type_bytes(data_type) == bytes@.take(n as int),
                Err(e) => e == Error::MalformedEncoding && parse_data_type(bytes@) is None && forall|
                    t: DataType,
                | !(#[trigger] data_type_bytes(t)).is_prefix_of(bytes@),
            },
    {
        proof {
            if parse_data_type(bytes@) is Some {
                lemma_bytes_of_parsed_data_type(bytes@);
            } else {
                assert forall|t: DataType| !(#[trigger] data_type_bytes(t)).is_prefix_of(bytes@) by {
                    let e = data_type_bytes(t);
                    if e.is_prefix_of(bytes@) {
                        assert(bytes@ =~= e + bytes@.skip(e.len() as int));
                        lemma_parse_data_type_of_bytes(t, bytes@.skip(e.len() as int));
                    }
                }
            }
        }
        if bytes.len() < 1 {
            return Err(Error::MalformedEncoding);
        }
        let tag = bytes[0];
        if tag == DataTypeByteMap::INT {
            Ok((DataType::Int, 1))
        } else if tag == DataTypeByteMap::VARCHAR {
            match read_u16(bytes, 1) {
                Some(size) => Ok((DataType::VarChar(size), 3)),
                None => Err(Error::MalformedEncoding),
            }
        } else {
            Err(Error::MalformedEncoding)
        }
    }

    /// The value of type `data_type` at the start of `bytes`, and the number
    /// of bytes it fills. Fails where bytes are missing or a string is not
    /// UTF-8.
    ///
    /// What is read is the one value of that type which fits the layout and
    /// with whose bytes `bytes` begin; the read fails exactly where there is
    /// no such value.
    pub fn bytes_to_value(bytes: &[u8], data_type: &DataType) -> (r: Result<(Value, usize), Error>)
        ensures
            match r {
                Ok((value, n)) => parse_value(bytes@, *data_type) == Some((value@, n as int)) && n
                    <= bytes@.len() && value_has_type(value@, *data_type) && value_fits(value@) && value_bytes(
                    value@,
                ) == bytes@.take(n as int),
                Err(e) => e == Error::MalformedEncoding && parse_value(bytes@, *data_type) is None && forall|
                    v: ValueView,
                |
                    value_has_type(v, *data_type) && value_fits(v) ==> !(#[trigger] value_bytes(v)).is_prefix_of(
                        bytes@,
                    ),
            },
    {
        proof {
            if parse_value(bytes@, *data_type) is Some {
                lemma_bytes_of_parsed_value(bytes@, *data_type);
            } else {
                assert forall|v: ValueView| value_has_type(v, *data_type) && value_fits(v) implies !(
                #[trigger] value_bytes(v)).is_prefix_of(bytes@) by {
                    let e = value_bytes(v);
                    if e.is_prefix_of(bytes@) {
                        assert(bytes@ =~= e + bytes@.skip(e.len() as int));
                        lemma_parse_value_of_bytes(v, *data_type, bytes@.skip(e.len() as int));
                    }
                }
            }
        }
        match data_type {
            DataType::Int => match read_i32(bytes, 0) {
                Some(v) => {
                    assert(bytes@.skip(0) =~= bytes@);
                    Ok((Value::Int(v), 4))
                },
                None => {
                    assert(bytes@.skip(0) =~= bytes@);
                    Err(Error::MalformedEncoding)
                },
            },
            DataType::VarChar(_size) => {
                assert(bytes@.skip(0) =~= bytes@);
                match read_u16(bytes, 0) {
                    Some(len) => {
                        if bytes.len() < 2 {
                            return Err(Error::MalformedEncoding);
                        }
                        match read_str(bytes, 2, len as usize) {
                            Some(s) => Ok((Value::VarChar(s), 2 + len as usize)),
                            None => Err(Error::MalformedEncoding),
                        }
                    },
                    None => Err(Error::MalformedEncoding),
                }
            },
        }
    }
}

} // verus!
