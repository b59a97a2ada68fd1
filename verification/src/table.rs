//! A table definition with a key column, and its byte layout: one-byte
//! lengths, and a string type with a four-byte capacity.

use crate::bytes::{
    i32_be, lemma_parse_str_of_bytes, lemma_parse_u32_of_bytes, lemma_prepend_nothing, lemma_prepend_twice,
    parse_i32, parse_str, parse_u32, prepend, push_bytes, push_i32_be, push_str_bytes, push_u32_be, read_i32,
    read_str, read_u32, str_byte_len, u32_be, utf8,
};
use crate::engine::render::{decimal, int_to_string};
use crate::error::Error;
use vstd::prelude::*;
use vstd::slice::slice_subrange;
use vstd::utf8::{decode_utf8, valid_utf8};

verus! {

/// The declared type of a column.
#[derive(Debug, Clone, Copy, PartialEq, Eq, Structural)]
pub enum ColumnType {
    /// A 32-bit signed integer.
    Int,
    /// A string with its declared capacity in bytes.
    Varchar(u32),
}

/// A column: its type and its name.
#[derive(Debug, PartialEq)]
pub struct Column {
    pub ty: ColumnType,
    pub key: String,
}

/// A column as contracts see it.
pub struct ColumnView {
    pub ty: ColumnType,
    pub key: Seq<char>,
}

impl View for Column {
    type V = ColumnView;

    open spec fn view(&self) -> ColumnView {
        ColumnView { ty: self.ty, key: self.key@ }
    }
}

/// A table definition: its name, its key column and its other columns.
#[derive(Debug, PartialEq)]
pub struct Table {
    pub name: String,
    pub pk: Column,
    pub columns: Vec<Column>,
}

/// A table definition as contracts see it.
pub struct TableView {
    pub name: Seq<char>,
    pub pk: ColumnView,
    pub columns: Seq<ColumnView>,
}

/// The views of a list of columns.
pub open spec fn columns_view(columns: Seq<Column>) -> Seq<ColumnView> {
    columns.map_values(|c: Column| c@)
}

impl View for Table {
    type V = TableView;

    open spec fn view(&self) -> TableView {
        TableView { name: self.name@, pk: self.pk@, columns: columns_view(self.columns@) }
    }
}

/// The raw bytes of one cell.
#[derive(Debug, PartialEq)]
pub struct ColumnData {
    pub value: Vec<u8>,
}

/// The encoded form of a type: the tag 0 for an integer; the tag 1 and the
/// capacity in four big-endian bytes for a string.
pub open spec fn column_type_bytes(ty: ColumnType) -> Seq<u8> {
    match ty {
        ColumnType::Int => seq![0u8],
        ColumnType::Varchar(len) => seq![1u8] + u32_be(len),
    }
}

/// The encoded form of a column: the type, the length of the name in one
/// byte, the name.
pub open spec fn column_bytes(column: ColumnView) -> Seq<u8> {
    column_type_bytes(column.ty) + seq![utf8(column.key).len() as u8] + utf8(column.key)
}

/// The encoded forms of the columns, one after another.
pub open spec fn columns_bytes(columns: Seq<ColumnView>) -> Seq<u8>
    decreases columns.len(),
{
    if columns.len() == 0 {
        Seq::empty()
    } else {
        columns_bytes(columns.drop_last()) + column_bytes(columns.last())
    }
}

/// The encoded form of a table definition: the length of the name in one
/// byte, the name, the key column, the number of other columns in one byte,
/// and those columns.
pub open spec fn table_bytes(table: TableView) -> Seq<u8> {
    seq![utf8(table.name).len() as u8] + utf8(table.name) + column_bytes(table.pk) + seq![
        table.columns.len() as u8,
    ] + columns_bytes(table.columns)
}

/// The type at the start of `b`, and the number of bytes it fills.
pub open spec fn parse_column_type(b: Seq<u8>) -> Option<(ColumnType, int)> {
    if b.len() >= 1 && b[0] == 0 {
        Some((ColumnType::Int, 1))
    } else if b.len() >= 5 && b[0] == 1 {
        Some((ColumnType::Varchar(parse_u32(b.skip(1))->0), 5))
    } else {
        None
    }
}

/// The column at the start of `b`, and the number of bytes it fills. No
/// column is read from fewer than five bytes, whatever its type.
pub open spec fn parse_column(b: Seq<u8>) -> Option<(ColumnView, int)> {
    match parse_column_type(b) {
        Some((ty, n)) => if b.len() >= 5 && b.len() > n {
            match parse_str(b.skip(n + 1), b[n] as nat) {
                Some(key) => Some((ColumnView { ty, key }, n + 1 + b[n])),
                None => None,
            }
        } else {
            None
        },
        None => None,
    }
}

/// The `count` columns at the start of `b`, and the number of bytes they fill.
pub open spec fn parse_columns(b: Seq<u8>, count: nat) -> Option<(Seq<ColumnView>, int)>
    decreases count,
{
    if count == 0 {
        Some((Seq::empty(), 0))
    } else {
        match parse_column(b) {
            Some((column, n)) => prepend(seq![column], n, parse_columns(b.skip(n), (count - 1) as nat)),
            None => None,
        }
    }
}

/// The table definition at the start of `b`, and the number of bytes it
/// fills.
pub open spec fn parse_table(b: Seq<u8>) -> Option<(TableView, int)> {
    if b.len() >= 1 {
        match parse_str(b.skip(1), b[0] as nat) {
            Some(name) => match parse_column(b.skip(1 + b[0])) {
                Some((pk, n)) => if b.len() > 1 + b[0] + n {
                    match parse_columns(b.skip(2 + b[0] + n), b[1 + b[0] + n] as nat) {
                        Some((columns, m)) => Some((TableView { name, pk, columns }, 2 + b[0] + n + m)),
                        None => None,
                    }
                } else {
                    None
                },
                None => None,
            },
            None => None,
        }
    } else {
        None
    }
}

impl TableView {
    /// Whether the definition fits the layout: the name, the name of each
    /// column and the number of columns each fit one byte.
    pub open spec fn encodable(self) -> bool {
        &&& utf8(self.name).len() <= 0xff
        &&& utf8(self.pk.key).len() <= 0xff
        &&& self.columns.len() <= 0xff
        &&& forall|i: int| 0 <= i < self.columns.len() ==> utf8((#[trigger] self.columns[i]).key).len() <= 0xff
    }
}

impl ColumnType {
    /// The encoded form of the type.
    pub fn as_bytes(&self) -> (b: Vec<u8>)
        ensures
            b@ == column_type_bytes(*self),
    {
        match self {
            ColumnType::Int => {
                let mut buffer: Vec<u8> = Vec::new();
                buffer.push(0);
                assert(buffer@ =~= column_type_bytes(*self));
                buffer
            },
            ColumnType::Varchar(len) => {
                let mut buffer: Vec<u8> = Vec::new();
                buffer.push(1);
                push_u32_be(&mut buffer, *len);
                assert(buffer@ =~= column_type_bytes(*self));
                buffer
            },
        }
    }

    /// The number of bytes that a value of the type fills.
    pub open spec fn spec_size(self) -> nat {
        match self {
            ColumnType::Int => 4,
            ColumnType::Varchar(len) => len as nat,
        }
    }

    /// The number of bytes that a value of the type fills.
    pub fn size(&self) -> (n: u32)
        ensures
            n == self.spec_size(),
    {
        match self {
            ColumnType::Int => 4,
            ColumnType::Varchar(len) => *len,
        }
    }

    /// The type at the start of `bytes`. Fails where the tag is unknown or
    /// bytes are missing.
    pub fn from_bytes(bytes: &[u8]) -> (r: Result<Self, Error>)
        ensures
            match r {
                Ok(ty) => parse_column_type(bytes@) matches Some(found) && found.0 == ty,
                Err(e) => e == Error::MalformedEncoding && parse_column_type(bytes@) is None,
            },
    {
        if bytes.len() < 1 {
            return Err(Error::MalformedEncoding);
        }
        if bytes[0] == 0 {
            Ok(ColumnType::Int)
        } else if bytes[0] == 1 {
            match read_u32(bytes, 1) {
                Some(len) => Ok(ColumnType::Varchar(len)),
                None => Err(Error::MalformedEncoding),
            }
        } else {
            Err(Error::MalformedEncoding)
        }
    }
}

impl Column {
    /// A column of the given type and name.
    pub fn new(ty: ColumnType, key: String) -> (c: Self)
        ensures
            c.ty == ty,
            c.key == key,
    {
        Column { ty, key }
    }

    /// The encoded form of the column.
    pub fn as_bytes(&self) -> (b: Vec<u8>)
        ensures
            b@ == column_bytes(self@),
    {
        let mut buffer: Vec<u8> = Vec::new();
        let ty = self.ty.as_bytes();
        push_bytes(&mut buffer, ty.as_slice());
        buffer.push(#[verifier::truncate] (str_byte_len(&self.key) as u8));
        push_str_bytes(&mut buffer, &self.key);
        assert(buffer@ =~= column_bytes(self@));
        buffer
    }

    /// The column at the start of `bytes` and the number of bytes it fills.
    fn read(bytes: &[u8], offset: usize) -> (r: Result<(Column, usize), Error>)
        requires
            offset <= bytes@.len(),
        ensures
            match r {
                Ok((column, n)) => parse_column(bytes@.skip(offset as int)) == Some((column@, n as int)) && offset
                    + n <= bytes@.len(),
                Err(e) => e == Error::MalformedEncoding && parse_column(bytes@.skip(offset as int)) is None,
            },
    {
        let ghost b = bytes@.skip(offset as int);
        let end = bytes.len();
        let rest = slice_subrange(bytes, offset, end);
        assert(rest@ =~= b);
        let ty = match ColumnType::from_bytes(rest) {
            Ok(ty) => ty,
            Err(e) => {
                return Err(e);
            },
        };
        let n: usize = match ty {
            ColumnType::Int => 1,
            ColumnType::Varchar(_) => 5,
        };
        if end - offset < 5 || end - offset <= n {
            return Err(Error::MalformedEncoding);
        }
        let key_len: usize = bytes[offset + n] as usize;
        assert(b.skip(n + 1) =~= bytes@.skip(offset + n + 1));
        match read_str(bytes, offset + n + 1, key_len) {
            Some(key) => Ok((Column { ty, key }, n + 1 + key_len)),
            None => Err(Error::MalformedEncoding),
        }
    }

    /// The column at the start of `bytes`. Fails where the type tag is
    /// unknown, there are fewer than five bytes, bytes of the name are
    /// missing, or the name is not UTF-8.
    pub fn from_bytes(bytes: &[u8]) -> (r: Result<Self, Error>)
        ensures
            match r {
                Ok(column) => parse_column(bytes@) matches Some(found) && found.0 == column@,
                Err(e) => e == Error::MalformedEncoding && parse_column(bytes@) is None,
            },
    {
        assert(bytes@.skip(0) =~= bytes@);
        match Self::read(bytes, 0) {
            Ok((column, _)) => Ok(column),
            Err(e) => Err(e),
        }
    }
}

impl Table {
    /// A table definition of the given name, key column and other columns.
    pub fn new(name: String, pk: Column, columns: Vec<Column>) -> (t: Self)
        ensures
            t.name == name,
            t.pk == pk,
            t.columns == columns,
    {
        Table { name, pk, columns }
    }

    /// The encoded form of the definition.
    pub fn as_bytes(&self) -> (b: Vec<u8>)
        ensures
            b@ == table_bytes(self@),
    {
        let mut buffer: Vec<u8> = Vec::new();
        buffer.push(#[verifier::truncate] (str_byte_len(&self.name) as u8));
        push_str_bytes(&mut buffer, &self.name);
        let pk = self.pk.as_bytes();
        push_bytes(&mut buffer, pk.as_slice());
        buffer.push(#[verifier::truncate] (self.columns.len() as u8));
        let ghost head = buffer@;
        let ghost columns = self@.columns;
        let mut i: usize = 0;
        while i < self.columns.len()
            invariant
                i <= self.columns.len(),
                columns == self@.columns,
                buffer@ == head + columns_bytes(columns.take(i as int)),
            decreases self.columns.len() - i,
        {
            proof {
                assert(columns.take(i + 1).drop_last() =~= columns.take(i as int));
                assert(columns.take(i + 1).last() == self.columns@[i as int]@);
            }
            let column = self.columns[i].as_bytes();
            push_bytes(&mut buffer, column.as_slice());
            assert(buffer@ =~= head + columns_bytes(columns.take(i + 1)));
            i += 1;
        }
        assert(columns.take(i as int) =~= columns);
        assert(buffer@ =~= table_bytes(self@));
        buffer
    }

    /// The table definition at the start of `bytes` and the number of bytes
    /// it fills.
    pub fn read(bytes: &[u8]) -> (r: Result<(Table, usize), Error>)
        ensures
            match r {
                Ok((table, n)) => parse_table(bytes@) == Some((table@, n as int)) && n <= bytes@.len(),
                Err(e) => e == Error::MalformedEncoding && parse_table(bytes@) is None,
            },
    {
        let ghost b = bytes@;
        let end = bytes.len();
        if end < 1 {
            return Err(Error::MalformedEncoding);
        }
        let name_len: usize = bytes[0] as usize;
        let name = match read_str(bytes, 1, name_len) {
            Some(name) => name,
            None => {
                return Err(Error::MalformedEncoding);
            },
        };
        let mut offset: usize = 1 + name_len;
        let (pk, n) = match Column::read(bytes, offset) {
            Ok(found) => found,
            Err(e) => {
                return Err(e);
            },
        };
        offset += n;
        if end - offset < 1 {
            return Err(Error::MalformedEncoding);
        }
        let columns_len: u8 = bytes[offset];
        offset += 1;
        let ghost start = offset as int;
        let ghost whole = parse_columns(b.skip(start), columns_len as nat);
        let mut columns: Vec<Column> = Vec::new();
        let mut i: u8 = 0;
        proof {
            lemma_prepend_nothing(whole);
        }
        while i < columns_len
            invariant
                b == bytes@,
                i <= columns_len,
                start <= offset <= b.len() <= usize::MAX,
                whole == parse_columns(b.skip(start), columns_len as nat),
                whole is None ==> parse_table(b) is None,
                whole == prepend(
                    columns_view(columns@),
                    offset - start,
                    parse_columns(b.skip(offset as int), (columns_len - i) as nat),
                ),
            decreases columns_len - i,
        {
            let ghost before = columns_view(columns@);
            let (column, n) = match Column::read(bytes, offset) {
                Ok(found) => found,
                Err(e) => {
                    return Err(e);
                },
            };
            proof {
                assert(b.skip(offset as int).skip(n as int) =~= b.skip(offset + n));
                lemma_prepend_twice(
                    before,
                    offset - start,
                    seq![column@],
                    n as int,
                    parse_columns(b.skip(offset + n), (columns_len - i - 1) as nat),
                );
                assert(before + seq![column@] =~= before.push(column@));
            }
            columns.push(column);
            assert(columns_view(columns@) =~= before.push(column@));
            offset += n;
            i += 1;
        }
        assert(columns_view(columns@) + Seq::<ColumnView>::empty() =~= columns_view(columns@));
        Ok((Table { name, pk, columns }, offset))
    }

    /// The table definition at the start of `bytes`. Fails where a type tag
    /// is unknown, bytes are missing, or a name is not UTF-8.
    pub fn from_bytes(bytes: &[u8]) -> (r: Result<Self, Error>)
        ensures
            match r {
                Ok(table) => parse_table(bytes@) matches Some(found) && found.0 == table@,
                Err(e) => e == Error::MalformedEncoding && parse_table(bytes@) is None,
            },
    {
        match Self::read(bytes) {
            Ok((table, _)) => Ok(table),
            Err(e) => Err(e),
        }
    }
}

/// How the bytes of a cell are shown for a column of type `ty`: four bytes
/// as the signed number they hold, in decimal; the bytes of a string as that
/// string.
pub open spec fn display_of(value: Seq<u8>, ty: ColumnType) -> Result<Seq<char>, Error> {
    match ty {
        ColumnType::Int => if value.len() == 4 {
            Ok(decimal(parse_i32(value)->0 as int))
        } else {
            Err(Error::TypeMismatch)
        },
        ColumnType::Varchar(_) => if valid_utf8(value) {
            Ok(decode_utf8(value))
        } else {
            Err(Error::MalformedEncoding)
        },
    }
}

impl ColumnData {
    /// The cell of a string: its UTF-8 bytes.
    pub fn from_string(value: String) -> (d: Self)
        ensures
            d.value@ == utf8(value@),
    {
        let mut bytes: Vec<u8> = Vec::new();
        push_str_bytes(&mut bytes, &value);
        assert(bytes@ =~= utf8(value@));
        ColumnData { value: bytes }
    }

    /// The cell of an integer: its four two's-complement big-endian bytes.
    pub fn from_int(value: i32) -> (d: Self)
        ensures
            d.value@ == i32_be(value),
    {
        let mut bytes: Vec<u8> = Vec::new();
        push_i32_be(&mut bytes, value);
        assert(bytes@ =~= i32_be(value));
        ColumnData { value: bytes }
    }

    /// The cell as it is shown for `column`. Fails with `TypeMismatch`
    /// where the column holds integers and the cell is not four bytes, and
    /// with `MalformedEncoding` where the column holds strings and the cell
    /// is not UTF-8.
    pub fn into_display(&self, column: &Column) -> (r: Result<String, Error>)
        ensures
            match r {
                Ok(s) => display_of(self.value@, column.ty) == Ok::<Seq<char>, Error>(s@),
                Err(e) => display_of(self.value@, column.ty) == Err::<Seq<char>, Error>(e),
            },
    {
        match column.ty {
            ColumnType::Int => {
                if self.value.len() != 4 {
                    return Err(Error::TypeMismatch);
                }
                assert(self.value@.skip(0) =~= self.value@);
                match read_i32(self.value.as_slice(), 0) {
                    Some(value) => Ok(int_to_string(value)),
                    None => Err(Error::TypeMismatch),
                }
            },
            ColumnType::Varchar(_) => {
                assert(self.value@.skip(0) =~= self.value@);
                assert(self.value@.take(self.value@.len() as int) =~= self.value@);
                match read_str(self.value.as_slice(), 0, self.value.len()) {
                    Some(s) => Ok(s),
                    None => Err(Error::MalformedEncoding),
                }
            },
        }
    }
}

/// The columns' bytes are those of the first column and then those of the
/// others.
pub proof fn lemma_columns_bytes_first(columns: Seq<ColumnView>)
    requires
        columns.len() > 0,
    ensures
        columns_bytes(columns) == column_bytes(columns[0]) + columns_bytes(columns.drop_first()),
    decreases columns.len(),
{
    if columns.len() == 1 {
        assert(columns.drop_last() =~= Seq::<ColumnView>::empty());
        assert(columns.drop_first() =~= Seq::<ColumnView>::empty());
        assert(columns_bytes(columns) =~= column_bytes(columns[0]) + columns_bytes(columns.drop_first()));
    } else {
        lemma_columns_bytes_first(columns.drop_last());
        assert(columns.drop_last().drop_first() =~= columns.drop_first().drop_last());
        assert(columns_bytes(columns) =~= column_bytes(columns[0]) + columns_bytes(columns.drop_first()));
    }
}

/// A type reads back, whatever follows it.
pub proof fn lemma_parse_column_type_of_bytes(ty: ColumnType, rest: Seq<u8>)
    ensures
        parse_column_type(column_type_bytes(ty) + rest) == Some((ty, column_type_bytes(ty).len() as int)),
{
    let b = column_type_bytes(ty) + rest;
    match ty {
        ColumnType::Int => {
            assert(b[0] == 0);
        },
        ColumnType::Varchar(len) => {
            assert(b[0] == 1);
            assert(b.skip(1) =~= u32_be(len) + rest);
            lemma_parse_u32_of_bytes(len, rest);
        },
    }
}

/// A column whose name fits one byte reads back, if at least three bytes
/// follow it.
pub proof fn lemma_parse_column_of_bytes(column: ColumnView, rest: Seq<u8>)
    requires
        utf8(column.key).len() <= 0xff,
        rest.len() >= 3,
    ensures
        parse_column(column_bytes(column) + rest) == Some((column, column_bytes(column).len() as int)),
{
    let b = column_bytes(column) + rest;
    let kind = column_type_bytes(column.ty);
    let key = utf8(column.key);
    let n = kind.len() as int;
    assert(b =~= kind + (seq![key.len() as u8] + key + rest));
    lemma_parse_column_type_of_bytes(column.ty, seq![key.len() as u8] + key + rest);
    assert(b[n] == key.len());
    assert(b.skip(n + 1) =~= key + rest);
    lemma_parse_str_of_bytes(column.key, rest);
}

/// A list of columns whose names fit one byte reads back, if at least three
/// bytes follow it.
pub proof fn lemma_parse_columns_of_bytes(columns: Seq<ColumnView>, rest: Seq<u8>)
    requires
        forall|i: int| 0 <= i < columns.len() ==> utf8((#[trigger] columns[i]).key).len() <= 0xff,
        rest.len() >= 3,
    ensures
        parse_columns(columns_bytes(columns) + rest, columns.len()) == Some(
            (columns, columns_bytes(columns).len() as int),
        ),
    decreases columns.len(),
{
    let b = columns_bytes(columns) + rest;
    if columns.len() == 0 {
        assert(columns =~= Seq::<ColumnView>::empty());
    } else {
        let first = columns[0];
        let others = columns.drop_first();
        lemma_columns_bytes_first(columns);
        assert(b =~= column_bytes(first) + (columns_bytes(others) + rest));
        lemma_parse_column_of_bytes(first, columns_bytes(others) + rest);
        let n = column_bytes(first).len() as int;
        assert(b.skip(n) =~= columns_bytes(others) + rest);
        assert forall|i: int| 0 <= i < others.len() implies utf8((#[trigger] others[i]).key).len() <= 0xff by {
            assert(others[i] == columns[i + 1]);
        }
        lemma_parse_columns_of_bytes(others, rest);
        assert(seq![first] + others =~= columns);
    }
}

/// Reading the bytes of a table definition gives the definition back, for
/// every definition that fits the layout, if at least three bytes follow
/// it: the last column is read from no fewer than five bytes.
pub proof fn lemma_decode_encode(table: TableView, rest: Seq<u8>)
    requires
        table.encodable(),
        rest.len() >= 3,
    ensures
        parse_table(table_bytes(table) + rest) == Some((table, table_bytes(table).len() as int)),
{
    let b = table_bytes(table) + rest;
    let name = utf8(table.name);
    let pk = column_bytes(table.pk);
    let count = seq![table.columns.len() as u8];
    let list = columns_bytes(table.columns);
    let len = name.len() as int;
    assert(b[0] == len);
    assert(b.skip(1) =~= name + (pk + count + list + rest));
    lemma_parse_str_of_bytes(table.name, pk + count + list + rest);
    assert(b.skip(1 + len) =~= pk + (count + list + rest));
    lemma_parse_column_of_bytes(table.pk, count + list + rest);
    let n = pk.len() as int;
    assert(b[1 + len + n] == table.columns.len());
    assert(b.skip(2 + len + n) =~= list + rest);
    lemma_parse_columns_of_bytes(table.columns, rest);
}

} // verus!
