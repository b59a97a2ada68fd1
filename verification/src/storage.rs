//! One table definition and one row in one file: the definition, then the
//! cells of the row at the width of their columns.

use crate::bytes::{
    i32_be, lemma_prepend_nothing, lemma_prepend_twice, parse_i32, parse_str, prepend, push_bytes, read_i32,
    read_str, utf8,
};
use crate::error::Error;
use crate::table::{columns_view, parse_table, table_bytes, Column, ColumnData, ColumnType, ColumnView, Table, TableView};
use crate::text::parse_int;
use vstd::prelude::*;

verus! {

/// The views of a list of cells.
pub open spec fn cells_view(data: Seq<ColumnData>) -> Seq<Seq<u8>> {
    data.map_values(|d: ColumnData| d.value@)
}

/// The type of the column of the cell at position `idx` of a row: the key
/// column comes first, then the other columns.
pub open spec fn type_at(table: TableView, idx: int) -> ColumnType {
    if idx == 0 {
        table.pk.ty
    } else {
        table.columns[idx - 1].ty
    }
}

/// `value` with zero bytes before it, to `width` bytes in all.
pub open spec fn left_padded(value: Seq<u8>, width: nat) -> Seq<u8> {
    Seq::new((width - value.len()) as nat, |i: int| 0u8) + value
}

/// The cells of a row, each at the width of its column.
pub open spec fn cells_bytes(table: TableView, data: Seq<Seq<u8>>) -> Seq<u8>
    decreases data.len(),
{
    if data.len() == 0 {
        Seq::empty()
    } else {
        cells_bytes(table, data.drop_last()) + left_padded(data.last(), type_at(table, data.len() - 1).spec_size())
    }
}

/// The content of the file: the definition, then the cells.
pub open spec fn file_bytes(table: TableView, data: Seq<Seq<u8>>) -> Seq<u8> {
    table_bytes(table) + cells_bytes(table, data)
}

/// Whether a row can be written for a table: it has no more cells than the
/// table has columns, and no cell is wider than its column.
pub open spec fn storable(table: TableView, data: Seq<Seq<u8>>) -> bool {
    &&& data.len() <= table.columns.len() + 1
    &&& forall|i: int| 0 <= i < data.len() ==> (#[trigger] data[i]).len() <= type_at(table, i).spec_size()
}

/// The cell of a column of type `ty` at the start of `b`, and the number of
/// bytes it fills. An integer of the key column is four bytes in two's
/// complement. An integer of another column is four characters of decimal
/// text. A string is as many bytes as its column declares, in UTF-8.
pub open spec fn parse_cell(b: Seq<u8>, ty: ColumnType, is_key: bool) -> Option<(Seq<u8>, int)> {
    match ty {
        ColumnType::Int => if is_key {
            match parse_i32(b) {
                Some(v) => Some((i32_be(v), 4)),
                None => None,
            }
        } else {
            match parse_str(b, 4) {
                Some(text) => match parse_int(text) {
                    Some(v) => Some((i32_be(v), 4)),
                    None => None,
                },
                None => None,
            }
        },
        ColumnType::Varchar(len) => match parse_str(b, len as nat) {
            Some(text) => Some((utf8(text), len as int)),
            None => None,
        },
    }
}

/// The cells of `columns` at the start of `b`, none of them of the key
/// column, and the number of bytes they fill.
pub open spec fn parse_cells(b: Seq<u8>, columns: Seq<ColumnView>) -> Option<(Seq<Seq<u8>>, int)>
    decreases columns.len(),
{
    if columns.len() == 0 {
        Some((Seq::empty(), 0))
    } else {
        match parse_cell(b, columns[0].ty, false) {
            Some((cell, n)) => prepend(seq![cell], n, parse_cells(b.skip(n), columns.drop_first())),
            None => None,
        }
    }
}

/// The definition and the row that a file of content `b` holds: the
/// definition, the cell of the key column, the cells of the other columns.
pub open spec fn parse_file(b: Seq<u8>) -> Option<(TableView, Seq<Seq<u8>>)> {
    match parse_table(b) {
        Some((table, n)) => match parse_cell(b.skip(n), table.pk.ty, true) {
            Some((key, k)) => match parse_cells(b.skip(n + k), table.columns) {
                Some((cells, _)) => Some((table, seq![key] + cells)),
                None => None,
            },
            None => None,
        },
        None => None,
    }
}

/// Whether `data` is a row that `table` can be written with.
pub fn is_storable(table: &Table, data: &Vec<ColumnData>) -> (b: bool)
    ensures
        b == storable(table@, cells_view(data@)),
{
    if data.len() > 0 && data.len() - 1 > table.columns.len() {
        return false;
    }
    let ghost cells = cells_view(data@);
    let mut idx: usize = 0;
    while idx < data.len()
        invariant
            idx <= data.len() <= table.columns@.len() + 1,
            cells == cells_view(data@),
            forall|i: int| 0 <= i < idx ==> (#[trigger] cells[i]).len() <= type_at(table@, i).spec_size(),
        decreases data.len() - idx,
    {
        let ty = if idx == 0 {
            &table.pk.ty
        } else {
            &table.columns[idx - 1].ty
        };
        assert(*ty == type_at(table@, idx as int));
        assert(cells[idx as int] == data@[idx as int].value@);
        if data[idx].value.len() > ty.size() as usize {
            return false;
        }
        idx += 1;
    }
    true
}

/// The content of the file that holds `table` and the row `data`.
pub fn encode(table: &Table, data: &Vec<ColumnData>) -> (buffer: Vec<u8>)
    requires
        storable(table@, cells_view(data@)),
    ensures
        buffer@ == file_bytes(table@, cells_view(data@)),
{
    let mut buffer: Vec<u8> = Vec::new();

    // table def
    let def = table.as_bytes();
    push_bytes(&mut buffer, def.as_slice());
    assert(buffer@ =~= table_bytes(table@));

    // data
    let ghost cells = cells_view(data@);
    let mut idx: usize = 0;
    assert(cells.take(0) =~= Seq::<Seq<u8>>::empty());
    while idx < data.len()
        invariant
            idx <= data.len(),
            cells == cells_view(data@),
            storable(table@, cells),
            buffer@ == table_bytes(table@) + cells_bytes(table@, cells.take(idx as int)),
        decreases data.len() - idx,
    {
        let ty = if idx == 0 {
            &table.pk.ty
        } else {
            &table.columns[idx - 1].ty
        };
        let value = &data[idx].value;
        proof {
            assert(*ty == type_at(table@, idx as int));
            assert(cells[idx as int] == value@);
            assert(cells.take(idx + 1).drop_last() =~= cells.take(idx as int));
            assert(cells.take(idx + 1).last() == value@);
        }
        let ghost before = buffer@;
        let pad: u32 = ty.size() - value.len() as u32;
        let mut k: u32 = 0;
        while k < pad
            invariant
                k <= pad,
                buffer@ == before + Seq::new(k as nat, |i: int| 0u8),
            decreases pad - k,
        {
            buffer.push(0);
            assert(buffer@ =~= before + Seq::new((k + 1) as nat, |i: int| 0u8));
            k += 1;
        }
        push_bytes(&mut buffer, value.as_slice());
        assert(buffer@ =~= before + left_padded(value@, ty.spec_size()));
        assert(buffer@ =~= table_bytes(table@) + cells_bytes(table@, cells.take(idx + 1)));
        idx += 1;
    }
    assert(cells.take(idx as int) =~= cells);
    buffer
}

/// Reads the cell of a column of type `ty` at `offset`.
fn read_cell(buffer: &[u8], offset: usize, ty: &ColumnType, is_key: bool) -> (r: Result<(ColumnData, usize), Error>)
    requires
        offset <= buffer@.len(),
    ensures
        match r {
            Ok((cell, n)) => parse_cell(buffer@.skip(offset as int), *ty, is_key) == Some((cell.value@, n as int))
                && offset + n <= buffer@.len(),
            Err(e) => e == Error::MalformedEncoding && parse_cell(buffer@.skip(offset as int), *ty, is_key) is None,
        },
{
    match ty {
        ColumnType::Int => {
            if is_key {
                match read_i32(buffer, offset) {
                    Some(value) => Ok((ColumnData::from_int(value), 4)),
                    None => Err(Error::MalformedEncoding),
                }
            } else {
                match read_str(buffer, offset, 4) {
                    Some(text) => match crate::text::parse_i32(text.as_str()) {
                        Some(value) => Ok((ColumnData::from_int(value), 4)),
                        None => Err(Error::MalformedEncoding),
                    },
                    None => Err(Error::MalformedEncoding),
                }
            }
        },
        ColumnType::Varchar(len) => match read_str(buffer, offset, *len as usize) {
            Some(text) => Ok((ColumnData::from_string(text), *len as usize)),
            None => Err(Error::MalformedEncoding),
        },
    }
}

/// The definition and the row that a file of content `buffer` holds. Fails
/// where the definition does not read, bytes are missing, a string is not
/// UTF-8, or an integer that is not the key is not decimal text.
pub fn decode(buffer: &[u8]) -> (r: Result<(Table, Vec<ColumnData>), Error>)
    ensures
        match r {
            Ok((table, data)) => parse_file(buffer@) == Some((table@, cells_view(data@))),
            Err(e) => e == Error::MalformedEncoding && parse_file(buffer@) is None,
        },
{
    let ghost b = buffer@;
    let end = buffer.len();
    let (table, n) = match Table::read(buffer) {
        Ok(found) => found,
        Err(e) => {
            return Err(e);
        },
    };
    let mut offset: usize = n;
    let mut values: Vec<ColumnData> = Vec::new();

    // pk
    let (key, k) = match read_cell(buffer, offset, &table.pk.ty, true) {
        Ok(found) => found,
        Err(e) => {
            return Err(e);
        },
    };
    offset += k;
    let ghost key_cell = key.value@;
    values.push(key);

    // columns
    let ghost start = offset as int;
    let ghost columns = table@.columns;
    let ghost whole = parse_cells(b.skip(start), columns);
    let mut i: usize = 0;
    let mut cells: Vec<ColumnData> = Vec::new();
    proof {
        lemma_prepend_nothing(whole);
        assert(columns.skip(0) =~= columns);
    }
    while i < table.columns.len()
        invariant
            b == buffer@,
            i <= table.columns.len(),
            columns == table@.columns,
            start <= offset <= b.len() <= usize::MAX,
            whole == parse_cells(b.skip(start), columns),
            whole is None ==> parse_file(b) is None,
            whole == prepend(
                cells_view(cells@),
                offset - start,
                parse_cells(b.skip(offset as int), columns.skip(i as int)),
            ),
        decreases table.columns.len() - i,
    {
        let ghost before = cells_view(cells@);
        let (cell, k) = match read_cell(buffer, offset, &table.columns[i].ty, false) {
            Ok(found) => found,
            Err(e) => {
                assert(columns.skip(i as int)[0] == columns[i as int]);
                return Err(e);
            },
        };
        proof {
            assert(columns.skip(i as int)[0] == columns[i as int]);
            assert(columns.skip(i as int).drop_first() =~= columns.skip(i + 1));
            assert(b.skip(offset as int).skip(k as int) =~= b.skip(offset + k));
            lemma_prepend_twice(
                before,
                offset - start,
                seq![cell.value@],
                k as int,
                parse_cells(b.skip(offset + k), columns.skip(i + 1)),
            );
            assert(before + seq![cell.value@] =~= before.push(cell.value@));
        }
        cells.push(cell);
        assert(cells_view(cells@) =~= before.push(cell.value@));
        offset += k;
        i += 1;
    }
    proof {
        assert(columns.skip(i as int) =~= Seq::<ColumnView>::empty());
        assert(cells_view(cells@) + Seq::<Seq<u8>>::empty() =~= cells_view(cells@));
    }
    let ghost others = cells_view(cells@);
    values.append(&mut cells);
    assert(cells_view(values@) =~= seq![key_cell] + others);
    Ok((table, values))
}

} // verus!
