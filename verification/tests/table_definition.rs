use ubdb::error::Error;
use ubdb::table::{Column, ColumnData, ColumnType, Table};

fn definition() -> Table {
    Table::new(
        String::from("user"),
        Column::new(ColumnType::Int, String::from("id")),
        vec![
            Column::new(ColumnType::Varchar(258), String::from("name")),
            Column::new(ColumnType::Int, String::from("age")),
        ],
    )
}

fn definition_bytes() -> Vec<u8> {
    vec![
        4, 0x75, 0x73, 0x65, 0x72, // user
        0, 2, 0x69, 0x64, // int, id
        2, // two columns
        1, 0, 0, 1, 2, 4, 0x6e, 0x61, 0x6d, 0x65, // varchar(258), name
        0, 3, 0x61, 0x67, 0x65, // int, age
    ]
}

#[test]
fn column_types_in_bytes() {
    assert_eq!(ColumnType::Int.as_bytes(), vec![0]);
    assert_eq!(ColumnType::Varchar(0).as_bytes(), vec![1, 0, 0, 0, 0]);
    assert_eq!(
        ColumnType::Varchar(0x0102_0304).as_bytes(),
        vec![1, 1, 2, 3, 4]
    );
    assert_eq!(
        ColumnType::Varchar(u32::MAX).as_bytes(),
        vec![1, 0xff, 0xff, 0xff, 0xff]
    );
    assert_eq!(ColumnType::Int.size(), 4);
    assert_eq!(ColumnType::Varchar(0).size(), 0);
    assert_eq!(ColumnType::Varchar(70000).size(), 70000);
}

#[test]
fn column_types_from_bytes() {
    assert_eq!(ColumnType::from_bytes(&[0]), Ok(ColumnType::Int));
    assert_eq!(ColumnType::from_bytes(&[0, 9, 9]), Ok(ColumnType::Int));
    assert_eq!(
        ColumnType::from_bytes(&[1, 1, 2, 3, 4, 9]),
        Ok(ColumnType::Varchar(0x0102_0304))
    );
    assert_eq!(ColumnType::from_bytes(&[]), Err(Error::MalformedEncoding));
    assert_eq!(ColumnType::from_bytes(&[2]), Err(Error::MalformedEncoding));
    assert_eq!(
        ColumnType::from_bytes(&[1, 0, 0, 0]),
        Err(Error::MalformedEncoding)
    );
}

#[test]
fn columns_in_bytes_and_back() {
    let column = Column::new(ColumnType::Varchar(16), String::from("name"));
    assert_eq!(column.ty, ColumnType::Varchar(16));
    assert_eq!(column.key, "name");
    let bytes = column.as_bytes();
    assert_eq!(bytes, vec![1, 0, 0, 0, 16, 4, 0x6e, 0x61, 0x6d, 0x65]);
    assert_eq!(Column::from_bytes(&bytes), Ok(column));

    let short = Column::new(ColumnType::Int, String::from("id"));
    assert_eq!(short.as_bytes(), vec![0, 2, 0x69, 0x64]);
    assert_eq!(Column::from_bytes(&[0, 2, 0x69, 0x64, 9]), Ok(short));
    assert_eq!(
        Column::from_bytes(&[0, 0, 9, 9, 9]),
        Ok(Column::new(ColumnType::Int, String::new()))
    );
}

#[test]
fn no_column_is_read_from_fewer_than_five_bytes() {
    assert_eq!(
        Column::from_bytes(&[0, 2, 0x69, 0x64]),
        Err(Error::MalformedEncoding)
    );
    assert_eq!(Column::from_bytes(&[0, 0]), Err(Error::MalformedEncoding));
    let id_only = Table::new(
        String::from("t"),
        Column::new(ColumnType::Int, String::from("k")),
        vec![Column::new(ColumnType::Int, String::from("n"))],
    );
    let mut bytes = id_only.as_bytes();
    assert_eq!(Table::from_bytes(&bytes), Err(Error::MalformedEncoding));
    bytes.push(0);
    assert_eq!(Table::from_bytes(&bytes), Err(Error::MalformedEncoding));
    bytes.push(0);
    assert_eq!(Table::from_bytes(&bytes), Ok(id_only));
}

#[test]
fn columns_that_do_not_read() {
    assert_eq!(Column::from_bytes(&[]), Err(Error::MalformedEncoding));
    assert_eq!(Column::from_bytes(&[0]), Err(Error::MalformedEncoding));
    assert_eq!(
        Column::from_bytes(&[0, 3, 0x61, 0x62]),
        Err(Error::MalformedEncoding)
    );
    assert_eq!(
        Column::from_bytes(&[0, 1, 0xff]),
        Err(Error::MalformedEncoding)
    );
    assert_eq!(
        Column::from_bytes(&[7, 1, 0x61]),
        Err(Error::MalformedEncoding)
    );
    assert_eq!(
        Column::from_bytes(&[1, 0, 0, 0, 1]),
        Err(Error::MalformedEncoding)
    );
}

#[test]
fn definitions_in_bytes_and_back() {
    assert_eq!(definition().as_bytes(), definition_bytes());
    assert_eq!(Table::from_bytes(&definition_bytes()), Ok(definition()));
    assert_eq!(
        Table::read(&definition_bytes()),
        Ok((definition(), definition_bytes().len()))
    );
    let mut longer = definition_bytes();
    longer.extend_from_slice(&[1, 2, 3]);
    assert_eq!(
        Table::read(&longer),
        Ok((definition(), definition_bytes().len()))
    );
    let bare = Table::new(
        String::new(),
        Column::new(ColumnType::Int, String::new()),
        vec![],
    );
    assert_eq!(bare.as_bytes(), vec![0, 0, 0, 0]);
    assert_eq!(Table::from_bytes(&[0, 0, 0, 0, 9, 9]), Ok(bare));
}

#[test]
fn every_cut_of_a_definition_is_malformed() {
    let bytes = definition_bytes();
    for cut in 0..bytes.len() {
        assert_eq!(
            Table::from_bytes(&bytes[..cut]),
            Err(Error::MalformedEncoding)
        );
    }
}

#[test]
fn cells_and_how_they_are_shown() {
    let id = Column::new(ColumnType::Int, String::from("id"));
    let name = Column::new(ColumnType::Varchar(8), String::from("name"));
    assert_eq!(ColumnData::from_int(1).value, vec![0, 0, 0, 1]);
    assert_eq!(ColumnData::from_int(-2).value, vec![0xff, 0xff, 0xff, 0xfe]);
    assert_eq!(
        ColumnData::from_string(String::from("bob")).value,
        vec![0x62, 0x6f, 0x62]
    );
    assert_eq!(
        ColumnData::from_int(-2).into_display(&id),
        Ok(String::from("-2"))
    );
    assert_eq!(
        ColumnData::from_int(i32::MAX).into_display(&id),
        Ok(String::from("2147483647"))
    );
    assert_eq!(
        ColumnData::from_string(String::from("bob")).into_display(&name),
        Ok(String::from("bob"))
    );
    // four bytes of a string shown as a number, and the other way round
    assert_eq!(
        ColumnData::from_string(String::from("\u{0}\u{0}\u{1}\u{0}")).into_display(&id),
        Ok(String::from("256"))
    );
    assert_eq!(
        ColumnData::from_int(0x6162_6364).into_display(&name),
        Ok(String::from("abcd"))
    );
    assert_eq!(
        ColumnData::from_string(String::from("bob")).into_display(&id),
        Err(Error::TypeMismatch)
    );
    assert_eq!(
        ColumnData { value: vec![] }.into_display(&id),
        Err(Error::TypeMismatch)
    );
    assert_eq!(
        ColumnData::from_int(-1).into_display(&name),
        Err(Error::MalformedEncoding)
    );
}
