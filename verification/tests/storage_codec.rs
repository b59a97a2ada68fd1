use ubdb::engine::storage::Storage;
use ubdb::engine::table::{DataType, DataTypeByteMap, Record, Table, Value};
use ubdb::error::Error;

fn user_table() -> Table {
    let mut user_table = Table::new(
        String::from("user"),
        vec![
            (String::from("id"), DataType::Int),
            (String::from("name"), DataType::VarChar(10)),
        ],
        vec![],
    );

    user_table.insert(Record::new(vec![
        Value::Int(1),
        Value::VarChar(String::from("alice")),
    ]));

    user_table.insert(Record::new(vec![
        Value::Int(2),
        Value::VarChar(String::from("bob")),
    ]));
    user_table
}

fn user_bytes() -> Vec<u8> {
    vec![
        0x04, // name length
        0x75, 0x73, 0x65, 0x72, // user
        0x00, 0x02, // 2 columns
        0x00, 0x02, // column name length
        0x69, 0x64, // id
        0x00, // int
        0x00, 0x04, // column name length
        0x6e, 0x61, 0x6d, 0x65, // name
        0x0a, 0x00, 0x0a, // varchar(10)
        0x00, 0x02, // records length
        0x00, 0x00, 0x00, 0x01, // 1
        0x00, 0x05, // alice length
        0x61, 0x6c, 0x69, 0x63, 0x65, // alice
        0x00, 0x00, 0x00, 0x02, // 2
        0x00, 0x03, // bob length
        0x62, 0x6f, 0x62, // bob
    ]
}

#[test]
fn flush_test_data_type_as_bytes() {
    assert_eq!(
        Storage::data_type_to_bytes(&DataType::Int),
        vec![DataTypeByteMap::INT]
    );
    assert_eq!(
        Storage::data_type_to_bytes(&DataType::VarChar(0)),
        vec![DataTypeByteMap::VARCHAR, 0x00, 0x00]
    );
    assert_eq!(
        Storage::data_type_to_bytes(&DataType::VarChar(10)),
        vec![DataTypeByteMap::VARCHAR, 0x00, 0x0a]
    );
    assert_eq!(
        Storage::data_type_to_bytes(&DataType::VarChar(0xffff)),
        vec![DataTypeByteMap::VARCHAR, 0xff, 0xff]
    );
}

#[test]
fn flush_test_value_as_bytes() {
    assert_eq!(
        Storage::test_value_as_bytes(&Value::Int(1), &DataType::Int),
        vec![0x00, 0x00, 0x00, 0x01]
    );

    assert_eq!(
        Storage::test_value_as_bytes(
            &Value::VarChar(String::from("hello")),
            &DataType::VarChar(10)
        ),
        vec![0, 0x05, 0x68, 0x65, 0x6c, 0x6c, 0x6f]
    );
}

#[test]
fn flush_test_table_as_bytes() {
    assert_eq!(Storage::table_to_bytes(&user_table()), user_bytes())
}

#[test]
fn test_bytes_to_value() {
    assert_eq!(
        Storage::bytes_to_value(&[0x000, 0x000, 0x000, 0x01], &DataType::Int),
        Ok((Value::Int(1), 4))
    );
    assert_eq!(
        Storage::bytes_to_value(&[0x00, 0x01, 0x61], &DataType::VarChar(8)),
        Ok((Value::VarChar(String::from("a")), 3))
    );
}

#[test]
fn test_bytes_to_data_type() {
    assert_eq!(
        Storage::bytes_to_data_type(&[DataTypeByteMap::INT]),
        Ok((DataType::Int, 1))
    );
    assert_eq!(
        Storage::bytes_to_data_type(&[DataTypeByteMap::VARCHAR, 0x00, 0x01]),
        Ok((DataType::VarChar(1), 3))
    );
}

#[test]
fn test_load() {
    assert_eq!(Storage::bytes_to_table(&user_bytes()), Ok(user_table()));
}

#[test]
fn negative_integers_are_twos_complement() {
    assert_eq!(
        Storage::test_value_as_bytes(&Value::Int(-1), &DataType::Int),
        vec![0xff, 0xff, 0xff, 0xff]
    );
    assert_eq!(
        Storage::test_value_as_bytes(&Value::Int(i32::MIN), &DataType::Int),
        vec![0x80, 0x00, 0x00, 0x00]
    );
    assert_eq!(
        Storage::test_value_as_bytes(&Value::Int(0x0102_0304), &DataType::Int),
        vec![0x01, 0x02, 0x03, 0x04]
    );
    assert_eq!(
        Storage::bytes_to_value(&[0xff, 0xff, 0xff, 0xfe, 0x07], &DataType::Int),
        Ok((Value::Int(-2), 4))
    );
    assert_eq!(
        Storage::bytes_to_value(&[0x80, 0x00, 0x00, 0x00], &DataType::Int),
        Ok((Value::Int(i32::MIN), 4))
    );
}

#[test]
fn decoding_inverts_encoding() {
    let table = Table::new(
        String::from("measure"),
        vec![
            (String::from("label"), DataType::VarChar(3)),
            (String::from("low"), DataType::Int),
            (String::from("high"), DataType::Int),
            (String::from("note"), DataType::VarChar(0)),
        ],
        vec![
            Record::new(vec![
                Value::VarChar(String::from("longer than declared")),
                Value::Int(i32::MIN),
                Value::Int(i32::MAX),
                Value::VarChar(String::new()),
            ]),
            Record::new(vec![
                Value::VarChar(String::from("zero\u{0}inside\u{0}")),
                Value::Int(-7),
                Value::Int(0),
                Value::VarChar(String::from("gr\u{fc}\u{df}e \u{4e16}\u{754c}")),
            ]),
        ],
    );
    assert!(table.is_well_formed());
    let bytes = Storage::table_to_bytes(&table);
    assert_eq!(Storage::bytes_to_table(&bytes), Ok(table));
}

#[test]
fn empty_table_round_trips() {
    let table = Table::new(String::new(), vec![], vec![]);
    let bytes = Storage::table_to_bytes(&table);
    assert_eq!(bytes, vec![0, 0, 0, 0, 0]);
    assert_eq!(Storage::bytes_to_table(&bytes), Ok(table));
}

#[test]
fn encoding_twice_gives_the_same_bytes() {
    let first = Storage::table_to_bytes(&user_table());
    let second = Storage::table_to_bytes(&user_table());
    assert_eq!(first, second);
}

#[test]
fn bytes_after_the_table_are_not_looked_at() {
    let mut bytes = user_bytes();
    bytes.extend_from_slice(&[0xde, 0xad, 0xff]);
    assert_eq!(Storage::bytes_to_table(&bytes), Ok(user_table()));
}

#[test]
fn every_cut_of_an_encoding_is_malformed() {
    let bytes = user_bytes();
    for cut in 0..bytes.len() {
        assert_eq!(
            Storage::bytes_to_table(&bytes[..cut]),
            Err(Error::MalformedEncoding)
        );
    }
}

#[test]
fn unknown_type_tag_is_malformed() {
    assert_eq!(
        Storage::bytes_to_data_type(&[1]),
        Err(Error::MalformedEncoding)
    );
    assert_eq!(Storage::bytes_to_data_type(&[]), Err(Error::MalformedEncoding));
    assert_eq!(
        Storage::bytes_to_data_type(&[DataTypeByteMap::VARCHAR, 0x00]),
        Err(Error::MalformedEncoding)
    );
    let mut bytes = user_bytes();
    bytes[11] = 0x07;
    assert_eq!(Storage::bytes_to_table(&bytes), Err(Error::MalformedEncoding));
}

#[test]
fn strings_that_are_not_utf8_are_malformed() {
    assert_eq!(
        Storage::bytes_to_value(&[0x00, 0x02, 0xc3, 0x28], &DataType::VarChar(8)),
        Err(Error::MalformedEncoding)
    );
    assert_eq!(
        Storage::bytes_to_value(&[0x00, 0x01, 0xff], &DataType::VarChar(8)),
        Err(Error::MalformedEncoding)
    );
    let mut bytes = user_bytes();
    bytes[1] = 0xff;
    assert_eq!(Storage::bytes_to_table(&bytes), Err(Error::MalformedEncoding));
}

#[test]
fn short_values_are_malformed() {
    assert_eq!(
        Storage::bytes_to_value(&[0, 0, 1], &DataType::Int),
        Err(Error::MalformedEncoding)
    );
    assert_eq!(
        Storage::bytes_to_value(&[0], &DataType::VarChar(1)),
        Err(Error::MalformedEncoding)
    );
    assert_eq!(
        Storage::bytes_to_value(&[0, 3, 0x61, 0x62], &DataType::VarChar(1)),
        Err(Error::MalformedEncoding)
    );
}

#[test]
fn restore_tells_absent_from_malformed() {
    assert_eq!(Storage::restore(&[]), Ok(None));
    assert_eq!(Storage::restore(&[9]), Err(Error::MalformedEncoding));
    assert_eq!(Storage::restore(&user_bytes()), Ok(Some(user_table())));
}

#[test]
fn storage_path_is_directory_name_extension() {
    let storage = Storage::new(String::from("data/db"));
    assert_eq!(storage.storage_dir, "data/db");
    assert_eq!(storage.get_table_storage_path("user"), "data/db/user.ubdb");
    let (path, bytes) = storage.prepare(&user_table());
    assert_eq!(path, "data/db/user.ubdb");
    assert_eq!(bytes, user_bytes());
}
