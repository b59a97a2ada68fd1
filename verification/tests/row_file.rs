use ubdb::error::Error;
use ubdb::storage::{decode, encode, is_storable};
use ubdb::table::{Column, ColumnData, ColumnType, Table};

fn definition() -> Table {
    Table::new(
        String::from("t"),
        Column::new(ColumnType::Int, String::from("k")),
        vec![
            Column::new(ColumnType::Varchar(5), String::from("s")),
            Column::new(ColumnType::Int, String::from("n")),
        ],
    )
}

fn head() -> Vec<u8> {
    definition().as_bytes()
}

#[test]
fn cells_are_filled_with_zero_bytes_on_the_left() {
    let data = vec![
        ColumnData::from_int(258),
        ColumnData::from_string(String::from("bob")),
        ColumnData::from_string(String::from("42")),
    ];
    assert!(is_storable(&definition(), &data));
    let mut expected = head();
    expected.extend_from_slice(&[0, 0, 1, 2]);
    expected.extend_from_slice(&[0, 0, 0x62, 0x6f, 0x62]);
    expected.extend_from_slice(&[0, 0, 0x34, 0x32]);
    assert_eq!(encode(&definition(), &data), expected);
}

#[test]
fn fewer_cells_than_columns_can_be_written() {
    assert!(is_storable(&definition(), &vec![]));
    assert_eq!(encode(&definition(), &vec![]), head());
    let key_only = vec![ColumnData { value: vec![7] }];
    assert!(is_storable(&definition(), &key_only));
    let mut expected = head();
    expected.extend_from_slice(&[0, 0, 0, 7]);
    assert_eq!(encode(&definition(), &key_only), expected);
}

#[test]
fn what_cannot_be_written() {
    let too_many = vec![
        ColumnData::from_int(1),
        ColumnData::from_string(String::new()),
        ColumnData::from_int(2),
        ColumnData::from_int(3),
    ];
    assert!(!is_storable(&definition(), &too_many));
    let too_wide = vec![
        ColumnData::from_int(1),
        ColumnData::from_string(String::from("sixsix")),
    ];
    assert!(!is_storable(&definition(), &too_wide));
    let wide_key = vec![ColumnData::from_string(String::from("12345"))];
    assert!(!is_storable(&definition(), &wide_key));
}

#[test]
fn a_file_reads_as_definition_and_row() {
    let mut bytes = head();
    bytes.extend_from_slice(&[0xff, 0xff, 0xff, 0xfe]);
    bytes.extend_from_slice(b"alice");
    bytes.extend_from_slice(b"-042");
    assert_eq!(
        decode(&bytes),
        Ok((
            definition(),
            vec![
                ColumnData::from_int(-2),
                ColumnData::from_string(String::from("alice")),
                ColumnData::from_int(-42),
            ]
        ))
    );
}

#[test]
fn an_integer_that_is_not_the_key_is_read_as_decimal_text() {
    let mut bytes = head();
    bytes.extend_from_slice(&[0, 0, 0, 1]);
    bytes.extend_from_slice(b"alice");
    // the four bytes of the number 7 are no decimal text
    bytes.extend_from_slice(&[0, 0, 0, 7]);
    assert_eq!(decode(&bytes), Err(Error::MalformedEncoding));
    let len = bytes.len();
    bytes[len - 4..].copy_from_slice(b"+007");
    assert_eq!(
        decode(&bytes).map(|(_, data)| data),
        Ok(vec![
            ColumnData::from_int(1),
            ColumnData::from_string(String::from("alice")),
            ColumnData::from_int(7),
        ])
    );
}

#[test]
fn a_string_cell_keeps_the_zero_bytes_it_was_filled_with() {
    let data = vec![
        ColumnData::from_int(1),
        ColumnData::from_string(String::from("bob")),
        ColumnData::from_string(String::from("0012")),
    ];
    let bytes = encode(&definition(), &data);
    assert_eq!(
        decode(&bytes),
        Ok((
            definition(),
            vec![
                ColumnData::from_int(1),
                ColumnData::from_string(String::from("\u{0}\u{0}bob")),
                ColumnData::from_int(12),
            ]
        ))
    );
}

#[test]
fn files_that_do_not_read() {
    assert_eq!(decode(&[]), Err(Error::MalformedEncoding));
    assert_eq!(decode(&head()), Err(Error::MalformedEncoding));
    let mut bytes = head();
    bytes.extend_from_slice(&[0, 0, 0, 1]);
    bytes.extend_from_slice(b"ali");
    assert_eq!(decode(&bytes), Err(Error::MalformedEncoding));
    bytes.extend_from_slice(&[0xff, 0xff]);
    bytes.extend_from_slice(b"0001");
    assert_eq!(decode(&bytes), Err(Error::MalformedEncoding));
}
