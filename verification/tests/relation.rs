use ubdb::engine::relation::{to_cell, value_equals, Selection};
use ubdb::engine::render::{int_to_string, join, show};
use ubdb::engine::table::{DataType, Record, Table, Value};
use ubdb::error::Error;
use ubdb::query::ast;

fn table() -> Table {
    Table::new(
        String::from("t"),
        vec![
            (String::from("a"), DataType::Int),
            (String::from("b"), DataType::VarChar(4)),
            (String::from("a"), DataType::VarChar(4)),
        ],
        vec![
            Record::new(vec![
                Value::Int(1),
                Value::VarChar(String::from("x")),
                Value::VarChar(String::from("p")),
            ]),
            Record::new(vec![
                Value::Int(2),
                Value::VarChar(String::from("y")),
                Value::VarChar(String::from("q")),
            ]),
        ],
    )
}

#[test]
fn a_name_refers_to_the_first_column_of_that_name() {
    let table = table();
    assert_eq!(table.column_index(&String::from("a")), Some(0));
    assert_eq!(table.column_index(&String::from("b")), Some(1));
    assert_eq!(table.column_index(&String::from("c")), None);
    assert_eq!(table.column_index(&String::new()), None);
}

#[test]
fn a_name_asked_for_selects_every_column_of_that_name() {
    let selection = table()
        .select(false, &vec![String::from("a")], &None)
        .unwrap();
    assert_eq!(
        selection,
        Selection {
            columns: vec![String::from("a"), String::from("a")],
            rows: vec![
                Record::new(vec![Value::Int(1), Value::VarChar(String::from("p"))]),
                Record::new(vec![Value::Int(2), Value::VarChar(String::from("q"))]),
            ],
        }
    );
}

#[test]
fn select_of_no_column_gives_rows_of_no_cell() {
    let selection = table().select(false, &vec![], &None).unwrap();
    assert_eq!(
        selection,
        Selection {
            columns: vec![],
            rows: vec![Record::new(vec![]), Record::new(vec![])],
        }
    );
}

#[test]
fn update_on_a_table_fails_before_it_changes_anything() {
    let mut t = table();
    let r = t.update(
        &vec![
            (String::from("b"), ast::Value::VarChar(String::from("new"))),
            (String::from("zz"), ast::Value::Int(1)),
        ],
        &(String::from("a"), ast::Value::Int(1)),
    );
    assert_eq!(r, Err(Error::NotFound));
    assert_eq!(t, table());
    let r = t.update(
        &vec![(String::from("b"), ast::Value::VarChar(String::from("new")))],
        &(String::from("a"), ast::Value::Int(1)),
    );
    assert_eq!(r, Ok(()));
    assert_eq!(t.records[0].values[1], Value::VarChar(String::from("new")));
    assert_eq!(t.records[1], table().records[1]);
    assert!(t.is_well_formed());
}

#[test]
fn rows_too_short_for_the_equality_do_not_meet_it() {
    let mut t = table();
    t.insert(Record::new(vec![]));
    let selection = t
        .select(
            true,
            &vec![],
            &Some((String::from("b"), ast::Value::VarChar(String::from("x")))),
        )
        .unwrap();
    assert_eq!(selection.rows, vec![table().records[0].clone()]);
}

#[test]
fn cells_and_values() {
    assert!(value_equals(&Value::Int(3), &ast::Value::Int(3)));
    assert!(!value_equals(&Value::Int(3), &ast::Value::Int(4)));
    assert!(!value_equals(
        &Value::Int(3),
        &ast::Value::VarChar(String::from("3"))
    ));
    assert!(value_equals(
        &Value::VarChar(String::from("3")),
        &ast::Value::VarChar(String::from("3"))
    ));
    assert!(!value_equals(
        &Value::VarChar(String::from("3")),
        &ast::Value::Int(3)
    ));
    assert_eq!(to_cell(&ast::Value::Int(-4)), Value::Int(-4));
    assert_eq!(
        to_cell(&ast::Value::VarChar(String::from("s"))),
        Value::VarChar(String::from("s"))
    );
}

#[test]
fn integers_in_decimal() {
    assert_eq!(int_to_string(0), "0");
    assert_eq!(int_to_string(7), "7");
    assert_eq!(int_to_string(10), "10");
    assert_eq!(int_to_string(-1), "-1");
    assert_eq!(int_to_string(1234567890), "1234567890");
    assert_eq!(int_to_string(i32::MAX), "2147483647");
    assert_eq!(int_to_string(i32::MIN), "-2147483648");
    assert_eq!(show(&Value::Int(-305)), "-305");
    assert_eq!(show(&Value::VarChar(String::from("-305 "))), "-305 ");
}

#[test]
fn joined_with_a_separator_between() {
    assert_eq!(join(&vec![], ", "), "");
    assert_eq!(join(&vec![String::from("a")], ", "), "a");
    assert_eq!(
        join(&vec![String::from("a"), String::new(), String::from("c")], ", "),
        "a, , c"
    );
    assert_eq!(
        Record::new(vec![Value::Int(1), Value::VarChar(String::from("alice"))]).line(),
        "1, alice"
    );
    assert_eq!(Record::new(vec![]).line(), "");
}
