use ubdb::engine::relation::Selection;
use ubdb::engine::storage::Storage;
use ubdb::engine::table::{DataType, Record, Table, Value};
use ubdb::engine::{Executer, Outcome};
use ubdb::error::Error;
use ubdb::query::ast;
use ubdb::query::ast::QueryStatement;

fn user_table() -> Table {
    Table::new(
        String::from("user"),
        vec![
            (String::from("id"), DataType::Int),
            (String::from("name"), DataType::VarChar(10)),
        ],
        vec![
            Record::new(vec![Value::Int(1), Value::VarChar(String::from("alice"))]),
            Record::new(vec![Value::Int(2), Value::VarChar(String::from("bob"))]),
        ],
    )
}

fn abc_table() -> Table {
    Table::new(
        String::from("t"),
        vec![
            (String::from("a"), DataType::Int),
            (String::from("b"), DataType::VarChar(4)),
            (String::from("c"), DataType::Int),
        ],
        vec![
            Record::new(vec![Value::Int(1), Value::VarChar(String::from("x")), Value::Int(10)]),
            Record::new(vec![Value::Int(2), Value::VarChar(String::from("y")), Value::Int(20)]),
            Record::new(vec![Value::Int(1), Value::VarChar(String::from("z")), Value::Int(30)]),
        ],
    )
}

fn create_user() -> QueryStatement {
    QueryStatement::CreateTable(
        String::from("user"),
        vec![
            (String::from("id"), ast::DataType::Int),
            (String::from("name"), ast::DataType::VarChar(10)),
        ],
    )
}

fn select(table: &str, is_all: bool, columns: &[&str], cond: Option<(&str, ast::Value)>) -> QueryStatement {
    QueryStatement::Select(
        String::from(table),
        is_all,
        columns.iter().map(|c| c.to_string()).collect(),
        cond.map(|(c, v)| (c.to_string(), v)),
    )
}

fn update(table: &str, set: Vec<(&str, ast::Value)>, cond: (&str, ast::Value)) -> QueryStatement {
    QueryStatement::Update(
        String::from(table),
        set.into_iter().map(|(c, v)| (c.to_string(), v)).collect(),
        (cond.0.to_string(), cond.1),
    )
}

fn text(s: &str) -> ast::Value {
    ast::Value::VarChar(String::from(s))
}

fn rows(columns: &[&str], rows: Vec<Vec<Value>>) -> Outcome {
    Outcome::Rows(Selection {
        columns: columns.iter().map(|c| c.to_string()).collect(),
        rows: rows.into_iter().map(Record::new).collect(),
    })
}

fn string(s: &str) -> Value {
    Value::VarChar(String::from(s))
}

#[test]
fn create_then_select_all_is_empty() {
    let mut executer = Executer::new(String::from("db"));
    assert_eq!(executer.wants(&create_user()), None);
    let empty = Table::new(
        String::from("user"),
        vec![
            (String::from("id"), DataType::Int),
            (String::from("name"), DataType::VarChar(10)),
        ],
        vec![],
    );
    assert_eq!(
        executer.step(create_user(), &[]),
        Outcome::Write {
            path: String::from("db/user.ubdb"),
            bytes: Storage::table_to_bytes(&empty),
        }
    );
    let all = || select("user", true, &[], None);
    assert_eq!(executer.wants(&all()), None);
    assert_eq!(executer.step(all(), &[]), Outcome::Empty);
    assert_eq!(executer.step(all(), &[]).lines(), vec!["Empty set"]);
}

#[test]
fn select_from_loaded_rows() {
    let mut executer = Executer::new(String::from("db"));
    let stored = Storage::table_to_bytes(&user_table());

    let by_id = select("user", true, &[], Some(("id", ast::Value::Int(1))));
    assert_eq!(executer.wants(&by_id), Some(String::from("db/user.ubdb")));
    assert_eq!(
        executer.step(by_id, &stored),
        rows(&["id", "name"], vec![vec![Value::Int(1), string("alice")]])
    );

    let names = || select("user", false, &["name"], None);
    assert_eq!(
        executer.step(names(), &stored),
        rows(&["name"], vec![vec![string("alice")], vec![string("bob")]])
    );
    // a table that was only read is not kept
    assert_eq!(executer.wants(&names()), Some(String::from("db/user.ubdb")));
    assert_eq!(
        executer.step(names(), &[]),
        Outcome::Failed(Error::NotFound)
    );
}

#[test]
fn select_keeps_exactly_the_rows_that_meet_the_equality() {
    let mut executer = Executer::new(String::from("db"));
    let stored = Storage::table_to_bytes(&abc_table());
    assert_eq!(
        executer.step(select("t", true, &[], Some(("a", ast::Value::Int(1)))), &stored),
        rows(
            &["a", "b", "c"],
            vec![
                vec![Value::Int(1), string("x"), Value::Int(10)],
                vec![Value::Int(1), string("z"), Value::Int(30)],
            ]
        )
    );
    assert_eq!(
        executer.step(select("t", true, &[], Some(("b", text("y")))), &stored),
        rows(&["a", "b", "c"], vec![vec![Value::Int(2), string("y"), Value::Int(20)]])
    );
    // no row meets it: empty, not an error
    assert_eq!(
        executer.step(select("t", true, &[], Some(("a", ast::Value::Int(3)))), &stored),
        Outcome::Empty
    );
    // an integer never equals a string, nor a string an integer
    assert_eq!(
        executer.step(select("t", true, &[], Some(("a", text("1")))), &stored),
        Outcome::Empty
    );
    assert_eq!(
        executer.step(select("t", true, &[], Some(("b", ast::Value::Int(0)))), &stored),
        Outcome::Empty
    );
}

#[test]
fn projection_follows_the_schema_not_the_request() {
    let mut executer = Executer::new(String::from("db"));
    let stored = Storage::table_to_bytes(&abc_table());
    let expected = rows(
        &["a", "b"],
        vec![
            vec![Value::Int(1), string("x")],
            vec![Value::Int(2), string("y")],
            vec![Value::Int(1), string("z")],
        ],
    );
    assert_eq!(executer.step(select("t", false, &["b", "a"], None), &stored), expected);
    assert_eq!(executer.step(select("t", false, &["a", "b"], None), &stored), expected);
    assert_eq!(
        executer.step(select("t", false, &["b", "a", "b"], None), &stored),
        expected
    );
    assert_eq!(
        executer.step(select("t", false, &["c"], Some(("a", ast::Value::Int(1)))), &stored),
        rows(&["c"], vec![vec![Value::Int(10)], vec![Value::Int(30)]])
    );
    // all columns: a name beside the asterisk selects nothing less
    assert_eq!(
        executer.step(select("t", true, &["c"], Some(("a", ast::Value::Int(2)))), &stored),
        rows(&["a", "b", "c"], vec![vec![Value::Int(2), string("y"), Value::Int(20)]])
    );
}

#[test]
fn missing_names_are_not_found() {
    let mut executer = Executer::new(String::from("db"));
    let stored = Storage::table_to_bytes(&abc_table());
    let not_found = Outcome::Failed(Error::NotFound);
    // no such table: not in the buffer, no file
    assert_eq!(executer.step(select("t", true, &[], None), &[]), not_found);
    assert_eq!(
        executer.step(update("t", vec![("a", ast::Value::Int(1))], ("a", ast::Value::Int(1))), &[]),
        not_found
    );
    // no such column
    assert_eq!(
        executer.step(select("t", true, &[], Some(("d", ast::Value::Int(1)))), &stored),
        not_found
    );
    assert_eq!(
        executer.step(select("t", false, &["a", "d"], None), &stored),
        not_found
    );
    assert_eq!(
        executer.step(select("t", true, &["d"], None), &stored),
        not_found
    );
    assert_eq!(
        executer.step(update("t", vec![("a", ast::Value::Int(1))], ("d", ast::Value::Int(1))), &stored),
        not_found
    );
    assert_eq!(
        executer.step(update("t", vec![("d", ast::Value::Int(1))], ("a", ast::Value::Int(7))), &stored),
        not_found
    );
    // nothing was kept of the failed updates
    assert_eq!(
        executer.wants(&select("t", true, &[], None)),
        Some(String::from("db/t.ubdb"))
    );
}

#[test]
fn malformed_file_is_reported() {
    let mut executer = Executer::new(String::from("db"));
    let mut stored = Storage::table_to_bytes(&abc_table());
    stored.pop();
    assert_eq!(
        executer.step(select("t", true, &[], None), &stored),
        Outcome::Failed(Error::MalformedEncoding)
    );
    assert_eq!(
        executer.step(update("t", vec![("a", ast::Value::Int(1))], ("a", ast::Value::Int(1))), &stored),
        Outcome::Failed(Error::MalformedEncoding)
    );
}

#[test]
fn update_changes_the_rows_that_meet_the_equality_and_no_other() {
    let mut executer = Executer::new(String::from("db"));
    let stored = Storage::table_to_bytes(&abc_table());
    let stmt = update(
        "t",
        vec![("c", ast::Value::Int(0)), ("b", text("new"))],
        ("a", ast::Value::Int(1)),
    );
    let after = Table::new(
        String::from("t"),
        vec![
            (String::from("a"), DataType::Int),
            (String::from("b"), DataType::VarChar(4)),
            (String::from("c"), DataType::Int),
        ],
        vec![
            Record::new(vec![Value::Int(1), string("new"), Value::Int(0)]),
            Record::new(vec![Value::Int(2), string("y"), Value::Int(20)]),
            Record::new(vec![Value::Int(1), string("new"), Value::Int(0)]),
        ],
    );
    assert_eq!(
        executer.step(stmt, &stored),
        Outcome::Write {
            path: String::from("db/t.ubdb"),
            bytes: Storage::table_to_bytes(&after),
        }
    );
    // the table is in the buffer now: the file is not asked for, and not looked at
    let all = select("t", true, &[], None);
    assert_eq!(executer.wants(&all), None);
    assert_eq!(
        executer.step(all, &[1, 2, 3]),
        rows(
            &["a", "b", "c"],
            vec![
                vec![Value::Int(1), string("new"), Value::Int(0)],
                vec![Value::Int(2), string("y"), Value::Int(20)],
                vec![Value::Int(1), string("new"), Value::Int(0)],
            ]
        )
    );
    // a second update works on the buffer
    let again = update("t", vec![("a", ast::Value::Int(5))], ("b", text("y")));
    let last = Table::new(
        String::from("t"),
        vec![
            (String::from("a"), DataType::Int),
            (String::from("b"), DataType::VarChar(4)),
            (String::from("c"), DataType::Int),
        ],
        vec![
            Record::new(vec![Value::Int(1), string("new"), Value::Int(0)]),
            Record::new(vec![Value::Int(5), string("y"), Value::Int(20)]),
            Record::new(vec![Value::Int(1), string("new"), Value::Int(0)]),
        ],
    );
    assert_eq!(
        executer.step(again, &[]),
        Outcome::Write {
            path: String::from("db/t.ubdb"),
            bytes: Storage::table_to_bytes(&last),
        }
    );
}

#[test]
fn an_assignment_of_the_wrong_type_is_passed_over() {
    let mut executer = Executer::new(String::from("db"));
    let stored = Storage::table_to_bytes(&abc_table());
    let stmt = update(
        "t",
        vec![
            ("a", text("not a number")),
            ("b", ast::Value::Int(9)),
            ("c", ast::Value::Int(7)),
            ("c", ast::Value::Int(8)),
            ("c", text("8")),
        ],
        ("b", text("y")),
    );
    let after = Table::new(
        String::from("t"),
        vec![
            (String::from("a"), DataType::Int),
            (String::from("b"), DataType::VarChar(4)),
            (String::from("c"), DataType::Int),
        ],
        vec![
            Record::new(vec![Value::Int(1), string("x"), Value::Int(10)]),
            Record::new(vec![Value::Int(2), string("y"), Value::Int(8)]),
            Record::new(vec![Value::Int(1), string("z"), Value::Int(30)]),
        ],
    );
    assert_eq!(
        executer.step(stmt, &stored),
        Outcome::Write {
            path: String::from("db/t.ubdb"),
            bytes: Storage::table_to_bytes(&after),
        }
    );
}

#[test]
fn update_that_meets_no_row_writes_the_table_as_it_is() {
    let mut executer = Executer::new(String::from("db"));
    let stored = Storage::table_to_bytes(&abc_table());
    let stmt = update("t", vec![("c", ast::Value::Int(0))], ("a", ast::Value::Int(99)));
    assert_eq!(
        executer.step(stmt, &stored),
        Outcome::Write {
            path: String::from("db/t.ubdb"),
            bytes: stored.clone(),
        }
    );
}

#[test]
fn create_again_replaces_the_table_in_the_buffer() {
    let mut executer = Executer::new(String::from("db"));
    executer.step(create_user(), &[]);
    let other = QueryStatement::CreateTable(
        String::from("user"),
        vec![(String::from("only"), ast::DataType::Int)],
    );
    executer.step(other, &[]);
    assert_eq!(
        executer.step(select("user", false, &["id"], None), &[]),
        Outcome::Failed(Error::NotFound)
    );
    assert_eq!(
        executer.step(select("user", false, &["only"], None), &[]),
        Outcome::Empty
    );
}

#[test]
fn exit_stops_and_changes_nothing() {
    let mut executer = Executer::new(String::from("db"));
    assert_eq!(executer.wants(&QueryStatement::Exit), None);
    assert_eq!(executer.step(QueryStatement::Exit, &[]), Outcome::Exit);
    assert_eq!(Outcome::Exit.lines(), vec!["bye!"]);
    assert!(!Outcome::Exit.proceeds());
    assert!(Outcome::Empty.proceeds());
    assert!(Outcome::Failed(Error::NotFound).proceeds());
    assert!(Outcome::Write { path: String::new(), bytes: vec![] }.proceeds());
    assert_eq!(
        executer.wants(&select("user", true, &[], None)),
        Some(String::from("db/user.ubdb"))
    );
}

#[test]
fn rows_are_shown_in_lines() {
    let mut executer = Executer::new(String::from("db"));
    let table = Table::new(
        String::from("n"),
        vec![
            (String::from("low"), DataType::Int),
            (String::from("text"), DataType::VarChar(8)),
            (String::from("high"), DataType::Int),
        ],
        vec![
            Record::new(vec![Value::Int(i32::MIN), string("a, b"), Value::Int(i32::MAX)]),
            Record::new(vec![Value::Int(-10), string(""), Value::Int(0)]),
            Record::new(vec![Value::Int(100), string("x"), Value::Int(9)]),
        ],
    );
    let stored = Storage::table_to_bytes(&table);
    assert_eq!(
        executer.step(select("n", true, &[], None), &stored).lines(),
        vec![
            "low, text, high",
            "-2147483648, a, b, 2147483647",
            "-10, , 0",
            "100, x, 9",
        ]
    );
    assert_eq!(
        executer.step(select("n", false, &["high"], None), &stored).lines(),
        vec!["high", "2147483647", "0", "9"]
    );
    assert_eq!(Outcome::Failed(Error::NotFound).lines(), Vec::<String>::new());
    assert_eq!(
        Outcome::Write { path: String::new(), bytes: vec![] }.lines(),
        Vec::<String>::new()
    );
}
