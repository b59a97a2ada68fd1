use ubdb::engine::storage::Storage;
use ubdb::engine::table::{DataType, Record, Table, Value};
use ubdb::engine::{Executer, Outcome};
use ubdb::query::lex::Lexer;
use ubdb::query::parser::Parser;

/// Runs a text against an executer and files that are kept in memory, and
/// gives back the lines that were printed.
fn run(executer: &mut Executer, files: &mut Vec<(String, Vec<u8>)>, text: &str) -> (Vec<String>, bool) {
    let statements = Parser::new(Lexer::new(String::from(text))).parse().unwrap();
    let mut printed = Vec::new();
    for stmt in statements {
        let stored = match executer.wants(&stmt) {
            Some(path) => files
                .iter()
                .find(|(p, _)| *p == path)
                .map(|(_, bytes)| bytes.clone())
                .unwrap_or_default(),
            None => Vec::new(),
        };
        let outcome = executer.step(stmt, &stored);
        printed.extend(outcome.lines());
        if !outcome.proceeds() {
            return (printed, false);
        }
        match outcome {
            Outcome::Write { path, bytes } => {
                files.retain(|(p, _)| *p != path);
                files.push((path, bytes));
            }
            Outcome::Failed(e) => printed.push(format!("{:?}", e)),
            _ => {}
        }
    }
    (printed, true)
}

fn users() -> Table {
    Table::new(
        String::from("user"),
        vec![
            (String::from("id"), DataType::Int),
            (String::from("name"), DataType::VarChar(10)),
        ],
        vec![
            Record::new(vec![Value::Int(1), Value::VarChar(String::from("alice"))]),
            Record::new(vec![Value::Int(2), Value::VarChar(String::from("bob"))]),
        ],
    )
}

#[test]
fn create_select_update_exit() {
    let mut executer = Executer::new(String::from("db"));
    let mut files = Vec::new();
    let (printed, go_on) = run(
        &mut executer,
        &mut files,
        "CREATE TABLE user (id INT, name VARCHAR(10)); SELECT * FROM user;",
    );
    assert_eq!(printed, vec!["Empty set"]);
    assert!(go_on);
    assert_eq!(files.len(), 1);
    assert_eq!(files[0].0, "db/user.ubdb");
    assert_eq!(
        Storage::bytes_to_table(&files[0].1).unwrap(),
        Table::new(
            String::from("user"),
            vec![
                (String::from("id"), DataType::Int),
                (String::from("name"), DataType::VarChar(10)),
            ],
            vec![],
        )
    );
}

#[test]
fn a_session_sees_the_files_and_its_own_writes() {
    let mut executer = Executer::new(String::from("db"));
    let mut files = vec![(
        String::from("db/user.ubdb"),
        Storage::table_to_bytes(&users()),
    )];
    let (printed, go_on) = run(
        &mut executer,
        &mut files,
        "SELECT * FROM user WHERE id = 1; select name from user; \
         UPDATE user SET name = 'mike' WHERE id = 2; select name, id from user where name = 'mike'; \
         select * from nobody; update user set age = 3 where id = 1; \
         exit; select * from user;",
    );
    assert_eq!(
        printed,
        vec![
            "id, name",
            "1, alice",
            "name",
            "alice",
            "bob",
            "id, name",
            "2, mike",
            "NotFound",
            "NotFound",
            "bye!",
        ]
    );
    assert!(!go_on);
    let mut after = users();
    after.records[1].values[1] = Value::VarChar(String::from("mike"));
    assert_eq!(files.len(), 1);
    assert_eq!(Storage::bytes_to_table(&files[0].1), Ok(after));
}

#[test]
fn a_failed_statement_does_not_stop_the_rest() {
    let mut executer = Executer::new(String::from("db"));
    let mut files = vec![(String::from("db/broken.ubdb"), vec![1, 2, 3])];
    let (printed, go_on) = run(
        &mut executer,
        &mut files,
        "select * from broken; create table t (a int); select a from t; select b from t;",
    );
    assert_eq!(
        printed,
        vec!["MalformedEncoding", "Empty set", "NotFound"]
    );
    assert!(go_on);
    assert_eq!(files.len(), 2);
    assert_eq!(files[0], (String::from("db/broken.ubdb"), vec![1, 2, 3]));
}
