use ubdb::query::ast::{DataType, QueryStatement, Value};
use ubdb::query::lex::{Lexer, Token};
use ubdb::query::parser::{ParseError, Parser};

fn parse(input: String) -> Result<Vec<QueryStatement>, ParseError> {
    let lexer = Lexer::new(input);
    Parser::new(lexer).parse()
}

#[test]
fn test_parse_select_single() {
    let statements = parse(String::from("SELECT foo FROM user;")).unwrap();
    assert_eq!(statements.len(), 1);
    assert_eq!(
        statements[0],
        QueryStatement::Select(String::from("user"), false, vec!["foo".to_string(),], None)
    );
}

#[test]
fn test_parse_select_multi() {
    let statements = parse(String::from("SELECT foo, bar FROM user;")).unwrap();
    assert_eq!(statements.len(), 1);
    assert_eq!(
        statements[0],
        QueryStatement::Select(
            String::from("user"),
            false,
            vec!["foo".to_string(), "bar".to_string()],
            None
        )
    );
}

#[test]
fn test_parse_select_where() {
    let statements = parse(String::from("SELECT foo, bar FROM users WHERE id = 1;")).unwrap();
    assert_eq!(statements.len(), 1);
    assert_eq!(
        statements[0],
        QueryStatement::Select(
            String::from("users"),
            false,
            vec!["foo".to_string(), "bar".to_string()],
            Some(("id".to_string(), Value::Int(1)))
        )
    );
}

#[test]
fn test_parse_select_all() {
    {
        let statements = parse(String::from("SELECT * FROM user;")).unwrap();
        assert_eq!(statements.len(), 1);
        assert_eq!(
            statements[0],
            QueryStatement::Select(String::from("user"), true, vec![], None)
        );
    }
    {
        let statements = parse(String::from("SELECT *, foo FROM user;")).unwrap();
        assert_eq!(statements.len(), 1);
        assert_eq!(
            statements[0],
            QueryStatement::Select(String::from("user"), true, vec!["foo".to_string()], None)
        );
    }
    {
        let statements = parse(String::from("SELECT foo, * FROM user;")).unwrap();
        assert_eq!(statements.len(), 1);
        assert_eq!(
            statements[0],
            QueryStatement::Select(String::from("user"), true, vec!["foo".to_string()], None)
        );
    }
}

#[test]
fn test_parse_set_single() {
    let statements =
        parse(String::from("UPDATE user SET name = 'mike' WHERE id = 1;")).unwrap();
    assert_eq!(statements.len(), 1);
    assert_eq!(
        statements[0],
        QueryStatement::Update(
            String::from("user"),
            vec![("name".to_string(), Value::VarChar("mike".to_string()))],
            ("id".to_string(), Value::Int(1))
        )
    );
}

#[test]
fn test_parse_set_multi() {
    let statements = parse(String::from(
        "UPDATE user SET foo = 1, bar = 999 WHERE name = 'mike';",
    ))
    .unwrap();
    assert_eq!(statements.len(), 1);
    assert_eq!(
        statements[0],
        QueryStatement::Update(
            String::from("user"),
            vec![
                ("foo".to_string(), Value::Int(1)),
                ("bar".to_string(), Value::Int(999))
            ],
            ("name".to_string(), Value::VarChar("mike".to_string()))
        )
    );
}

#[test]
fn test_parse_error() {
    {
        let err = parse(String::from("SELECT;")).unwrap_err();
        assert_eq!(err, ParseError::UnexpectedToken(Token::SemiColon));
    }
    {
        let err = parse(String::from("SELECT 1;")).unwrap_err();
        assert_eq!(err, ParseError::UnexpectedToken(Token::Integer(1)));
    }
}

#[test]
fn test_parse_create_table() {
    let statements = parse(String::from(
        "CREATE TABLE users (id INT, name VARCHAR(255));",
    ))
    .unwrap();
    assert_eq!(statements.len(), 1);
    assert_eq!(
        statements[0],
        QueryStatement::CreateTable(
            "users".to_string(),
            vec![
                ("id".to_string(), DataType::Int),
                ("name".to_string(), DataType::VarChar(255)),
            ]
        )
    );
}

#[test]
fn several_statements_in_one_text() {
    let statements = parse(String::from(
        "create table t (a int); select * from t where a = 'x'; update t set a = 2 where a = 1; exit;",
    ))
    .unwrap();
    assert_eq!(
        statements,
        vec![
            QueryStatement::CreateTable("t".to_string(), vec![("a".to_string(), DataType::Int)]),
            QueryStatement::Select(
                "t".to_string(),
                true,
                vec![],
                Some(("a".to_string(), Value::VarChar("x".to_string())))
            ),
            QueryStatement::Update(
                "t".to_string(),
                vec![("a".to_string(), Value::Int(2))],
                ("a".to_string(), Value::Int(1))
            ),
            QueryStatement::Exit,
        ]
    );
}

#[test]
fn empty_text_has_no_statement() {
    assert_eq!(parse(String::new()), Ok(vec![]));
    assert_eq!(parse(String::from("   \n")), Ok(vec![]));
}

#[test]
fn the_token_behind_a_statement_is_passed_over() {
    assert_eq!(
        parse(String::from("exit exit")),
        Ok(vec![QueryStatement::Exit])
    );
    assert_eq!(
        parse(String::from("exit, exit")),
        Ok(vec![QueryStatement::Exit, QueryStatement::Exit])
    );
    assert_eq!(
        parse(String::from("select a from t")),
        Ok(vec![QueryStatement::Select(
            "t".to_string(),
            false,
            vec!["a".to_string()],
            None
        )])
    );
}

#[test]
fn unexpected_tokens_are_named() {
    let unexpected = |input: &str| parse(String::from(input)).unwrap_err();
    assert_eq!(
        unexpected("foo"),
        ParseError::UnexpectedToken(Token::Ident("foo".to_string()))
    );
    assert_eq!(unexpected(";"), ParseError::UnexpectedToken(Token::SemiColon));
    assert_eq!(
        unexpected("select a b"),
        ParseError::UnexpectedToken(Token::Ident("b".to_string()))
    );
    assert_eq!(unexpected("select a,"), ParseError::UnexpectedToken(Token::Eof));
    assert_eq!(
        unexpected("select a from 1"),
        ParseError::UnexpectedToken(Token::Integer(1))
    );
    assert_eq!(
        unexpected("select a from t where b 1"),
        ParseError::UnexpectedToken(Token::Integer(1))
    );
    assert_eq!(
        unexpected("select a from t where b = c"),
        ParseError::UnexpectedToken(Token::Ident("c".to_string()))
    );
    assert_eq!(
        unexpected("update t a = 1"),
        ParseError::UnexpectedToken(Token::Ident("a".to_string()))
    );
    assert_eq!(
        unexpected("update t set a = 1;"),
        ParseError::UnexpectedToken(Token::SemiColon)
    );
    assert_eq!(
        unexpected("update t set a = 1, where a = 1"),
        ParseError::UnexpectedToken(Token::Where)
    );
    assert_eq!(
        unexpected("create t"),
        ParseError::UnexpectedToken(Token::Ident("t".to_string()))
    );
    assert_eq!(
        unexpected("create table t a int"),
        ParseError::UnexpectedToken(Token::Ident("a".to_string()))
    );
    assert_eq!(
        unexpected("create table t (a int"),
        ParseError::UnexpectedToken(Token::Eof)
    );
    assert_eq!(
        unexpected("create table t (a varchar)"),
        ParseError::UnexpectedToken(Token::RParen)
    );
    assert_eq!(
        unexpected("create table t (a varchar(b))"),
        ParseError::UnexpectedToken(Token::Ident("b".to_string()))
    );
    assert_eq!(
        unexpected("create table t (a varchar(3, b int)"),
        ParseError::UnexpectedToken(Token::Comma)
    );
    assert_eq!(
        unexpected("create table t (a text)"),
        ParseError::UnexpectedToken(Token::Ident("text".to_string()))
    );
    assert_eq!(
        unexpected("select a from t where b = 4000000000"),
        ParseError::UnexpectedToken(Token::Illegal)
    );
    assert_eq!(
        unexpected("select a from t where b = 'open"),
        ParseError::UnexpectedToken(Token::Illegal)
    );
    assert_eq!(
        unexpected("select a from t where b = #"),
        ParseError::UnexpectedToken(Token::Ident(String::new()))
    );
}

#[test]
fn capacity_is_the_low_16_bits() {
    assert_eq!(
        parse(String::from("create table t (a varchar(65536), b varchar(70000))")),
        Ok(vec![QueryStatement::CreateTable(
            "t".to_string(),
            vec![
                ("a".to_string(), DataType::VarChar(0)),
                ("b".to_string(), DataType::VarChar(4464)),
            ]
        )])
    );
}

#[test]
fn a_parser_goes_on_where_the_lexer_stands() {
    let mut lexer = Lexer::new(String::from("select exit; exit"));
    assert_eq!(lexer.next(), Token::Select);
    let mut parser = Parser::new(lexer);
    assert_eq!(
        parser.parse(),
        Ok(vec![QueryStatement::Exit, QueryStatement::Exit])
    );
    assert_eq!(parser.parse(), Ok(vec![]));
}
