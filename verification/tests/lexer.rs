use ubdb::query::lex::{Lexer, Token};

#[test]
fn test_lexer() {
    let input = String::from("UPDATE user SET name = 'mike'; SELECT name FROM user; SELECT * FROM user; exit; CREATE TABLE user (id INT, name VARCHAR);");
    let mut lexer = Lexer::new(input);

    assert_eq!(lexer.next(), Token::Update);
    assert_eq!(lexer.next(), Token::Ident(String::from("user")));
    assert_eq!(lexer.next(), Token::SetKeyword);
    assert_eq!(lexer.next(), Token::Ident(String::from("name")));
    assert_eq!(lexer.next(), Token::Equal);
    assert_eq!(lexer.next(), Token::String(String::from("mike")));
    assert_eq!(lexer.next(), Token::SemiColon);

    assert_eq!(lexer.next(), Token::Select);
    assert_eq!(lexer.next(), Token::Ident(String::from("name")));
    assert_eq!(lexer.next(), Token::From);
    assert_eq!(lexer.next(), Token::Ident(String::from("user")));
    assert_eq!(lexer.next(), Token::SemiColon);

    assert_eq!(lexer.next(), Token::Select);
    assert_eq!(lexer.next(), Token::Asterisk);
    assert_eq!(lexer.next(), Token::From);
    assert_eq!(lexer.next(), Token::Ident(String::from("user")));
    assert_eq!(lexer.next(), Token::SemiColon);

    assert_eq!(lexer.next(), Token::Exit);
    assert_eq!(lexer.next(), Token::SemiColon);

    assert_eq!(lexer.next(), Token::Create);
    assert_eq!(lexer.next(), Token::Table);
    assert_eq!(lexer.next(), Token::Ident(String::from("user")));
    assert_eq!(lexer.next(), Token::LParen);
    assert_eq!(lexer.next(), Token::Ident(String::from("id")));
    assert_eq!(lexer.next(), Token::Int);
    assert_eq!(lexer.next(), Token::Comma);
    assert_eq!(lexer.next(), Token::Ident(String::from("name")));
    assert_eq!(lexer.next(), Token::VarChar);
    assert_eq!(lexer.next(), Token::RParen);
    assert_eq!(lexer.next(), Token::SemiColon);

    assert_eq!(lexer.next(), Token::Eof);
}

fn tokens(input: &str, count: usize) -> Vec<Token> {
    let mut lexer = Lexer::new(String::from(input));
    let mut out = Vec::new();
    for _ in 0..count {
        out.push(lexer.next());
    }
    out
}

#[test]
fn keywords_in_capitals_and_small_letters() {
    assert_eq!(
        tokens("select from where update set create table int varchar exit", 11),
        vec![
            Token::Select,
            Token::From,
            Token::Where,
            Token::Update,
            Token::SetKeyword,
            Token::Create,
            Token::Table,
            Token::Int,
            Token::VarChar,
            Token::Exit,
            Token::Eof,
        ]
    );
    assert_eq!(
        tokens("SELECT FROM WHERE UPDATE SET CREATE TABLE INT VARCHAR EXIT", 11),
        vec![
            Token::Select,
            Token::From,
            Token::Where,
            Token::Update,
            Token::SetKeyword,
            Token::Create,
            Token::Table,
            Token::Int,
            Token::VarChar,
            Token::Ident(String::from("EXIT")),
            Token::Eof,
        ]
    );
    assert_eq!(
        tokens("Select selects", 3),
        vec![
            Token::Ident(String::from("Select")),
            Token::Ident(String::from("selects")),
            Token::Eof,
        ]
    );
}

#[test]
fn end_of_text_is_eof_for_ever() {
    assert_eq!(tokens("", 3), vec![Token::Eof, Token::Eof, Token::Eof]);
    assert_eq!(
        tokens("  \t\n ", 2),
        vec![Token::Eof, Token::Eof]
    );
    assert_eq!(
        tokens("a", 4),
        vec![
            Token::Ident(String::from("a")),
            Token::Eof,
            Token::Eof,
            Token::Eof
        ]
    );
}

#[test]
fn numbers_and_words_end_where_they_end() {
    assert_eq!(
        tokens("foo1 12ab_c=3", 7),
        vec![
            Token::Ident(String::from("foo")),
            Token::Integer(1),
            Token::Integer(12),
            Token::Ident(String::from("ab_c")),
            Token::Equal,
            Token::Integer(3),
            Token::Eof,
        ]
    );
    assert_eq!(
        tokens("007 2147483647", 3),
        vec![Token::Integer(7), Token::Integer(2147483647), Token::Eof]
    );
}

#[test]
fn a_number_that_does_not_fit_is_illegal() {
    assert_eq!(
        tokens("2147483648,1", 4),
        vec![Token::Illegal, Token::Comma, Token::Integer(1), Token::Eof]
    );
    assert_eq!(
        tokens("99999999999999999999999999", 2),
        vec![Token::Illegal, Token::Eof]
    );
}

#[test]
fn strings_run_to_the_next_quote() {
    assert_eq!(
        tokens("'' 'a b' 'x=1;'y", 5),
        vec![
            Token::String(String::new()),
            Token::String(String::from("a b")),
            Token::String(String::from("x=1;")),
            Token::Ident(String::from("y")),
            Token::Eof,
        ]
    );
}

#[test]
fn a_string_without_its_quote_is_illegal() {
    assert_eq!(
        tokens("a 'bc", 4),
        vec![
            Token::Ident(String::from("a")),
            Token::Illegal,
            Token::Eof,
            Token::Eof
        ]
    );
    assert_eq!(tokens("'", 2), vec![Token::Illegal, Token::Eof]);
}

#[test]
fn a_character_of_no_token_is_the_empty_identifier_and_stays() {
    assert_eq!(
        tokens("a # b", 4),
        vec![
            Token::Ident(String::from("a")),
            Token::Ident(String::new()),
            Token::Ident(String::new()),
            Token::Ident(String::new()),
        ]
    );
}

#[test]
fn letters_beyond_ascii_are_letters() {
    assert_eq!(
        tokens("gr\u{fc}\u{df}e = '\u{4e16}\u{754c}'", 4),
        vec![
            Token::Ident(String::from("gr\u{fc}\u{df}e")),
            Token::Equal,
            Token::String(String::from("\u{4e16}\u{754c}")),
            Token::Eof,
        ]
    );
    assert_eq!(
        tokens("a\u{a0}\u{2003}b", 3),
        vec![
            Token::Ident(String::from("a")),
            Token::Ident(String::from("b")),
            Token::Eof
        ]
    );
}

#[test]
fn the_zero_character_is_eof_and_is_passed() {
    assert_eq!(
        tokens("a\u{0}b", 4),
        vec![
            Token::Ident(String::from("a")),
            Token::Eof,
            Token::Ident(String::from("b")),
            Token::Eof,
        ]
    );
}

#[test]
fn word_to_token_tells_keywords_from_identifiers() {
    assert_eq!(Lexer::word_to_token(&String::from("SELECT")), Token::Select);
    assert_eq!(Lexer::word_to_token(&String::from("where")), Token::Where);
    assert_eq!(
        Lexer::word_to_token(&String::from("selecT")),
        Token::Ident(String::from("selecT"))
    );
    assert_eq!(
        Lexer::word_to_token(&String::new()),
        Token::Ident(String::new())
    );
}
