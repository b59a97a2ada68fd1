use ubdb::single::{initial, parse_query, respond, Answer, Query};

#[test]
fn lines_and_what_they_ask() {
    assert_eq!(parse_query("get"), Some(Query::Get));
    assert_eq!(parse_query("get\n"), Some(Query::Get));
    assert_eq!(parse_query("  exit \t\r\n"), Some(Query::Exit));
    assert_eq!(parse_query("set 5"), Some(Query::Keep(5)));
    assert_eq!(parse_query("set 5\n"), Some(Query::Keep(5)));
    assert_eq!(parse_query("set -3"), Some(Query::Keep(-3)));
    assert_eq!(parse_query("set +3"), Some(Query::Keep(3)));
    assert_eq!(parse_query("5"), Some(Query::Keep(5)));
    assert_eq!(parse_query("set set set 042"), Some(Query::Keep(42)));
    assert_eq!(
        parse_query("set -2147483648"),
        Some(Query::Keep(i32::MIN))
    );
}

#[test]
fn lines_that_ask_nothing() {
    assert_eq!(parse_query(""), None);
    assert_eq!(parse_query("   \n"), None);
    assert_eq!(parse_query("set"), None);
    assert_eq!(parse_query("set "), None);
    assert_eq!(parse_query("set  5"), None);
    assert_eq!(parse_query("set x"), None);
    assert_eq!(parse_query("set 5 6"), None);
    assert_eq!(parse_query("GET"), None);
    assert_eq!(parse_query("get it"), None);
    assert_eq!(parse_query("set 2147483648"), None);
    assert_eq!(parse_query("set -"), None);
    assert_eq!(parse_query("sett 5"), None);
}

#[test]
fn the_number_kept_at_the_start() {
    assert_eq!(initial("0"), Some(0));
    assert_eq!(initial("-17"), Some(-17));
    assert_eq!(initial(""), None);
    assert_eq!(initial("12\n"), None);
    assert_eq!(initial(" 12"), None);
    assert_eq!(initial("twelve"), None);
}

#[test]
fn answers() {
    assert_eq!(
        respond(None, Query::Keep(-40)),
        (Some(-40), Answer::Write(String::from("-40")))
    );
    assert_eq!(
        respond(Some(1), Query::Keep(2)),
        (Some(2), Answer::Write(String::from("2")))
    );
    assert_eq!(
        respond(Some(7), Query::Get),
        (Some(7), Answer::Print(String::from("7")))
    );
    assert_eq!(
        respond(None, Query::Get),
        (None, Answer::Print(String::from("empty")))
    );
    assert_eq!(
        respond(Some(7), Query::Exit),
        (Some(7), Answer::Quit(String::from("bye!")))
    );
}
