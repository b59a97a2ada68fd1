//! The store of a single number: the lines that it is asked with, and what
//! it answers.

use crate::engine::render::{decimal, int_to_string};
use crate::query::lex::after_whitespace;
use crate::text::{parse_i32, parse_int, white_space};
use vstd::prelude::*;
use vstd::string::{StrSliceExecFns, StringExecFns};

verus! {

/// What the store is asked.
#[derive(Debug, Clone, Copy, PartialEq, Eq, Structural)]
pub enum Query {
    /// To keep this number.
    Keep(i32),
    /// To tell the number that it keeps.
    Get,
    /// To stop.
    Exit,
}

/// What the store answers: what the caller is to do.
#[derive(Debug, PartialEq)]
pub enum Answer {
    /// The file is to hold this text, in place of what it held.
    Write(String),
    /// This line is to be printed.
    Print(String),
    /// This line is to be printed, and no further line is to be read.
    Quit(String),
}

/// An answer as contracts see it.
pub enum AnswerView {
    Write(Seq<char>),
    Print(Seq<char>),
    Quit(Seq<char>),
}

impl View for Answer {
    type V = AnswerView;

    open spec fn view(&self) -> AnswerView {
        match self {
            Answer::Write(s) => AnswerView::Write(s@),
            Answer::Print(s) => AnswerView::Print(s@),
            Answer::Quit(s) => AnswerView::Quit(s@),
        }
    }
}

/// The position behind the last character before `i` that is no white
/// space.
pub open spec fn before_whitespace(s: Seq<char>, i: int) -> int
    decreases i,
{
    if 0 < i <= s.len() && white_space(s[i - 1]) {
        before_whitespace(s, i - 1)
    } else {
        i
    }
}

/// `s` without the white space at its start and at its end.
pub open spec fn trimmed(s: Seq<char>) -> Seq<char> {
    let start = after_whitespace(s, 0);
    if start >= s.len() {
        Seq::empty()
    } else {
        s.subrange(start, before_whitespace(s, s.len() as int))
    }
}

/// `s` without `prefix` at its start, as often as it stands there.
pub open spec fn without_prefix(s: Seq<char>, prefix: Seq<char>) -> Seq<char>
    decreases s.len(),
{
    if prefix.len() > 0 && prefix.is_prefix_of(s) {
        without_prefix(s.skip(prefix.len() as int), prefix)
    } else {
        s
    }
}

/// What a line asks. White space around it does not count. `get` and
/// `exit` ask for that. Anything else is to be a number in decimal, which
/// may stand behind `set` and a space, and asks to keep that number; a line
/// that is none of these asks nothing.
pub open spec fn query_of(line: Seq<char>) -> Option<Query> {
    let asked = trimmed(line);
    if asked == "get"@ {
        Some(Query::Get)
    } else if asked == "exit"@ {
        Some(Query::Exit)
    } else {
        match parse_int(without_prefix(asked, "set "@)) {
            Some(value) => Some(Query::Keep(value)),
            None => None,
        }
    }
}

/// The number that is kept after `query`, where `kept` was kept before.
pub open spec fn kept_after(kept: Option<i32>, query: Query) -> Option<i32> {
    match query {
        Query::Keep(value) => Some(value),
        _ => kept,
    }
}

/// The answer to `query`, where `kept` is kept: a number to be kept is to be
/// written in decimal; the number that is kept is printed in decimal, or
/// `empty` where none is; at the exit `bye!` is printed.
pub open spec fn answer_to(kept: Option<i32>, query: Query) -> AnswerView {
    match query {
        Query::Keep(value) => AnswerView::Write(decimal(value as int)),
        Query::Get => match kept {
            Some(value) => AnswerView::Print(decimal(value as int)),
            None => AnswerView::Print("empty"@),
        },
        Query::Exit => AnswerView::Quit("bye!"@),
    }
}

/// The ends of the part of `s` that is left without the white space around
/// it.
fn trim_bounds(s: &str) -> (r: (usize, usize))
    ensures
        r.0 <= r.1 <= s@.len(),
        trimmed(s@) == s@.subrange(r.0 as int, r.1 as int),
{
    let n = s.unicode_len();
    let mut start: usize = 0;
    while start < n && s.get_char(start).is_whitespace()
        invariant
            start <= n,
            n == s@.len(),
            after_whitespace(s@, 0) == after_whitespace(s@, start as int),
        decreases n - start,
    {
        start += 1;
    }
    if start >= n {
        assert(s@.subrange(n as int, n as int) =~= Seq::<char>::empty());
        return (n, n);
    }
    let mut end: usize = n;
    while s.get_char(end - 1).is_whitespace()
        invariant
            start < end <= n,
            n == s@.len(),
            !white_space(s@[start as int]),
            before_whitespace(s@, n as int) == before_whitespace(s@, end as int),
        decreases end,
    {
        end -= 1;
    }
    (start, end)
}

/// Whether `prefix` stands in `s` at position `at`.
fn starts_with_at(s: &str, at: usize, end: usize, prefix: &str) -> (b: bool)
    requires
        at <= end <= s@.len(),
    ensures
        b == prefix@.is_prefix_of(s@.subrange(at as int, end as int)),
{
    let n = prefix.unicode_len();
    if end - at < n {
        return false;
    }
    let ghost part = s@.subrange(at as int, end as int);
    let mut i: usize = 0;
    while i < n
        invariant
            i <= n,
            n == prefix@.len(),
            at + n <= end <= s@.len(),
            part == s@.subrange(at as int, end as int),
            forall|j: int| 0 <= j < i ==> prefix@[j] == part[j],
        decreases n - i,
    {
        if prefix.get_char(i) != s.get_char(at + i) {
            assert(part.subrange(0, n as int)[i as int] == part[i as int]);
            return false;
        }
        i += 1;
    }
    assert(prefix@ =~= part.subrange(0, n as int));
    true
}

/// What `line` asks.
pub fn parse_query(line: &str) -> (r: Option<Query>)
    ensures
        r == query_of(line@),
{
    let (start, end) = trim_bounds(line);
    let asked = line.substring_char(start, end);
    if String::from_str(asked) == String::from_str("get") {
        return Some(Query::Get);
    }
    if String::from_str(asked) == String::from_str("exit") {
        return Some(Query::Exit);
    }
    let prefix = "set ";
    let n = prefix.unicode_len();
    let mut at: usize = start;
    proof {
        assert(line@.subrange(start as int, end as int) == asked@);
    }
    while n > 0 && starts_with_at(line, at, end, prefix)
        invariant
            start <= at <= end <= line@.len(),
            n == prefix@.len(),
            without_prefix(asked@, prefix@) == without_prefix(line@.subrange(at as int, end as int), prefix@),
        decreases end - at,
    {
        assert(line@.subrange(at as int, end as int).skip(n as int) =~= line@.subrange(at + n, end as int));
        at += n;
    }
    match parse_i32(line.substring_char(at, end)) {
        Some(value) => Some(Query::Keep(value)),
        None => None,
    }
}

/// The number that is kept at the start, where the file holds `content`:
/// the number that `content` is in decimal, or none where it is no number.
pub fn initial(content: &str) -> (kept: Option<i32>)
    ensures
        kept == parse_int(content@),
{
    parse_i32(content)
}

/// Takes `query`: the number that is kept after it, and the answer.
pub fn respond(kept: Option<i32>, query: Query) -> (r: (Option<i32>, Answer))
    ensures
        r.0 == kept_after(kept, query),
        r.1@ == answer_to(kept, query),
{
    match query {
        Query::Keep(value) => (Some(value), Answer::Write(int_to_string(value))),
        Query::Get => match kept {
            Some(value) => (kept, Answer::Print(int_to_string(value))),
            None => (kept, Answer::Print(String::from_str("empty"))),
        },
        Query::Exit => (kept, Answer::Quit(String::from_str("bye!"))),
    }
}

} // verus!
