//! The parser: from the tokens of a text to its statements.

use super::ast::{
    assignments_view, declared_view, names_view, statements_view, ConditionView, DataType, QueryStatement,
    StatementView, Value,
};
use super::lex::{
    after_whitespace, lemma_run_ends, lemma_token_at_bounds, token_at, token_here, word_end, word_token,
    Lexer, Token, TokenView,
};
use crate::engine::table::ValueView;
use vstd::prelude::*;

verus! {

/// Why a text is no list of statements.
#[derive(Debug, PartialEq)]
pub enum ParseError {
    /// The token that stands where another was expected.
    UnexpectedToken(Token),
}

impl View for ParseError {
    type V = TokenView;

    open spec fn view(&self) -> TokenView {
        match self {
            ParseError::UnexpectedToken(token) => token@,
        }
    }
}

/// A text and the position in it at which its tokens begin.
pub struct Source {
    pub text: Seq<char>,
    pub origin: int,
}

/// The position in the text before the token of number `k`.
pub open spec fn position_of(src: Source, k: nat) -> int
    decreases k,
{
    if k == 0 {
        src.origin
    } else {
        token_at(src.text, position_of(src, (k - 1) as nat)).1
    }
}

/// The token of number `k`. There is no last token: after the text has
/// ended, every token is `Eof`.
pub open spec fn token(src: Source, k: nat) -> TokenView {
    token_at(src.text, position_of(src, k)).0
}

/// What was parsed and the number of the token after it, or the token that
/// stands where another was expected.
pub type Parsed<T> = Result<(T, nat), TokenView>;

/// An identifier at token `i`.
pub open spec fn ident_at(src: Source, i: nat) -> Parsed<Seq<char>> {
    match token(src, i) {
        TokenView::Ident(name) => Ok((name, i + 1)),
        t => Err(t),
    }
}

/// A number at token `i`.
pub open spec fn int_at(src: Source, i: nat) -> Parsed<i32> {
    match token(src, i) {
        TokenView::Integer(value) => Ok((value, i + 1)),
        t => Err(t),
    }
}

/// A value at token `i`: a number or a string.
pub open spec fn value_at(src: Source, i: nat) -> Parsed<ValueView> {
    match token(src, i) {
        TokenView::Integer(value) => Ok((ValueView::Int(value), i + 1)),
        TokenView::String(value) => Ok((ValueView::VarChar(value), i + 1)),
        t => Err(t),
    }
}

/// A type at token `i`: `INT`, or `VARCHAR`, a parenthesis, a number and a
/// parenthesis. Of the number the low 16 bits are the capacity.
pub open spec fn data_type_at(src: Source, i: nat) -> Parsed<crate::engine::table::DataType> {
    match token(src, i) {
        TokenView::Int => Ok((crate::engine::table::DataType::Int, i + 1)),
        TokenView::VarChar => if !(token(src, i + 1) is LParen) {
            Err(token(src, i + 1))
        } else {
            match int_at(src, i + 2) {
                Ok((length, _)) => if !(token(src, i + 3) is RParen) {
                    Err(token(src, i + 3))
                } else {
                    Ok((crate::engine::table::DataType::VarChar(length as u16), i + 4))
                },
                Err(t) => Err(t),
            }
        },
        t => Err(t),
    }
}

/// An equality at token `i`: an identifier, an equals sign and a value.
pub open spec fn equality_at(src: Source, i: nat) -> Parsed<ConditionView> {
    match ident_at(src, i) {
        Ok((key, _)) => if !(token(src, i + 1) is Equal) {
            Err(token(src, i + 1))
        } else {
            match value_at(src, i + 2) {
                Ok((value, _)) => Ok(((key, value), i + 3)),
                Err(t) => Err(t),
            }
        },
        Err(t) => Err(t),
    }
}

/// What a select asks for, after one item of its list: whether all columns,
/// and the columns that are named.
pub open spec fn with_item(is_all: bool, columns: Seq<Seq<char>>, item: TokenView) -> Parsed<(bool, Seq<Seq<char>>)> {
    match item {
        TokenView::Asterisk => Ok(((true, columns), 0)),
        TokenView::Ident(name) => Ok(((is_all, columns.push(name)), 0)),
        t => Err(t),
    }
}

/// The rest of the list of a select from token `i` on: as long as a comma
/// stands there, an asterisk or an identifier after it.
pub open spec fn select_list_at(src: Source, i: nat, is_all: bool, columns: Seq<Seq<char>>) -> Parsed<
    (bool, Seq<Seq<char>>),
>
    decreases src.text.len() - position_of(src, i),
    when in_text(src)
{
    if token(src, i) is Comma {
        proof {
            lemma_token_advances(src, i);
            lemma_positions(src, i + 1);
        }
        match with_item(is_all, columns, token(src, i + 1)) {
            Ok((asked, _)) => select_list_at(src, i + 2, asked.0, asked.1),
            Err(t) => Err(t),
        }
    } else {
        Ok(((is_all, columns), i))
    }
}

/// A select from token `i` on, behind the word `SELECT`: the list, `FROM`,
/// the table, and, where `WHERE` follows, an equality.
pub open spec fn select_at(src: Source, i: nat) -> Parsed<StatementView> {
    match with_item(false, Seq::empty(), token(src, i)) {
        Ok((first, _)) => match select_list_at(src, i + 1, first.0, first.1) {
            Ok((asked, j)) => if !(token(src, j) is From) {
                Err(token(src, j))
            } else {
                match ident_at(src, j + 1) {
                    Ok((table, k)) => if !(token(src, k) is Where) {
                        Ok((StatementView::Select(table, asked.0, asked.1, None), k))
                    } else {
                        match equality_at(src, k + 1) {
                            Ok((cond, m)) => Ok((StatementView::Select(table, asked.0, asked.1, Some(cond)), m)),
                            Err(t) => Err(t),
                        }
                    },
                    Err(t) => Err(t),
                }
            },
            Err(t) => Err(t),
        },
        Err(t) => Err(t),
    }
}

/// The rest of the assignments of an update from token `i` on: as long as a
/// comma stands there, an equality after it.
pub open spec fn assignments_at(src: Source, i: nat, set: Seq<ConditionView>) -> Parsed<Seq<ConditionView>>
    decreases src.text.len() - position_of(src, i),
    when in_text(src)
{
    if token(src, i) is Comma {
        proof {
            lemma_token_advances(src, i);
            lemma_positions_in_order(src, i + 1, i + 4);
            lemma_positions(src, i + 4);
        }
        match equality_at(src, i + 1) {
            Ok((assignment, _)) => assignments_at(src, i + 4, set.push(assignment)),
            Err(t) => Err(t),
        }
    } else {
        Ok((set, i))
    }
}

/// An update from token `i` on, behind the word `UPDATE`: the table, `SET`,
/// the assignments, `WHERE` and an equality.
pub open spec fn update_at(src: Source, i: nat) -> Parsed<StatementView> {
    match ident_at(src, i) {
        Ok((table, _)) => if !(token(src, i + 1) is SetKeyword) {
            Err(token(src, i + 1))
        } else {
            match equality_at(src, i + 2) {
                Ok((first, _)) => match assignments_at(src, i + 5, seq![first]) {
                    Ok((set, j)) => if !(token(src, j) is Where) {
                        Err(token(src, j))
                    } else {
                        match equality_at(src, j + 1) {
                            Ok((cond, m)) => Ok((StatementView::Update(table, set, cond), m)),
                            Err(t) => Err(t),
                        }
                    },
                    Err(t) => Err(t),
                },
                Err(t) => Err(t),
            }
        },
        Err(t) => Err(t),
    }
}

/// The columns of a create from token `i` on: an identifier and a type, and
/// as long as a comma follows, another.
pub open spec fn columns_at(src: Source, i: nat, columns: Seq<(Seq<char>, crate::engine::table::DataType)>) -> Parsed<
    Seq<(Seq<char>, crate::engine::table::DataType)>,
>
    decreases src.text.len() - position_of(src, i),
    when in_text(src)
{
    match ident_at(src, i) {
        Ok((name, _)) => match data_type_at(src, i + 1) {
            Ok((data_type, j)) => if token(src, j) is Comma {
                proof {
                    lemma_token_advances(src, j);
                    lemma_positions_in_order(src, i, j);
                    lemma_positions(src, j + 1);
                }
                columns_at(src, j + 1, columns.push((name, data_type)))
            } else {
                Ok((columns.push((name, data_type)), j))
            },
            Err(t) => Err(t),
        },
        Err(t) => Err(t),
    }
}

/// A create from token `i` on, behind the word `CREATE`: `TABLE`, the table,
/// and the columns in parentheses.
pub open spec fn create_at(src: Source, i: nat) -> Parsed<StatementView> {
    if !(token(src, i) is Table) {
        Err(token(src, i))
    } else {
        match ident_at(src, i + 1) {
            Ok((table, _)) => if !(token(src, i + 2) is LParen) {
                Err(token(src, i + 2))
            } else {
                match columns_at(src, i + 3, Seq::empty()) {
                    Ok((columns, j)) => if !(token(src, j) is RParen) {
                        Err(token(src, j))
                    } else {
                        Ok((StatementView::CreateTable(table, columns), j + 1))
                    },
                    Err(t) => Err(t),
                }
            },
            Err(t) => Err(t),
        }
    }
}

/// The statement that begins at token `i`.
pub open spec fn statement_at(src: Source, i: nat) -> Parsed<StatementView> {
    match token(src, i) {
        TokenView::Select => select_at(src, i + 1),
        TokenView::Update => update_at(src, i + 1),
        TokenView::Create => create_at(src, i + 1),
        TokenView::Exit => Ok((StatementView::Exit, i + 1)),
        t => Err(t),
    }
}

/// The statements from token `i` on, after those of `done`: statement after
/// statement until `Eof` stands where one would begin. The one token that
/// follows each statement is passed over, whatever it is.
pub open spec fn statements_at(src: Source, i: nat, done: Seq<StatementView>) -> Result<Seq<StatementView>, TokenView>
    decreases src.text.len() - position_of(src, i),
    when in_text(src)
{
    if token(src, i) is Eof {
        Ok(done)
    } else {
        match statement_at(src, i) {
            Ok((statement, j)) => {
                proof {
                    lemma_statement_goes_on(src, i);
                    lemma_token_advances(src, i);
                    lemma_positions_in_order(src, i + 1, j + 1);
                    lemma_positions(src, j + 1);
                }
                statements_at(src, j + 1, done.push(statement))
            },
            Err(t) => Err(t),
        }
    }
}

/// Whether the tokens of `src` begin within its text.
pub open spec fn in_text(src: Source) -> bool {
    0 <= src.origin <= src.text.len()
}

/// No token begins before the one before it, nor behind the end of the text.
pub proof fn lemma_positions(src: Source, k: nat)
    ensures
        in_text(src) ==> src.origin <= position_of(src, k) <= position_of(src, k + 1) <= src.text.len(),
    decreases k,
{
    if in_text(src) {
        if k > 0 {
            lemma_positions(src, (k - 1) as nat);
        }
        lemma_token_at_bounds(src.text, position_of(src, k));
    }
}

/// Tokens begin in the order of their numbers.
pub proof fn lemma_positions_in_order(src: Source, j: nat, k: nat)
    ensures
        in_text(src) && j <= k ==> position_of(src, j) <= position_of(src, k),
    decreases k,
{
    if in_text(src) && j < k {
        lemma_positions_in_order(src, j, (k - 1) as nat);
        lemma_positions(src, (k - 1) as nat);
    }
}

/// Whether a token takes up text wherever it stands: a comma, or one of the
/// words with which a statement begins.
pub open spec fn takes_text(t: TokenView) -> bool {
    t is Comma || t is Select || t is Update || t is Create || t is Exit
}

/// A comma, and a word with which a statement begins, take up text: the
/// next token begins behind them.
pub proof fn lemma_token_advances(src: Source, k: nat)
    ensures
        in_text(src) && takes_text(token(src, k)) ==> position_of(src, k) < position_of(src, k + 1),
{
    if in_text(src) && takes_text(token(src, k)) {
        let s = src.text;
        lemma_positions(src, k);
        let pos = position_of(src, k);
        lemma_run_ends(s, pos);
        let p = after_whitespace(s, pos);
        lemma_run_ends(s, p);
        let word = s.subrange(p, word_end(s, p));
        reveal_strlit("SELECT");
        reveal_strlit("select");
        reveal_strlit("UPDATE");
        reveal_strlit("update");
        reveal_strlit("CREATE");
        reveal_strlit("create");
        reveal_strlit("exit");
        if token_here(s, p).0 == word_token(word) && word.len() == 0 {
            assert(word_token(word) == TokenView::Ident(word)) by {
                reveal_strlit("FROM");
                reveal_strlit("from");
                reveal_strlit("WHERE");
                reveal_strlit("where");
                reveal_strlit("SET");
                reveal_strlit("set");
                reveal_strlit("TABLE");
                reveal_strlit("table");
                reveal_strlit("INT");
                reveal_strlit("int");
                reveal_strlit("VARCHAR");
                reveal_strlit("varchar");
            }
        }
    }
}

/// The rest of a select's list ends at or behind the token at which it
/// begins.
pub proof fn lemma_select_list_goes_on(src: Source, i: nat, is_all: bool, columns: Seq<Seq<char>>)
    requires
        in_text(src),
    ensures
        select_list_at(src, i, is_all, columns) matches Ok(found) ==> found.1 >= i,
    decreases src.text.len() - position_of(src, i),
{
    if token(src, i) is Comma {
        lemma_token_advances(src, i);
        lemma_positions(src, i + 1);
        match with_item(is_all, columns, token(src, i + 1)) {
            Ok((asked, _)) => {
                lemma_select_list_goes_on(src, i + 2, asked.0, asked.1);
            },
            Err(_) => {},
        }
    }
}

/// The rest of an update's assignments ends at or behind the token at which
/// it begins.
pub proof fn lemma_assignments_go_on(src: Source, i: nat, set: Seq<ConditionView>)
    requires
        in_text(src),
    ensures
        assignments_at(src, i, set) matches Ok(found) ==> found.1 >= i,
    decreases src.text.len() - position_of(src, i),
{
    if token(src, i) is Comma {
        lemma_token_advances(src, i);
        lemma_positions_in_order(src, i + 1, i + 4);
        lemma_positions(src, i + 4);
        match equality_at(src, i + 1) {
            Ok((assignment, _)) => {
                lemma_assignments_go_on(src, i + 4, set.push(assignment));
            },
            Err(_) => {},
        }
    }
}

/// The columns of a create end behind the token at which they begin.
pub proof fn lemma_columns_go_on(src: Source, i: nat, columns: Seq<(Seq<char>, crate::engine::table::DataType)>)
    requires
        in_text(src),
    ensures
        columns_at(src, i, columns) matches Ok(found) ==> found.1 > i,
    decreases src.text.len() - position_of(src, i),
{
    match ident_at(src, i) {
        Ok((name, _)) => match data_type_at(src, i + 1) {
            Ok((data_type, j)) => {
                if token(src, j) is Comma {
                    lemma_token_advances(src, j);
                    lemma_positions_in_order(src, i, j);
                    lemma_positions(src, j + 1);
                    lemma_columns_go_on(src, j + 1, columns.push((name, data_type)));
                }
            },
            Err(_) => {},
        },
        Err(_) => {},
    }
}

/// A statement begins with a word that takes up text, and ends behind the
/// token at which it begins.
pub proof fn lemma_statement_goes_on(src: Source, i: nat)
    ensures
        in_text(src) ==> (statement_at(src, i) matches Ok(found) ==> found.1 > i && takes_text(token(src, i))),
{
    if in_text(src) {
        match token(src, i) {
            TokenView::Select => {
                match with_item(false, Seq::empty(), token(src, i + 1)) {
                    Ok((first, _)) => {
                        lemma_select_list_goes_on(src, i + 2, first.0, first.1);
                    },
                    Err(_) => {},
                }
            },
            TokenView::Update => {
                match equality_at(src, i + 3) {
                    Ok((first, _)) => {
                        lemma_assignments_go_on(src, i + 6, seq![first]);
                    },
                    Err(_) => {},
                }
            },
            TokenView::Create => {
                lemma_columns_go_on(src, i + 4, Seq::empty());
            },
            _ => {},
        }
    }
}

/// The parser of one text. It holds the token at which it stands and the
/// one after it.
pub struct Parser {
    lexer: Lexer,
    current_token: Token,
    peek_token: Token,
    index: Ghost<nat>,
    origin: Ghost<int>,
}

impl Parser {
    /// The text and the position at which its tokens begin.
    pub closed spec fn source(&self) -> Source {
        Source { text: self.lexer.text(), origin: self.origin@ }
    }

    /// The number of the token at which the parser stands.
    pub closed spec fn index(&self) -> nat {
        self.index@
    }

    /// The parser holds the token at which it stands and the one after it,
    /// and its lexer stands behind them.
    pub closed spec fn wf(&self) -> bool {
        &&& self.lexer.wf()
        &&& in_text(self.source())
        &&& self.lexer.at() == position_of(self.source(), self.index@ + 2)
        &&& self.current_token@ == token(self.source(), self.index@)
        &&& self.peek_token@ == token(self.source(), self.index@ + 1)
    }

    /// A parser of what `lexer` has not read yet.
    pub fn new(lexer: Lexer) -> (parser: Self)
        requires
            lexer.wf(),
        ensures
            parser.wf(),
            parser.source() == (Source { text: lexer.text(), origin: lexer.at() }),
            parser.index() == 0,
    {
        let ghost src = Source { text: lexer.text(), origin: lexer.at() };
        let mut lexer = lexer;
        proof {
            lexer.lemma_at_in_text();
        }
        let current_token = lexer.next();
        let peek_token = lexer.next();
        proof {
            assert(position_of(src, 1) == token_at(src.text, position_of(src, 0)).1);
            assert(position_of(src, 2) == token_at(src.text, position_of(src, 1)).1);
        }
        Self { lexer, current_token, peek_token, index: Ghost(0), origin: Ghost(src.origin) }
    }

    /// The statements of the text from the token at which the parser stands,
    /// or the first token that stands where another was expected.
    pub fn parse(&mut self) -> (r: Result<Vec<QueryStatement>, ParseError>)
        requires
            old(self).wf(),
        ensures
            final(self).wf(),
            final(self).source() == old(self).source(),
            match r {
                Ok(statements) => statements_at(old(self).source(), old(self).index(), Seq::empty()) == Ok::<
                    Seq<StatementView>,
                    TokenView,
                >(statements_view(statements@)),
                Err(e) => statements_at(old(self).source(), old(self).index(), Seq::empty()) == Err::<
                    Seq<StatementView>,
                    TokenView,
                >(e@),
            },
    {
        let ghost src = self.source();
        let ghost start = self.index();
        let mut statements: Vec<QueryStatement> = Vec::new();
        assert(statements_view(statements@) =~= Seq::<StatementView>::empty());
        loop
            invariant
                self.wf(),
                self.source() == src,
                src == old(self).source(),
                start == old(self).index(),
                statements_at(src, start, Seq::empty()) == statements_at(
                    src,
                    self.index(),
                    statements_view(statements@),
                ),
            decreases src.text.len() - position_of(src, self.index()),
        {
            if let Token::Eof = self.current_token {
                return Ok(statements);
            }
            let ghost i = self.index();
            let ghost done = statements_view(statements@);
            let stmt = match self.parse_statement() {
                Ok(stmt) => stmt,
                Err(e) => {
                    return Err(e);
                },
            };
            proof {
                lemma_statement_goes_on(src, i);
                lemma_token_advances(src, i);
                lemma_positions_in_order(src, i + 1, self.index() + 1);
                lemma_positions(src, self.index() + 1);
            }
            statements.push(stmt);
            assert(statements_view(statements@) =~= done.push(stmt@));
            self.next_token();
        }
    }

    /// The statement that begins at the token at which the parser stands.
    fn parse_statement(&mut self) -> (r: Result<QueryStatement, ParseError>)
        requires
            old(self).wf(),
        ensures
            final(self).wf(),
            final(self).source() == old(self).source(),
            match r {
                Ok(statement) => statement_at(old(self).source(), old(self).index()) == Ok::<
                    (StatementView, nat),
                    TokenView,
                >((statement@, final(self).index())),
                Err(e) => statement_at(old(self).source(), old(self).index()) == Err::<
                    (StatementView, nat),
                    TokenView,
                >(e@),
            },
    {
        match self.current_token {
            Token::Select => self.parse_select_statement(),
            Token::Update => self.parse_update_statement(),
            Token::Create => self.parse_create_table_statement(),
            Token::Exit => self.parse_exit_statement(),
            _ => Err(ParseError::UnexpectedToken(self.current_token.clone())),
        }
    }

    /// A select, with the parser at the word `SELECT`.
    fn parse_select_statement(&mut self) -> (r: Result<QueryStatement, ParseError>)
        requires
            old(self).wf(),
        ensures
            final(self).wf(),
            final(self).source() == old(self).source(),
            match r {
                Ok(statement) => select_at(old(self).source(), old(self).index() + 1) == Ok::<
                    (StatementView, nat),
                    TokenView,
                >((statement@, final(self).index())),
                Err(e) => select_at(old(self).source(), old(self).index() + 1) == Err::<
                    (StatementView, nat),
                    TokenView,
                >(e@),
            },
    {
        self.next_token();  // skip select
        let (table_name, is_all, columns, cond) = match self.parse_select_arg() {
            Ok(found) => found,
            Err(e) => {
                return Err(e);
            },
        };
        Ok(QueryStatement::Select(table_name, is_all, columns, cond))
    }

    /// One item of a select's list: an asterisk or an identifier.
    fn parse_select_item(&mut self, is_all: &mut bool, columns: &mut Vec<String>) -> (r: Result<(), ParseError>)
        requires
            old(self).wf(),
        ensures
            final(self).wf(),
            final(self).source() == old(self).source(),
            match r {
                Ok(_) => with_item(
                    *old(is_all),
                    names_view(old(columns)@),
                    token(old(self).source(), old(self).index()),
                ) matches Ok(found) && found.0 == (*final(is_all), names_view(final(columns)@))
                    && final(self).index() == old(self).index() + 1,
                Err(e) => with_item(
                    *old(is_all),
                    names_view(old(columns)@),
                    token(old(self).source(), old(self).index()),
                ) == Err::<((bool, Seq<Seq<char>>), nat), TokenView>(e@),
            },
    {
        match &self.current_token {
            Token::Asterisk => {
                *is_all = true;
                self.next_token();  // skip *
                Ok(())
            },
            Token::Ident(name) => {
                let name = name.clone();
                columns.push(name);
                assert(names_view(columns@) =~= names_view(old(columns)@).push(name@));
                self.next_token();  // skip name
                Ok(())
            },
            _ => Err(ParseError::UnexpectedToken(self.current_token.clone())),
        }
    }

    /// What a select asks: the list, `FROM`, the table, and, where `WHERE`
    /// follows, an equality.
    fn parse_select_arg(&mut self) -> (r: Result<(String, bool, Vec<String>, Option<(String, Value)>), ParseError>)
        requires
            old(self).wf(),
        ensures
            final(self).wf(),
            final(self).source() == old(self).source(),
            match r {
                Ok(found) => select_at(old(self).source(), old(self).index()) == Ok::<
                    (StatementView, nat),
                    TokenView,
                >((QueryStatement::Select(found.0, found.1, found.2, found.3)@, final(self).index())),
                Err(e) => select_at(old(self).source(), old(self).index()) == Err::<
                    (StatementView, nat),
                    TokenView,
                >(e@),
            },
    {
        let ghost src = self.source();
        let ghost start = self.index();
        let mut is_all = false;
        let mut columns: Vec<String> = Vec::new();
        assert(names_view(columns@) =~= Seq::<Seq<char>>::empty());

        match self.parse_select_item(&mut is_all, &mut columns) {
            Ok(_) => {},
            Err(e) => {
                return Err(e);
            },
        }
        let ghost whole = select_list_at(src, start + 1, is_all, names_view(columns@));

        loop
            invariant
                self.wf(),
                self.source() == src,
                src == old(self).source(),
                whole matches Err(t) ==> select_at(src, old(self).index()) == Err::<(StatementView, nat), TokenView>(t),
                whole == select_list_at(src, self.index(), is_all, names_view(columns@)),
            ensures
                self.wf(),
                self.source() == src,
                whole == Ok::<((bool, Seq<Seq<char>>), nat), TokenView>(
                    ((is_all, names_view(columns@)), self.index()),
                ),
            decreases src.text.len() - position_of(src, self.index()),
        {
            if let Token::Comma = self.current_token {
            } else {
                break ;
            }
            proof {
                lemma_token_advances(src, self.index());
                lemma_positions(src, self.index() + 1);
            }
            self.next_token();  // skip ,
            match self.parse_select_item(&mut is_all, &mut columns) {
                Ok(_) => {},
                Err(e) => {
                    return Err(e);
                },
            }
        }

        if let Token::From = self.current_token {
        } else {
            return Err(ParseError::UnexpectedToken(self.current_token.clone()));
        }
        self.next_token();  // skip from

        let table_name = match self.parse_ident() {
            Ok(name) => name,
            Err(e) => {
                return Err(e);
            },
        };

        // where
        if let Token::Where = self.current_token {
        } else {
            return Ok((table_name, is_all, columns, None));
        }
        self.next_token();  // skip where
        // cond
        let cond = match self.parse_equality() {
            Ok(cond) => cond,
            Err(e) => {
                return Err(e);
            },
        };

        Ok((table_name, is_all, columns, Some(cond)))
    }

    /// An equality: an identifier, an equals sign and a value.
    fn parse_equality(&mut self) -> (r: Result<(String, Value), ParseError>)
        requires
            old(self).wf(),
        ensures
            final(self).wf(),
            final(self).source() == old(self).source(),
            match r {
                Ok(found) => equality_at(old(self).source(), old(self).index()) == Ok::<
                    (ConditionView, nat),
                    TokenView,
                >(((found.0@, found.1@), final(self).index())),
                Err(e) => equality_at(old(self).source(), old(self).index()) == Err::<
                    (ConditionView, nat),
                    TokenView,
                >(e@),
            },
    {
        let key = match self.parse_ident() {
            Ok(key) => key,
            Err(e) => {
                return Err(e);
            },
        };
        if let Token::Equal = self.current_token {
        } else {
            return Err(ParseError::UnexpectedToken(self.current_token.clone()));
        }
        self.next_token();  // skip =
        let value = match self.parse_value() {
            Ok(value) => value,
            Err(e) => {
                return Err(e);
            },
        };
        Ok((key, value))
    }

    /// An update, with the parser at the word `UPDATE`.
    fn parse_update_statement(&mut self) -> (r: Result<QueryStatement, ParseError>)
        requires
            old(self).wf(),
        ensures
            final(self).wf(),
            final(self).source() == old(self).source(),
            match r {
                Ok(statement) => update_at(old(self).source(), old(self).index() + 1) == Ok::<
                    (StatementView, nat),
                    TokenView,
                >((statement@, final(self).index())),
                Err(e) => update_at(old(self).source(), old(self).index() + 1) == Err::<
                    (StatementView, nat),
                    TokenView,
                >(e@),
            },
    {
        let ghost src = self.source();
        let ghost start = self.index();
        let mut assignments: Vec<(String, Value)> = Vec::new();
        self.next_token();  // skip update

        let table_name = match self.parse_ident() {
            Ok(name) => name,
            Err(e) => {
                return Err(e);
            },
        };

        if let Token::SetKeyword = self.current_token {
        } else {
            return Err(ParseError::UnexpectedToken(self.current_token.clone()));
        }
        self.next_token();  // skip set

        let first = match self.parse_equality() {
            Ok(found) => found,
            Err(e) => {
                return Err(e);
            },
        };
        assignments.push(first);
        assert(assignments_view(assignments@) =~= seq![(first.0@, first.1@)]);
        let ghost whole = assignments_at(src, start + 6, assignments_view(assignments@));

        loop
            invariant
                self.wf(),
                self.source() == src,
                src == old(self).source(),
                whole matches Err(t) ==> update_at(src, old(self).index() + 1) == Err::<
                    (StatementView, nat),
                    TokenView,
                >(t),
                whole == assignments_at(src, self.index(), assignments_view(assignments@)),
            ensures
                self.wf(),
                self.source() == src,
                whole == Ok::<(Seq<ConditionView>, nat), TokenView>(
                    (assignments_view(assignments@), self.index()),
                ),
            decreases src.text.len() - position_of(src, self.index()),
        {
            if let Token::Comma = self.current_token {
            } else {
                break ;
            }
            let ghost i = self.index();
            let ghost before = assignments_view(assignments@);
            proof {
                lemma_token_advances(src, i);
                lemma_positions_in_order(src, i + 1, i + 4);
                lemma_positions(src, i + 4);
            }
            self.next_token();  // skip ,
            let more = match self.parse_equality() {
                Ok(found) => found,
                Err(e) => {
                    return Err(e);
                },
            };
            assignments.push(more);
            assert(assignments_view(assignments@) =~= before.push((more.0@, more.1@)));
        }

        // where
        if let Token::Where = self.current_token {
        } else {
            return Err(ParseError::UnexpectedToken(self.current_token.clone()));
        }
        self.next_token();  // skip where
        // cond
        let cond = match self.parse_equality() {
            Ok(cond) => cond,
            Err(e) => {
                return Err(e);
            },
        };

        Ok(QueryStatement::Update(table_name, assignments, cond))
    }

    /// A value: a number or a string.
    fn parse_value(&mut self) -> (r: Result<Value, ParseError>)
        requires
            old(self).wf(),
        ensures
            final(self).wf(),
            final(self).source() == old(self).source(),
            match r {
                Ok(value) => value_at(old(self).source(), old(self).index()) == Ok::<(ValueView, nat), TokenView>(
                    (value@, final(self).index()),
                ),
                Err(e) => value_at(old(self).source(), old(self).index()) == Err::<(ValueView, nat), TokenView>(
                    e@,
                ),
            },
    {
        match self.current_token.clone() {
            Token::Integer(value) => {
                self.next_token();  // skip value
                Ok(Value::Int(value))
            },
            Token::String(value) => {
                self.next_token();  // skip value
                Ok(Value::VarChar(value))
            },
            _ => Err(ParseError::UnexpectedToken(self.current_token.clone())),
        }
    }

    /// A create, with the parser at the word `CREATE`.
    fn parse_create_table_statement(&mut self) -> (r: Result<QueryStatement, ParseError>)
        requires
            old(self).wf(),
        ensures
            final(self).wf(),
            final(self).source() == old(self).source(),
            match r {
                Ok(statement) => create_at(old(self).source(), old(self).index() + 1) == Ok::<
                    (StatementView, nat),
                    TokenView,
                >((statement@, final(self).index())),
                Err(e) => create_at(old(self).source(), old(self).index() + 1) == Err::<
                    (StatementView, nat),
                    TokenView,
                >(e@),
            },
    {
        let ghost src = self.source();
        let ghost start = self.index();
        self.next_token();  // skip create
        if let Token::Table = self.current_token {
        } else {
            return Err(ParseError::UnexpectedToken(self.current_token.clone()));
        }
        self.next_token();  // skip table

        let table_name = match self.parse_ident() {
            Ok(name) => name,
            Err(e) => {
                return Err(e);
            },
        };

        if let Token::LParen = self.current_token {
        } else {
            return Err(ParseError::UnexpectedToken(self.current_token.clone()));
        }
        self.next_token();  // skip (

        let mut columns: Vec<(String, DataType)> = Vec::new();
        assert(declared_view(columns@) =~= Seq::<(Seq<char>, crate::engine::table::DataType)>::empty());
        let ghost whole = columns_at(src, start + 4, declared_view(columns@));
        loop
            invariant_except_break
                whole == columns_at(src, self.index(), declared_view(columns@)),
            invariant
                self.wf(),
                self.source() == src,
                src == old(self).source(),
                whole matches Err(t) ==> create_at(src, old(self).index() + 1) == Err::<
                    (StatementView, nat),
                    TokenView,
                >(t),
            ensures
                self.wf(),
                self.source() == src,
                whole == Ok::<(Seq<(Seq<char>, crate::engine::table::DataType)>, nat), TokenView>(
                    (declared_view(columns@), self.index()),
                ),
            decreases src.text.len() - position_of(src, self.index()),
        {
            let ghost i = self.index();
            let ghost before = declared_view(columns@);
            let column_name = match self.parse_ident() {
                Ok(name) => name,
                Err(e) => {
                    return Err(e);
                },
            };
            let data_type = match self.parse_data_type() {
                Ok(data_type) => data_type,
                Err(e) => {
                    return Err(e);
                },
            };
            columns.push((column_name, data_type));
            assert(declared_view(columns@) =~= before.push((column_name@, data_type@)));
            if let Token::Comma = self.current_token {
                proof {
                    lemma_token_advances(src, self.index());
                    lemma_positions_in_order(src, i, self.index());
                    lemma_positions(src, self.index() + 1);
                }
                self.next_token();  // skip ,
            } else {
                break ;
            }
        }
        if let Token::RParen = self.current_token {
        } else {
            return Err(ParseError::UnexpectedToken(self.current_token.clone()));
        }
        self.next_token();  // skip )

        Ok(QueryStatement::CreateTable(table_name, columns))
    }

    /// A type: `INT`, or `VARCHAR` and its capacity in parentheses.
    fn parse_data_type(&mut self) -> (r: Result<DataType, ParseError>)
        requires
            old(self).wf(),
        ensures
            final(self).wf(),
            final(self).source() == old(self).source(),
            match r {
                Ok(data_type) => data_type_at(old(self).source(), old(self).index()) == Ok::<
                    (crate::engine::table::DataType, nat),
                    TokenView,
                >((data_type@, final(self).index())),
                Err(e) => data_type_at(old(self).source(), old(self).index()) == Err::<
                    (crate::engine::table::DataType, nat),
                    TokenView,
                >(e@),
            },
    {
        match self.current_token {
            Token::Int => {
                self.next_token();  // skip int
                Ok(DataType::Int)
            },
            Token::VarChar => {
                self.next_token();  // skip varchar
                if let Token::LParen = self.current_token {
                } else {
                    return Err(ParseError::UnexpectedToken(self.current_token.clone()));
                }
                self.next_token();  // skip (
                let length = match self.parse_int() {
                    Ok(length) => length,
                    Err(e) => {
                        return Err(e);
                    },
                };
                if let Token::RParen = self.current_token {
                } else {
                    return Err(ParseError::UnexpectedToken(self.current_token.clone()));
                }
                self.next_token();  // skip )
                Ok(DataType::VarChar(#[verifier::truncate] (length as u16)))
            },
            _ => Err(ParseError::UnexpectedToken(self.current_token.clone())),
        }
    }

    /// An identifier.
    fn parse_ident(&mut self) -> (r: Result<String, ParseError>)
        requires
            old(self).wf(),
        ensures
            final(self).wf(),
            final(self).source() == old(self).source(),
            match r {
                Ok(name) => ident_at(old(self).source(), old(self).index()) == Ok::<(Seq<char>, nat), TokenView>(
                    (name@, final(self).index()),
                ),
                Err(e) => ident_at(old(self).source(), old(self).index()) == Err::<(Seq<char>, nat), TokenView>(
                    e@,
                ),
            },
    {
        match self.current_token.clone() {
            Token::Ident(name) => {
                self.next_token();  // skip name
                Ok(name)
            },
            _ => Err(ParseError::UnexpectedToken(self.current_token.clone())),
        }
    }

    /// A number.
    fn parse_int(&mut self) -> (r: Result<i32, ParseError>)
        requires
            old(self).wf(),
        ensures
            final(self).wf(),
            final(self).source() == old(self).source(),
            match r {
                Ok(value) => int_at(old(self).source(), old(self).index()) == Ok::<(i32, nat), TokenView>(
                    (value, final(self).index()),
                ),
                Err(e) => int_at(old(self).source(), old(self).index()) == Err::<(i32, nat), TokenView>(e@),
            },
    {
        match self.current_token.clone() {
            Token::Integer(value) => {
                self.next_token();  // skip value
                Ok(value)
            },
            _ => Err(ParseError::UnexpectedToken(self.current_token.clone())),
        }
    }

    /// An exit, with the parser at the word `exit`.
    fn parse_exit_statement(&mut self) -> (r: Result<QueryStatement, ParseError>)
        requires
            old(self).wf(),
        ensures
            final(self).wf(),
            final(self).source() == old(self).source(),
            final(self).index() == old(self).index() + 1,
            r == Ok::<QueryStatement, ParseError>(QueryStatement::Exit),
    {
        self.next_token();  // skip exit
        Ok(QueryStatement::Exit)
    }

    /// Goes on by one token.
    fn next_token(&mut self)
        requires
            old(self).wf(),
        ensures
            final(self).wf(),
            final(self).source() == old(self).source(),
            final(self).index() == old(self).index() + 1,
    {
        let ghost src = self.source();
        let ghost i = self.index@;
        proof {
            assert(position_of(src, i + 3) == token_at(src.text, position_of(src, (i + 2) as nat)).1);
        }
        self.current_token = self.peek_token.clone();
        self.peek_token = self.lexer.next();
        self.index = Ghost((i + 1) as nat);
    }
}

} // verus!
