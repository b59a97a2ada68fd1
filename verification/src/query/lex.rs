//! The lexer: from the text of a query to its tokens, one at a time.

use crate::text::{is_digit, letter, parse_int, white_space};
use vstd::prelude::*;
use vstd::string::{StrSliceExecFns, StringExecFns};

verus! {

/// One token of a query.
#[derive(PartialEq, Debug)]
pub enum Token {
    // keywords
    Select,
    From,
    Where,
    Update,
    SetKeyword,
    Exit,
    Create,
    Table,
    Int,
    VarChar,
    // values
    Integer(i32),
    Ident(String),
    String(String),
    // symbols
    Equal,
    Asterisk,
    Comma,
    SemiColon,
    LParen,
    RParen,
    Illegal,
    Eof,
}

/// A token as contracts see it.
pub enum TokenView {
    Select,
    From,
    Where,
    Update,
    SetKeyword,
    Exit,
    Create,
    Table,
    Int,
    VarChar,
    Integer(i32),
    Ident(Seq<char>),
    String(Seq<char>),
    Equal,
    Asterisk,
    Comma,
    SemiColon,
    LParen,
    RParen,
    Illegal,
    Eof,
}

impl View for Token {
    type V = TokenView;

    open spec fn view(&self) -> TokenView {
        match self {
            Token::Select => TokenView::Select,
            Token::From => TokenView::From,
            Token::Where => TokenView::Where,
            Token::Update => TokenView::Update,
            Token::SetKeyword => TokenView::SetKeyword,
            Token::Exit => TokenView::Exit,
            Token::Create => TokenView::Create,
            Token::Table => TokenView::Table,
            Token::Int => TokenView::Int,
            Token::VarChar => TokenView::VarChar,
            Token::Integer(n) => TokenView::Integer(*n),
            Token::Ident(s) => TokenView::Ident(s@),
            Token::String(s) => TokenView::String(s@),
            Token::Equal => TokenView::Equal,
            Token::Asterisk => TokenView::Asterisk,
            Token::Comma => TokenView::Comma,
            Token::SemiColon => TokenView::SemiColon,
            Token::LParen => TokenView::LParen,
            Token::RParen => TokenView::RParen,
            Token::Illegal => TokenView::Illegal,
            Token::Eof => TokenView::Eof,
        }
    }
}

impl Clone for Token {
    fn clone(&self) -> (t: Self)
        ensures
            t == *self,
    {
        match self {
            Token::Select => Token::Select,
            Token::From => Token::From,
            Token::Where => Token::Where,
            Token::Update => Token::Update,
            Token::SetKeyword => Token::SetKeyword,
            Token::Exit => Token::Exit,
            Token::Create => Token::Create,
            Token::Table => Token::Table,
            Token::Int => Token::Int,
            Token::VarChar => Token::VarChar,
            Token::Integer(n) => Token::Integer(*n),
            Token::Ident(s) => Token::Ident(s.clone()),
            Token::String(s) => Token::String(s.clone()),
            Token::Equal => Token::Equal,
            Token::Asterisk => Token::Asterisk,
            Token::Comma => Token::Comma,
            Token::SemiColon => Token::SemiColon,
            Token::LParen => Token::LParen,
            Token::RParen => Token::RParen,
            Token::Illegal => Token::Illegal,
            Token::Eof => Token::Eof,
        }
    }
}

/// The character at position `i` of `s`, or the zero character where `s`
/// has ended.
pub open spec fn char_at(s: Seq<char>, i: int) -> char {
    if 0 <= i < s.len() {
        s[i]
    } else {
        '\0'
    }
}

/// Whether a word goes on with `c`: a letter or an underscore.
pub open spec fn is_word_char(c: char) -> bool {
    letter(c) || c == '_'
}

/// The first position at or after `i` that holds no white space.
pub open spec fn after_whitespace(s: Seq<char>, i: int) -> int
    decreases s.len() - i,
{
    if 0 <= i < s.len() && white_space(s[i]) {
        after_whitespace(s, i + 1)
    } else {
        i
    }
}

/// The first position at or after `i` that holds no letter or underscore.
pub open spec fn word_end(s: Seq<char>, i: int) -> int
    decreases s.len() - i,
{
    if 0 <= i < s.len() && is_word_char(s[i]) {
        word_end(s, i + 1)
    } else {
        i
    }
}

/// The first position at or after `i` that holds no digit.
pub open spec fn number_end(s: Seq<char>, i: int) -> int
    decreases s.len() - i,
{
    if 0 <= i < s.len() && is_digit(s[i]) {
        number_end(s, i + 1)
    } else {
        i
    }
}

/// The first position at or after `i` that holds a quote, or the end of `s`
/// where none follows.
pub open spec fn quote_at(s: Seq<char>, i: int) -> int
    decreases s.len() - i,
{
    if 0 <= i < s.len() && s[i] != '\'' {
        quote_at(s, i + 1)
    } else {
        i
    }
}

/// The token that a word is: a keyword, in capitals or in small letters, or
/// else an identifier. `exit` is a keyword in small letters only.
pub open spec fn word_token(word: Seq<char>) -> TokenView {
    if word == "SELECT"@ || word == "select"@ {
        TokenView::Select
    } else if word == "FROM"@ || word == "from"@ {
        TokenView::From
    } else if word == "WHERE"@ || word == "where"@ {
        TokenView::Where
    } else if word == "UPDATE"@ || word == "update"@ {
        TokenView::Update
    } else if word == "SET"@ || word == "set"@ {
        TokenView::SetKeyword
    } else if word == "CREATE"@ || word == "create"@ {
        TokenView::Create
    } else if word == "TABLE"@ || word == "table"@ {
        TokenView::Table
    } else if word == "INT"@ || word == "int"@ {
        TokenView::Int
    } else if word == "VARCHAR"@ || word == "varchar"@ {
        TokenView::VarChar
    } else if word == "exit"@ {
        TokenView::Exit
    } else {
        TokenView::Ident(word)
    }
}

/// The token that a run of digits is: the number, or `Illegal` where the
/// number does not fit 32 bits.
pub open spec fn number_token(digits: Seq<char>) -> TokenView {
    match parse_int(digits) {
        Some(n) => TokenView::Integer(n),
        None => TokenView::Illegal,
    }
}

/// The token that begins at position `pos` of `s` with no white space before
/// it, and the position after it.
///
/// The zero character and the end of the text give `Eof`. A symbol gives its
/// token. Digits give a number as far as they go. A quote gives the string
/// up to the next quote, or `Illegal` and the end of the text where no quote
/// follows. Anything else gives a word as far as letters and underscores
/// go: where there is none, that is the identifier of no characters, and the
/// position stays where it is.
pub open spec fn token_here(s: Seq<char>, pos: int) -> (TokenView, int) {
    let c = char_at(s, pos);
    if c == '\0' {
        (
            TokenView::Eof,
            if pos < s.len() {
                pos + 1
            } else {
                pos
            },
        )
    } else if c == '=' {
        (TokenView::Equal, pos + 1)
    } else if c == '*' {
        (TokenView::Asterisk, pos + 1)
    } else if c == ',' {
        (TokenView::Comma, pos + 1)
    } else if c == ';' {
        (TokenView::SemiColon, pos + 1)
    } else if c == '(' {
        (TokenView::LParen, pos + 1)
    } else if c == ')' {
        (TokenView::RParen, pos + 1)
    } else if is_digit(c) {
        (number_token(s.subrange(pos, number_end(s, pos))), number_end(s, pos))
    } else if c == '\'' {
        let end = quote_at(s, pos + 1);
        if end < s.len() {
            (TokenView::String(s.subrange(pos + 1, end)), end + 1)
        } else {
            (TokenView::Illegal, s.len() as int)
        }
    } else {
        (word_token(s.subrange(pos, word_end(s, pos))), word_end(s, pos))
    }
}

/// The token at or after position `pos` of `s`, white space passed over,
/// and the position after it.
pub open spec fn token_at(s: Seq<char>, pos: int) -> (TokenView, int) {
    token_here(s, after_whitespace(s, pos))
}

/// The ends of runs lie between their start and the end of the text.
pub proof fn lemma_run_ends(s: Seq<char>, i: int)
    requires
        0 <= i <= s.len(),
    ensures
        i <= after_whitespace(s, i) <= s.len(),
        i <= word_end(s, i) <= s.len(),
        i <= number_end(s, i) <= s.len(),
        i <= quote_at(s, i) <= s.len(),
        i < s.len() && is_digit(s[i]) ==> i < number_end(s, i),
        i < s.len() && is_word_char(s[i]) ==> i < word_end(s, i),
    decreases s.len() - i,
{
    if i < s.len() {
        lemma_run_ends(s, i + 1);
    }
}

/// A token ends between its start and the end of the text.
pub proof fn lemma_token_at_bounds(s: Seq<char>, pos: int)
    requires
        0 <= pos <= s.len(),
    ensures
        pos <= token_at(s, pos).1 <= s.len(),
{
    lemma_run_ends(s, pos);
    let p = after_whitespace(s, pos);
    lemma_run_ends(s, p);
    if p < s.len() {
        lemma_run_ends(s, p + 1);
    }
}

/// The lexer of one text.
pub struct Lexer {
    input: String,
    len: usize,
    position: usize,
    ch: char,
}

impl Lexer {
    /// The text that is read.
    pub closed spec fn text(&self) -> Seq<char> {
        self.input@
    }

    /// The position of the next character to be looked at.
    pub closed spec fn at(&self) -> int {
        self.position as int
    }

    /// The lexer stands at a position of its text and holds the character
    /// there.
    pub closed spec fn wf(&self) -> bool {
        &&& self.len == self.input@.len()
        &&& self.position <= self.len
        &&& self.ch == char_at(self.input@, self.position as int)
    }

    /// A lexer stands within its text.
    pub proof fn lemma_at_in_text(&self)
        requires
            self.wf(),
        ensures
            0 <= self.at() <= self.text().len(),
    {
    }

    /// A lexer at the start of `input`.
    pub fn new(input: String) -> (lexer: Self)
        ensures
            lexer.wf(),
            lexer.text() == input@,
            lexer.at() == 0,
    {
        let len = input.as_str().unicode_len();
        let mut lexer = Self { input, len, position: 0, ch: '\0' };
        lexer.load_char();
        lexer
    }

    /// The next token. The lexer then stands behind it.
    pub fn next(&mut self) -> (token: Token)
        requires
            old(self).wf(),
        ensures
            final(self).wf(),
            final(self).text() == old(self).text(),
            (token@, final(self).at()) == token_at(old(self).text(), old(self).at()),
    {
        self.skip_whitespace();
        let ghost s = self.input@;
        let ghost pos = self.position as int;
        proof {
            lemma_run_ends(s, pos);
            if pos < s.len() {
                lemma_run_ends(s, pos + 1);
            }
        }
        let c = self.ch;
        if c == '\0' {
            self.read_char();
            Token::Eof
        } else if c == '=' {
            self.read_char();
            Token::Equal
        } else if c == '*' {
            self.read_char();
            Token::Asterisk
        } else if c == ',' {
            self.read_char();
            Token::Comma
        } else if c == ';' {
            self.read_char();
            Token::SemiColon
        } else if c == '(' {
            self.read_char();
            Token::LParen
        } else if c == ')' {
            self.read_char();
            Token::RParen
        } else if c >= '0' && c <= '9' {
            self.read_number()
        } else if c == '\'' {
            self.read_string()
        } else {
            let word = self.read_word();
            Self::word_to_token(word.as_str())
        }
    }

    /// The token that `word` is.
    pub fn word_to_token(word: &str) -> (token: Token)
        ensures
            token@ == word_token(word@),
    {
        if Self::is_word(word, "SELECT") || Self::is_word(word, "select") {
            Token::Select
        } else if Self::is_word(word, "FROM") || Self::is_word(word, "from") {
            Token::From
        } else if Self::is_word(word, "WHERE") || Self::is_word(word, "where") {
            Token::Where
        } else if Self::is_word(word, "UPDATE") || Self::is_word(word, "update") {
            Token::Update
        } else if Self::is_word(word, "SET") || Self::is_word(word, "set") {
            Token::SetKeyword
        } else if Self::is_word(word, "CREATE") || Self::is_word(word, "create") {
            Token::Create
        } else if Self::is_word(word, "TABLE") || Self::is_word(word, "table") {
            Token::Table
        } else if Self::is_word(word, "INT") || Self::is_word(word, "int") {
            Token::Int
        } else if Self::is_word(word, "VARCHAR") || Self::is_word(word, "varchar") {
            Token::VarChar
        } else if Self::is_word(word, "exit") {
            Token::Exit
        } else {
            Token::Ident(String::from_str(word))
        }
    }

    /// Whether `word` is the keyword `keyword`.
    fn is_word(word: &str, keyword: &str) -> (b: bool)
        ensures
            b == (word@ == keyword@),
    {
        String::from_str(word) == String::from_str(keyword)
    }

    /// The characters from `from` up to `to`.
    fn slice(&self, from: usize, to: usize) -> (part: String)
        requires
            self.wf(),
            from <= to <= self.len,
        ensures
            part@ == self.input@.subrange(from as int, to as int),
    {
        String::from_str(self.input.as_str().substring_char(from, to))
    }

    /// Reads a word: letters and underscores as far as they go. The lexer
    /// then stands at the first character that is none.
    fn read_word(&mut self) -> (word: String)
        requires
            old(self).wf(),
        ensures
            final(self).wf(),
            final(self).input == old(self).input,
            final(self).position == word_end(old(self).input@, old(self).position as int),
            word@ == old(self).input@.subrange(old(self).position as int, final(self).position as int),
    {
        let position = self.position;
        let ghost s = self.input@;
        while self.position < self.len && (self.ch.is_alphabetic() || self.ch == '_')
            invariant
                self.wf(),
                self.input == old(self).input,
                s == self.input@,
                position <= self.position,
                word_end(s, position as int) == word_end(s, self.position as int),
            decreases self.len - self.position,
        {
            self.read_char();
        }
        self.slice(position, self.position)
    }

    /// Reads a number: digits as far as they go. The lexer then stands at
    /// the first character that is none.
    fn read_number(&mut self) -> (token: Token)
        requires
            old(self).wf(),
        ensures
            final(self).wf(),
            final(self).input == old(self).input,
            final(self).position == number_end(old(self).input@, old(self).position as int),
            token@ == number_token(
                old(self).input@.subrange(old(self).position as int, final(self).position as int),
            ),
    {
        let position = self.position;
        let ghost s = self.input@;
        while self.position < self.len && self.ch >= '0' && self.ch <= '9'
            invariant
                self.wf(),
                self.input == old(self).input,
                s == self.input@,
                position <= self.position,
                number_end(s, position as int) == number_end(s, self.position as int),
            decreases self.len - self.position,
        {
            self.read_char();
        }
        let digits = self.slice(position, self.position);
        match crate::text::parse_i32(digits.as_str()) {
            Some(n) => Token::Integer(n),
            None => Token::Illegal,
        }
    }

    /// Reads a string: from behind the quote at which the lexer stands up to
    /// the next quote. The lexer then stands behind that quote. Where no
    /// quote follows, the token is `Illegal` and the lexer stands at the end.
    fn read_string(&mut self) -> (token: Token)
        requires
            old(self).wf(),
            old(self).position < old(self).len,
        ensures
            final(self).wf(),
            final(self).input == old(self).input,
            (token@, final(self).position as int) == ({
                let s = old(self).input@;
                let end = quote_at(s, old(self).position + 1);
                if end < s.len() {
                    (TokenView::String(s.subrange(old(self).position + 1, end)), end + 1)
                } else {
                    (TokenView::Illegal, s.len() as int)
                }
            }),
    {
        let position = self.position + 1;
        let ghost s = self.input@;
        self.read_char();
        while self.position < self.len && self.ch != '\''
            invariant
                self.wf(),
                self.input == old(self).input,
                s == self.input@,
                position <= self.position,
                quote_at(s, position as int) == quote_at(s, self.position as int),
            decreases self.len - self.position,
        {
            self.read_char();
        }
        if self.position < self.len {
            let text = self.slice(position, self.position);
            self.read_char();
            Token::String(text)
        } else {
            Token::Illegal
        }
    }

    /// Goes on by one character, unless the text has ended.
    fn read_char(&mut self)
        requires
            old(self).wf(),
        ensures
            final(self).wf(),
            final(self).input == old(self).input,
            final(self).position == if old(self).position < old(self).len {
                old(self).position + 1
            } else {
                old(self).position as int
            },
    {
        if self.position < self.len {
            self.position += 1;
        }
        self.load_char();
    }

    /// Takes up the character at which the lexer stands.
    fn load_char(&mut self)
        requires
            old(self).len == old(self).input@.len(),
            old(self).position <= old(self).len,
        ensures
            final(self).wf(),
            final(self).input == old(self).input,
            final(self).position == old(self).position,
    {
        if self.position >= self.len {
            self.ch = '\0';
        } else {
            self.ch = self.input.as_str().get_char(self.position);
        }
    }

    /// Passes over white space.
    fn skip_whitespace(&mut self)
        requires
            old(self).wf(),
        ensures
            final(self).wf(),
            final(self).input == old(self).input,
            final(self).position == after_whitespace(old(self).input@, old(self).position as int),
    {
        let ghost s = self.input@;
        while self.position < self.len && self.ch.is_whitespace()
            invariant
                self.wf(),
                self.input == old(self).input,
                s == self.input@,
                after_whitespace(s, old(self).position as int) == after_whitespace(s, self.position as int),
            decreases self.len - self.position,
        {
            self.read_char();
        }
    }
}

} // verus!
