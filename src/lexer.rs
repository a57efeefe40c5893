//! Turns source text into tokens, one at a time.

use vstd::prelude::*;
use crate::text::{
    alphabetic, alphanumeric, append, chars_of, decimal_value, is_alphabetic, is_alphanumeric,
    is_digit, push_char, same_chars, string_of,
};

verus! {

/// A classified lexical unit.
#[derive(Debug, PartialEq)]
pub enum Token {
    Identifier(String),
    Number(i64),
    Text(String),
    Plus,
    Minus,
    Multiply,
    Equals,
    GreaterThan,
    LeftParen,
    RightParen,
    LeftBrace,
    RightBrace,
    Comma,
    Colon,
    Package,
    Import,
    From,
    To,
    Msg,
    If,
    Else,
    Function,
    Return,
    Exit,
    Input,
    Get,
    Async,
}

impl Token {
    /// A copy of this token.
    pub fn duplicate(&self) -> (r: Token)
        ensures
            r == *self,
    {
        match self {
            Token::Identifier(n) => Token::Identifier(n.clone()),
            Token::Number(v) => Token::Number(*v),
            Token::Text(t) => Token::Text(t.clone()),
            Token::Plus => Token::Plus,
            Token::Minus => Token::Minus,
            Token::Multiply => Token::Multiply,
            Token::Equals => Token::Equals,
            Token::GreaterThan => Token::GreaterThan,
            Token::LeftParen => Token::LeftParen,
            Token::RightParen => Token::RightParen,
            Token::LeftBrace => Token::LeftBrace,
            Token::RightBrace => Token::RightBrace,
            Token::Comma => Token::Comma,
            Token::Colon => Token::Colon,
            Token::Package => Token::Package,
            Token::Import => Token::Import,
            Token::From => Token::From,
            Token::To => Token::To,
            Token::Msg => Token::Msg,
            Token::If => Token::If,
            Token::Else => Token::Else,
            Token::Function => Token::Function,
            Token::Return => Token::Return,
            Token::Exit => Token::Exit,
            Token::Input => Token::Input,
            Token::Get => Token::Get,
            Token::Async => Token::Async,
        }
    }
}

/// A lexical error, at the 1-based line and column of the character at fault.
#[derive(Debug, PartialEq)]
pub struct LexError {
    pub message: String,
    pub line: usize,
    pub column: usize,
}

/// The line of position `p`: one more than the newlines before it.
pub open spec fn line_at(s: Seq<char>, p: int) -> int
    decreases p,
{
    if p <= 0 {
        1
    } else if s[p - 1] == '\n' {
        line_at(s, p - 1) + 1
    } else {
        line_at(s, p - 1)
    }
}

/// The column of position `p`: one more than the characters since the last
/// newline before it.
pub open spec fn column_at(s: Seq<char>, p: int) -> int
    decreases p,
{
    if p <= 0 {
        1
    } else if s[p - 1] == '\n' {
        1
    } else {
        column_at(s, p - 1) + 1
    }
}

pub open spec fn is_space(c: char) -> bool {
    c == ' ' || c == '\t' || c == '\r' || c == '\n'
}

/// The first position at or after `p` that holds no whitespace.
pub open spec fn skip_space(s: Seq<char>, p: int) -> int
    decreases s.len() - p,
{
    if 0 <= p < s.len() && is_space(s[p]) {
        skip_space(s, p + 1)
    } else {
        p
    }
}

/// The end of the run of ASCII digits that starts at `p`.
pub open spec fn digits_end(s: Seq<char>, p: int) -> int
    decreases s.len() - p,
{
    if 0 <= p < s.len() && is_digit(s[p]) {
        digits_end(s, p + 1)
    } else {
        p
    }
}

/// The end of the run of alphanumeric characters that starts at `p`.
pub open spec fn word_end(s: Seq<char>, p: int) -> int
    decreases s.len() - p,
{
    if 0 <= p < s.len() && alphanumeric(s[p]) {
        word_end(s, p + 1)
    } else {
        p
    }
}

/// The position of the first `"` at or after `p`, or the length of `s`.
pub open spec fn quote_at(s: Seq<char>, p: int) -> int
    decreases s.len() - p,
{
    if p < 0 || p >= s.len() {
        s.len() as int
    } else if s[p] == '"' {
        p
    } else {
        quote_at(s, p + 1)
    }
}

/// The token of a keyword, if `w` is one.
pub open spec fn keyword(w: Seq<char>) -> Option<Token> {
    if w == "package"@ {
        Some(Token::Package)
    } else if w == "import"@ {
        Some(Token::Import)
    } else if w == "from"@ {
        Some(Token::From)
    } else if w == "to"@ {
        Some(Token::To)
    } else if w == "msg"@ {
        Some(Token::Msg)
    } else if w == "if"@ {
        Some(Token::If)
    } else if w == "else"@ {
        Some(Token::Else)
    } else if w == "function"@ {
        Some(Token::Function)
    } else if w == "return"@ {
        Some(Token::Return)
    } else if w == "exit"@ {
        Some(Token::Exit)
    } else if w == "input"@ {
        Some(Token::Input)
    } else if w == "get"@ {
        Some(Token::Get)
    } else if w == "async"@ {
        Some(Token::Async)
    } else {
        None
    }
}

/// The token of a single-character operator or delimiter.
pub open spec fn symbol(c: char) -> Option<Token> {
    if c == '=' {
        Some(Token::Equals)
    } else if c == '+' {
        Some(Token::Plus)
    } else if c == '-' {
        Some(Token::Minus)
    } else if c == '*' {
        Some(Token::Multiply)
    } else if c == '(' {
        Some(Token::LeftParen)
    } else if c == ')' {
        Some(Token::RightParen)
    } else if c == '{' {
        Some(Token::LeftBrace)
    } else if c == '}' {
        Some(Token::RightBrace)
    } else if c == ',' {
        Some(Token::Comma)
    } else if c == ':' {
        Some(Token::Colon)
    } else {
        None
    }
}

/// `r` is the error `message` at position `p` of `s`.
pub open spec fn is_error_at(
    r: Option<Result<Token, LexError>>,
    message: Seq<char>,
    s: Seq<char>,
    p: int,
) -> bool {
    &&& r matches Some(Err(e))
    &&& r->0->Err_0.message@ == message
    &&& r->0->Err_0.line == line_at(s, p)
    &&& r->0->Err_0.column == column_at(s, p)
}

pub open spec fn unexpected_message(c: char) -> Seq<char> {
    "Unexpected character: '"@.push(c) + "'"@
}

/// Scanning `s` from position `start` gives `r` and leaves off at `end`.
pub open spec fn scanned(
    s: Seq<char>,
    start: int,
    r: Option<Result<Token, LexError>>,
    end: int,
) -> bool {
    let p = skip_space(s, start);
    if p >= s.len() {
        r is None && end == s.len()
    } else {
        let c = s[p];
        if c == '"' {
            let q = quote_at(s, p + 1);
            if q < s.len() {
                &&& end == q + 1
                &&& r matches Some(Ok(Token::Text(t)))
                &&& r->0->Ok_0->Text_0@ == s.subrange(p + 1, q)
            } else {
                end == s.len() && is_error_at(r, "Unterminated string literal"@, s, p)
            }
        } else if is_digit(c) {
            let e = digits_end(s, p);
            let v = decimal_value(s.subrange(p, e));
            &&& end == e
            &&& if v <= i64::MAX {
                r == Some(Ok::<Token, LexError>(Token::Number(v as i64)))
            } else {
                is_error_at(r, "Number literal out of range"@, s, p)
            }
        } else if alphabetic(c) {
            let e = word_end(s, p + 1);
            let w = s.subrange(p, e);
            &&& end == e
            &&& match keyword(w) {
                Some(k) => r == Some(Ok::<Token, LexError>(k)),
                None => r matches Some(Ok(Token::Identifier(n))) && r->0->Ok_0->Identifier_0@
                    == w,
            }
        } else if symbol(c) is Some {
            end == p + 1 && r == Some(Ok::<Token, LexError>(symbol(c)->0))
        } else {
            end == p + 1 && is_error_at(r, unexpected_message(c), s, p)
        }
    }
}

proof fn lemma_position_bounds(s: Seq<char>, p: int)
    requires
        0 <= p <= s.len(),
    ensures
        1 <= line_at(s, p) <= p + 1,
        1 <= column_at(s, p) <= p + 1,
    decreases p,
{
    if p > 0 {
        lemma_position_bounds(s, p - 1);
    }
}

proof fn lemma_digits_nonneg(d: Seq<char>)
    requires
        forall|i: int| 0 <= i < d.len() ==> is_digit(#[trigger] d[i]),
    ensures
        decimal_value(d) >= 0,
    decreases d.len(),
{
    if d.len() > 0 {
        lemma_digits_nonneg(d.drop_last());
    }
}

proof fn lemma_run_ends(s: Seq<char>, q: int)
    requires
        0 <= q <= s.len(),
    ensures
        q <= quote_at(s, q) <= s.len(),
        q <= digits_end(s, q) <= s.len(),
        q <= word_end(s, q) <= s.len(),
    decreases s.len() - q,
{
    if q < s.len() {
        lemma_run_ends(s, q + 1);
    }
}

fn space_char(c: char) -> (r: bool)
    ensures
        r == is_space(c),
{
    c == ' ' || c == '\t' || c == '\r' || c == '\n'
}

fn digit_char(c: char) -> (r: bool)
    ensures
        r == is_digit(c),
{
    '0' <= c && c <= '9'
}

fn symbol_of(c: char) -> (r: Option<Token>)
    ensures
        r == symbol(c),
{
    match c {
        '=' => Some(Token::Equals),
        '+' => Some(Token::Plus),
        '-' => Some(Token::Minus),
        '*' => Some(Token::Multiply),
        '(' => Some(Token::LeftParen),
        ')' => Some(Token::RightParen),
        '{' => Some(Token::LeftBrace),
        '}' => Some(Token::RightBrace),
        ',' => Some(Token::Comma),
        ':' => Some(Token::Colon),
        _ => None,
    }
}

fn keyword_of(w: &Vec<char>) -> (r: Option<Token>)
    ensures
        r == keyword(w@),
{
    if same_chars(w, "package") {
        Some(Token::Package)
    } else if same_chars(w, "import") {
        Some(Token::Import)
    } else if same_chars(w, "from") {
        Some(Token::From)
    } else if same_chars(w, "to") {
        Some(Token::To)
    } else if same_chars(w, "msg") {
        Some(Token::Msg)
    } else if same_chars(w, "if") {
        Some(Token::If)
    } else if same_chars(w, "else") {
        Some(Token::Else)
    } else if same_chars(w, "function") {
        Some(Token::Function)
    } else if same_chars(w, "return") {
        Some(Token::Return)
    } else if same_chars(w, "exit") {
        Some(Token::Exit)
    } else if same_chars(w, "input") {
        Some(Token::Input)
    } else if same_chars(w, "get") {
        Some(Token::Get)
    } else if same_chars(w, "async") {
        Some(Token::Async)
    } else {
        None
    }
}

/// A lexer over one source text.
pub struct Lexer {
    input: Vec<char>,
    position: usize,
    line: usize,
    column: usize,
}

impl Lexer {
    /// The characters that are scanned.
    pub closed spec fn source(&self) -> Seq<char> {
        self.input@
    }

    /// The position of the next character to scan.
    pub closed spec fn pos(&self) -> int {
        self.position as int
    }

    pub closed spec fn wf(&self) -> bool {
        &&& self.input@.len() < usize::MAX
        &&& self.position <= self.input@.len()
        &&& self.line == line_at(self.input@, self.position as int)
        &&& self.column == column_at(self.input@, self.position as int)
    }

    pub fn new(input: &str) -> (r: Lexer)
        requires
            input@.len() < usize::MAX,
        ensures
            r.wf(),
            r.source() == input@,
            r.pos() == 0,
    {
        Lexer { input: chars_of(input), position: 0, line: 1, column: 1 }
    }

    fn error_at(&self, message: String, line: usize, column: usize) -> (r: Option<
        Result<Token, LexError>,
    >)
        ensures
            r == Some(Err::<Token, LexError>(LexError { message, line, column })),
    {
        Some(Err(LexError { message, line, column }))
    }

    /// Consumes the next character, keeping the line and column in step.
    fn next_char(&mut self) -> (r: Option<char>)
        requires
            old(self).wf(),
        ensures
            final(self).wf(),
            final(self).input@ == old(self).input@,
            old(self).position < old(self).input@.len() ==> r == Some(
                old(self).input@[old(self).position as int],
            ) && final(self).position == old(self).position + 1,
            old(self).position >= old(self).input@.len() ==> r is None && final(self).position
                == old(self).position,
    {
        if self.position < self.input.len() {
            let ch = self.input[self.position];
            proof {
                lemma_position_bounds(self.input@, self.position + 1);
            }
            self.position = self.position + 1;
            if ch == '\n' {
                self.line = self.line + 1;
                self.column = 1;
            } else {
                self.column = self.column + 1;
            }
            Some(ch)
        } else {
            None
        }
    }

    /// Scans the next token. Whitespace is skipped; `None` marks the end of
    /// the input.
    pub fn next_token(&mut self) -> (r: Option<Result<Token, LexError>>)
        requires
            old(self).wf(),
        ensures
            final(self).wf(),
            final(self).source() == old(self).source(),
            scanned(old(self).source(), old(self).pos(), r, final(self).pos()),
    {
        let ghost s = self.input@;
        let ghost start = self.position as int;
        loop
            invariant
                self.wf(),
                self.input@ == s,
                start <= self.position,
                skip_space(s, start) == skip_space(s, self.position as int),
            ensures
                self.wf(),
                self.input@ == s,
                skip_space(s, start) == skip_space(s, self.position as int),
                self.position >= s.len() || !is_space(s[self.position as int]),
            decreases s.len() - self.position,
        {
            match self.peek_char() {
                Some(c) => {
                    if space_char(c) {
                        self.next_char();
                    } else {
                        break;
                    }
                },
                None => {
                    break;
                },
            }
        }
        let ghost p = self.position as int;
        assert(p >= s.len() || !is_space(s[p]));
        assert(skip_space(s, start) == p);
        let line = self.line;
        let column = self.column;
        let c = match self.next_char() {
            Some(c) => c,
            None => {
                return None;
            },
        };
        proof {
            lemma_run_ends(s, p + 1);
        }
        if c == '"' {
            let mut text = String::new();
            loop
                invariant
                    self.wf(),
                    self.input@ == s,
                    0 <= p < s.len(),
                    s == old(self).input@,
                    start == old(self).position,
                    p + 1 <= self.position <= quote_at(s, p + 1),
                    quote_at(s, p + 1) <= s.len(),
                    skip_space(s, start) == p,
                    s[p] == '"',
                    quote_at(s, p + 1) == quote_at(s, self.position as int),
                    text@ == s.subrange(p + 1, self.position as int),
                    line == line_at(s, p),
                    column == column_at(s, p),
                decreases s.len() - self.position,
            {
                proof {
                    if self.position < s.len() {
                        lemma_run_ends(s, self.position + 1);
                    }
                }
                match self.next_char() {
                    Some(next) => {
                        if next == '"' {
                            return Some(Ok(Token::Text(text)));
                        }
                        push_char(&mut text, next);
                        assert(text@ =~= s.subrange(p + 1, self.position as int));
                    },
                    None => {
                        let mut message = String::new();
                        append(&mut message, "Unterminated string literal");
                        return self.error_at(message, line, column);
                    },
                }
            }
        }
        if digit_char(c) {
            let mut value: u64 = (c as u32 - '0' as u32) as u64;
            let mut overflow = false;
            assert(s.subrange(p, p + 1).drop_last() =~= Seq::<char>::empty());
            assert(s.subrange(p, p + 1).last() == c);
            assert(digits_end(s, p) == digits_end(s, p + 1));
            assert(decimal_value(Seq::<char>::empty()) == 0);
            assert(decimal_value(s.subrange(p, p + 1)) == c as int - '0' as int);
            loop
                invariant
                    self.wf(),
                    self.input@ == s,
                    0 <= p < s.len(),
                    s == old(self).input@,
                    start == old(self).position,
                    p + 1 <= self.position <= digits_end(s, p),
                    digits_end(s, p) <= s.len(),
                    digits_end(s, p) == digits_end(s, self.position as int),
                    forall|i: int| p <= i < self.position ==> is_digit(#[trigger] s[i]),
                    !overflow ==> value == decimal_value(s.subrange(p, self.position as int))
                        && value <= i64::MAX,
                    overflow ==> decimal_value(s.subrange(p, self.position as int)) > i64::MAX,
                    line == line_at(s, p),
                    column == column_at(s, p),
                ensures
                    self.wf(),
                    self.input@ == s,
                    self.position == digits_end(s, p),
                    !overflow ==> value == decimal_value(s.subrange(p, self.position as int))
                        && value <= i64::MAX,
                    overflow ==> decimal_value(s.subrange(p, self.position as int)) > i64::MAX,
                    line == line_at(s, p),
                    column == column_at(s, p),
                decreases s.len() - self.position,
            {
                match self.peek_char() {
                    Some(next) => {
                        if !digit_char(next) {
                            break;
                        }
                        let ghost q = self.position as int;
                        proof {
                            lemma_run_ends(s, q + 1);
                        }
                        let d: u64 = (next as u32 - '0' as u32) as u64;
                        self.next_char();
                        assert(s.subrange(p, q + 1).drop_last() =~= s.subrange(p, q));
                        proof {
                            lemma_digits_nonneg(s.subrange(p, q));
                        }
                        if !overflow {
                            if value <= (9223372036854775807u64 - d) / 10 {
                                value = value * 10 + d;
                            } else {
                                overflow = true;
                            }
                        }
                    },
                    None => {
                        break;
                    },
                }
            }
            if overflow {
                let mut message = String::new();
                append(&mut message, "Number literal out of range");
                return self.error_at(message, line, column);
            }
            return Some(Ok(Token::Number(value as i64)));
        }
        if is_alphabetic(c) {
            let mut word: Vec<char> = Vec::new();
            word.push(c);
            loop
                invariant
                    self.wf(),
                    self.input@ == s,
                    0 <= p < s.len(),
                    s == old(self).input@,
                    start == old(self).position,
                    p + 1 <= self.position <= word_end(s, p + 1),
                    word_end(s, p + 1) <= s.len(),
                    word_end(s, p + 1) == word_end(s, self.position as int),
                    word@ == s.subrange(p, self.position as int),
                ensures
                    self.wf(),
                    self.input@ == s,
                    self.position == word_end(s, p + 1),
                    word@ == s.subrange(p, self.position as int),
                decreases s.len() - self.position,
            {
                match self.peek_char() {
                    Some(next) => {
                        if !is_alphanumeric(next) {
                            break;
                        }
                        proof {
                            lemma_run_ends(s, self.position + 1);
                        }
                        self.next_char();
                        word.push(next);
                        assert(word@ =~= s.subrange(p, self.position as int));
                    },
                    None => {
                        break;
                    },
                }
            }
            return match keyword_of(&word) {
                Some(k) => Some(Ok(k)),
                None => Some(Ok(Token::Identifier(string_of(&word)))),
            };
        }
        match symbol_of(c) {
            Some(t) => Some(Ok(t)),
            None => {
                let mut message = String::new();
                append(&mut message, "Unexpected character: '");
                push_char(&mut message, c);
                append(&mut message, "'");
                self.error_at(message, line, column)
            },
        }
    }

    /// The next character, left in place.
    fn peek_char(&self) -> (r: Option<char>)
        ensures
            self.position < self.input@.len() ==> r == Some(self.input@[self.position as int]),
            self.position >= self.input@.len() ==> r is None,
    {
        if self.position < self.input.len() {
            Some(self.input[self.position])
        } else {
            None
        }
    }
}

} // verus!
