//! Recursive-descent parser from tokens to a program tree.

use vstd::prelude::*;
use crate::ast::{
    ASTNode, Expr, ExprModel, StmtModel, Value, ValueModel, exprs_model, stmts_model, strings_model,
};
use crate::error::{Error, ErrorModel};
use crate::lexer::Token;
use crate::text::{append, int_text, push_int};

verus! {

/// Puts the elements of `acc` in front of a successful result.
pub open spec fn prefixed<T>(acc: Seq<T>, r: Parsed<Seq<T>>) -> Parsed<Seq<T>> {
    match r {
        Ok((rest, q)) => Ok((acc + rest, q)),
        Err(m) => Err(m),
    }
}

/// Puts the elements of `acc` in front of a successful program.
pub open spec fn prefixed_program(
    acc: Seq<StmtModel>,
    r: Result<Seq<StmtModel>, Seq<char>>,
) -> Result<Seq<StmtModel>, Seq<char>> {
    match r {
        Ok(rest) => Ok(acc + rest),
        Err(m) => Err(m),
    }
}

pub open spec fn expr_outcome(r: Result<Expr, Error>, s: Parsed<ExprModel>, end: int) -> bool {
    match s {
        Ok((e, q)) => r is Ok && r->Ok_0.model() == e && end == q,
        Err(m) => r is Err && r->Err_0.model() == ErrorModel::Syntax(m),
    }
}

pub open spec fn exprs_outcome(
    r: Result<Vec<Expr>, Error>,
    s: Parsed<Seq<ExprModel>>,
    end: int,
) -> bool {
    match s {
        Ok((e, q)) => r is Ok && exprs_model(r->Ok_0@) == e && end == q,
        Err(m) => r is Err && r->Err_0.model() == ErrorModel::Syntax(m),
    }
}

pub open spec fn stmt_outcome(r: Result<ASTNode, Error>, s: Parsed<StmtModel>, end: int) -> bool {
    match s {
        Ok((e, q)) => r is Ok && r->Ok_0.model() == e && end == q,
        Err(m) => r is Err && r->Err_0.model() == ErrorModel::Syntax(m),
    }
}

pub open spec fn stmts_outcome(
    r: Result<Vec<ASTNode>, Error>,
    s: Parsed<Seq<StmtModel>>,
    end: int,
) -> bool {
    match s {
        Ok((e, q)) => r is Ok && stmts_model(r->Ok_0@) == e && end == q,
        Err(m) => r is Err && r->Err_0.model() == ErrorModel::Syntax(m),
    }
}

/// What a parsing function yields on success: the tree and the position
/// after it; on failure, the message of the syntax error.
pub type Parsed<T> = Result<(T, int), Seq<char>>;

/// How a token is named in a syntax error.
pub open spec fn token_text(t: Token) -> Seq<char> {
    match t {
        Token::Identifier(n) => "Identifier(\""@ + n@ + "\")"@,
        Token::Number(v) => "Number("@ + int_text(v as int) + ")"@,
        Token::Text(s) => "Text(\""@ + s@ + "\")"@,
        Token::Plus => "Plus"@,
        Token::Minus => "Minus"@,
        Token::Multiply => "Multiply"@,
        Token::Equals => "Equals"@,
        Token::GreaterThan => "GreaterThan"@,
        Token::LeftParen => "LeftParen"@,
        Token::RightParen => "RightParen"@,
        Token::LeftBrace => "LeftBrace"@,
        Token::RightBrace => "RightBrace"@,
        Token::Comma => "Comma"@,
        Token::Colon => "Colon"@,
        Token::Package => "Package"@,
        Token::Import => "Import"@,
        Token::From => "From"@,
        Token::To => "To"@,
        Token::Msg => "Msg"@,
        Token::If => "If"@,
        Token::Else => "Else"@,
        Token::Function => "Function"@,
        Token::Return => "Return"@,
        Token::Exit => "Exit"@,
        Token::Input => "Input"@,
        Token::Get => "Get"@,
        Token::Async => "Async"@,
    }
}

/// Whether position `p` of `t` holds a token of the kind `k`, fields aside.
pub open spec fn kind_at(t: Seq<Token>, p: int, k: Token) -> bool {
    0 <= p < t.len() && match (t[p], k) {
        (Token::Identifier(_), Token::Identifier(_)) => true,
        (Token::Number(_), Token::Number(_)) => true,
        (Token::Text(_), Token::Text(_)) => true,
        (a, b) => a == b,
    }
}

pub open spec fn operator_text(k: Token) -> Option<Seq<char>> {
    match k {
        Token::Plus => Some("+"@),
        Token::Minus => Some("-"@),
        Token::Multiply => Some("*"@),
        _ => None,
    }
}

/// A primary expression: a literal, a variable, or a call.
pub open spec fn primary(t: Seq<Token>, p: int) -> Parsed<ExprModel>
    decreases t.len() - p, 1int,
{
    if p < 0 || p >= t.len() {
        Err("Unexpected end of input in expression"@)
    } else {
        match t[p] {
            Token::Number(n) => Ok((ExprModel::Literal(ValueModel::Number(n as int)), p + 1)),
            Token::Text(s) => Ok((ExprModel::Literal(ValueModel::Text(s@)), p + 1)),
            Token::Identifier(name) => {
                if kind_at(t, p + 1, Token::LeftParen) {
                    match expression_list(t, p + 2) {
                        Err(m) => Err(m),
                        Ok((args, q)) => {
                            if kind_at(t, q, Token::RightParen) {
                                Ok((ExprModel::FunctionCall(name@, args), q + 1))
                            } else {
                                Err("Expected ')' after function call arguments"@)
                            }
                        },
                    }
                } else {
                    Ok((ExprModel::Variable(name@), p + 1))
                }
            },
            other => Err("Unexpected token in expression: "@ + token_text(other)),
        }
    }
}

/// The operators and operands after a left operand `lhs`, grouped to the
/// left.
pub open spec fn operations(t: Seq<Token>, lhs: ExprModel, p: int) -> Parsed<ExprModel>
    decreases t.len() - p, 0int,
{
    if 0 <= p < t.len() && operator_text(t[p]) is Some {
        match primary(t, p + 1) {
            Err(m) => Err(m),
            Ok((rhs, q)) => {
                if q <= p + 1 || q > t.len() {
                    Err(Seq::empty())
                } else {
                    operations(
                        t,
                        ExprModel::BinaryOp(Box::new(lhs), operator_text(t[p])->0, Box::new(rhs)),
                        q,
                    )
                }
            },
        }
    } else {
        Ok((lhs, p))
    }
}

/// An expression: `primary (op primary)*`, with one precedence for all.
pub open spec fn expression(t: Seq<Token>, p: int) -> Parsed<ExprModel>
    decreases t.len() - p, 2int,
{
    match primary(t, p) {
        Err(m) => Err(m),
        Ok((e, q)) => {
            if q <= p || q > t.len() {
                Err(Seq::empty())
            } else {
                operations(t, e, q)
            }
        },
    }
}

/// One or more expressions separated by commas.
pub open spec fn expression_items(t: Seq<Token>, p: int) -> Parsed<Seq<ExprModel>>
    decreases t.len() - p, 3int,
{
    match expression(t, p) {
        Err(m) => Err(m),
        Ok((e, q)) => {
            if q <= p || q > t.len() {
                Err(Seq::empty())
            } else if kind_at(t, q, Token::Comma) {
                match expression_items(t, q + 1) {
                    Err(m) => Err(m),
                    Ok((rest, r)) => Ok((seq![e] + rest, r)),
                }
            } else {
                Ok((seq![e], q))
            }
        },
    }
}

/// The arguments of a call, up to (not including) the closing `)`.
pub open spec fn expression_list(t: Seq<Token>, p: int) -> Parsed<Seq<ExprModel>>
    decreases t.len() - p, 4int,
{
    if p < 0 || p >= t.len() || kind_at(t, p, Token::RightParen) {
        Ok((Seq::empty(), p))
    } else {
        expression_items(t, p)
    }
}

/// A statement that starts with the identifier at `p`: an assignment or a
/// call. `messages` are the errors for a missing `)`, for another token
/// after the name, and for the end of input after it.
pub open spec fn named_statement(
    t: Seq<Token>,
    p: int,
    name: Seq<char>,
    messages: (Seq<char>, Seq<char>, Seq<char>),
) -> Parsed<StmtModel>
    decreases t.len() - p, 5int,
{
    if p + 1 >= t.len() || p < 0 {
        Err(messages.2)
    } else if kind_at(t, p + 1, Token::Equals) {
        match expression(t, p + 2) {
            Err(m) => Err(m),
            Ok((e, q)) => Ok((StmtModel::Variable(name, e), q)),
        }
    } else if kind_at(t, p + 1, Token::LeftParen) {
        match expression_list(t, p + 2) {
            Err(m) => Err(m),
            Ok((args, q)) => {
                if kind_at(t, q, Token::RightParen) {
                    Ok((StmtModel::FunctionCall(name, args), q + 1))
                } else {
                    Err(messages.0)
                }
            },
        }
    } else {
        Err(messages.1)
    }
}

/// The statements of a block after its `{`, through the closing `}`.
pub open spec fn block(t: Seq<Token>, p: int) -> Parsed<Seq<StmtModel>>
    decreases t.len() - p, 7int,
{
    if p < 0 || p >= t.len() {
        Err("Expected '}' to close block"@)
    } else if kind_at(t, p, Token::RightBrace) {
        Ok((Seq::empty(), p + 1))
    } else {
        match block_statement(t, p) {
            Err(m) => Err(m),
            Ok((st, q)) => {
                if q <= p || q > t.len() {
                    Err(Seq::empty())
                } else {
                    match block(t, q) {
                        Err(m) => Err(m),
                        Ok((rest, r)) => Ok((seq![st] + rest, r)),
                    }
                }
            },
        }
    }
}

/// One statement inside a block: an assignment, a call or a message.
pub open spec fn block_statement(t: Seq<Token>, p: int) -> Parsed<StmtModel>
    decreases t.len() - p, 6int,
{
    if p < 0 || p >= t.len() {
        Err("Unexpected end of input in block"@)
    } else {
        match t[p] {
            Token::Identifier(name) => named_statement(
                t,
                p,
                name@,
                (
                    "Expected ')' in function call"@,
                    "Unexpected token in block after identifier"@,
                    "Unexpected end of input in block"@,
                ),
            ),
            Token::Msg => {
                if kind_at(t, p + 1, Token::Text(arbitrary())) {
                    Ok((StmtModel::Msg(t[p + 1]->Text_0@), p + 2))
                } else {
                    Err("Expected message string in block"@)
                }
            },
            other => Err("Unexpected token in block: "@ + token_text(other)),
        }
    }
}

/// The parameter list of a function definition from `p`, through its `)`:
/// the name given by a `name=X` entry (the last one, if several) and the
/// plain parameter names in order. Running out of tokens ends the list.
pub open spec fn parameters(
    t: Seq<Token>,
    p: int,
    name: Seq<char>,
    params: Seq<Seq<char>>,
) -> Parsed<(Seq<char>, Seq<Seq<char>>)>
    decreases t.len() - p,
{
    if p < 0 || p >= t.len() {
        Ok(((name, params), t.len() as int))
    } else {
        match t[p] {
            Token::RightParen => Ok(((name, params), p + 1)),
            Token::Comma => parameters(t, p + 1, name, params),
            Token::Identifier(n) => {
                if kind_at(t, p + 1, Token::Equals) {
                    if kind_at(t, p + 2, Token::Identifier(arbitrary())) {
                        parameters(t, p + 3, t[p + 2]->Identifier_0@, params)
                    } else {
                        Err("Expected function name after '='"@)
                    }
                } else {
                    parameters(t, p + 1, name, params.push(n@))
                }
            },
            other => Err("Unexpected token in function parameters: "@ + token_text(other)),
        }
    }
}

/// `if ( expr ) { ... } [else { ... }]`, from the `if` at `p`.
pub open spec fn if_statement(t: Seq<Token>, p: int) -> Parsed<StmtModel>
    decreases t.len() - p, 8int,
{
    if !kind_at(t, p + 1, Token::LeftParen) {
        Err("Expected '(' after if"@)
    } else {
        match expression(t, p + 2) {
            Err(m) => Err(m),
            Ok((cond, q)) => {
                if !kind_at(t, q, Token::RightParen) {
                    Err("Expected ')' after if condition"@)
                } else if !kind_at(t, q + 1, Token::LeftBrace) {
                    Err("Expected '{' after if condition"@)
                } else {
                    match block(t, q + 2) {
                        Err(m) => Err(m),
                        Ok((then_body, r)) => {
                            if kind_at(t, r, Token::Else) {
                                if !kind_at(t, r + 1, Token::LeftBrace) {
                                    Err("Expected '{' after else"@)
                                } else {
                                    match block(t, r + 2) {
                                        Err(m) => Err(m),
                                        Ok((else_body, u)) => Ok(
                                            (StmtModel::If(cond, then_body, else_body), u),
                                        ),
                                    }
                                }
                            } else {
                                Ok((StmtModel::If(cond, then_body, Seq::empty()), r))
                            }
                        },
                    }
                }
            },
        }
    }
}

/// `function ( [name=X,] params ) { ... }`, from the `function` at `p`.
pub open spec fn function_statement(t: Seq<Token>, p: int) -> Parsed<StmtModel>
    decreases t.len() - p, 8int,
{
    if !kind_at(t, p + 1, Token::LeftParen) {
        Err("Expected '(' after function"@)
    } else {
        match parameters(t, p + 2, Seq::empty(), Seq::empty()) {
            Err(m) => Err(m),
            Ok(((name, params), q)) => {
                if !kind_at(t, q, Token::LeftBrace) {
                    Err("Expected '{' to start function body"@)
                } else {
                    match block(t, q + 1) {
                        Err(m) => Err(m),
                        Ok((body, r)) => Ok((StmtModel::Function(name, params, body), r)),
                    }
                }
            },
        }
    }
}

/// `import from X [to Y]`, from the `import` at `p`.
pub open spec fn import_statement(t: Seq<Token>, p: int) -> Parsed<StmtModel> {
    if !kind_at(t, p + 1, Token::From) {
        Err("Expected 'from' in import statement"@)
    } else if !kind_at(t, p + 2, Token::Identifier(arbitrary())) {
        Err("Expected package name after 'from'"@)
    } else if kind_at(t, p + 3, Token::To) {
        if kind_at(t, p + 4, Token::Identifier(arbitrary())) {
            Ok(
                (
                    StmtModel::Import(t[p + 2]->Identifier_0@, Some(t[p + 4]->Identifier_0@)),
                    p + 5,
                ),
            )
        } else {
            Err("Expected target package for import"@)
        }
    } else {
        Ok((StmtModel::Import(t[p + 2]->Identifier_0@, None), p + 3))
    }
}

/// One top-level statement, from position `p`.
pub open spec fn statement(t: Seq<Token>, p: int) -> Parsed<StmtModel>
    decreases t.len() - p, 9int,
{
    if p < 0 || p >= t.len() {
        Err(Seq::empty())
    } else {
        match t[p] {
            Token::Package => {
                if kind_at(t, p + 1, Token::Identifier(arbitrary())) {
                    Ok((StmtModel::Package(t[p + 1]->Identifier_0@), p + 2))
                } else {
                    Err("Expected package name"@)
                }
            },
            Token::Import => import_statement(t, p),
            Token::Msg => {
                if kind_at(t, p + 1, Token::Text(arbitrary())) {
                    Ok((StmtModel::Msg(t[p + 1]->Text_0@), p + 2))
                } else {
                    Err("Expected message string"@)
                }
            },
            Token::If => if_statement(t, p),
            Token::Function => function_statement(t, p),
            Token::Exit => Ok((StmtModel::Exit, p + 1)),
            Token::Identifier(name) => named_statement(
                t,
                p,
                name@,
                (
                    "Expected ')' after function call arguments"@,
                    "Expected '=' for variable assignment or '(' for function call after identifier"@,
                    "Unexpected end of input after identifier"@,
                ),
            ),
            other => Err("Unexpected token: "@ + token_text(other)),
        }
    }
}

/// The statements from position `p` to the end of the tokens.
pub open spec fn program(t: Seq<Token>, p: int) -> Result<Seq<StmtModel>, Seq<char>>
    decreases t.len() - p,
{
    if p < 0 || p >= t.len() {
        Ok(Seq::empty())
    } else {
        match statement(t, p) {
            Err(m) => Err(m),
            Ok((st, q)) => {
                if q <= p || q > t.len() {
                    Err(Seq::empty())
                } else {
                    match program(t, q) {
                        Err(m) => Err(m),
                        Ok(rest) => Ok(seq![st] + rest),
                    }
                }
            },
        }
    }
}

} // verus!

verus! {

fn syntax_error(message: &str) -> (r: Error)
    ensures
        r.model() == ErrorModel::Syntax(message@),
{
    let mut m = String::new();
    append(&mut m, message);
    Error::Syntax(m)
}

fn syntax_error_with(message: &str, t: &Token) -> (r: Error)
    ensures
        r.model() == ErrorModel::Syntax(message@ + token_text(*t)),
{
    let mut m = String::new();
    append(&mut m, message);
    push_token_text(&mut m, t);
    Error::Syntax(m)
}

/// Appends the name of `t` to `s`.
fn push_token_text(s: &mut String, t: &Token)
    ensures
        final(s)@ == old(s)@ + token_text(*t),
{
    match t {
        Token::Identifier(n) => {
            append(s, "Identifier(\"");
            append(s, n.as_str());
            append(s, "\")");
            assert(final(s)@ =~= old(s)@ + token_text(*t));
        },
        Token::Number(v) => {
            append(s, "Number(");
            push_int(s, *v);
            append(s, ")");
            assert(final(s)@ =~= old(s)@ + token_text(*t));
        },
        Token::Text(x) => {
            append(s, "Text(\"");
            append(s, x.as_str());
            append(s, "\")");
            assert(final(s)@ =~= old(s)@ + token_text(*t));
        },
        Token::Plus => append(s, "Plus"),
        Token::Minus => append(s, "Minus"),
        Token::Multiply => append(s, "Multiply"),
        Token::Equals => append(s, "Equals"),
        Token::GreaterThan => append(s, "GreaterThan"),
        Token::LeftParen => append(s, "LeftParen"),
        Token::RightParen => append(s, "RightParen"),
        Token::LeftBrace => append(s, "LeftBrace"),
        Token::RightBrace => append(s, "RightBrace"),
        Token::Comma => append(s, "Comma"),
        Token::Colon => append(s, "Colon"),
        Token::Package => append(s, "Package"),
        Token::Import => append(s, "Import"),
        Token::From => append(s, "From"),
        Token::To => append(s, "To"),
        Token::Msg => append(s, "Msg"),
        Token::If => append(s, "If"),
        Token::Else => append(s, "Else"),
        Token::Function => append(s, "Function"),
        Token::Return => append(s, "Return"),
        Token::Exit => append(s, "Exit"),
        Token::Input => append(s, "Input"),
        Token::Get => append(s, "Get"),
        Token::Async => append(s, "Async"),
    }
}

/// A parser over a sequence of tokens, with one token of lookahead.
pub struct Parser {
    tokens: Vec<Token>,
    position: usize,
}

impl Parser {
    /// The tokens that are parsed.
    pub closed spec fn tokens(&self) -> Seq<Token> {
        self.tokens@
    }

    /// The position of the next token.
    pub closed spec fn pos(&self) -> int {
        self.position as int
    }

    pub closed spec fn wf(&self) -> bool {
        self.position <= self.tokens@.len()
    }

    pub fn new(tokens: Vec<Token>) -> (r: Parser)
        ensures
            r.wf(),
            r.tokens() == tokens@,
            r.pos() == 0,
    {
        Parser { tokens, position: 0 }
    }

    /// The next token, left in place.
    fn peek_token(&self) -> (r: Option<&Token>)
        ensures
            self.position < self.tokens@.len() ==> r == Some(&self.tokens@[self.position as int]),
            self.position >= self.tokens@.len() ==> r is None,
    {
        if self.position < self.tokens.len() {
            Some(&self.tokens[self.position])
        } else {
            None
        }
    }

    /// Consumes the next token and hands back a copy of it.
    fn next_token(&mut self) -> (r: Option<Token>)
        requires
            old(self).wf(),
        ensures
            final(self).wf(),
            final(self).tokens@ == old(self).tokens@,
            old(self).position < old(self).tokens@.len() ==> r == Some(
                old(self).tokens@[old(self).position as int],
            ) && final(self).position == old(self).position + 1,
            old(self).position >= old(self).tokens@.len() ==> r is None && final(self).position
                == old(self).position,
    {
        if self.position < self.tokens.len() {
            let token = self.tokens[self.position].duplicate();
            self.position = self.position + 1;
            Some(token)
        } else {
            None
        }
    }

    /// Whether the next token is of the kind `k`, fields aside.
    fn at(&self, k: &Token) -> (r: bool)
        ensures
            r == kind_at(self.tokens@, self.position as int, *k),
    {
        match (self.peek_token(), k) {
            (Some(Token::Identifier(_)), Token::Identifier(_)) => true,
            (Some(Token::Number(_)), Token::Number(_)) => true,
            (Some(Token::Text(_)), Token::Text(_)) => true,
            (Some(Token::Identifier(_)), _) => false,
            (Some(Token::Number(_)), _) => false,
            (Some(Token::Text(_)), _) => false,
            (Some(a), b) => same_kind(a, b),
            (None, _) => false,
        }
    }
}

/// Whether two tokens without fields are the same.
fn same_kind(a: &Token, b: &Token) -> (r: bool)
    requires
        !(a is Identifier || a is Number || a is Text),
    ensures
        r == (*a == *b),
{
    match (a, b) {
        (Token::Plus, Token::Plus) => true,
        (Token::Minus, Token::Minus) => true,
        (Token::Multiply, Token::Multiply) => true,
        (Token::Equals, Token::Equals) => true,
        (Token::GreaterThan, Token::GreaterThan) => true,
        (Token::LeftParen, Token::LeftParen) => true,
        (Token::RightParen, Token::RightParen) => true,
        (Token::LeftBrace, Token::LeftBrace) => true,
        (Token::RightBrace, Token::RightBrace) => true,
        (Token::Comma, Token::Comma) => true,
        (Token::Colon, Token::Colon) => true,
        (Token::Package, Token::Package) => true,
        (Token::Import, Token::Import) => true,
        (Token::From, Token::From) => true,
        (Token::To, Token::To) => true,
        (Token::Msg, Token::Msg) => true,
        (Token::If, Token::If) => true,
        (Token::Else, Token::Else) => true,
        (Token::Function, Token::Function) => true,
        (Token::Return, Token::Return) => true,
        (Token::Exit, Token::Exit) => true,
        (Token::Input, Token::Input) => true,
        (Token::Get, Token::Get) => true,
        (Token::Async, Token::Async) => true,
        _ => false,
    }
}

} // verus!

verus! {

impl Parser {
    /// Parses a literal, a variable or a call.
    fn parse_primary(&mut self) -> (r: Result<Expr, Error>)
        requires
            old(self).wf(),
        ensures
            final(self).wf(),
            final(self).tokens@ == old(self).tokens@,
            expr_outcome(r, primary(old(self).tokens@, old(self).position as int), final(self).pos()),
            r is Ok ==> final(self).position > old(self).position,
        decreases old(self).tokens@.len() - old(self).position, 1int,
    {
        let ghost t = self.tokens@;
        let ghost p = self.position as int;
        match self.next_token() {
            None => Err(syntax_error("Unexpected end of input in expression")),
            Some(Token::Number(n)) => Ok(Expr::Literal(Value::Number(n))),
            Some(Token::Text(s)) => Ok(Expr::Literal(Value::Text(s))),
            Some(Token::Identifier(name)) => {
                if self.at(&Token::LeftParen) {
                    self.next_token();
                    let args = match self.parse_expression_list() {
                        Ok(args) => args,
                        Err(e) => {
                            return Err(e);
                        },
                    };
                    if self.at(&Token::RightParen) {
                        self.next_token();
                        Ok(Expr::FunctionCall(name, args))
                    } else {
                        Err(syntax_error("Expected ')' after function call arguments"))
                    }
                } else {
                    Ok(Expr::Variable(name))
                }
            },
            Some(other) => Err(syntax_error_with("Unexpected token in expression: ", &other)),
        }
    }

    /// Parses `primary (op primary)*`, grouping to the left.
    fn parse_expression(&mut self) -> (r: Result<Expr, Error>)
        requires
            old(self).wf(),
        ensures
            final(self).wf(),
            final(self).tokens@ == old(self).tokens@,
            expr_outcome(
                r,
                expression(old(self).tokens@, old(self).position as int),
                final(self).pos(),
            ),
            r is Ok ==> final(self).position > old(self).position,
        decreases old(self).tokens@.len() - old(self).position, 2int,
    {
        let ghost t = self.tokens@;
        let ghost p = self.position as int;
        let mut expr = match self.parse_primary() {
            Ok(e) => e,
            Err(e) => {
                return Err(e);
            },
        };
        loop
            invariant
                self.wf(),
                self.tokens@ == t,
                t == old(self).tokens@,
                p == old(self).position,
                self.position > p,
                expression(t, p) == operations(t, expr.model(), self.position as int),
            ensures
                self.wf(),
                self.tokens@ == t,
                self.position > p,
                expression(t, p) == operations(t, expr.model(), self.position as int),
                !(self.position < t.len() && operator_text(t[self.position as int]) is Some),
            decreases t.len() - self.position,
        {
            let op = match self.peek_token() {
                Some(Token::Plus) => "+",
                Some(Token::Minus) => "-",
                Some(Token::Multiply) => "*",
                _ => {
                    break;
                },
            };
            let ghost q = self.position as int;
            assert(operator_text(t[q])->0 == op@);
            self.next_token();
            let right = match self.parse_primary() {
                Ok(e) => e,
                Err(e) => {
                    return Err(e);
                },
            };
            let mut op_text = String::new();
            append(&mut op_text, op);
            expr = Expr::BinaryOp(Box::new(expr), op_text, Box::new(right));
        }
        Ok(expr)
    }

    /// Parses comma-separated expressions up to a `)`, which is left in place.
    fn parse_expression_list(&mut self) -> (r: Result<Vec<Expr>, Error>)
        requires
            old(self).wf(),
        ensures
            final(self).wf(),
            final(self).tokens@ == old(self).tokens@,
            exprs_outcome(
                r,
                expression_list(old(self).tokens@, old(self).position as int),
                final(self).pos(),
            ),
            r is Ok ==> final(self).position >= old(self).position,
        decreases old(self).tokens@.len() - old(self).position, 4int,
    {
        let ghost t = self.tokens@;
        let ghost p = self.position as int;
        let mut args: Vec<Expr> = Vec::new();
        if self.position >= self.tokens.len() || self.at(&Token::RightParen) {
            return Ok(args);
        }
        loop
            invariant
                self.wf(),
                self.tokens@ == t,
                t == old(self).tokens@,
                p == old(self).position,
                self.position >= p,
                expression_list(t, p) == prefixed(
                    exprs_model(args@),
                    expression_items(t, self.position as int),
                ),
            decreases t.len() - self.position,
        {
            let ghost q = self.position as int;
            let expr = match self.parse_expression() {
                Ok(e) => e,
                Err(e) => {
                    return Err(e);
                },
            };
            let ghost before = args@;
            args.push(expr);
            assert(args@.drop_last() =~= before);
            if self.at(&Token::Comma) {
                self.next_token();
                proof {
                    let ghost em = expr.model();
                    match expression_items(t, self.position as int) {
                        Ok((rest, r)) => {
                            assert(exprs_model(before) + (seq![em] + rest) =~= exprs_model(args@)
                                + rest);
                        },
                        Err(_) => {},
                    }
                }
            } else {
                assert(exprs_model(before) + seq![expr.model()] =~= exprs_model(args@));
                return Ok(args);
            }
        }
    }
}

} // verus!

verus! {

impl Parser {
    /// Parses an assignment or a call whose name, just consumed, is `name`.
    /// `missing_paren`, `unexpected` and `at_end` are the messages of its
    /// errors.
    fn parse_named_statement(
        &mut self,
        name: String,
        missing_paren: &str,
        unexpected: &str,
        at_end: &str,
    ) -> (r: Result<ASTNode, Error>)
        requires
            old(self).wf(),
            old(self).position >= 1,
        ensures
            final(self).wf(),
            final(self).tokens@ == old(self).tokens@,
            stmt_outcome(
                r,
                named_statement(
                    old(self).tokens@,
                    old(self).position - 1,
                    name@,
                    (missing_paren@, unexpected@, at_end@),
                ),
                final(self).pos(),
            ),
            r is Ok ==> final(self).position > old(self).position,
        decreases old(self).tokens@.len() - old(self).position, 5int,
    {
        if self.position >= self.tokens.len() {
            return Err(syntax_error(at_end));
        }
        if self.at(&Token::Equals) {
            self.next_token();
            match self.parse_expression() {
                Ok(e) => Ok(ASTNode::Variable(name, Box::new(e))),
                Err(e) => Err(e),
            }
        } else if self.at(&Token::LeftParen) {
            self.next_token();
            let args = match self.parse_expression_list() {
                Ok(a) => a,
                Err(e) => {
                    return Err(e);
                },
            };
            if self.at(&Token::RightParen) {
                self.next_token();
                Ok(ASTNode::FunctionCall(name, args))
            } else {
                Err(syntax_error(missing_paren))
            }
        } else {
            Err(syntax_error(unexpected))
        }
    }

    /// Parses one statement of a block: an assignment, a call or a message.
    fn parse_block_statement(&mut self) -> (r: Result<ASTNode, Error>)
        requires
            old(self).wf(),
        ensures
            final(self).wf(),
            final(self).tokens@ == old(self).tokens@,
            stmt_outcome(
                r,
                block_statement(old(self).tokens@, old(self).position as int),
                final(self).pos(),
            ),
            r is Ok ==> final(self).position > old(self).position,
        decreases old(self).tokens@.len() - old(self).position, 6int,
    {
        match self.next_token() {
            Some(Token::Identifier(name)) => self.parse_named_statement(
                name,
                "Expected ')' in function call",
                "Unexpected token in block after identifier",
                "Unexpected end of input in block",
            ),
            Some(Token::Msg) => {
                match self.next_token() {
                    Some(Token::Text(m)) => Ok(ASTNode::Msg(m)),
                    _ => Err(syntax_error("Expected message string in block")),
                }
            },
            Some(other) => Err(syntax_error_with("Unexpected token in block: ", &other)),
            None => Err(syntax_error("Unexpected end of input in block")),
        }
    }

    /// Parses the statements of a block after its `{`, through the closing
    /// `}`.
    fn parse_block(&mut self) -> (r: Result<Vec<ASTNode>, Error>)
        requires
            old(self).wf(),
        ensures
            final(self).wf(),
            final(self).tokens@ == old(self).tokens@,
            stmts_outcome(r, block(old(self).tokens@, old(self).position as int), final(self).pos()),
            r is Ok ==> final(self).position > old(self).position,
        decreases old(self).tokens@.len() - old(self).position, 7int,
    {
        let ghost t = self.tokens@;
        let ghost p = self.position as int;
        let mut stmts: Vec<ASTNode> = Vec::new();
        loop
            invariant
                self.wf(),
                self.tokens@ == t,
                t == old(self).tokens@,
                p == old(self).position,
                self.position >= p,
                block(t, p) == prefixed(stmts_model(stmts@), block(t, self.position as int)),
            decreases t.len() - self.position,
        {
            if self.position >= self.tokens.len() {
                return Err(syntax_error("Expected '}' to close block"));
            }
            if self.at(&Token::RightBrace) {
                self.next_token();
                assert(stmts_model(stmts@) + Seq::<StmtModel>::empty() =~= stmts_model(stmts@));
                return Ok(stmts);
            }
            let ghost q = self.position as int;
            let stmt = match self.parse_block_statement() {
                Ok(s) => s,
                Err(e) => {
                    return Err(e);
                },
            };
            let ghost before = stmts@;
            stmts.push(stmt);
            assert(stmts@.drop_last() =~= before);
            proof {
                let ghost sm = stmt.model();
                match block(t, self.position as int) {
                    Ok((rest, r)) => {
                        assert(stmts_model(before) + (seq![sm] + rest) =~= stmts_model(stmts@)
                            + rest);
                    },
                    Err(_) => {},
                }
            }
        }
    }
}

} // verus!

verus! {

impl Parser {
    /// Parses a function's parameter list after its `(`, through the `)`.
    fn parse_parameters(&mut self) -> (r: Result<(String, Vec<String>), Error>)
        requires
            old(self).wf(),
        ensures
            final(self).wf(),
            final(self).tokens@ == old(self).tokens@,
            match parameters(
                old(self).tokens@,
                old(self).position as int,
                Seq::empty(),
                Seq::empty(),
            ) {
                Ok(((name, params), q)) => r is Ok && r->Ok_0.0@ == name && strings_model(
                    r->Ok_0.1@,
                ) == params && final(self).pos() == q,
                Err(m) => r is Err && r->Err_0.model() == ErrorModel::Syntax(m),
            },
            r is Ok ==> final(self).position >= old(self).position,
    {
        let ghost t = self.tokens@;
        let ghost p = self.position as int;
        let mut name = String::new();
        let mut params: Vec<String> = Vec::new();
        assert(strings_model(params@) =~= Seq::<Seq<char>>::empty());
        loop
            invariant
                self.wf(),
                self.tokens@ == t,
                t == old(self).tokens@,
                p == old(self).position,
                self.position >= p,
                parameters(t, p, Seq::empty(), Seq::empty()) == parameters(
                    t,
                    self.position as int,
                    name@,
                    strings_model(params@),
                ),
            decreases t.len() - self.position,
        {
            match self.next_token() {
                None => {
                    return Ok((name, params));
                },
                Some(Token::RightParen) => {
                    return Ok((name, params));
                },
                Some(Token::Comma) => {},
                Some(Token::Identifier(n)) => {
                    if self.at(&Token::Equals) {
                        self.next_token();
                        match self.next_token() {
                            Some(Token::Identifier(f)) => {
                                name = f;
                            },
                            _ => {
                                return Err(syntax_error("Expected function name after '='"));
                            },
                        }
                    } else {
                        let ghost before = params@;
                        params.push(n);
                        assert(strings_model(params@) =~= strings_model(before).push(n@));
                    }
                },
                Some(other) => {
                    return Err(
                        syntax_error_with("Unexpected token in function parameters: ", &other),
                    );
                },
            }
        }
    }

    /// Parses `if ( expr ) { ... } [else { ... }]` from its `if`.
    fn parse_if(&mut self) -> (r: Result<ASTNode, Error>)
        requires
            old(self).wf(),
            old(self).position < old(self).tokens@.len(),
        ensures
            final(self).wf(),
            final(self).tokens@ == old(self).tokens@,
            stmt_outcome(
                r,
                if_statement(old(self).tokens@, old(self).position as int),
                final(self).pos(),
            ),
            r is Ok ==> final(self).position > old(self).position,
        decreases old(self).tokens@.len() - old(self).position, 8int,
    {
        self.next_token();
        if !self.at(&Token::LeftParen) {
            return Err(syntax_error("Expected '(' after if"));
        }
        self.next_token();
        let condition = match self.parse_expression() {
            Ok(e) => e,
            Err(e) => {
                return Err(e);
            },
        };
        if !self.at(&Token::RightParen) {
            return Err(syntax_error("Expected ')' after if condition"));
        }
        self.next_token();
        if !self.at(&Token::LeftBrace) {
            return Err(syntax_error("Expected '{' after if condition"));
        }
        self.next_token();
        let then_body = match self.parse_block() {
            Ok(b) => b,
            Err(e) => {
                return Err(e);
            },
        };
        let else_body = if self.at(&Token::Else) {
            self.next_token();
            if !self.at(&Token::LeftBrace) {
                return Err(syntax_error("Expected '{' after else"));
            }
            self.next_token();
            match self.parse_block() {
                Ok(b) => b,
                Err(e) => {
                    return Err(e);
                },
            }
        } else {
            let empty: Vec<ASTNode> = Vec::new();
            assert(stmts_model(empty@) =~= Seq::<StmtModel>::empty());
            empty
        };
        Ok(ASTNode::If(condition, then_body, else_body))
    }

    /// Parses `function ( [name=X,] params ) { ... }` from its `function`.
    fn parse_function(&mut self) -> (r: Result<ASTNode, Error>)
        requires
            old(self).wf(),
            old(self).position < old(self).tokens@.len(),
        ensures
            final(self).wf(),
            final(self).tokens@ == old(self).tokens@,
            stmt_outcome(
                r,
                function_statement(old(self).tokens@, old(self).position as int),
                final(self).pos(),
            ),
            r is Ok ==> final(self).position > old(self).position,
        decreases old(self).tokens@.len() - old(self).position, 8int,
    {
        self.next_token();
        if !self.at(&Token::LeftParen) {
            return Err(syntax_error("Expected '(' after function"));
        }
        self.next_token();
        let (name, params) = match self.parse_parameters() {
            Ok(np) => np,
            Err(e) => {
                return Err(e);
            },
        };
        if !self.at(&Token::LeftBrace) {
            return Err(syntax_error("Expected '{' to start function body"));
        }
        self.next_token();
        match self.parse_block() {
            Ok(body) => Ok(ASTNode::Function(name, params, body)),
            Err(e) => Err(e),
        }
    }

    /// Parses `import from X [to Y]` from its `import`.
    fn parse_import(&mut self) -> (r: Result<ASTNode, Error>)
        requires
            old(self).wf(),
            old(self).position < old(self).tokens@.len(),
        ensures
            final(self).wf(),
            final(self).tokens@ == old(self).tokens@,
            stmt_outcome(
                r,
                import_statement(old(self).tokens@, old(self).position as int),
                final(self).pos(),
            ),
            r is Ok ==> final(self).position > old(self).position,
    {
        self.next_token();
        if !self.at(&Token::From) {
            return Err(syntax_error("Expected 'from' in import statement"));
        }
        self.next_token();
        let source = match self.next_token() {
            Some(Token::Identifier(s)) => s,
            _ => {
                return Err(syntax_error("Expected package name after 'from'"));
            },
        };
        if self.at(&Token::To) {
            self.next_token();
            match self.next_token() {
                Some(Token::Identifier(target)) => Ok(ASTNode::Import(source, Some(target))),
                _ => Err(syntax_error("Expected target package for import")),
            }
        } else {
            Ok(ASTNode::Import(source, None))
        }
    }
}

} // verus!

verus! {

impl Parser {
    /// Parses one top-level statement; the next token is its first.
    fn parse_statement(&mut self) -> (r: Result<ASTNode, Error>)
        requires
            old(self).wf(),
            old(self).position < old(self).tokens@.len(),
        ensures
            final(self).wf(),
            final(self).tokens@ == old(self).tokens@,
            stmt_outcome(
                r,
                statement(old(self).tokens@, old(self).position as int),
                final(self).pos(),
            ),
            r is Ok ==> final(self).position > old(self).position,
        decreases old(self).tokens@.len() - old(self).position, 9int,
    {
        if self.at(&Token::If) {
            return self.parse_if();
        }
        if self.at(&Token::Function) {
            return self.parse_function();
        }
        if self.at(&Token::Import) {
            return self.parse_import();
        }
        match self.next_token() {
            Some(Token::Package) => {
                match self.next_token() {
                    Some(Token::Identifier(name)) => Ok(ASTNode::Package(name)),
                    _ => Err(syntax_error("Expected package name")),
                }
            },
            Some(Token::Msg) => {
                match self.next_token() {
                    Some(Token::Text(m)) => Ok(ASTNode::Msg(m)),
                    _ => Err(syntax_error("Expected message string")),
                }
            },
            Some(Token::Exit) => Ok(ASTNode::Exit),
            Some(Token::Identifier(name)) => self.parse_named_statement(
                name,
                "Expected ')' after function call arguments",
                "Expected '=' for variable assignment or '(' for function call after identifier",
                "Unexpected end of input after identifier",
            ),
            Some(other) => Err(syntax_error_with("Unexpected token: ", &other)),
            None => Err(syntax_error("")),
        }
    }

    /// Parses the remaining tokens as a program: its statements in order.
    /// The first syntax error ends parsing.
    pub fn parse(&mut self) -> (r: Result<ASTNode, Error>)
        requires
            old(self).wf(),
        ensures
            final(self).wf(),
            final(self).tokens() == old(self).tokens(),
            match program(old(self).tokens(), old(self).pos()) {
                Ok(stmts) => r is Ok && r->Ok_0.model() == StmtModel::Program(stmts)
                    && final(self).pos() == old(self).tokens().len(),
                Err(m) => r is Err && r->Err_0.model() == ErrorModel::Syntax(m),
            },
    {
        let ghost t = self.tokens@;
        let ghost p = self.position as int;
        let mut statements: Vec<ASTNode> = Vec::new();
        while self.position < self.tokens.len()
            invariant
                self.wf(),
                self.tokens@ == t,
                t == old(self).tokens@,
                p == old(self).position,
                self.position >= p,
                program(t, p) == prefixed_program(
                    stmts_model(statements@),
                    program(t, self.position as int),
                ),
            decreases t.len() - self.position,
        {
            let stmt = match self.parse_statement() {
                Ok(s) => s,
                Err(e) => {
                    return Err(e);
                },
            };
            let ghost before = statements@;
            statements.push(stmt);
            assert(statements@.drop_last() =~= before);
            proof {
                let ghost sm = stmt.model();
                match program(t, self.position as int) {
                    Ok(rest) => {
                        assert(stmts_model(before) + (seq![sm] + rest) =~= stmts_model(
                            statements@,
                        ) + rest);
                    },
                    Err(_) => {},
                }
            }
        }
        assert(stmts_model(statements@) + Seq::<StmtModel>::empty() =~= stmts_model(statements@));
        Ok(ASTNode::Program(statements))
    }
}

} // verus!
