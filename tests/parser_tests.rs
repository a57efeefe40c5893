use elium::ast::{ASTNode, Expr, Value};
use elium::error::Error;
use elium::lexer::{Lexer, Token};
use elium::parser::Parser;

fn tokens(src: &str) -> Vec<Token> {
    let mut lexer = Lexer::new(src);
    let mut out = Vec::new();
    while let Some(t) = lexer.next_token() {
        out.push(t.unwrap());
    }
    out
}

fn parse(src: &str) -> Result<ASTNode, Error> {
    Parser::new(tokens(src)).parse()
}

fn statements(src: &str) -> Vec<ASTNode> {
    match parse(src) {
        Ok(ASTNode::Program(s)) => s,
        other => panic!("not a program: {:?}", other),
    }
}

fn num(n: i64) -> Expr {
    Expr::Literal(Value::Number(n))
}

fn var(s: &str) -> Expr {
    Expr::Variable(s.to_string())
}

fn syntax(m: &str) -> Result<ASTNode, Error> {
    Err(Error::Syntax(m.to_string()))
}

#[test]
fn parses_the_example_program_into_four_statements() {
    let s = statements("package demo\nx = 1 + 2\nmsg \"done\"\nexit");
    assert_eq!(s.len(), 4);
    assert_eq!(s[0], ASTNode::Package("demo".to_string()));
    assert_eq!(
        s[1],
        ASTNode::Variable(
            "x".to_string(),
            Box::new(Expr::BinaryOp(Box::new(num(1)), "+".to_string(), Box::new(num(2))))
        )
    );
    assert_eq!(s[2], ASTNode::Msg("done".to_string()));
    assert_eq!(s[3], ASTNode::Exit);
}

#[test]
fn operators_group_to_the_left_with_one_precedence() {
    let s = statements("y = 1 + 2 * 3 - a");
    let one_plus_two = Expr::BinaryOp(Box::new(num(1)), "+".to_string(), Box::new(num(2)));
    let times_three = Expr::BinaryOp(Box::new(one_plus_two), "*".to_string(), Box::new(num(3)));
    let minus_a = Expr::BinaryOp(Box::new(times_three), "-".to_string(), Box::new(var("a")));
    assert_eq!(s, vec![ASTNode::Variable("y".to_string(), Box::new(minus_a))]);
}

#[test]
fn parses_imports_with_and_without_target() {
    let s = statements("import from a to b import from c");
    assert_eq!(
        s,
        vec![
            ASTNode::Import("a".to_string(), Some("b".to_string())),
            ASTNode::Import("c".to_string(), None),
        ]
    );
}

#[test]
fn parses_if_with_and_without_else() {
    let s = statements("if (x) { msg \"A\" } else { msg \"B\" } if (y) { z = 1 }");
    assert_eq!(
        s,
        vec![
            ASTNode::If(
                var("x"),
                vec![ASTNode::Msg("A".to_string())],
                vec![ASTNode::Msg("B".to_string())]
            ),
            ASTNode::If(
                var("y"),
                vec![ASTNode::Variable("z".to_string(), Box::new(num(1)))],
                vec![]
            ),
        ]
    );
}

#[test]
fn parses_function_definition_with_name_entry() {
    let s = statements("function (name=add, a, b) { i = a + b }");
    let body = vec![ASTNode::Variable(
        "i".to_string(),
        Box::new(Expr::BinaryOp(Box::new(var("a")), "+".to_string(), Box::new(var("b")))),
    )];
    assert_eq!(
        s,
        vec![ASTNode::Function(
            "add".to_string(),
            vec!["a".to_string(), "b".to_string()],
            body
        )]
    );
}

#[test]
fn parses_calls_as_statements_and_expressions() {
    let s = statements("f(1, g(x), \"t\") r = f()");
    let inner = Expr::FunctionCall("g".to_string(), vec![var("x")]);
    assert_eq!(
        s,
        vec![
            ASTNode::FunctionCall(
                "f".to_string(),
                vec![num(1), inner, Expr::Literal(Value::Text("t".to_string()))]
            ),
            ASTNode::Variable(
                "r".to_string(),
                Box::new(Expr::FunctionCall("f".to_string(), vec![]))
            ),
        ]
    );
}

#[test]
fn empty_input_is_an_empty_program() {
    assert_eq!(parse(""), Ok(ASTNode::Program(vec![])));
}

#[test]
fn trailing_comma_is_rejected() {
    assert_eq!(parse("f(1,)"), syntax("Unexpected token in expression: RightParen"));
}

#[test]
fn unexpected_token_is_named() {
    assert_eq!(parse("42"), syntax("Unexpected token: Number(42)"));
    assert_eq!(parse("= x"), syntax("Unexpected token: Equals"));
}

#[test]
fn package_needs_a_name() {
    assert_eq!(parse("package 3"), syntax("Expected package name"));
}

#[test]
fn msg_needs_a_text_literal() {
    assert_eq!(parse("msg x"), syntax("Expected message string"));
}

#[test]
fn import_errors() {
    assert_eq!(parse("import a"), syntax("Expected 'from' in import statement"));
    assert_eq!(parse("import from"), syntax("Expected package name after 'from'"));
    assert_eq!(parse("import from a to"), syntax("Expected target package for import"));
}

#[test]
fn if_errors() {
    assert_eq!(parse("if x"), syntax("Expected '(' after if"));
    assert_eq!(parse("if (x {"), syntax("Expected ')' after if condition"));
    assert_eq!(parse("if (x) msg"), syntax("Expected '{' after if condition"));
    assert_eq!(parse("if (x) { msg \"a\""), syntax("Expected '}' to close block"));
    assert_eq!(parse("if (x) { } else x"), syntax("Expected '{' after else"));
    assert_eq!(parse("if (x) { exit }"), syntax("Unexpected token in block: Exit"));
    assert_eq!(parse("if (x) { y }"), syntax("Unexpected token in block after identifier"));
    assert_eq!(parse("if (x) { msg 1 }"), syntax("Expected message string in block"));
}

#[test]
fn function_errors() {
    assert_eq!(parse("function x"), syntax("Expected '(' after function"));
    assert_eq!(parse("function (name=1)"), syntax("Expected function name after '='"));
    assert_eq!(
        parse("function (a, 2)"),
        syntax("Unexpected token in function parameters: Number(2)")
    );
    assert_eq!(parse("function (a) x"), syntax("Expected '{' to start function body"));
}

#[test]
fn statement_after_identifier_errors() {
    assert_eq!(parse("x"), syntax("Unexpected end of input after identifier"));
    assert_eq!(
        parse("x y"),
        syntax("Expected '=' for variable assignment or '(' for function call after identifier")
    );
    assert_eq!(parse("f(1"), syntax("Expected ')' after function call arguments"));
    assert_eq!(parse("x ="), syntax("Unexpected end of input in expression"));
    assert_eq!(parse("x = \"a\" + msg"), syntax("Unexpected token in expression: Msg"));
}
