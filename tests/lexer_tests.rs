use elium::lexer::{LexError, Lexer, Token};

fn ident(s: &str) -> Option<Result<Token, LexError>> {
    Some(Ok(Token::Identifier(s.to_string())))
}

#[test]
fn test_lexer() {
    let mut lexer = Lexer::new("set x = 42 msg x");
    assert_eq!(lexer.next_token(), ident("set"));
    assert_eq!(lexer.next_token(), ident("x"));
    assert_eq!(lexer.next_token(), Some(Ok(Token::Equals)));
    assert_eq!(lexer.next_token(), Some(Ok(Token::Number(42))));
    assert_eq!(lexer.next_token(), Some(Ok(Token::Msg)));
    assert_eq!(lexer.next_token(), ident("x"));
    assert_eq!(lexer.next_token(), None);
}

#[test]
fn lexer_tests_test_lexer() {
    let mut lexer = Lexer::new("set x = 42 msg x");
    assert_eq!(lexer.next_token(), ident("set"));
    assert_eq!(lexer.next_token(), ident("x"));
    assert_eq!(lexer.next_token(), Some(Ok(Token::Equals)));
    assert_eq!(lexer.next_token(), Some(Ok(Token::Number(42))));
    assert_eq!(lexer.next_token(), Some(Ok(Token::Msg)));
    assert_eq!(lexer.next_token(), ident("x"));
    assert_eq!(lexer.next_token(), None);
}

#[test]
fn test_lexer_with_new_tokens() {
    let mut lexer = Lexer::new("if x * 10 else msg");
    assert_eq!(lexer.next_token(), Some(Ok(Token::If)));
    assert_eq!(lexer.next_token(), ident("x"));
    assert_eq!(lexer.next_token(), Some(Ok(Token::Multiply)));
    assert_eq!(lexer.next_token(), Some(Ok(Token::Number(10))));
    assert_eq!(lexer.next_token(), Some(Ok(Token::Else)));
    assert_eq!(lexer.next_token(), Some(Ok(Token::Msg)));
    assert_eq!(lexer.next_token(), None);
}

#[test]
fn test_error_handling() {
    let mut lexer = Lexer::new("if x @ 10");
    assert_eq!(lexer.next_token(), Some(Ok(Token::If)));
    assert_eq!(lexer.next_token(), ident("x"));

    let error = lexer.next_token().unwrap().unwrap_err();
    assert_eq!(error.message, "Unexpected character: '@'");
    assert_eq!(error.line, 1);
    assert_eq!(error.column, 6);
}

#[test]
fn test_multiline_handling() {
    let mut lexer = Lexer::new("msg hello\nset x = 42");
    assert_eq!(lexer.next_token(), Some(Ok(Token::Msg)));
    assert_eq!(lexer.next_token(), ident("hello"));
    assert_eq!(lexer.next_token(), ident("set"));
    assert_eq!(lexer.next_token(), ident("x"));
    assert_eq!(lexer.next_token(), Some(Ok(Token::Equals)));
    assert_eq!(lexer.next_token(), Some(Ok(Token::Number(42))));
}

#[test]
fn lexes_every_keyword() {
    let mut lexer =
        Lexer::new("package import from to msg if else function return exit input get async");
    let expected = vec![
        Token::Package,
        Token::Import,
        Token::From,
        Token::To,
        Token::Msg,
        Token::If,
        Token::Else,
        Token::Function,
        Token::Return,
        Token::Exit,
        Token::Input,
        Token::Get,
        Token::Async,
    ];
    for t in expected {
        assert_eq!(lexer.next_token(), Some(Ok(t)));
    }
    assert_eq!(lexer.next_token(), None);
}

#[test]
fn lexes_every_symbol() {
    let mut lexer = Lexer::new("= + - * ( ) { } , :");
    let expected = vec![
        Token::Equals,
        Token::Plus,
        Token::Minus,
        Token::Multiply,
        Token::LeftParen,
        Token::RightParen,
        Token::LeftBrace,
        Token::RightBrace,
        Token::Comma,
        Token::Colon,
    ];
    for t in expected {
        assert_eq!(lexer.next_token(), Some(Ok(t)));
    }
    assert_eq!(lexer.next_token(), None);
}

#[test]
fn lexes_text_literal_with_newline() {
    let mut lexer = Lexer::new("msg \"a b\nc\" x");
    assert_eq!(lexer.next_token(), Some(Ok(Token::Msg)));
    assert_eq!(lexer.next_token(), Some(Ok(Token::Text("a b\nc".to_string()))));
    assert_eq!(lexer.next_token(), ident("x"));
    assert_eq!(lexer.next_token(), None);
}

#[test]
fn text_literal_at_end_of_input_is_complete() {
    let mut lexer = Lexer::new("\"done\"");
    assert_eq!(lexer.next_token(), Some(Ok(Token::Text("done".to_string()))));
    assert_eq!(lexer.next_token(), None);
}

#[test]
fn unterminated_text_is_an_error_at_its_quote() {
    let mut lexer = Lexer::new("x\n  \"abc");
    assert_eq!(lexer.next_token(), ident("x"));
    let error = lexer.next_token().unwrap().unwrap_err();
    assert_eq!(error.message, "Unterminated string literal");
    assert_eq!(error.line, 2);
    assert_eq!(error.column, 3);
    assert_eq!(lexer.next_token(), None);
}

#[test]
fn largest_number_literal() {
    let mut lexer = Lexer::new("9223372036854775807");
    assert_eq!(lexer.next_token(), Some(Ok(Token::Number(i64::MAX))));
    assert_eq!(lexer.next_token(), None);
}

#[test]
fn number_literal_out_of_range() {
    let mut lexer = Lexer::new("9223372036854775808 y");
    let error = lexer.next_token().unwrap().unwrap_err();
    assert_eq!(error.message, "Number literal out of range");
    assert_eq!(error.line, 1);
    assert_eq!(error.column, 1);
    assert_eq!(lexer.next_token(), ident("y"));
}

#[test]
fn identifiers_hold_letters_then_digits() {
    let mut lexer = Lexer::new("abc12 3d");
    assert_eq!(lexer.next_token(), ident("abc12"));
    assert_eq!(lexer.next_token(), Some(Ok(Token::Number(3))));
    assert_eq!(lexer.next_token(), ident("d"));
}

#[test]
fn greater_than_is_not_a_lexer_symbol() {
    let mut lexer = Lexer::new("\t>");
    let error = lexer.next_token().unwrap().unwrap_err();
    assert_eq!(error.message, "Unexpected character: '>'");
    assert_eq!(error.column, 2);
}

#[test]
fn empty_input_has_no_tokens() {
    let mut lexer = Lexer::new("  \r\n\t ");
    assert_eq!(lexer.next_token(), None);
    assert_eq!(lexer.next_token(), None);
}
