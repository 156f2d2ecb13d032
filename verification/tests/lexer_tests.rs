use ssa_emit::token::{LexicalError, Token};

#[test]
fn test_let_integer() {
    let mut lexer = Token::lexer("let x = 42;");

    assert_eq!(lexer.next(), Some(Ok(Token::Let)));

    assert_eq!(lexer.next(), Some(Ok(Token::Identifier)));
    assert_eq!(lexer.slice(), "x");

    assert_eq!(lexer.next(), Some(Ok(Token::Equal)));

    assert_eq!(lexer.next(), Some(Ok(Token::IntegerLiteral)));
    assert_eq!(lexer.slice(), "42");

    assert_eq!(lexer.next(), Some(Ok(Token::Semicolon)));
}

#[test]
fn test_let_string() {
    let mut lexer = Token::lexer(r#"let y = "Hello";"#);

    assert_eq!(lexer.next(), Some(Ok(Token::Let)));

    assert_eq!(lexer.next(), Some(Ok(Token::Identifier)));
    assert_eq!(lexer.slice(), "y");

    assert_eq!(lexer.next(), Some(Ok(Token::Equal)));

    assert_eq!(lexer.next(), Some(Ok(Token::StringLiteral)));
    assert_eq!(lexer.slice(), "\"Hello\"");

    assert_eq!(lexer.next(), Some(Ok(Token::Semicolon)));
}

#[test]
fn keywords_and_identifiers() {
    let mut lexer = Token::lexer("fn return if else while true false null letx var");
    assert_eq!(lexer.next(), Some(Ok(Token::Fn)));
    assert_eq!(lexer.next(), Some(Ok(Token::Return)));
    assert_eq!(lexer.next(), Some(Ok(Token::If)));
    assert_eq!(lexer.next(), Some(Ok(Token::Else)));
    assert_eq!(lexer.next(), Some(Ok(Token::While)));
    assert_eq!(lexer.next(), Some(Ok(Token::True)));
    assert_eq!(lexer.next(), Some(Ok(Token::False)));
    assert_eq!(lexer.next(), Some(Ok(Token::Null)));
    // "letx" is one identifier, not the keyword "let" followed by "x"
    assert_eq!(lexer.next(), Some(Ok(Token::Identifier)));
    assert_eq!(lexer.slice(), "letx");
    assert_eq!(lexer.next(), Some(Ok(Token::Identifier)));
    assert_eq!(lexer.slice(), "var");
    assert_eq!(lexer.next(), None);
}

#[test]
fn operators_and_punctuation() {
    let mut lexer = Token::lexer("+ - * / < > = == != ( ) { } ;");
    assert_eq!(lexer.next(), Some(Ok(Token::Plus)));
    assert_eq!(lexer.next(), Some(Ok(Token::Minus)));
    assert_eq!(lexer.next(), Some(Ok(Token::Multiply)));
    assert_eq!(lexer.next(), Some(Ok(Token::Divide)));
    assert_eq!(lexer.next(), Some(Ok(Token::LessThan)));
    assert_eq!(lexer.next(), Some(Ok(Token::GreaterThan)));
    assert_eq!(lexer.next(), Some(Ok(Token::Equal)));
    assert_eq!(lexer.next(), Some(Ok(Token::EqualEqual)));
    assert_eq!(lexer.next(), Some(Ok(Token::NotEqual)));
    assert_eq!(lexer.next(), Some(Ok(Token::LeftParen)));
    assert_eq!(lexer.next(), Some(Ok(Token::RightParen)));
    assert_eq!(lexer.next(), Some(Ok(Token::LeftBrace)));
    assert_eq!(lexer.next(), Some(Ok(Token::RightBrace)));
    assert_eq!(lexer.next(), Some(Ok(Token::Semicolon)));
    assert_eq!(lexer.next(), None);
}

#[test]
fn bare_bang_is_an_error() {
    let mut lexer = Token::lexer("var x ! 42;");
    assert_eq!(lexer.next(), Some(Ok(Token::Identifier)));
    assert_eq!(lexer.next(), Some(Ok(Token::Identifier)));
    assert_eq!(lexer.next(), Some(Err(LexicalError::InvalidToken)));
    assert_eq!(lexer.next(), Some(Ok(Token::IntegerLiteral)));
    assert_eq!(lexer.next(), Some(Ok(Token::Semicolon)));
    assert_eq!(lexer.next(), None);
}

#[test]
fn whitespace_only_yields_nothing() {
    let mut lexer = Token::lexer("  \t\r\n  ");
    assert_eq!(lexer.next(), None);
}
