use monkey_lexer::lexer::Lexer;
use monkey_lexer::token::TokenType;

/// Drive a lexer over `input` until the end-of-input token, inclusive.
fn tokens(input: &str) -> Vec<TokenType> {
    let mut lexer = Lexer::new(input.to_string());
    let mut out = Vec::new();
    loop {
        let token = lexer.next_token();
        let done = token == TokenType::Eof;
        out.push(token);
        if done {
            return out;
        }
    }
}

#[test]
fn let_statement_scenario() {
    assert_eq!(
        tokens("let five = 5;"),
        vec![
            TokenType::Let,
            TokenType::Ident("five".to_owned()),
            TokenType::Assign,
            TokenType::Int(5),
            TokenType::Semicolon,
            TokenType::Eof,
        ]
    );
}

#[test]
fn function_literal_scenario() {
    assert_eq!(
        tokens("fn(x, y) { x + y; }"),
        vec![
            TokenType::Function,
            TokenType::LParen,
            TokenType::Ident("x".to_owned()),
            TokenType::Comma,
            TokenType::Ident("y".to_owned()),
            TokenType::RParen,
            TokenType::LBrace,
            TokenType::Ident("x".to_owned()),
            TokenType::Plus,
            TokenType::Ident("y".to_owned()),
            TokenType::Semicolon,
            TokenType::RBrace,
            TokenType::Eof,
        ]
    );
}

#[test]
fn comparison_scenario() {
    assert_eq!(
        tokens("10 == 10; 9 != 10;"),
        vec![
            TokenType::Int(10),
            TokenType::Eq,
            TokenType::Int(10),
            TokenType::Semicolon,
            TokenType::Int(9),
            TokenType::NotEq,
            TokenType::Int(10),
            TokenType::Semicolon,
            TokenType::Eof,
        ]
    );
}

#[test]
fn unmapped_symbol_scenario() {
    assert_eq!(tokens("@"), vec![TokenType::Illegal, TokenType::Eof]);
}

#[test]
fn empty_input_yields_end_of_input() {
    assert_eq!(tokens(""), vec![TokenType::Eof]);
}

#[test]
fn whitespace_only_input_yields_end_of_input() {
    assert_eq!(tokens(" \t\r\n  \n"), vec![TokenType::Eof]);
}

#[test]
fn punctuation_table() {
    assert_eq!(
        tokens("+-*/<>,;(){}"),
        vec![
            TokenType::Plus,
            TokenType::Minus,
            TokenType::Asterisk,
            TokenType::Slash,
            TokenType::LT,
            TokenType::GT,
            TokenType::Comma,
            TokenType::Semicolon,
            TokenType::LParen,
            TokenType::RParen,
            TokenType::LBrace,
            TokenType::RBrace,
            TokenType::Eof,
        ]
    );
}

#[test]
fn every_keyword_is_recognised() {
    assert_eq!(
        tokens("fn let true false if else return"),
        vec![
            TokenType::Function,
            TokenType::Let,
            TokenType::True,
            TokenType::False,
            TokenType::If,
            TokenType::Else,
            TokenType::Return,
            TokenType::Eof,
        ]
    );
}
