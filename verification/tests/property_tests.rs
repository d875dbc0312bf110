use monkey_lexer::lexer::Lexer;
use monkey_lexer::token::TokenType;

#[test]
fn digit_run_has_base_ten_value() {
    let mut lexer = Lexer::new("1234567890".to_string());
    assert_eq!(lexer.next_token(), TokenType::Int(1234567890));
    assert_eq!(lexer.next_token(), TokenType::Eof);
}

#[test]
fn zero_and_leading_zeros() {
    let mut lexer = Lexer::new("0 007".to_string());
    assert_eq!(lexer.next_token(), TokenType::Int(0));
    assert_eq!(lexer.next_token(), TokenType::Int(7));
    assert_eq!(lexer.next_token(), TokenType::Eof);
}

#[test]
fn very_long_digit_run_saturates() {
    let mut lexer = Lexer::new("99999999999999999999999999999999".to_string());
    assert_eq!(lexer.next_token(), TokenType::Int(usize::MAX));
    assert_eq!(lexer.next_token(), TokenType::Eof);
}

#[test]
fn non_keyword_word_is_identifier_with_exact_text() {
    let mut lexer = Lexer::new("lets _under x1".to_string());
    assert_eq!(lexer.next_token(), TokenType::Ident("lets".to_owned()));
    assert_eq!(lexer.next_token(), TokenType::Ident("_under".to_owned()));
    assert_eq!(lexer.next_token(), TokenType::Ident("x1".to_owned()));
    assert_eq!(lexer.next_token(), TokenType::Eof);
}

#[test]
fn digit_run_stops_before_letter() {
    let mut lexer = Lexer::new("1a".to_string());
    assert_eq!(lexer.next_token(), TokenType::Int(1));
    assert_eq!(lexer.next_token(), TokenType::Ident("a".to_owned()));
    assert_eq!(lexer.next_token(), TokenType::Eof);
}

#[test]
fn assign_leaves_following_character_unconsumed() {
    let mut lexer = Lexer::new("=x".to_string());
    assert_eq!(lexer.next_token(), TokenType::Assign);
    assert_eq!(lexer.next_token(), TokenType::Ident("x".to_owned()));
    assert_eq!(lexer.next_token(), TokenType::Eof);
}

#[test]
fn double_equals_is_one_token() {
    let mut lexer = Lexer::new("==".to_string());
    assert_eq!(lexer.next_token(), TokenType::Eq);
    assert_eq!(lexer.next_token(), TokenType::Eof);
}

#[test]
fn lone_equals_is_assign() {
    let mut lexer = Lexer::new("=".to_string());
    assert_eq!(lexer.next_token(), TokenType::Assign);
    assert_eq!(lexer.next_token(), TokenType::Eof);
}

#[test]
fn bang_equals_is_one_token() {
    let mut lexer = Lexer::new("!=".to_string());
    assert_eq!(lexer.next_token(), TokenType::NotEq);
    assert_eq!(lexer.next_token(), TokenType::Eof);
}

#[test]
fn lone_bang_is_bang() {
    let mut lexer = Lexer::new("!x".to_string());
    assert_eq!(lexer.next_token(), TokenType::Bang);
    assert_eq!(lexer.next_token(), TokenType::Ident("x".to_owned()));
    assert_eq!(lexer.next_token(), TokenType::Eof);
}

#[test]
fn end_of_input_repeats_indefinitely() {
    let mut lexer = Lexer::new("x".to_string());
    assert_eq!(lexer.next_token(), TokenType::Ident("x".to_owned()));
    for _ in 0..5 {
        assert_eq!(lexer.next_token(), TokenType::Eof);
    }
}

#[test]
fn consumed_fragments_skip_only_whitespace() {
    // every character of the input is consumed by exactly one token
    let input = "let a = 1 + 2;";
    let mut lexer = Lexer::new(input.to_string());
    let mut consumed = 0;
    loop {
        let before = lexer.pos;
        let token = lexer.next_token();
        consumed += lexer.pos - before;
        if token == TokenType::Eof {
            break;
        }
    }
    assert_eq!(consumed, input.len());
}
