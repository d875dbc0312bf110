//! The token taxonomy: which lexical units exist and how a piece of source
//! text is classified into one of them.

use vstd::prelude::*;

verus! {

/// One lexical unit of Monkey source text.
///
/// `Ident` carries the identifier's spelling and `Int` the value of a digit
/// run; every other variant stands for a fixed spelling.
#[derive(Debug, Clone, PartialEq, Eq)]
pub enum TokenType {
    Assign,
    Asterisk,
    Bang,
    Comma,
    Else,
    Eof,
    Eq,
    False,
    Function,
    GT,
    Ident(String),
    If,
    Illegal,
    Int(usize),
    LBrace,
    Let,
    LParen,
    LT,
    Minus,
    NotEq,
    Plus,
    RBrace,
    Return,
    RParen,
    Semicolon,
    Slash,
    True,
}

/// The mathematical value of a token: identifier text as a sequence of
/// characters, integer payloads as unbounded naturals. Contracts and proofs
/// speak of tokens through this view.
pub enum TokenView {
    Assign,
    Asterisk,
    Bang,
    Comma,
    Else,
    Eof,
    Eq,
    False,
    Function,
    GT,
    Ident(Seq<char>),
    If,
    Illegal,
    Int(nat),
    LBrace,
    Let,
    LParen,
    LT,
    Minus,
    NotEq,
    Plus,
    RBrace,
    Return,
    RParen,
    Semicolon,
    Slash,
    True,
}

impl View for TokenType {
    type V = TokenView;

    open spec fn view(&self) -> TokenView {
        match self {
            TokenType::Assign => TokenView::Assign,
            TokenType::Asterisk => TokenView::Asterisk,
            TokenType::Bang => TokenView::Bang,
            TokenType::Comma => TokenView::Comma,
            TokenType::Else => TokenView::Else,
            TokenType::Eof => TokenView::Eof,
            TokenType::Eq => TokenView::Eq,
            TokenType::False => TokenView::False,
            TokenType::Function => TokenView::Function,
            TokenType::GT => TokenView::GT,
            TokenType::Ident(s) => TokenView::Ident(s@),
            TokenType::If => TokenView::If,
            TokenType::Illegal => TokenView::Illegal,
            TokenType::Int(n) => TokenView::Int(*n as nat),
            TokenType::LBrace => TokenView::LBrace,
            TokenType::Let => TokenView::Let,
            TokenType::LParen => TokenView::LParen,
            TokenType::LT => TokenView::LT,
            TokenType::Minus => TokenView::Minus,
            TokenType::NotEq => TokenView::NotEq,
            TokenType::Plus => TokenView::Plus,
            TokenType::RBrace => TokenView::RBrace,
            TokenType::Return => TokenView::Return,
            TokenType::RParen => TokenView::RParen,
            TokenType::Semicolon => TokenView::Semicolon,
            TokenType::Slash => TokenView::Slash,
            TokenType::True => TokenView::True,
        }
    }
}

/// The characters the lexer skips between tokens: space, tab, newline and
/// carriage return.
pub open spec fn is_whitespace_char(c: char) -> bool {
    c == ' ' || c == '\t' || c == '\n' || c == '\r'
}

/// The characters that may start an identifier or keyword: ASCII letters and
/// the underscore.
pub open spec fn is_letter_char(c: char) -> bool {
    ('a' as u32 <= c as u32 && c as u32 <= 'z' as u32)
        || ('A' as u32 <= c as u32 && c as u32 <= 'Z' as u32)
        || c == '_'
}

/// The decimal digits.
pub open spec fn is_digit_char(c: char) -> bool {
    '0' as u32 <= c as u32 && c as u32 <= '9' as u32
}

/// The characters that may continue an identifier or keyword once one has
/// started: letters, underscore and digits.
pub open spec fn is_word_char(c: char) -> bool {
    is_letter_char(c) || is_digit_char(c)
}

/// Numeric value of one decimal digit.
pub open spec fn digit_value(c: char) -> nat
    recommends
        is_digit_char(c),
{
    (c as u32 - '0' as u32) as nat
}

/// Base-10 value of a run of decimal digits.
pub open spec fn digits_value(s: Seq<char>) -> nat
    decreases s.len(),
{
    if s.len() == 0 {
        0
    } else {
        digits_value(s.drop_last()) * 10 + digit_value(s.last())
    }
}

/// The value an `Int` token carries for a digit run: its base-10 value,
/// capped at the largest representable value rather than wrapping.
pub open spec fn saturated_digits_value(s: Seq<char>) -> nat {
    if digits_value(s) > usize::MAX as nat {
        usize::MAX as nat
    } else {
        digits_value(s)
    }
}

/// The reserved keyword spellings.
pub open spec fn is_keyword(w: Seq<char>) -> bool {
    ||| w == "fn"@
    ||| w == "let"@
    ||| w == "true"@
    ||| w == "false"@
    ||| w == "if"@
    ||| w == "else"@
    ||| w == "return"@
}

/// Classify a maximal identifier-shaped run: reserved keyword spellings take
/// priority; any other spelling is an identifier carrying exactly that text.
pub open spec fn word_token(w: Seq<char>) -> TokenView {
    if w == "fn"@ {
        TokenView::Function
    } else if w == "let"@ {
        TokenView::Let
    } else if w == "true"@ {
        TokenView::True
    } else if w == "false"@ {
        TokenView::False
    } else if w == "if"@ {
        TokenView::If
    } else if w == "else"@ {
        TokenView::Else
    } else if w == "return"@ {
        TokenView::Return
    } else {
        TokenView::Ident(w)
    }
}

/// The fixed table from a single character to its punctuation token. The null
/// sentinel marks the end of input and any unmapped character is illegal.
pub open spec fn char_token(c: char) -> TokenView {
    if c == '=' {
        TokenView::Assign
    } else if c == '!' {
        TokenView::Bang
    } else if c == '+' {
        TokenView::Plus
    } else if c == '-' {
        TokenView::Minus
    } else if c == '*' {
        TokenView::Asterisk
    } else if c == '/' {
        TokenView::Slash
    } else if c == '<' {
        TokenView::LT
    } else if c == '>' {
        TokenView::GT
    } else if c == ',' {
        TokenView::Comma
    } else if c == ';' {
        TokenView::Semicolon
    } else if c == '(' {
        TokenView::LParen
    } else if c == ')' {
        TokenView::RParen
    } else if c == '{' {
        TokenView::LBrace
    } else if c == '}' {
        TokenView::RBrace
    } else if c == '\0' {
        TokenView::Eof
    } else {
        TokenView::Illegal
    }
}

/// Decide whether `c` is an ASCII letter or underscore.
pub fn is_letter(c: char) -> (b: bool)
    ensures
        b == is_letter_char(c),
{
    let u = c as u32;
    ('a' as u32 <= u && u <= 'z' as u32) || ('A' as u32 <= u && u <= 'Z' as u32) || c == '_'
}

/// Decide whether `c` is a decimal digit.
pub fn is_digit(c: char) -> (b: bool)
    ensures
        b == is_digit_char(c),
{
    let u = c as u32;
    '0' as u32 <= u && u <= '9' as u32
}

/// Decide whether `c` may continue an identifier or keyword run.
pub fn is_word(c: char) -> (b: bool)
    ensures
        b == is_word_char(c),
{
    is_letter(c) || is_digit(c)
}

/// Classify a complete identifier-shaped run of source text, keywords first.
pub fn word_token_of(w: String) -> (token: TokenType)
    ensures
        token@ == word_token(w@),
{
    if w == "fn".to_owned() {
        TokenType::Function
    } else if w == "let".to_owned() {
        TokenType::Let
    } else if w == "true".to_owned() {
        TokenType::True
    } else if w == "false".to_owned() {
        TokenType::False
    } else if w == "if".to_owned() {
        TokenType::If
    } else if w == "else".to_owned() {
        TokenType::Else
    } else if w == "return".to_owned() {
        TokenType::Return
    } else {
        TokenType::Ident(w)
    }
}

/// Map a single character to its punctuation token by the fixed table.
pub fn char_token_of(c: char) -> (token: TokenType)
    ensures
        token@ == char_token(c),
{
    if c == '=' {
        TokenType::Assign
    } else if c == '!' {
        TokenType::Bang
    } else if c == '+' {
        TokenType::Plus
    } else if c == '-' {
        TokenType::Minus
    } else if c == '*' {
        TokenType::Asterisk
    } else if c == '/' {
        TokenType::Slash
    } else if c == '<' {
        TokenType::LT
    } else if c == '>' {
        TokenType::GT
    } else if c == ',' {
        TokenType::Comma
    } else if c == ';' {
        TokenType::Semicolon
    } else if c == '(' {
        TokenType::LParen
    } else if c == ')' {
        TokenType::RParen
    } else if c == '{' {
        TokenType::LBrace
    } else if c == '}' {
        TokenType::RBrace
    } else if c == '\0' {
        TokenType::Eof
    } else {
        TokenType::Illegal
    }
}

} // verus!
