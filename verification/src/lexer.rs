//! The lexer state machine: a cursor over one immutable piece of source text
//! that produces tokens one at a time on demand.

use vstd::prelude::*;
use vstd::string::StrSliceExecFns;

use crate::token::{
    char_token, char_token_of, digit_value, digits_value, is_digit, is_digit_char, is_letter,
    is_letter_char, is_whitespace_char, is_word, is_word_char, saturated_digits_value, word_token,
    word_token_of, TokenType, TokenView,
};

verus! {

/// The first position at or after `pos` that does not hold a skipped
/// whitespace character, or the end of the input.
pub open spec fn skip_whitespace(input: Seq<char>, pos: int) -> int
    recommends
        0 <= pos <= input.len(),
    decreases input.len() - pos,
{
    if pos < input.len() && is_whitespace_char(input[pos]) {
        skip_whitespace(input, pos + 1)
    } else {
        pos
    }
}

/// The end of the maximal run of identifier characters starting at `pos`.
pub open spec fn word_end(input: Seq<char>, pos: int) -> int
    recommends
        0 <= pos <= input.len(),
    decreases input.len() - pos,
{
    if pos < input.len() && is_word_char(input[pos]) {
        word_end(input, pos + 1)
    } else {
        pos
    }
}

/// The end of the maximal run of decimal digits starting at `pos`.
pub open spec fn digit_end(input: Seq<char>, pos: int) -> int
    recommends
        0 <= pos <= input.len(),
    decreases input.len() - pos,
{
    if pos < input.len() && is_digit_char(input[pos]) {
        digit_end(input, pos + 1)
    } else {
        pos
    }
}

pub proof fn lemma_skip_whitespace_bounds(input: Seq<char>, pos: int)
    requires
        pos <= input.len(),
    ensures
        pos <= skip_whitespace(input, pos) <= input.len(),
        forall|i: int| pos <= i < skip_whitespace(input, pos) ==> is_whitespace_char(input[i]),
        skip_whitespace(input, pos) < input.len() ==> !is_whitespace_char(
            input[skip_whitespace(input, pos)],
        ),
    decreases input.len() - pos,
{
    if pos < input.len() && is_whitespace_char(input[pos]) {
        lemma_skip_whitespace_bounds(input, pos + 1);
    }
}

pub proof fn lemma_word_end_bounds(input: Seq<char>, pos: int)
    requires
        pos <= input.len(),
    ensures
        pos <= word_end(input, pos) <= input.len(),
        forall|i: int| pos <= i < word_end(input, pos) ==> is_word_char(input[i]),
        word_end(input, pos) < input.len() ==> !is_word_char(input[word_end(input, pos)]),
        pos < input.len() && is_word_char(input[pos]) ==> pos < word_end(input, pos),
    decreases input.len() - pos,
{
    if pos < input.len() && is_word_char(input[pos]) {
        lemma_word_end_bounds(input, pos + 1);
    }
}

pub proof fn lemma_digit_end_bounds(input: Seq<char>, pos: int)
    requires
        pos <= input.len(),
    ensures
        pos <= digit_end(input, pos) <= input.len(),
        forall|i: int| pos <= i < digit_end(input, pos) ==> is_digit_char(input[i]),
        digit_end(input, pos) < input.len() ==> !is_digit_char(input[digit_end(input, pos)]),
        pos < input.len() && is_digit_char(input[pos]) ==> pos < digit_end(input, pos),
    decreases input.len() - pos,
{
    if pos < input.len() && is_digit_char(input[pos]) {
        lemma_digit_end_bounds(input, pos + 1);
    }
}

/// The token produced when the cursor stands at position `pos` and `pos`
/// holds no skipped whitespace: the classification rules in their order of
/// precedence — two-character operators, then identifier and keyword runs,
/// then digit runs, then the single-character table.
pub open spec fn token_at(input: Seq<char>, pos: int) -> TokenView
    recommends
        0 <= pos <= input.len(),
{
    if pos >= input.len() {
        TokenView::Eof
    } else {
        let c = input[pos];
        if c == '=' {
            if pos + 1 < input.len() && input[pos + 1] == '=' {
                TokenView::Eq
            } else {
                TokenView::Assign
            }
        } else if c == '!' {
            if pos + 1 < input.len() && input[pos + 1] == '=' {
                TokenView::NotEq
            } else {
                TokenView::Bang
            }
        } else if is_letter_char(c) {
            word_token(input.subrange(pos, word_end(input, pos)))
        } else if is_digit_char(c) {
            TokenView::Int(saturated_digits_value(input.subrange(pos, digit_end(input, pos))))
        } else {
            char_token(c)
        }
    }
}

/// The cursor position after the token at `pos` has been consumed. At the end
/// of the input the cursor stays where it is, which is what lets the lexer
/// yield the end-of-input token indefinitely.
pub open spec fn token_end(input: Seq<char>, pos: int) -> int
    recommends
        0 <= pos <= input.len(),
{
    if pos >= input.len() {
        pos
    } else {
        let c = input[pos];
        if c == '=' || c == '!' {
            if pos + 1 < input.len() && input[pos + 1] == '=' {
                pos + 2
            } else {
                pos + 1
            }
        } else if is_letter_char(c) {
            word_end(input, pos)
        } else if is_digit_char(c) {
            digit_end(input, pos)
        } else {
            pos + 1
        }
    }
}

/// The token one call of `next_token` returns when the cursor stands at
/// `pos`: skip whitespace, then classify.
pub open spec fn next_token_at(input: Seq<char>, pos: int) -> TokenView
    recommends
        0 <= pos <= input.len(),
{
    token_at(input, skip_whitespace(input, pos))
}

/// The cursor position after one call of `next_token` from position `pos`.
pub open spec fn next_pos_at(input: Seq<char>, pos: int) -> int
    recommends
        0 <= pos <= input.len(),
{
    token_end(input, skip_whitespace(input, pos))
}

pub proof fn lemma_token_end_bounds(input: Seq<char>, pos: int)
    requires
        pos <= input.len(),
    ensures
        pos <= token_end(input, pos) <= input.len(),
        pos < input.len() ==> pos < token_end(input, pos),
{
    lemma_word_end_bounds(input, pos);
    lemma_digit_end_bounds(input, pos);
}

/// Every token of `input` from position `pos` on, in order, ending with the
/// terminal end-of-input token.
pub open spec fn tokens_from(input: Seq<char>, pos: int) -> Seq<TokenView>
    recommends
        0 <= pos <= input.len(),
    decreases input.len() - pos,
    when pos <= input.len()
    via tokens_from_decreases
{
    let p = skip_whitespace(input, pos);
    if p >= input.len() {
        seq![TokenView::Eof]
    } else {
        seq![token_at(input, p)] + tokens_from(input, token_end(input, p))
    }
}

#[via_fn]
proof fn tokens_from_decreases(input: Seq<char>, pos: int) {
    lemma_skip_whitespace_bounds(input, pos);
    let p = skip_whitespace(input, pos);
    if p < input.len() {
        lemma_token_end_bounds(input, p);
    }
}

/// The stateful cursor over one piece of source text. `pos` indexes the
/// character about to be interpreted, `read_pos` the character to load next,
/// and `char` holds the currently loaded character — the null sentinel once
/// the input is exhausted.
pub struct Lexer {
    pub input: String,
    pub pos: usize,
    pub read_pos: usize,
    pub char: char,
}

impl Lexer {
    /// The internal cursor invariant: `read_pos` trails one past `pos`, and
    /// `char` is the character under `pos` while any input is left, the null
    /// sentinel once none is.
    pub open spec fn wf(self) -> bool {
        if self.pos < self.input@.len() {
            self.read_pos == self.pos + 1 && self.char == self.input@[self.pos as int]
        } else {
            self.pos == self.input@.len() && self.read_pos == self.pos && self.char == '\0'
        }
    }

    /// Build a lexer over `input` with the cursor at the start and the first
    /// character (or the null sentinel, for empty input) already loaded.
    pub fn new(input: String) -> (lexer: Lexer)
        ensures
            lexer.wf(),
            lexer.input@ == input@,
            lexer.pos == 0,
    {
        let mut lexer = Lexer { input, pos: 0, read_pos: 0, char: '\0' };
        lexer.read_char();
        lexer
    }

    /// Load the character at `read_pos` into `char` and advance both cursors;
    /// past the end of the input it loads the null sentinel and the cursors
    /// stay at the end.
    fn read_char(&mut self)
        requires
            old(self).read_pos <= old(self).input@.len(),
        ensures
            final(self).input@ == old(self).input@,
            old(self).read_pos < old(self).input@.len() ==> {
                &&& final(self).char == old(self).input@[old(self).read_pos as int]
                &&& final(self).pos == old(self).read_pos
                &&& final(self).read_pos == old(self).read_pos + 1
            },
            old(self).read_pos == old(self).input@.len() ==> {
                &&& final(self).char == '\0'
                &&& final(self).pos == old(self).read_pos
                &&& final(self).read_pos == old(self).read_pos
            },
    {
        let n = self.input.as_str().unicode_len();
        if self.read_pos < n {
            self.char = self.input.as_str().get_char(self.read_pos);
            self.pos = self.read_pos;
            self.read_pos = self.read_pos + 1;
        } else {
            self.char = '\0';
            self.pos = self.read_pos;
        }
    }

    /// Read the character that the next advance would load, without moving
    /// any cursor; past the end of the input it reads the null sentinel.
    fn peek_char(&self) -> (c: char)
        requires
            self.read_pos <= self.input@.len(),
        ensures
            c == if self.read_pos < self.input@.len() {
                self.input@[self.read_pos as int]
            } else {
                '\0'
            },
    {
        let n = self.input.as_str().unicode_len();
        if self.read_pos < n {
            self.input.as_str().get_char(self.read_pos)
        } else {
            '\0'
        }
    }

    /// Produce the next token and advance the cursor past everything it
    /// consumed. On an exhausted lexer the cursor stays put, so repeated
    /// calls keep yielding the end-of-input token.
    pub fn next_token(&mut self) -> (token: TokenType)
        requires
            old(self).wf(),
        ensures
            final(self).wf(),
            final(self).input@ == old(self).input@,
            token@ == next_token_at(old(self).input@, old(self).pos as int),
            final(self).pos == next_pos_at(old(self).input@, old(self).pos as int),
    {
        skip_white_space(self);

        if self.char == '=' {
            match self.peek_char() {
                '=' => {
                    self.read_char();
                    self.read_char();
                    return TokenType::Eq;
                },
                _ => {
                    self.read_char();
                    return TokenType::Assign;
                },
            }
        }

        if self.char == '!' {
            match self.peek_char() {
                '=' => {
                    self.read_char();
                    self.read_char();
                    return TokenType::NotEq;
                },
                _ => {
                    self.read_char();
                    return TokenType::Bang;
                },
            }
        }

        if is_letter(self.char) || is_digit(self.char) {
            return read_dynamic_token(self);
        }

        let token = char_token_of(self.char);
        self.read_char();

        token
    }
}

/// Advance the cursor past consecutive whitespace characters; they contribute
/// no token.
fn skip_white_space(lexer: &mut Lexer)
    requires
        old(lexer).wf(),
    ensures
        final(lexer).wf(),
        final(lexer).input@ == old(lexer).input@,
        final(lexer).pos == skip_whitespace(old(lexer).input@, old(lexer).pos as int),
{
    while lexer.char == ' ' || lexer.char == '\t' || lexer.char == '\n' || lexer.char == '\r'
        invariant
            lexer.wf(),
            lexer.input@ == old(lexer).input@,
            lexer.pos <= lexer.input@.len(),
            skip_whitespace(lexer.input@, lexer.pos as int) == skip_whitespace(
                old(lexer).input@,
                old(lexer).pos as int,
            ),
        decreases lexer.input@.len() - lexer.pos,
    {
        lexer.read_char();
    }
}

/// Greedily consume a maximal run starting with a letter or digit and
/// classify it: an identifier or keyword run if it starts with a letter or
/// underscore, a digit run otherwise.
fn read_dynamic_token(lexer: &mut Lexer) -> (token: TokenType)
    requires
        old(lexer).wf(),
        old(lexer).pos < old(lexer).input@.len(),
        is_word_char(old(lexer).input@[old(lexer).pos as int]),
    ensures
        final(lexer).wf(),
        final(lexer).input@ == old(lexer).input@,
        token@ == token_at(old(lexer).input@, old(lexer).pos as int),
        final(lexer).pos == token_end(old(lexer).input@, old(lexer).pos as int),
{
    if is_letter(lexer.char) {
        read_identifier(lexer)
    } else {
        read_number(lexer)
    }
}

/// Consume a maximal run of letters, underscores and digits and classify the
/// consumed text, keywords before identifiers.
fn read_identifier(lexer: &mut Lexer) -> (token: TokenType)
    requires
        old(lexer).wf(),
        old(lexer).pos < old(lexer).input@.len(),
        is_letter_char(old(lexer).input@[old(lexer).pos as int]),
    ensures
        final(lexer).wf(),
        final(lexer).input@ == old(lexer).input@,
        token@ == word_token(
            old(lexer).input@.subrange(
                old(lexer).pos as int,
                word_end(old(lexer).input@, old(lexer).pos as int),
            ),
        ),
        final(lexer).pos == word_end(old(lexer).input@, old(lexer).pos as int),
{
    let start = lexer.pos;
    proof {
        lemma_word_end_bounds(lexer.input@, start as int);
    }
    while is_word(lexer.char)
        invariant
            lexer.wf(),
            lexer.input@ == old(lexer).input@,
            start <= lexer.pos,
            lexer.pos <= word_end(lexer.input@, start as int),
            word_end(lexer.input@, start as int) <= lexer.input@.len(),
        decreases lexer.input@.len() - lexer.pos,
    {
        proof {
            lemma_word_end_bounds(lexer.input@, start as int);
        }
        lexer.read_char();
    }
    proof {
        // the loop exits exactly at the end of the run
        lemma_word_end_bounds(lexer.input@, start as int);
    }
    let word = lexer.input.as_str().substring_char(start, lexer.pos).to_owned();
    word_token_of(word)
}

/// Consume a maximal run of decimal digits, accumulating its base-10 value
/// with saturating arithmetic: on overflow the value caps at the maximum
/// rather than wrapping.
fn read_number(lexer: &mut Lexer) -> (token: TokenType)
    requires
        old(lexer).wf(),
        old(lexer).pos < old(lexer).input@.len(),
        is_digit_char(old(lexer).input@[old(lexer).pos as int]),
    ensures
        final(lexer).wf(),
        final(lexer).input@ == old(lexer).input@,
        token@ == TokenView::Int(
            saturated_digits_value(
                old(lexer).input@.subrange(
                    old(lexer).pos as int,
                    digit_end(old(lexer).input@, old(lexer).pos as int),
                ),
            ),
        ),
        final(lexer).pos == digit_end(old(lexer).input@, old(lexer).pos as int),
{
    let start = lexer.pos;
    let mut value: usize = 0;
    proof {
        lemma_digit_end_bounds(lexer.input@, start as int);
    }
    while is_digit(lexer.char)
        invariant
            lexer.wf(),
            lexer.input@ == old(lexer).input@,
            start <= lexer.pos,
            lexer.pos <= digit_end(lexer.input@, start as int),
            digit_end(lexer.input@, start as int) <= lexer.input@.len(),
            value == saturated_digits_value(
                lexer.input@.subrange(start as int, lexer.pos as int),
            ),
        decreases lexer.input@.len() - lexer.pos,
    {
        proof {
            lemma_digit_end_bounds(lexer.input@, start as int);
        }
        let d = (lexer.char as u32 - '0' as u32) as usize;
        let grown = if value <= (usize::MAX - d) / 10 {
            value * 10 + d
        } else {
            usize::MAX
        };
        proof {
            lemma_saturating_accumulate_step(
                lexer.input@,
                start as int,
                lexer.pos as int,
                value as nat,
                grown as nat,
            );
        }
        value = grown;
        lexer.read_char();
    }
    proof {
        // the loop exits exactly at the end of the run
        lemma_digit_end_bounds(lexer.input@, start as int);
    }
    TokenType::Int(value)
}

/// One step of the saturating accumulation: extending the consumed digit run
/// by the digit at `pos` turns the saturated value of the old prefix into the
/// saturated value of the new one.
proof fn lemma_saturating_accumulate_step(
    input: Seq<char>,
    start: int,
    pos: int,
    value: nat,
    grown: nat,
)
    requires
        0 <= start <= pos < input.len(),
        is_digit_char(input[pos]),
        value == saturated_digits_value(input.subrange(start, pos)),
        grown == if value <= (usize::MAX as nat - digit_value(input[pos])) / 10 {
            value * 10 + digit_value(input[pos])
        } else {
            usize::MAX as nat
        },
    ensures
        grown == saturated_digits_value(input.subrange(start, pos + 1)),
{
    let d = digit_value(input[pos]);
    let w = digits_value(input.subrange(start, pos));
    assert(input.subrange(start, pos + 1).drop_last() =~= input.subrange(start, pos));
    assert(input.subrange(start, pos + 1).last() == input[pos]);
    assert(digits_value(input.subrange(start, pos + 1)) == w * 10 + d);
    let m = usize::MAX as nat;
    assert(d <= 9);
    // the exec-side guard decides exactly whether value * 10 + d stays representable
    assert(value <= (m - d) / 10 ==> value * 10 + d <= m) by (nonlinear_arith);
    assert(value > (m - d) / 10 ==> value * 10 + d > m) by (nonlinear_arith);
    if w > m {
        // an already saturated prefix stays saturated
        assert(value == m);
        assert(w * 10 + d > m) by (nonlinear_arith)
            requires
                w > m,
        ;
        assert(m * 10 + d > m) by (nonlinear_arith)
            requires
                m >= 1,
        ;
    } else {
        assert(value == w);
    }
}

} // verus!
