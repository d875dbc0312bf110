//! Properties of the token stream as a whole, proved from the lexer's
//! specification: whitespace-only inputs, maximal digit and word runs, the
//! two-character operators, reconstruction of the input from the consumed
//! fragments, and the stability of the end-of-input token.

use vstd::prelude::*;

use crate::lexer::{
    digit_end, lemma_digit_end_bounds, lemma_skip_whitespace_bounds, lemma_token_end_bounds,
    lemma_word_end_bounds, next_pos_at, next_token_at, skip_whitespace, token_at, token_end,
    tokens_from, word_end,
};
use crate::token::{
    is_digit_char, is_keyword, is_letter_char, is_whitespace_char, is_word_char,
    saturated_digits_value, word_token, TokenView,
};

verus! {

/// A filter that no element passes produces the empty sequence.
proof fn lemma_filter_drops_all<A>(s: Seq<A>, pred: spec_fn(A) -> bool)
    requires
        forall|i: int| 0 <= i < s.len() ==> !pred(s[i]),
    ensures
        s.filter(pred) == Seq::<A>::empty(),
    decreases s.len(),
{
    reveal(Seq::filter);
    if s.len() > 0 {
        lemma_filter_drops_all(s.drop_last(), pred);
    }
    assert(s.filter(pred) =~= Seq::<A>::empty());
}

/// A filter that every element passes leaves the sequence unchanged.
proof fn lemma_filter_keeps_all<A>(s: Seq<A>, pred: spec_fn(A) -> bool)
    requires
        forall|i: int| 0 <= i < s.len() ==> pred(s[i]),
    ensures
        s.filter(pred) == s,
    decreases s.len(),
{
    reveal(Seq::filter);
    if s.len() > 0 {
        lemma_filter_keeps_all(s.drop_last(), pred);
        assert(s.filter(pred) =~= s);
    }
}

/// An input consisting solely of whitespace produces the end-of-input token
/// and nothing else.
pub proof fn lemma_whitespace_only_input(input: Seq<char>)
    requires
        forall|i: int| 0 <= i < input.len() ==> is_whitespace_char(input[i]),
    ensures
        tokens_from(input, 0) == seq![TokenView::Eof],
{
    lemma_skip_whitespace_bounds(input, 0);
    assert(skip_whitespace(input, 0) == input.len());
}

/// An input that is one maximal run of decimal digits produces a single
/// integer token carrying the base-10 value of those digits — capped at the
/// largest representable value for very long runs — followed by the
/// end-of-input token.
pub proof fn lemma_digit_run_input(input: Seq<char>)
    requires
        input.len() > 0,
        forall|i: int| 0 <= i < input.len() ==> is_digit_char(input[i]),
    ensures
        tokens_from(input, 0) == seq![
            TokenView::Int(saturated_digits_value(input)),
            TokenView::Eof,
        ],
{
    assert(is_digit_char(input[0]));
    assert(skip_whitespace(input, 0) == 0);
    lemma_digit_end_bounds(input, 0);
    assert(digit_end(input, 0) == input.len());
    assert(input.subrange(0, input.len() as int) =~= input);
    assert(token_end(input, 0) == input.len());
    assert(tokens_from(input, input.len() as int) == seq![TokenView::Eof]);
    assert(tokens_from(input, 0) =~= seq![
        TokenView::Int(saturated_digits_value(input)),
        TokenView::Eof,
    ]);
}

/// An input that is one run of letters and underscores produces a single
/// word token followed by the end-of-input token: the matching keyword token
/// where the run spells a reserved keyword exactly, otherwise an identifier
/// carrying the source text unchanged.
pub proof fn lemma_word_run_input(input: Seq<char>)
    requires
        input.len() > 0,
        forall|i: int| 0 <= i < input.len() ==> is_letter_char(input[i]),
    ensures
        tokens_from(input, 0) == seq![word_token(input), TokenView::Eof],
        !is_keyword(input) ==> word_token(input) == TokenView::Ident(input),
{
    assert(is_letter_char(input[0]));
    assert(skip_whitespace(input, 0) == 0);
    lemma_word_end_bounds(input, 0);
    assert(word_end(input, 0) == input.len());
    assert(input.subrange(0, input.len() as int) =~= input);
    assert(token_end(input, 0) == input.len());
    assert(tokens_from(input, input.len() as int) == seq![TokenView::Eof]);
    assert(tokens_from(input, 0) =~= seq![word_token(input), TokenView::Eof]);
}

/// At a position holding `=`: an immediately following `=` makes exactly one
/// equality token consuming both characters; anything else makes an
/// assignment token that consumes the `=` alone and leaves the following
/// character for the next call.
pub proof fn lemma_assign_vs_eq(input: Seq<char>, pos: int)
    requires
        0 <= pos < input.len(),
        input[pos] == '=',
    ensures
        pos + 1 < input.len() && input[pos + 1] == '=' ==> token_at(input, pos)
            == TokenView::Eq && token_end(input, pos) == pos + 2,
        !(pos + 1 < input.len() && input[pos + 1] == '=') ==> token_at(input, pos)
            == TokenView::Assign && token_end(input, pos) == pos + 1,
{
}

/// At a position holding `!`: an immediately following `=` makes exactly one
/// inequality token consuming both characters; anything else makes a bang
/// token that consumes the `!` alone and leaves the following character for
/// the next call.
pub proof fn lemma_bang_vs_not_eq(input: Seq<char>, pos: int)
    requires
        0 <= pos < input.len(),
        input[pos] == '!',
    ensures
        pos + 1 < input.len() && input[pos + 1] == '=' ==> token_at(input, pos)
            == TokenView::NotEq && token_end(input, pos) == pos + 2,
        !(pos + 1 < input.len() && input[pos + 1] == '=') ==> token_at(input, pos)
            == TokenView::Bang && token_end(input, pos) == pos + 1,
{
}

/// The source text a full tokenization run consumes from position `pos` on,
/// skipped whitespace excluded: each step contributes exactly the characters
/// of the token it produces.
pub open spec fn consumed_from(input: Seq<char>, pos: int) -> Seq<char>
    recommends
        0 <= pos <= input.len(),
    decreases input.len() - pos,
    when pos <= input.len()
    via consumed_from_decreases
{
    let p = skip_whitespace(input, pos);
    if p >= input.len() {
        Seq::empty()
    } else {
        input.subrange(p, token_end(input, p)) + consumed_from(input, token_end(input, p))
    }
}

#[via_fn]
proof fn consumed_from_decreases(input: Seq<char>, pos: int) {
    lemma_skip_whitespace_bounds(input, pos);
    let p = skip_whitespace(input, pos);
    if p < input.len() {
        lemma_token_end_bounds(input, p);
    }
}

/// No character of a token is skipped whitespace.
proof fn lemma_token_chars_not_whitespace(input: Seq<char>, pos: int)
    requires
        0 <= pos < input.len(),
        !is_whitespace_char(input[pos]),
    ensures
        forall|i: int| pos <= i < token_end(input, pos) ==> !is_whitespace_char(input[i]),
{
    lemma_word_end_bounds(input, pos);
    lemma_digit_end_bounds(input, pos);
    assert forall|i: int| pos <= i < token_end(input, pos) implies !is_whitespace_char(
        input[i],
    ) by {
        let c = input[pos];
        if c == '=' || c == '!' {
            assert(i == pos || input[i] == '=');
        } else if is_letter_char(c) {
            assert(is_word_char(input[i]));
        } else if is_digit_char(c) {
            assert(is_digit_char(input[i]));
        } else {
            assert(i == pos);
        }
    }
}

/// From any position, the fragments a full run consumes concatenate to the
/// rest of the input with its whitespace removed.
proof fn lemma_consumed_from_suffix(input: Seq<char>, pos: int)
    requires
        0 <= pos <= input.len(),
    ensures
        consumed_from(input, pos) == input.subrange(pos, input.len() as int).filter(
            |c: char| !is_whitespace_char(c),
        ),
    decreases input.len() - pos,
{
    let pred = |c: char| !is_whitespace_char(c);
    let n = input.len() as int;
    lemma_skip_whitespace_bounds(input, pos);
    let p = skip_whitespace(input, pos);
    let ws_part = input.subrange(pos, p);
    assert(forall|i: int| 0 <= i < ws_part.len() ==> !pred(ws_part[i]));
    lemma_filter_drops_all(ws_part, pred);
    if p >= n {
        assert(input.subrange(pos, n) =~= ws_part);
    } else {
        lemma_token_end_bounds(input, p);
        let e = token_end(input, p);
        let tok_part = input.subrange(p, e);
        let rest = input.subrange(e, n);
        lemma_token_chars_not_whitespace(input, p);
        assert(forall|i: int| 0 <= i < tok_part.len() ==> pred(tok_part[i]));
        lemma_filter_keeps_all(tok_part, pred);
        lemma_consumed_from_suffix(input, e);
        assert(input.subrange(pos, n) =~= (ws_part + tok_part) + rest);
        Seq::filter_distributes_over_add(ws_part + tok_part, rest, pred);
        Seq::filter_distributes_over_add(ws_part, tok_part, pred);
        assert(input.subrange(pos, n).filter(pred) =~= tok_part + rest.filter(pred));
    }
}

/// Concatenating every source fragment a full tokenization run consumes,
/// skipped whitespace excluded, reconstructs the input with its whitespace
/// removed.
pub proof fn lemma_consumed_reconstructs_input(input: Seq<char>)
    ensures
        consumed_from(input, 0) == input.filter(|c: char| !is_whitespace_char(c)),
{
    lemma_consumed_from_suffix(input, 0);
    assert(input.subrange(0, input.len() as int) =~= input);
}

/// Once the cursor has reached the end of the input, every further call
/// yields the end-of-input token and leaves the cursor in place: the token
/// repeats indefinitely.
pub proof fn lemma_end_of_input_stable(input: Seq<char>, pos: int)
    requires
        pos == input.len(),
    ensures
        next_token_at(input, pos) == TokenView::Eof,
        next_pos_at(input, pos) == pos,
        tokens_from(input, pos) == seq![TokenView::Eof],
{
}

} // verus!
