//! An arithmetic-expression calculator over exact decimal numbers.
//!
//! An expression is a string of decimal numbers, the operators `+ - * / ^`,
//! unary minus and parentheses.  It is split into tokens, parsed by precedence
//! climbing into a tree, and the tree is evaluated with the decimal arithmetic
//! of the `rust_decimal` crate.

use crate::decimal::{is_digit, is_literal, literal_value, Decimal};
use crate::error::{incomplete_expression, outcome, CalcResult, Failure};
use crate::parser::{Parser, ParserState};
use crate::token::{Precedence, Token};
use crate::ast::lemma_value_errors;
use crate::parser::{lemma_advance_drawn, lemma_expression_drawn};
use crate::tokenizer::{
    is_whitespace, lemma_leading_whitespace, lemma_lexemes_unexpected, lemma_literal_end_behind,
    lemma_skip_whitespace, lemma_skip_whitespace_over, lexeme_at, lexemes, skip_whitespace,
    starts_no_token, symbol, Lexeme, TokenizerState,
};
use vstd::prelude::*;

pub mod ast;
pub mod decimal;
pub mod error;
pub mod parser;
pub mod token;
pub mod tokenizer;

verus! {

/// The value of the expression `s`: its first token is pulled, an expression
/// is parsed from there, and the tree is evaluated.  The first error ends the
/// calculation.
pub open spec fn evaluation(s: Seq<char>) -> Result<Decimal, Failure> {
    match ParserState::start(s) {
        Err(e) => Err(e),
        Ok(state) => match state.expression(Precedence::Default).0 {
            Err(e) => Err(e),
            Ok(tree) => tree.value(),
        },
    }
}

/// Calculates the value of `expression`.
pub fn calculate(expression: &str) -> (r: CalcResult<Decimal>)
    ensures
        outcome(r) == evaluation(expression@),
        r matches Ok(d) ==> d.wf(),
{
    let mut parser = Parser::new(expression)?;
    let ast = parser.parse()?;
    ast.evaluate()
}

/// An expression of white space alone, the empty one among them, is incomplete.
pub proof fn lemma_blank_is_incomplete(s: Seq<char>)
    requires
        forall|i: int| 0 <= i < s.len() ==> is_whitespace(#[trigger] s[i]),
    ensures
        evaluation(s) == Err::<Decimal, Failure>(Failure::InvalidToken(incomplete_expression())),
{
    lemma_skip_whitespace(s, 0);
    assert(lexemes(s, 0) =~= seq![Lexeme::Token(Token::EOF)]);
}

/// An expression whose first character after white space starts no token
/// fails with that character.
pub proof fn lemma_unexpected_at_start(s: Seq<char>, c: char)
    requires
        skip_whitespace(s, 0) < s.len(),
        s[skip_whitespace(s, 0)] == c,
        !is_digit(c),
        symbol(c) is None,
    ensures
        evaluation(s) == Err::<Decimal, Failure>(Failure::UnexpectedCharacter(c)),
{
    lemma_skip_whitespace(s, 0);
    assert(lexemes(s, 0)[0] == Lexeme::Unexpected(c));
}

/// An expression that starts with a number and goes on with a character that
/// starts no token fails with that character.
pub proof fn lemma_unexpected_after_number(s: Seq<char>, d: Decimal, c: char)
    requires
        lexemes(s, 0).len() >= 2,
        lexemes(s, 0)[0] == Lexeme::Token(Token::Number(d)),
        lexemes(s, 0)[1] == Lexeme::Unexpected(c),
    ensures
        evaluation(s) == Err::<Decimal, Failure>(Failure::UnexpectedCharacter(c)),
{
    let state = ParserState::start(s)->Ok_0;
    assert(state.tokens.pending[0] == lexemes(s, 0)[1]);
}

/// A number, white space or none, and then a character that starts no token:
/// the calculation fails with that character, whatever follows.  A point that
/// stands right behind the number is left out, since it may belong to it.
pub proof fn lemma_unexpected_after_literal(
    text: Seq<char>,
    blank: Seq<char>,
    c: char,
    rest: Seq<char>,
)
    requires
        is_literal(text),
        literal_value(text) is Some,
        forall|i: int| 0 <= i < blank.len() ==> is_whitespace(#[trigger] blank[i]),
        starts_no_token(c),
        c != '.' || blank.len() > 0,
    ensures
        evaluation(text + blank + seq![c] + rest) == Err::<Decimal, Failure>(
            Failure::UnexpectedCharacter(c),
        ),
{
    let s = text + blank + seq![c] + rest;
    let n = text.len() as int;
    let m = n + blank.len();
    assert(s.subrange(0, n) =~= text);
    assert(s[0] == text[0]);
    assert(s[m] == c);
    assert forall|i: int| n <= i < m implies is_whitespace(#[trigger] s[i]) by {
        assert(s[i] == blank[i - n]);
    }
    if blank.len() > 0 {
        assert(is_whitespace(s[n]));
    }
    lemma_literal_end_behind(s, n, 1, false);
    lemma_skip_whitespace_over(s, n, m);
    let d = literal_value(text)->Some_0;
    assert(lexeme_at(s, 0) == (Lexeme::Token(Token::Number(d)), n));
    assert(lexeme_at(s, m).0 == Lexeme::Unexpected(c));
    assert(lexemes(s, 0) == seq![Lexeme::Token(Token::Number(d))] + lexemes(s, n));
    assert(lexemes(s, n)[0] == Lexeme::Unexpected(c));
    lemma_unexpected_after_number(s, d, c);
}

/// A calculation that fails with an unexpected character names a character
/// of the expression that starts no token.
pub proof fn lemma_unexpected_character_occurs(s: Seq<char>, c: char)
    requires
        evaluation(s) == Err::<Decimal, Failure>(Failure::UnexpectedCharacter(c)),
    ensures
        s.contains(c),
        starts_no_token(c),
{
    lemma_lexemes_unexpected(s, 0);
    let fresh = TokenizerState::start(s);
    assert(fresh.drawn_from(s));
    let before = ParserState { current: Token::EOF, tokens: fresh };
    lemma_advance_drawn(before, s);
    if let Ok(state) = ParserState::start(s) {
        assert(state.tokens == before.advance().1.tokens);
        lemma_expression_drawn(state, s, Precedence::Default);
        if let Ok(tree) = state.expression(Precedence::Default).0 {
            lemma_value_errors(tree);
        }
    }
}

/// White space before an expression does not change its value.
pub proof fn lemma_leading_whitespace_is_ignored(blank: Seq<char>, s: Seq<char>)
    requires
        forall|i: int| 0 <= i < blank.len() ==> is_whitespace(#[trigger] blank[i]),
    ensures
        evaluation(blank + s) == evaluation(s),
{
    lemma_leading_whitespace(blank, s);
}

/// Two expressions of the same characters have the same value: a calculation
/// depends on nothing but its expression.
pub proof fn lemma_same_expression_same_value(first: Seq<char>, second: Seq<char>)
    requires
        first =~= second,
    ensures
        evaluation(first) == evaluation(second),
{
}

} // verus!
