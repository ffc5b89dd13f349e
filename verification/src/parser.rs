//! Builds the expression tree from the tokens by precedence climbing.
//!
//! The grammar is given as spec functions on [`ParserState`]: [`ParserState::primary`]
//! reads one operand, [`ParserState::climb`] joins operands to its right for as
//! long as the operator ahead binds more strongly than a given precedence, and
//! [`ParserState::expression`] is an operand followed by such a climb.  The
//! parser is proved to compute exactly these functions.

use crate::ast::Node;
use crate::error::{incomplete_expression, outcome, CalcError, CalcResult, Failure};
use crate::token::{Precedence, Token};
use crate::tokenizer::{starts_no_token, Lexeme, Tokenizer, TokenizerState};
use vstd::pervasive::unreached;
use vstd::prelude::*;

verus! {

/// A parser as contracts see it: the token it looks at, and its tokenizer.
pub struct ParserState {
    pub current: Token,
    pub tokens: TokenizerState,
}

/// What a step of the parser gives: a tree or an error, and the state it leaves.
pub type Parsed = (Result<Node, Failure>, ParserState);

/// The message for a token that stands where `)` should.
pub open spec fn expected_paren(found: Token) -> Seq<char> {
    "期望 ')', 但是发现 "@ + found.text()
}

/// The message for a token that stands where an operand should.
pub open spec fn expected_operand(found: Token) -> Seq<char> {
    "期望一个数字或表达式, 但是s发现 "@ + found.text()
}

/// The error of a token that cannot start an operand.
pub open spec fn no_operand(found: Token) -> Failure {
    if found is EOF {
        Failure::InvalidToken(incomplete_expression())
    } else {
        Failure::InvalidToken(expected_operand(found))
    }
}

/// The error of a token that stands where `)` should.
pub open spec fn no_paren(found: Token) -> Failure {
    if found is EOF {
        Failure::InvalidToken(incomplete_expression())
    } else {
        Failure::InvalidToken(expected_paren(found))
    }
}

/// The tree of `left operator right`.
pub open spec fn join(operator: Token, left: Node, right: Node) -> Node
    recommends
        operator.precedence() != Precedence::Default,
{
    match operator {
        Token::Add => Node::Add(Box::new(left), Box::new(right)),
        Token::Sub => Node::Sub(Box::new(left), Box::new(right)),
        Token::Multiply => Node::Multiply(Box::new(left), Box::new(right)),
        Token::Divide => Node::Divide(Box::new(left), Box::new(right)),
        Token::Caret => Node::Caret(Box::new(left), Box::new(right)),
        _ => left,
    }
}

impl TokenizerState {
    /// The error of a pull that returned nothing.
    pub open spec fn failure(self) -> Failure {
        match self.unexpected_char {
            Some(c) => Failure::UnexpectedCharacter(c),
            None => if self.too_large {
                Failure::Overflow
            } else {
                Failure::InvalidToken(incomplete_expression())
            },
        }
    }
}

impl ParserState {
    /// The state of a new parser on the expression `s`: the first token is
    /// pulled at once.
    pub open spec fn start(s: Seq<char>) -> Result<ParserState, Failure> {
        let (pulled, tokens) = TokenizerState::start(s).step();
        match pulled {
            Some(t) => Ok(ParserState { current: t, tokens }),
            None => Err(tokens.failure()),
        }
    }

    /// The number of pulls that can still meet something.
    pub open spec fn weight(self) -> nat {
        self.tokens.pending.len()
    }

    /// Replaces the current token by the next one.  Where the pull returns
    /// nothing, the current token stays.
    pub open spec fn advance(self) -> (Result<(), Failure>, ParserState) {
        let (pulled, tokens) = self.tokens.step();
        match pulled {
            Some(t) => (Ok(()), ParserState { current: t, tokens }),
            None => (Err(tokens.failure()), ParserState { current: self.current, tokens }),
        }
    }

    /// One operand: a number, a negated expression, or an expression in
    /// parentheses.
    ///
    /// A minus sign binds more strongly than every operator: `-2^2` is `(-2)^2`.
    /// In parentheses stands an expression of the lowest precedence, and `)`
    /// has to follow it.
    pub open spec fn primary(self) -> Parsed
        decreases self.weight(), 0nat,
    {
        match self.current {
            Token::Number(d) => {
                let (moved, next) = self.advance();
                match moved {
                    Err(e) => (Err(e), next),
                    Ok(_) => (Ok(Node::Number(d)), next),
                }
            },
            Token::Sub => {
                let (moved, next) = self.advance();
                match moved {
                    Err(e) => (Err(e), next),
                    Ok(_) => {
                        let (operand, last) = next.expression(Precedence::Negative);
                        match operand {
                            Err(e) => (Err(e), last),
                            Ok(tree) => (Ok(Node::Negative(Box::new(tree))), last),
                        }
                    },
                }
            },
            Token::LeftParen => {
                let (moved, next) = self.advance();
                match moved {
                    Err(e) => (Err(e), next),
                    Ok(_) => {
                        let (inner, last) = next.expression(Precedence::Default);
                        match inner {
                            Err(e) => (Err(e), last),
                            Ok(tree) => if last.current is RightParen {
                                let (closed, end) = last.advance();
                                match closed {
                                    Err(e) => (Err(e), end),
                                    Ok(_) => (Ok(tree), end),
                                }
                            } else {
                                (Err(no_paren(last.current)), last)
                            },
                        }
                    },
                }
            },
            other => (Err(no_operand(other)), self),
        }
    }

    /// The operator that the parser looks at, with `left` before it and the
    /// expression behind it that binds more strongly than the operator.
    ///
    /// So operators of one strength join from the left, `^` among them:
    /// `2^3^2` is `(2^3)^2`.
    pub open spec fn binary(self, left: Node) -> Parsed
        decreases self.weight(), 0nat,
    {
        let (moved, next) = self.advance();
        match moved {
            Err(e) => (Err(e), next),
            Ok(_) => {
                let (right, last) = next.expression(self.current.precedence());
                match right {
                    Err(e) => (Err(e), last),
                    Ok(tree) => (Ok(join(self.current, left, tree)), last),
                }
            },
        }
    }

    /// Joins operands to the right of `left` for as long as the operator ahead
    /// binds more strongly than `min`.
    ///
    /// The comparison of the weights is there for the recursion to be well
    /// founded; it always holds, see [`lemma_climb_unfolds`].
    pub open spec fn climb(self, left: Node, min: Precedence) -> Parsed
        decreases self.weight(), 1nat,
    {
        if min.rank() < self.current.precedence().rank() {
            let (joined, next) = self.binary(left);
            match joined {
                Err(e) => (Err(e), next),
                Ok(tree) => if next.weight() < self.weight() {
                    next.climb(tree, min)
                } else {
                    (Ok(tree), next)
                },
            }
        } else {
            (Ok(left), self)
        }
    }

    /// An operand, and what [`ParserState::climb`] joins to it.
    ///
    /// The comparison of the weights is there for the recursion to be well
    /// founded; it always holds, see [`lemma_expression_unfolds`].
    pub open spec fn expression(self, min: Precedence) -> Parsed
        decreases self.weight(), 2nat,
    {
        let (left, next) = self.primary();
        match left {
            Err(e) => (Err(e), next),
            Ok(tree) => if next.weight() <= self.weight() {
                next.climb(tree, min)
            } else {
                (Ok(tree), next)
            },
        }
    }
}

/// An operand uses up at least one token, and an error leaves no more pending
/// than there was.
pub proof fn lemma_primary_progress(state: ParserState)
    ensures
        state.primary().1.weight() <= state.weight(),
        state.primary().0 is Ok ==> state.primary().1.weight() < state.weight(),
    decreases state.weight(), 0nat,
{
    match state.current {
        Token::Sub => {
            let (moved, next) = state.advance();
            if moved is Ok {
                lemma_expression_progress(next, Precedence::Negative);
            }
        },
        Token::LeftParen => {
            let (moved, next) = state.advance();
            if moved is Ok {
                lemma_expression_progress(next, Precedence::Default);
            }
        },
        _ => {},
    }
}

/// An operator with its right operand uses up at least one token, and an
/// error leaves no more pending than there was.
pub proof fn lemma_binary_progress(state: ParserState, left: Node)
    ensures
        state.binary(left).1.weight() <= state.weight(),
        state.binary(left).0 is Ok ==> state.binary(left).1.weight() < state.weight(),
    decreases state.weight(), 0nat,
{
    let (moved, next) = state.advance();
    if moved is Ok {
        lemma_expression_progress(next, state.current.precedence());
    }
}

/// A climb leaves no more pending than there was.
pub proof fn lemma_climb_progress(state: ParserState, left: Node, min: Precedence)
    ensures
        state.climb(left, min).1.weight() <= state.weight(),
    decreases state.weight(), 1nat,
{
    if min.rank() < state.current.precedence().rank() {
        lemma_binary_progress(state, left);
        let (joined, next) = state.binary(left);
        if let Ok(tree) = joined {
            lemma_climb_progress(next, tree, min);
        }
    }
}

/// An expression uses up at least one token, and an error leaves no more
/// pending than there was.
pub proof fn lemma_expression_progress(state: ParserState, min: Precedence)
    ensures
        state.expression(min).1.weight() <= state.weight(),
        state.expression(min).0 is Ok ==> state.expression(min).1.weight() < state.weight(),
    decreases state.weight(), 2nat,
{
    lemma_primary_progress(state);
    let (left, next) = state.primary();
    if let Ok(tree) = left {
        lemma_climb_progress(next, tree, min);
    }
}

/// A climb that meets a stronger operator goes on behind that operator and
/// its right operand.
pub proof fn lemma_climb_unfolds(state: ParserState, left: Node, min: Precedence)
    requires
        min.rank() < state.current.precedence().rank(),
    ensures
        state.climb(left, min) == match state.binary(left) {
            (Err(e), next) => (Err::<Node, Failure>(e), next),
            (Ok(tree), next) => next.climb(tree, min),
        },
{
    lemma_binary_progress(state, left);
}

/// An expression is an operand and the climb behind it.
pub proof fn lemma_expression_unfolds(state: ParserState, min: Precedence)
    ensures
        state.expression(min) == match state.primary() {
            (Err(e), next) => (Err::<Node, Failure>(e), next),
            (Ok(tree), next) => next.climb(tree, min),
        },
{
    lemma_primary_progress(state);
}

/// A pull keeps the unexpected characters among those of the expression.
pub proof fn lemma_advance_drawn(state: ParserState, s: Seq<char>)
    requires
        state.tokens.drawn_from(s),
    ensures
        state.advance().1.tokens.drawn_from(s),
        state.advance().1.weight() <= state.weight(),
        state.advance().0 is Ok ==> state.advance().1.weight() < state.weight(),
        state.advance().0 matches Err(Failure::UnexpectedCharacter(c)) ==> s.contains(c)
            && starts_no_token(c),
{
    let pending = state.tokens.pending;
    if pending.len() > 0 {
        let rest = pending.drop_first();
        assert forall|i: int| 0 <= i < rest.len() implies (#[trigger] rest[i] matches Lexeme::Unexpected(
            c,
        ) ==> s.contains(c) && starts_no_token(c)) by {
            assert(rest[i] == pending[i + 1]);
        }
        assert(pending[0] == pending[0]);
    }
}

/// An operand that fails with an unexpected character names a character of
/// the expression that starts no token.
pub proof fn lemma_primary_drawn(state: ParserState, s: Seq<char>)
    requires
        state.tokens.drawn_from(s),
    ensures
        state.primary().1.tokens.drawn_from(s),
        state.primary().0 matches Err(Failure::UnexpectedCharacter(c)) ==> s.contains(c)
            && starts_no_token(c),
    decreases state.weight(), 0nat,
{
    lemma_advance_drawn(state, s);
    let (moved, next) = state.advance();
    match state.current {
        Token::Sub => {
            if moved is Ok {
                lemma_expression_drawn(next, s, Precedence::Negative);
            }
        },
        Token::LeftParen => {
            if moved is Ok {
                lemma_expression_drawn(next, s, Precedence::Default);
                let (inner, last) = next.expression(Precedence::Default);
                if inner is Ok {
                    lemma_advance_drawn(last, s);
                }
            }
        },
        _ => {},
    }
}

/// An operator with its right operand that fails with an unexpected character
/// names a character of the expression that starts no token.
pub proof fn lemma_binary_drawn(state: ParserState, s: Seq<char>, left: Node)
    requires
        state.tokens.drawn_from(s),
    ensures
        state.binary(left).1.tokens.drawn_from(s),
        state.binary(left).0 matches Err(Failure::UnexpectedCharacter(c)) ==> s.contains(c)
            && starts_no_token(c),
    decreases state.weight(), 0nat,
{
    lemma_advance_drawn(state, s);
    let (moved, next) = state.advance();
    if moved is Ok {
        lemma_expression_drawn(next, s, state.current.precedence());
    }
}

/// A climb that fails with an unexpected character names a character of the
/// expression that starts no token.
pub proof fn lemma_climb_drawn(state: ParserState, s: Seq<char>, left: Node, min: Precedence)
    requires
        state.tokens.drawn_from(s),
    ensures
        state.climb(left, min).1.tokens.drawn_from(s),
        state.climb(left, min).0 matches Err(Failure::UnexpectedCharacter(c)) ==> s.contains(c)
            && starts_no_token(c),
    decreases state.weight(), 1nat,
{
    if min.rank() < state.current.precedence().rank() {
        lemma_binary_drawn(state, s, left);
        lemma_binary_progress(state, left);
        let (joined, next) = state.binary(left);
        if let Ok(tree) = joined {
            lemma_climb_drawn(next, s, tree, min);
        }
    }
}

/// An expression that fails with an unexpected character names a character
/// of the expression that starts no token.
pub proof fn lemma_expression_drawn(state: ParserState, s: Seq<char>, min: Precedence)
    requires
        state.tokens.drawn_from(s),
    ensures
        state.expression(min).1.tokens.drawn_from(s),
        state.expression(min).0 matches Err(Failure::UnexpectedCharacter(c)) ==> s.contains(c)
            && starts_no_token(c),
    decreases state.weight(), 2nat,
{
    lemma_primary_drawn(state, s);
    lemma_primary_progress(state);
    let (left, next) = state.primary();
    if let Ok(tree) = left {
        lemma_climb_drawn(next, s, tree, min);
    }
}

/// Parses one expression.
pub struct Parser {
    tokenizer: Tokenizer,
    current_token: Token,
}

impl View for Parser {
    type V = ParserState;

    closed spec fn view(&self) -> ParserState {
        ParserState { current: self.current_token, tokens: self.tokenizer@ }
    }
}

impl Parser {
    /// A parser is well formed when the token it looks at is.
    pub closed spec fn wf(&self) -> bool {
        self.current_token.wf()
    }

    /// A parser on `expression`, with the first token pulled.
    pub fn new(expression: &str) -> (r: CalcResult<Parser>)
        ensures
            match r {
                Ok(parser) => parser.wf() && ParserState::start(expression@) == Ok::<
                    ParserState,
                    Failure,
                >(parser@),
                Err(e) => ParserState::start(expression@) == Err::<ParserState, Failure>(e@),
            },
    {
        let mut tokenizer = Tokenizer::new(expression);
        match tokenizer.next() {
            Some(current_token) => Ok(Parser { tokenizer, current_token }),
            None => Err(failure_of(&tokenizer)),
        }
    }

    /// Parses the expression that starts at the current token.
    ///
    /// Tokens that follow the expression are left where they are.
    pub fn parse(&mut self) -> (r: CalcResult<Node>)
        requires
            old(self).wf(),
        ensures
            final(self).wf(),
            outcome(r) == old(self)@.expression(Precedence::Default).0,
            final(self)@ == old(self)@.expression(Precedence::Default).1,
            r matches Ok(tree) ==> tree.wf(),
    {
        self.parse_expression(Precedence::Default)
    }

    fn next_token(&mut self) -> (r: CalcResult<()>)
        requires
            old(self).wf(),
        ensures
            final(self).wf(),
            outcome(r) == old(self)@.advance().0,
            final(self)@ == old(self)@.advance().1,
    {
        match self.tokenizer.next() {
            Some(token) => {
                self.current_token = token;
                Ok(())
            },
            None => Err(failure_of(&self.tokenizer)),
        }
    }

    fn parse_expression(&mut self, precedence: Precedence) -> (r: CalcResult<Node>)
        requires
            old(self).wf(),
        ensures
            final(self).wf(),
            outcome(r) == old(self)@.expression(precedence).0,
            final(self)@ == old(self)@.expression(precedence).1,
            final(self)@.weight() <= old(self)@.weight(),
            r is Ok ==> final(self)@.weight() < old(self)@.weight(),
            r matches Ok(tree) ==> tree.wf(),
        decreases old(self)@.weight(), 2nat,
    {
        let ghost start = self@;
        let mut expr = self.parse_number_or_expression()?;
        while precedence.rank() < self.current_token.get_precedence().rank()
            invariant
                self.wf(),
                expr.wf(),
                start == old(self)@,
                self@.weight() < start.weight(),
                self@.climb(expr, precedence) == start.expression(precedence),
            decreases self@.weight(),
        {
            expr = self.parse_binary_expression(expr)?;
        }
        Ok(expr)
    }

    fn parse_binary_expression(&mut self, left_expr: Node) -> (r: CalcResult<Node>)
        requires
            old(self).wf(),
            old(self)@.current.precedence() != Precedence::Default,
            left_expr.wf(),
        ensures
            final(self).wf(),
            outcome(r) == old(self)@.binary(left_expr).0,
            final(self)@ == old(self)@.binary(left_expr).1,
            final(self)@.weight() <= old(self)@.weight(),
            r is Ok ==> final(self)@.weight() < old(self)@.weight(),
            r matches Ok(tree) ==> tree.wf(),
        decreases old(self)@.weight(), 0nat,
    {
        let operator = self.current_token;
        self.next_token()?;
        let right_expr = self.parse_expression(operator.get_precedence())?;
        match operator {
            Token::Add => Ok(Node::Add(Box::new(left_expr), Box::new(right_expr))),
            Token::Sub => Ok(Node::Sub(Box::new(left_expr), Box::new(right_expr))),
            Token::Multiply => Ok(Node::Multiply(Box::new(left_expr), Box::new(right_expr))),
            Token::Divide => Ok(Node::Divide(Box::new(left_expr), Box::new(right_expr))),
            Token::Caret => Ok(Node::Caret(Box::new(left_expr), Box::new(right_expr))),
            _ => unreached(),
        }
    }

    fn parse_number_or_expression(&mut self) -> (r: CalcResult<Node>)
        requires
            old(self).wf(),
        ensures
            final(self).wf(),
            outcome(r) == old(self)@.primary().0,
            final(self)@ == old(self)@.primary().1,
            final(self)@.weight() <= old(self)@.weight(),
            r is Ok ==> final(self)@.weight() < old(self)@.weight(),
            r matches Ok(tree) ==> tree.wf(),
        decreases old(self)@.weight(), 0nat,
    {
        match self.current_token {
            Token::Number(n) => {
                self.next_token()?;
                Ok(Node::Number(n))
            },
            Token::Sub => {
                self.next_token()?;
                let expr = self.parse_expression(Precedence::Negative)?;
                Ok(Node::Negative(Box::new(expr)))
            },
            Token::LeftParen => {
                self.next_token()?;
                let expr = self.parse_expression(Precedence::Default)?;
                match self.current_token {
                    Token::RightParen => {
                        self.next_token()?;
                        Ok(expr)
                    },
                    Token::EOF => Err(CalcError::incomplete()),
                    found => Err(
                        CalcError::InvalidToken(
                            String::from_str("期望 ')', 但是发现 ").concat(found.to_text().as_str()),
                        ),
                    ),
                }
            },
            Token::EOF => Err(CalcError::incomplete()),
            found => Err(
                CalcError::InvalidToken(
                    String::from_str("期望一个数字或表达式, 但是s发现 ").concat(
                        found.to_text().as_str(),
                    ),
                ),
            ),
        }
    }
}

/// The error of a pull that returned nothing.
pub fn failure_of(tokenizer: &Tokenizer) -> (r: CalcError)
    ensures
        r@ == tokenizer@.failure(),
{
    match tokenizer.get_unexpected_char() {
        Some(c) => CalcError::UnexpectedCharacter(c),
        None => if tokenizer.met_too_large() {
            CalcError::Overflow
        } else {
            CalcError::incomplete()
        },
    }
}

} // verus!
