//! Tokens and how strongly the operators among them bind.

use crate::decimal::{decimal_text, Decimal};
use vstd::prelude::*;

verus! {

/// The smallest unit of an expression.
#[derive(Debug, Copy, Clone, PartialEq)]
pub enum Token {
    Add,
    Sub,
    Multiply,
    Divide,
    Caret,
    LeftParen,
    RightParen,
    Number(Decimal),
    /// The end of the expression.
    EOF,
}

/// How strongly an operator binds, from the weakest to the strongest.
#[derive(Debug, Copy, Clone, PartialOrd, PartialEq)]
pub enum Precedence {
    Default,
    AddOrSubstract,
    MultiplyOrDivide,
    Power,
    Negative,
}

impl Precedence {
    /// The place of the precedence in the order.
    pub open spec fn spec_rank(self) -> u8 {
        match self {
            Precedence::Default => 0,
            Precedence::AddOrSubstract => 1,
            Precedence::MultiplyOrDivide => 2,
            Precedence::Power => 3,
            Precedence::Negative => 4,
        }
    }

    /// The place of the precedence in the order: a stronger one has a higher rank.
    #[verifier::when_used_as_spec(spec_rank)]
    pub fn rank(self) -> (r: u8)
        ensures
            r == self.spec_rank(),
    {
        match self {
            Precedence::Default => 0,
            Precedence::AddOrSubstract => 1,
            Precedence::MultiplyOrDivide => 2,
            Precedence::Power => 3,
            Precedence::Negative => 4,
        }
    }
}

impl Token {
    /// A token is well formed when the number it holds, if any, is.
    pub open spec fn wf(self) -> bool {
        self matches Token::Number(d) ==> d.wf()
    }

    /// The precedence of a token: that of its operator, `Default` for the others.
    pub open spec fn precedence(self) -> Precedence {
        match self {
            Token::Add | Token::Sub => Precedence::AddOrSubstract,
            Token::Multiply | Token::Divide => Precedence::MultiplyOrDivide,
            Token::Caret => Precedence::Power,
            _ => Precedence::Default,
        }
    }

    /// How a token is written in a message.
    pub open spec fn text(self) -> Seq<char> {
        match self {
            Token::Add => "+"@,
            Token::Sub => "-"@,
            Token::Multiply => "*"@,
            Token::Divide => "/"@,
            Token::Caret => "^"@,
            Token::LeftParen => "("@,
            Token::RightParen => ")"@,
            Token::Number(d) => decimal_text(d),
            Token::EOF => "EOF"@,
        }
    }

    pub fn get_precedence(&self) -> (r: Precedence)
        ensures
            r == self.precedence(),
    {
        match self {
            Token::Add | Token::Sub => Precedence::AddOrSubstract,
            Token::Multiply | Token::Divide => Precedence::MultiplyOrDivide,
            Token::Caret => Precedence::Power,
            _ => Precedence::Default,
        }
    }

    /// How the token is written in a message.
    pub fn to_text(&self) -> (r: String)
        requires
            self.wf(),
        ensures
            r@ == self.text(),
    {
        match self {
            Token::Add => String::from_str("+"),
            Token::Sub => String::from_str("-"),
            Token::Multiply => String::from_str("*"),
            Token::Divide => String::from_str("/"),
            Token::Caret => String::from_str("^"),
            Token::LeftParen => String::from_str("("),
            Token::RightParen => String::from_str(")"),
            Token::Number(d) => d.to_text(),
            Token::EOF => String::from_str("EOF"),
        }
    }
}

} // verus!
