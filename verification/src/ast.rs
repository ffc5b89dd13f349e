//! The expression tree and its value.

use crate::decimal::{
    checked_add, checked_div, checked_mul, checked_pow, checked_sub, decimal_difference,
    decimal_power, decimal_product, decimal_quotient, decimal_sum, negate, Decimal,
};
use crate::error::{outcome, CalcError, CalcResult, Failure};
use vstd::prelude::*;

verus! {

/// An expression: a number, the negation of an expression, or two expressions
/// joined by an operator.
#[derive(Debug, PartialEq)]
pub enum Node {
    Add(Box<Node>, Box<Node>),
    Sub(Box<Node>, Box<Node>),
    Multiply(Box<Node>, Box<Node>),
    Divide(Box<Node>, Box<Node>),
    Caret(Box<Node>, Box<Node>),
    Negative(Box<Node>),
    Number(Decimal),
}

impl Clone for Node {
    fn clone(&self) -> (r: Node)
        ensures
            r == *self,
    {
        self.duplicate()
    }
}

/// The result of an operation of the decimal arithmetic: where it gives no
/// number, the value has overflowed.
pub open spec fn settled(result: Option<Decimal>) -> Result<Decimal, Failure> {
    match result {
        Some(d) => Ok(d),
        None => Err(Failure::Overflow),
    }
}

/// The quotient `a / b`: a zero divisor is an error of its own.
pub open spec fn quotient(a: Decimal, b: Decimal) -> Result<Decimal, Failure> {
    if b.is_zero() {
        Err(Failure::DivisionByZero)
    } else {
        settled(decimal_quotient(a, b))
    }
}

/// The values of two operands: the error of the left one comes first.
pub open spec fn operands(
    left: Result<Decimal, Failure>,
    right: Result<Decimal, Failure>,
) -> Result<(Decimal, Decimal), Failure> {
    match left {
        Err(e) => Err(e),
        Ok(a) => match right {
            Err(e) => Err(e),
            Ok(b) => Ok((a, b)),
        },
    }
}

impl Node {
    /// A tree is well formed when every number in it is.
    pub open spec fn wf(self) -> bool
        decreases self,
    {
        match self {
            Node::Add(left, right)
            | Node::Sub(left, right)
            | Node::Multiply(left, right)
            | Node::Divide(left, right)
            | Node::Caret(left, right) => left.wf() && right.wf(),
            Node::Negative(operand) => operand.wf(),
            Node::Number(d) => d.wf(),
        }
    }

    /// The value of the expression, or the first error met when the operands
    /// are taken from left to right.
    pub open spec fn value(self) -> Result<Decimal, Failure>
        decreases self,
    {
        match self {
            Node::Add(left, right) => match operands(left.value(), right.value()) {
                Ok((a, b)) => settled(decimal_sum(a, b)),
                Err(e) => Err(e),
            },
            Node::Sub(left, right) => match operands(left.value(), right.value()) {
                Ok((a, b)) => settled(decimal_difference(a, b)),
                Err(e) => Err(e),
            },
            Node::Multiply(left, right) => match operands(left.value(), right.value()) {
                Ok((a, b)) => settled(decimal_product(a, b)),
                Err(e) => Err(e),
            },
            Node::Divide(left, right) => match operands(left.value(), right.value()) {
                Ok((a, b)) => quotient(a, b),
                Err(e) => Err(e),
            },
            Node::Caret(left, right) => match operands(left.value(), right.value()) {
                Ok((a, b)) => settled(decimal_power(a, b)),
                Err(e) => Err(e),
            },
            Node::Negative(operand) => match operand.value() {
                Ok(a) => Ok(a.negated()),
                Err(e) => Err(e),
            },
            Node::Number(d) => Ok(d),
        }
    }

    /// A copy of the tree.
    pub fn duplicate(&self) -> (r: Node)
        ensures
            r == *self,
        decreases self,
    {
        match self {
            Node::Add(left, right) => Node::Add(
                Box::new(left.duplicate()),
                Box::new(right.duplicate()),
            ),
            Node::Sub(left, right) => Node::Sub(
                Box::new(left.duplicate()),
                Box::new(right.duplicate()),
            ),
            Node::Multiply(left, right) => Node::Multiply(
                Box::new(left.duplicate()),
                Box::new(right.duplicate()),
            ),
            Node::Divide(left, right) => Node::Divide(
                Box::new(left.duplicate()),
                Box::new(right.duplicate()),
            ),
            Node::Caret(left, right) => Node::Caret(
                Box::new(left.duplicate()),
                Box::new(right.duplicate()),
            ),
            Node::Negative(operand) => Node::Negative(Box::new(operand.duplicate())),
            Node::Number(d) => Node::Number(*d),
        }
    }

    /// Evaluates the expression.
    pub fn evaluate(&self) -> (r: CalcResult<Decimal>)
        requires
            self.wf(),
        ensures
            outcome(r) == self.value(),
            r matches Ok(d) ==> d.wf(),
        decreases self,
    {
        match self {
            Node::Add(left, right) => {
                let a = left.evaluate()?;
                let b = right.evaluate()?;
                settle(checked_add(a, b))
            },
            Node::Sub(left, right) => {
                let a = left.evaluate()?;
                let b = right.evaluate()?;
                settle(checked_sub(a, b))
            },
            Node::Multiply(left, right) => {
                let a = left.evaluate()?;
                let b = right.evaluate()?;
                settle(checked_mul(a, b))
            },
            Node::Divide(left, right) => {
                let a = left.evaluate()?;
                let b = right.evaluate()?;
                divide(a, b)
            },
            Node::Caret(left, right) => {
                let a = left.evaluate()?;
                let b = right.evaluate()?;
                settle(checked_pow(a, b))
            },
            Node::Negative(operand) => {
                let a = operand.evaluate()?;
                Ok(negate(a))
            },
            Node::Number(d) => Ok(*d),
        }
    }
}

/// The evaluation of a tree fails in the arithmetic only: with a zero divisor
/// or an overflow.
pub proof fn lemma_value_errors(tree: Node)
    ensures
        tree.value() matches Err(e) ==> e is DivisionByZero || e is Overflow,
    decreases tree,
{
    match tree {
        Node::Add(left, right)
        | Node::Sub(left, right)
        | Node::Multiply(left, right)
        | Node::Divide(left, right)
        | Node::Caret(left, right) => {
            lemma_value_errors(*left);
            lemma_value_errors(*right);
        },
        Node::Negative(operand) => {
            lemma_value_errors(*operand);
        },
        Node::Number(_) => {},
    }
}

/// Turns the result of an operation of the decimal arithmetic into that of
/// the calculation.
pub fn settle(result: Option<Decimal>) -> (r: CalcResult<Decimal>)
    ensures
        outcome(r) == settled(result),
{
    match result {
        Some(d) => Ok(d),
        None => Err(CalcError::Overflow),
    }
}

/// Divides `a` by `b`.
pub fn divide(a: Decimal, b: Decimal) -> (r: CalcResult<Decimal>)
    requires
        a.wf(),
        b.wf(),
    ensures
        outcome(r) == quotient(a, b),
        r matches Ok(d) ==> d.wf(),
{
    if b.is_zero() {
        Err(CalcError::DivisionByZero)
    } else {
        settle(checked_div(a, b))
    }
}

} // verus!
