//! The ways in which a calculation fails.

use vstd::prelude::*;

verus! {

/// The result of a step of the calculation.
pub type CalcResult<T> = Result<T, CalcError>;

/// Why an expression has no value.
#[derive(Debug, PartialEq)]
pub enum CalcError {
    /// The expression holds a character that starts no token.
    UnexpectedCharacter(char),
    /// A token stands where the grammar has no place for it.
    InvalidToken(String),
    /// A division whose divisor is zero.
    DivisionByZero,
    /// A number that does not fit the decimal type.
    Overflow,
}

/// A [`CalcError`] as contracts see it: the message is a sequence of characters.
pub enum Failure {
    UnexpectedCharacter(char),
    InvalidToken(Seq<char>),
    DivisionByZero,
    Overflow,
}

impl View for CalcError {
    type V = Failure;

    open spec fn view(&self) -> Failure {
        match self {
            CalcError::UnexpectedCharacter(c) => Failure::UnexpectedCharacter(*c),
            CalcError::InvalidToken(message) => Failure::InvalidToken(message@),
            CalcError::DivisionByZero => Failure::DivisionByZero,
            CalcError::Overflow => Failure::Overflow,
        }
    }
}

/// A result with its error seen through the view.
pub open spec fn outcome<T>(r: CalcResult<T>) -> Result<T, Failure> {
    match r {
        Ok(v) => Ok(v),
        Err(e) => Err(e@),
    }
}

/// The message of an expression that ends too early.
pub open spec fn incomplete_expression() -> Seq<char> {
    "不完整的运算表达式"@
}

impl Failure {
    /// The text shown to the user.
    pub open spec fn message(self) -> Seq<char> {
        match self {
            Failure::UnexpectedCharacter(c) => "非法字符: "@.push(c),
            Failure::InvalidToken(message) => "无效的运算符: "@ + message,
            Failure::DivisionByZero => "除数不能为零"@,
            Failure::Overflow => "数值超出范围"@,
        }
    }
}

/// `String::push` appends one character to the string.
pub assume_specification[ String::push ](text: &mut String, c: char)
    ensures
        final(text)@ == old(text)@.push(c),
;

impl CalcError {
    /// The text shown to the user.
    pub fn message(&self) -> (r: String)
        ensures
            r@ == self@.message(),
    {
        match self {
            CalcError::UnexpectedCharacter(c) => {
                let mut text = String::from_str("非法字符: ");
                text.push(*c);
                text
            },
            CalcError::InvalidToken(message) => {
                String::from_str("无效的运算符: ").concat(message.as_str())
            },
            CalcError::DivisionByZero => String::from_str("除数不能为零"),
            CalcError::Overflow => String::from_str("数值超出范围"),
        }
    }

    /// The error of an expression that ends too early.
    pub fn incomplete() -> (r: CalcError)
        ensures
            r@ == Failure::InvalidToken(incomplete_expression()),
    {
        CalcError::InvalidToken(String::from_str("不完整的运算表达式"))
    }
}

} // verus!
