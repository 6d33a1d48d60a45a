use vstd::prelude::*;

verus! {

/// A number written in an expression: a decimal literal, found again by its index
/// in the literal table that the tokenizer returns, or one of the two constants.
#[derive(Clone, Copy, Debug, PartialEq, Eq, Structural)]
pub enum Numeral {
    Literal(usize),
    Pi,
    E,
}

/// A lexical token of an expression.
#[derive(Clone, Copy, Debug, PartialEq, Eq, Structural)]
pub enum Token {
    Number(Numeral),
    Variable(char),
    Plus,
    Minus,
    Multiply,
    Divide,
    Power,
    Modulo,
    Factorial,
    LParen,
    RParen,
    // Scientific functions
    Sin,
    Cos,
    Tan,
    Asin,
    Acos,
    Atan,
    Log,
    Ln,
    Sqrt,
    Abs,
    Floor,
    Ceil,
}

/// The twelve one-argument scientific functions.
pub open spec fn spec_is_function(t: Token) -> bool {
    match t {
        Token::Sin | Token::Cos | Token::Tan | Token::Asin | Token::Acos | Token::Atan
        | Token::Log | Token::Ln | Token::Sqrt | Token::Abs | Token::Floor | Token::Ceil => true,
        _ => false,
    }
}

/// The six infix operators.
pub open spec fn spec_is_binary(t: Token) -> bool {
    match t {
        Token::Plus | Token::Minus | Token::Multiply | Token::Divide | Token::Power
        | Token::Modulo => true,
        _ => false,
    }
}

/// Numbers and variables.
pub open spec fn spec_is_operand(t: Token) -> bool {
    t is Number || t is Variable
}

/// Parentheses.
pub open spec fn spec_is_paren(t: Token) -> bool {
    t is LParen || t is RParen
}

/// Binding strength of an operator token; 0 for tokens that are no operators.
pub open spec fn spec_precedence(t: Token) -> u8 {
    match t {
        Token::Plus | Token::Minus => 1,
        Token::Multiply | Token::Divide | Token::Modulo => 2,
        Token::Power => 3,
        Token::Factorial => 5,
        _ => if spec_is_function(t) {
            4
        } else {
            0
        },
    }
}

/// Whether a token is a scientific function.
pub fn is_function(token: &Token) -> (r: bool)
    ensures
        r == spec_is_function(*token),
{
    match token {
        Token::Sin | Token::Cos | Token::Tan | Token::Asin | Token::Acos | Token::Atan
        | Token::Log | Token::Ln | Token::Sqrt | Token::Abs | Token::Floor | Token::Ceil => true,
        _ => false,
    }
}

/// Binding strength of an operator token (0 for tokens that are no operators).
pub fn precedence(token: &Token) -> (r: u8)
    ensures
        r == spec_precedence(*token),
{
    match token {
        Token::Plus | Token::Minus => 1,
        Token::Multiply | Token::Divide | Token::Modulo => 2,
        Token::Power => 3,
        Token::Factorial => 5,
        Token::Sin | Token::Cos | Token::Tan | Token::Asin | Token::Acos | Token::Atan
        | Token::Log | Token::Ln | Token::Sqrt | Token::Abs | Token::Floor | Token::Ceil => 4,
        _ => 0,
    }
}

/// Every token but `^` groups from the left.
pub fn is_left_associative(token: &Token) -> (r: bool)
    ensures
        r == !(*token is Power),
{
    !matches!(token, Token::Power)
}

} // verus!
