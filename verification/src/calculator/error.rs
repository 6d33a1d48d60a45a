use vstd::prelude::*;

verus! {

/// Why an expression could not be evaluated.
#[derive(Debug)]
pub enum CalcError {
    EmptyExpression,
    InvalidNumber(Vec<char>),
    InvalidCharacter(char),
    UnknownIdentifier(Vec<char>),
    MismatchedParentheses,
    UndefinedVariable(char),
    InvalidExpression,
    InvalidTokenInRpn,
    DivisionByZero,
    ModuloByZero,
    FactorialDomain,
    AsinDomain,
    AcosDomain,
    LogDomain,
    LnDomain,
    SqrtDomain,
}

/// The mathematical value of a `CalcError`: its kind, with the characters it names.
pub enum CalcErrorView {
    EmptyExpression,
    InvalidNumber(Seq<char>),
    InvalidCharacter(char),
    UnknownIdentifier(Seq<char>),
    MismatchedParentheses,
    UndefinedVariable(char),
    InvalidExpression,
    InvalidTokenInRpn,
    DivisionByZero,
    ModuloByZero,
    FactorialDomain,
    AsinDomain,
    AcosDomain,
    LogDomain,
    LnDomain,
    SqrtDomain,
}

impl View for CalcError {
    type V = CalcErrorView;

    open spec fn view(&self) -> CalcErrorView {
        match self {
            CalcError::EmptyExpression => CalcErrorView::EmptyExpression,
            CalcError::InvalidNumber(s) => CalcErrorView::InvalidNumber(s@),
            CalcError::InvalidCharacter(c) => CalcErrorView::InvalidCharacter(*c),
            CalcError::UnknownIdentifier(s) => CalcErrorView::UnknownIdentifier(s@),
            CalcError::MismatchedParentheses => CalcErrorView::MismatchedParentheses,
            CalcError::UndefinedVariable(c) => CalcErrorView::UndefinedVariable(*c),
            CalcError::InvalidExpression => CalcErrorView::InvalidExpression,
            CalcError::InvalidTokenInRpn => CalcErrorView::InvalidTokenInRpn,
            CalcError::DivisionByZero => CalcErrorView::DivisionByZero,
            CalcError::ModuloByZero => CalcErrorView::ModuloByZero,
            CalcError::FactorialDomain => CalcErrorView::FactorialDomain,
            CalcError::AsinDomain => CalcErrorView::AsinDomain,
            CalcError::AcosDomain => CalcErrorView::AcosDomain,
            CalcError::LogDomain => CalcErrorView::LogDomain,
            CalcError::LnDomain => CalcErrorView::LnDomain,
            CalcError::SqrtDomain => CalcErrorView::SqrtDomain,
        }
    }
}

/// The text that an error is reported with.
pub open spec fn spec_message(e: CalcErrorView) -> Seq<char> {
    match e {
        CalcErrorView::EmptyExpression => "Empty expression"@,
        CalcErrorView::InvalidNumber(s) => "Invalid number: "@ + s,
        CalcErrorView::InvalidCharacter(c) => "Invalid character: "@.push(c),
        CalcErrorView::UnknownIdentifier(s) => "Unknown identifier: "@ + s,
        CalcErrorView::MismatchedParentheses => "Mismatched parentheses"@,
        CalcErrorView::UndefinedVariable(c) => "Undefined variable: "@.push(c),
        CalcErrorView::InvalidExpression => "Invalid expression"@,
        CalcErrorView::InvalidTokenInRpn => "Invalid token in RPN"@,
        CalcErrorView::DivisionByZero => "Division by zero"@,
        CalcErrorView::ModuloByZero => "Modulo by zero"@,
        CalcErrorView::FactorialDomain => "Factorial requires non-negative integer"@,
        CalcErrorView::AsinDomain => "asin domain error"@,
        CalcErrorView::AcosDomain => "acos domain error"@,
        CalcErrorView::LogDomain => "log of non-positive number"@,
        CalcErrorView::LnDomain => "ln of non-positive number"@,
        CalcErrorView::SqrtDomain => "sqrt of negative number"@,
    }
}

/// Calls `String::push`: appends one character.
#[verifier::external_body]
fn push_char(s: &mut String, c: char)
    ensures
        final(s)@ == old(s)@.push(c),
{
    s.push(c);
}

/// `prefix` followed by the characters of `tail`.
fn with_chars(prefix: &str, tail: &Vec<char>) -> (s: String)
    ensures
        s@ == prefix@ + tail@,
{
    let mut s = String::from_str(prefix);
    let mut i: usize = 0;
    while i < tail.len()
        invariant
            i <= tail@.len(),
            s@ == prefix@ + tail@.take(i as int),
        decreases tail.len() - i,
    {
        push_char(&mut s, tail[i]);
        i += 1;
        assert(tail@.take(i as int) == tail@.take(i - 1).push(tail@[i - 1]));
    }
    assert(tail@.take(tail@.len() as int) == tail@);
    s
}

impl CalcError {
    /// The text the error is reported with.
    pub fn message(&self) -> (s: String)
        ensures
            s@ == spec_message(self@),
    {
        match self {
            CalcError::EmptyExpression => String::from_str("Empty expression"),
            CalcError::InvalidNumber(t) => with_chars("Invalid number: ", t),
            CalcError::InvalidCharacter(c) => {
                let mut s = String::from_str("Invalid character: ");
                push_char(&mut s, *c);
                s
            },
            CalcError::UnknownIdentifier(t) => with_chars("Unknown identifier: ", t),
            CalcError::MismatchedParentheses => String::from_str("Mismatched parentheses"),
            CalcError::UndefinedVariable(c) => {
                let mut s = String::from_str("Undefined variable: ");
                push_char(&mut s, *c);
                s
            },
            CalcError::InvalidExpression => String::from_str("Invalid expression"),
            CalcError::InvalidTokenInRpn => String::from_str("Invalid token in RPN"),
            CalcError::DivisionByZero => String::from_str("Division by zero"),
            CalcError::ModuloByZero => String::from_str("Modulo by zero"),
            CalcError::FactorialDomain => String::from_str(
                "Factorial requires non-negative integer",
            ),
            CalcError::AsinDomain => String::from_str("asin domain error"),
            CalcError::AcosDomain => String::from_str("acos domain error"),
            CalcError::LogDomain => String::from_str("log of non-positive number"),
            CalcError::LnDomain => String::from_str("ln of non-positive number"),
            CalcError::SqrtDomain => String::from_str("sqrt of negative number"),
        }
    }
}

} // verus!
