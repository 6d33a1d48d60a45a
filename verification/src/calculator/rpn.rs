use vstd::prelude::*;

use crate::calculator::error::{CalcError, CalcErrorView};
use crate::calculator::token::{Numeral, Token};

verus! {

/// Operators that take one value from the stack.
#[derive(Clone, Copy, Debug, PartialEq, Eq, Structural)]
pub enum UnaryOp {
    Factorial,
    Sin,
    Cos,
    Tan,
    Asin,
    Acos,
    Atan,
    Log,
    Ln,
    Sqrt,
    Abs,
    Floor,
    Ceil,
}

/// Operators that take two values from the stack (the left operand lies deeper).
#[derive(Clone, Copy, Debug, PartialEq, Eq, Structural)]
pub enum BinaryOp {
    Add,
    Sub,
    Mul,
    Div,
    Pow,
    Mod,
}

/// What evaluating one postfix token does to the value stack.
#[derive(Clone, Copy, Debug, PartialEq, Eq, Structural)]
pub enum RpnStep {
    PushNumber(Numeral),
    PushVariable(char),
    Apply1(UnaryOp),
    Apply2(BinaryOp),
}

/// How many values a step takes from the stack.
pub open spec fn arity(step: RpnStep) -> nat {
    match step {
        RpnStep::PushNumber(_) | RpnStep::PushVariable(_) => 0,
        RpnStep::Apply1(_) => 1,
        RpnStep::Apply2(_) => 2,
    }
}

/// The stack depth after a step: it takes its arguments and leaves one value.
pub open spec fn depth_after(depth: nat, step: RpnStep) -> nat {
    (depth - arity(step) + 1) as nat
}

/// The step a token stands for.
pub open spec fn token_step(t: Token) -> Option<RpnStep> {
    match t {
        Token::Number(n) => Some(RpnStep::PushNumber(n)),
        Token::Variable(v) => Some(RpnStep::PushVariable(v)),
        Token::Plus => Some(RpnStep::Apply2(BinaryOp::Add)),
        Token::Minus => Some(RpnStep::Apply2(BinaryOp::Sub)),
        Token::Multiply => Some(RpnStep::Apply2(BinaryOp::Mul)),
        Token::Divide => Some(RpnStep::Apply2(BinaryOp::Div)),
        Token::Power => Some(RpnStep::Apply2(BinaryOp::Pow)),
        Token::Modulo => Some(RpnStep::Apply2(BinaryOp::Mod)),
        Token::Factorial => Some(RpnStep::Apply1(UnaryOp::Factorial)),
        Token::Sin => Some(RpnStep::Apply1(UnaryOp::Sin)),
        Token::Cos => Some(RpnStep::Apply1(UnaryOp::Cos)),
        Token::Tan => Some(RpnStep::Apply1(UnaryOp::Tan)),
        Token::Asin => Some(RpnStep::Apply1(UnaryOp::Asin)),
        Token::Acos => Some(RpnStep::Apply1(UnaryOp::Acos)),
        Token::Atan => Some(RpnStep::Apply1(UnaryOp::Atan)),
        Token::Log => Some(RpnStep::Apply1(UnaryOp::Log)),
        Token::Ln => Some(RpnStep::Apply1(UnaryOp::Ln)),
        Token::Sqrt => Some(RpnStep::Apply1(UnaryOp::Sqrt)),
        Token::Abs => Some(RpnStep::Apply1(UnaryOp::Abs)),
        Token::Floor => Some(RpnStep::Apply1(UnaryOp::Floor)),
        Token::Ceil => Some(RpnStep::Apply1(UnaryOp::Ceil)),
        Token::LParen | Token::RParen => None,
    }
}

/// The decision for one postfix token on a stack of `depth` values: a parenthesis is no
/// postfix token; an operator needs as many values as it takes.
pub open spec fn spec_rpn_step(depth: nat, t: Token) -> Result<RpnStep, CalcErrorView> {
    match token_step(t) {
        None => Err(CalcErrorView::InvalidTokenInRpn),
        Some(step) => if arity(step) > depth {
            Err(CalcErrorView::InvalidExpression)
        } else {
            Ok(step)
        },
    }
}

/// Decide what one postfix token does on a stack of `depth` values.
pub fn rpn_step(depth: usize, token: Token) -> (r: Result<RpnStep, CalcError>)
    ensures
        match spec_rpn_step(depth as nat, token) {
            Ok(step) => r == Ok::<RpnStep, CalcError>(step),
            Err(e) => r matches Err(x) && x@ == e,
        },
{
    let step = match token {
        Token::Number(n) => RpnStep::PushNumber(n),
        Token::Variable(v) => RpnStep::PushVariable(v),
        Token::Plus => RpnStep::Apply2(BinaryOp::Add),
        Token::Minus => RpnStep::Apply2(BinaryOp::Sub),
        Token::Multiply => RpnStep::Apply2(BinaryOp::Mul),
        Token::Divide => RpnStep::Apply2(BinaryOp::Div),
        Token::Power => RpnStep::Apply2(BinaryOp::Pow),
        Token::Modulo => RpnStep::Apply2(BinaryOp::Mod),
        Token::Factorial => RpnStep::Apply1(UnaryOp::Factorial),
        Token::Sin => RpnStep::Apply1(UnaryOp::Sin),
        Token::Cos => RpnStep::Apply1(UnaryOp::Cos),
        Token::Tan => RpnStep::Apply1(UnaryOp::Tan),
        Token::Asin => RpnStep::Apply1(UnaryOp::Asin),
        Token::Acos => RpnStep::Apply1(UnaryOp::Acos),
        Token::Atan => RpnStep::Apply1(UnaryOp::Atan),
        Token::Log => RpnStep::Apply1(UnaryOp::Log),
        Token::Ln => RpnStep::Apply1(UnaryOp::Ln),
        Token::Sqrt => RpnStep::Apply1(UnaryOp::Sqrt),
        Token::Abs => RpnStep::Apply1(UnaryOp::Abs),
        Token::Floor => RpnStep::Apply1(UnaryOp::Floor),
        Token::Ceil => RpnStep::Apply1(UnaryOp::Ceil),
        Token::LParen | Token::RParen => {
            return Err(CalcError::InvalidTokenInRpn);
        },
    };
    let needed: usize = match step {
        RpnStep::PushNumber(_) | RpnStep::PushVariable(_) => 0,
        RpnStep::Apply1(_) => 1,
        RpnStep::Apply2(_) => 2,
    };
    if needed > depth {
        Err(CalcError::InvalidExpression)
    } else {
        Ok(step)
    }
}

/// The token that writes a two-value operator in an expression.
pub open spec fn binary_symbol(op: BinaryOp) -> Token {
    match op {
        BinaryOp::Add => Token::Plus,
        BinaryOp::Sub => Token::Minus,
        BinaryOp::Mul => Token::Multiply,
        BinaryOp::Div => Token::Divide,
        BinaryOp::Pow => Token::Power,
        BinaryOp::Mod => Token::Modulo,
    }
}

/// The token that writes a one-value operator in an expression.
pub open spec fn unary_symbol(op: UnaryOp) -> Token {
    match op {
        UnaryOp::Factorial => Token::Factorial,
        UnaryOp::Sin => Token::Sin,
        UnaryOp::Cos => Token::Cos,
        UnaryOp::Tan => Token::Tan,
        UnaryOp::Asin => Token::Asin,
        UnaryOp::Acos => Token::Acos,
        UnaryOp::Atan => Token::Atan,
        UnaryOp::Log => Token::Log,
        UnaryOp::Ln => Token::Ln,
        UnaryOp::Sqrt => Token::Sqrt,
        UnaryOp::Abs => Token::Abs,
        UnaryOp::Floor => Token::Floor,
        UnaryOp::Ceil => Token::Ceil,
    }
}

/// Each operator token applies the operator it writes: on a stack of at least two
/// values the token of a two-value operator applies that operator, and on a non-empty
/// stack the token of a one-value operator applies that one. Numbers and variables are
/// pushed as they are, on any stack.
pub proof fn law_tokens_apply_their_operators(depth: nat)
    ensures
        forall|op: BinaryOp|
            depth >= 2 ==> spec_rpn_step(depth, #[trigger] binary_symbol(op)) == Ok::<
                RpnStep,
                CalcErrorView,
            >(RpnStep::Apply2(op)),
        forall|op: UnaryOp|
            depth >= 1 ==> spec_rpn_step(depth, #[trigger] unary_symbol(op)) == Ok::<
                RpnStep,
                CalcErrorView,
            >(RpnStep::Apply1(op)),
        forall|n: Numeral|
            #[trigger] spec_rpn_step(depth, Token::Number(n)) == Ok::<RpnStep, CalcErrorView>(
                RpnStep::PushNumber(n),
            ),
        forall|v: char|
            #[trigger] spec_rpn_step(depth, Token::Variable(v)) == Ok::<RpnStep, CalcErrorView>(
                RpnStep::PushVariable(v),
            ),
{
    assert forall|op: BinaryOp| depth >= 2 implies spec_rpn_step(
        depth,
        #[trigger] binary_symbol(op),
    ) == Ok::<RpnStep, CalcErrorView>(RpnStep::Apply2(op)) by {
        match op {
            BinaryOp::Add => {},
            BinaryOp::Sub => {},
            BinaryOp::Mul => {},
            BinaryOp::Div => {},
            BinaryOp::Pow => {},
            BinaryOp::Mod => {},
        }
    }
    assert forall|op: UnaryOp| depth >= 1 implies spec_rpn_step(
        depth,
        #[trigger] unary_symbol(op),
    ) == Ok::<RpnStep, CalcErrorView>(RpnStep::Apply1(op)) by {
        match op {
            UnaryOp::Factorial => {},
            UnaryOp::Sin => {},
            UnaryOp::Cos => {},
            UnaryOp::Tan => {},
            UnaryOp::Asin => {},
            UnaryOp::Acos => {},
            UnaryOp::Atan => {},
            UnaryOp::Log => {},
            UnaryOp::Ln => {},
            UnaryOp::Sqrt => {},
            UnaryOp::Abs => {},
            UnaryOp::Floor => {},
            UnaryOp::Ceil => {},
        }
    }
}

/// A two-value operator on a stack of fewer than two values, or a one-value operator on
/// an empty stack, is an invalid expression; a parenthesis is no postfix token at all.
pub proof fn law_step_errors(depth: nat)
    ensures
        forall|op: BinaryOp|
            depth < 2 ==> #[trigger] spec_rpn_step(depth, binary_symbol(op)) == Err::<
                RpnStep,
                CalcErrorView,
            >(CalcErrorView::InvalidExpression),
        forall|op: UnaryOp|
            depth == 0 ==> #[trigger] spec_rpn_step(depth, unary_symbol(op)) == Err::<
                RpnStep,
                CalcErrorView,
            >(CalcErrorView::InvalidExpression),
        spec_rpn_step(depth, Token::LParen) == Err::<RpnStep, CalcErrorView>(
            CalcErrorView::InvalidTokenInRpn,
        ),
        spec_rpn_step(depth, Token::RParen) == Err::<RpnStep, CalcErrorView>(
            CalcErrorView::InvalidTokenInRpn,
        ),
{
    assert forall|op: BinaryOp| depth < 2 implies #[trigger] spec_rpn_step(
        depth,
        binary_symbol(op),
    ) == Err::<RpnStep, CalcErrorView>(CalcErrorView::InvalidExpression) by {
        match op {
            BinaryOp::Add => {},
            BinaryOp::Sub => {},
            BinaryOp::Mul => {},
            BinaryOp::Div => {},
            BinaryOp::Pow => {},
            BinaryOp::Mod => {},
        }
    }
    assert forall|op: UnaryOp| depth == 0 implies #[trigger] spec_rpn_step(
        depth,
        unary_symbol(op),
    ) == Err::<RpnStep, CalcErrorView>(CalcErrorView::InvalidExpression) by {
        match op {
            UnaryOp::Factorial => {},
            UnaryOp::Sin => {},
            UnaryOp::Cos => {},
            UnaryOp::Tan => {},
            UnaryOp::Asin => {},
            UnaryOp::Acos => {},
            UnaryOp::Atan => {},
            UnaryOp::Log => {},
            UnaryOp::Ln => {},
            UnaryOp::Sqrt => {},
            UnaryOp::Abs => {},
            UnaryOp::Floor => {},
            UnaryOp::Ceil => {},
        }
    }
}

/// After the last token exactly one value must be left.
pub fn rpn_finish(depth: usize) -> (r: Result<(), CalcError>)
    ensures
        r is Ok <==> depth == 1,
        r matches Err(e) ==> e@ == CalcErrorView::InvalidExpression,
{
    if depth != 1 {
        Err(CalcError::InvalidExpression)
    } else {
        Ok(())
    }
}

} // verus!
