use vstd::prelude::*;

use crate::calculator::error::{CalcError, CalcErrorView};
use crate::calculator::rpn::{binary_symbol, unary_symbol, BinaryOp, UnaryOp};
use crate::calculator::token::{
    is_function, is_left_associative, precedence, spec_is_binary, spec_is_function, spec_is_operand,
    spec_is_paren, spec_precedence, Token,
};

verus! {

/// Whether the operator `top` on the stack leaves it before the infix operator `t` is
/// pushed: functions always do; operators that bind tighter, or as tightly when `t`
/// groups from the left, do too.
pub open spec fn yields_to(top: Token, t: Token) -> bool {
    spec_is_function(top) || spec_precedence(top) > spec_precedence(t) || (spec_precedence(top)
        == spec_precedence(t) && !(t is Power))
}

/// Move operators from the stack to the output while they yield to the incoming infix
/// operator `t`, stopping at `(`.
pub open spec fn pop_for_operator(output: Seq<Token>, ops: Seq<Token>, t: Token) -> (
    Seq<Token>,
    Seq<Token>,
)
    decreases ops.len(),
{
    if ops.len() == 0 {
        (output, ops)
    } else {
        let top = ops.last();
        if top is LParen {
            (output, ops)
        } else if yields_to(top, t) {
            pop_for_operator(output.push(top), ops.drop_last(), t)
        } else {
            (output, ops)
        }
    }
}

/// Move operators from the stack to the output down to the nearest `(`, which is
/// dropped; `None` when the stack holds no `(`.
pub open spec fn pop_to_lparen(output: Seq<Token>, ops: Seq<Token>) -> Option<
    (Seq<Token>, Seq<Token>),
>
    decreases ops.len(),
{
    if ops.len() == 0 {
        None
    } else {
        let top = ops.last();
        if top is LParen {
            Some((output, ops.drop_last()))
        } else {
            pop_to_lparen(output.push(top), ops.drop_last())
        }
    }
}

/// What a `)` does: pop down to its `(`, then move a function that stood before the
/// `(` to the output.
pub open spec fn close_paren(output: Seq<Token>, ops: Seq<Token>) -> Option<
    (Seq<Token>, Seq<Token>),
> {
    match pop_to_lparen(output, ops) {
        None => None,
        Some((o, s)) => if s.len() > 0 && spec_is_function(s.last()) {
            Some((o.push(s.last()), s.drop_last()))
        } else {
            Some((o, s))
        },
    }
}

/// Move what is left on the stack to the output; a parenthesis left there is unmatched.
pub open spec fn drain(output: Seq<Token>, ops: Seq<Token>) -> Result<Seq<Token>, CalcErrorView>
    decreases ops.len(),
{
    if ops.len() == 0 {
        Ok(output)
    } else {
        let top = ops.last();
        if spec_is_paren(top) {
            Err(CalcErrorView::MismatchedParentheses)
        } else {
            drain(output.push(top), ops.drop_last())
        }
    }
}

/// The shunting-yard run over `tokens` from position `i` on, with the output and the
/// operator stack built so far. Numbers, variables and `!` go straight to the output;
/// functions and `(` go on the stack; an infix operator first moves the operators that
/// yield to it; `)` closes its group.
pub open spec fn sy(tokens: Seq<Token>, i: int, output: Seq<Token>, ops: Seq<Token>) -> Result<
    Seq<Token>,
    CalcErrorView,
>
    decreases tokens.len() - i,
{
    if i < 0 || i >= tokens.len() {
        drain(output, ops)
    } else {
        let t = tokens[i];
        if spec_is_operand(t) || t is Factorial {
            sy(tokens, i + 1, output.push(t), ops)
        } else if spec_is_function(t) || t is LParen {
            sy(tokens, i + 1, output, ops.push(t))
        } else if t is RParen {
            match close_paren(output, ops) {
                None => Err(CalcErrorView::MismatchedParentheses),
                Some((o, s)) => sy(tokens, i + 1, o, s),
            }
        } else {
            let (o, s) = pop_for_operator(output, ops, t);
            sy(tokens, i + 1, o, s.push(t))
        }
    }
}

/// The postfix (reverse Polish) form of a token sequence.
pub open spec fn spec_shunting_yard(tokens: Seq<Token>) -> Result<Seq<Token>, CalcErrorView> {
    sy(tokens, 0, seq![], seq![])
}


/// How many times `x` occurs in `s`.
pub open spec fn count(s: Seq<Token>, x: Token) -> nat
    decreases s.len(),
{
    if s.len() == 0 {
        0
    } else {
        count(s.drop_last(), x) + if s.last() == x {
            1nat
        } else {
            0nat
        }
    }
}

/// The numbers and variables of `s`, in order.
pub open spec fn operands(s: Seq<Token>) -> Seq<Token>
    decreases s.len(),
{
    if s.len() == 0 {
        seq![]
    } else if spec_is_operand(s.last()) {
        operands(s.drop_last()).push(s.last())
    } else {
        operands(s.drop_last())
    }
}

pub open spec fn no_parens(s: Seq<Token>) -> bool {
    forall|k: int| 0 <= k < s.len() ==> !spec_is_paren(#[trigger] s[k])
}

pub open spec fn no_rparen(s: Seq<Token>) -> bool {
    forall|k: int| 0 <= k < s.len() ==> !(#[trigger] s[k] is RParen)
}

pub open spec fn no_operands(s: Seq<Token>) -> bool {
    forall|k: int| 0 <= k < s.len() ==> !spec_is_operand(#[trigger] s[k])
}

proof fn lemma_count_prepend(t: Token, rest: Seq<Token>, x: Token)
    ensures
        count(seq![t] + rest, x) == count(rest, x) + if t == x {
            1nat
        } else {
            0nat
        },
    decreases rest.len(),
{
    let whole = seq![t] + rest;
    if rest.len() > 0 {
        assert(whole.drop_last() =~= seq![t] + rest.drop_last());
        assert(whole.last() == rest.last());
        lemma_count_prepend(t, rest.drop_last(), x);
    } else {
        assert(whole.drop_last() =~= Seq::<Token>::empty());
        assert(whole.last() == t);
        assert(count(whole.drop_last(), x) == 0);
        assert(count(rest, x) == 0);
    }
}

proof fn lemma_operands_prepend(t: Token, rest: Seq<Token>)
    ensures
        operands(seq![t] + rest) == if spec_is_operand(t) {
            seq![t] + operands(rest)
        } else {
            operands(rest)
        },
    decreases rest.len(),
{
    let whole = seq![t] + rest;
    if rest.len() > 0 {
        assert(whole.drop_last() =~= seq![t] + rest.drop_last());
        assert(whole.last() == rest.last());
        lemma_operands_prepend(t, rest.drop_last());
        if spec_is_operand(t) {
            assert((seq![t] + operands(rest.drop_last())).push(rest.last()) =~= seq![t] + operands(
                rest.drop_last(),
            ).push(rest.last()));
        }
    } else {
        assert(whole.drop_last() =~= Seq::<Token>::empty());
        assert(whole.last() == t);
        assert(operands(whole.drop_last()) =~= Seq::<Token>::empty());
        assert(operands(rest) =~= Seq::<Token>::empty());
        assert(seq![t] + Seq::<Token>::empty() =~= seq![t]);
        assert(Seq::<Token>::empty().push(t) =~= seq![t]);
    }
}

proof fn lemma_count_no_parens(s: Seq<Token>, x: Token)
    requires
        no_parens(s),
        spec_is_paren(x),
    ensures
        count(s, x) == 0,
    decreases s.len(),
{
    if s.len() > 0 {
        assert(!spec_is_paren(s[s.len() - 1]));
        lemma_count_no_parens(s.drop_last(), x);
    }
}

proof fn lemma_pop_for_operator(output: Seq<Token>, ops: Seq<Token>, t: Token, x: Token)
    ensures
        ({
            let (o, s) = pop_for_operator(output, ops, t);
            &&& count(o, x) + count(s, x) == count(output, x) + count(ops, x)
            &&& (no_operands(ops) ==> operands(o) == operands(output) && no_operands(s))
            &&& (no_rparen(ops) ==> no_rparen(s))
            &&& (no_parens(output) && no_rparen(ops) ==> no_parens(o))
        }),
    decreases ops.len(),
{
    if ops.len() > 0 {
        let top = ops.last();
        if !(top is LParen) && yields_to(top, t) {
            lemma_pop_for_operator(output.push(top), ops.drop_last(), t, x);
            assert(output.push(top).drop_last() =~= output);
            if no_rparen(ops) {
                assert(!(ops[ops.len() - 1] is RParen));
            }
            if no_operands(ops) {
                assert(!spec_is_operand(ops[ops.len() - 1]));
            }
        }
    }
}

proof fn lemma_pop_to_lparen(output: Seq<Token>, ops: Seq<Token>, x: Token)
    ensures
        pop_to_lparen(output, ops) matches Some((o, s)) ==> {
            &&& (!spec_is_paren(x) ==> count(o, x) + count(s, x) == count(output, x) + count(
                ops,
                x,
            ))
            &&& (no_operands(ops) ==> operands(o) == operands(output) && no_operands(s))
            &&& (no_rparen(ops) ==> no_rparen(s))
            &&& (no_parens(output) && no_rparen(ops) ==> no_parens(o))
        },
    decreases ops.len(),
{
    if ops.len() > 0 {
        let top = ops.last();
        if !(top is LParen) {
            lemma_pop_to_lparen(output.push(top), ops.drop_last(), x);
            assert(output.push(top).drop_last() =~= output);
            if no_rparen(ops) {
                assert(!(ops[ops.len() - 1] is RParen));
            }
            if no_operands(ops) {
                assert(!spec_is_operand(ops[ops.len() - 1]));
            }
        }
    }
}

proof fn lemma_close_paren(output: Seq<Token>, ops: Seq<Token>, x: Token)
    ensures
        close_paren(output, ops) matches Some((o, s)) ==> {
            &&& (!spec_is_paren(x) ==> count(o, x) + count(s, x) == count(output, x) + count(
                ops,
                x,
            ))
            &&& (no_operands(ops) ==> operands(o) == operands(output) && no_operands(s))
            &&& (no_rparen(ops) ==> no_rparen(s))
            &&& (no_parens(output) && no_rparen(ops) ==> no_parens(o))
        },
{
    lemma_pop_to_lparen(output, ops, x);
    if let Some((o, s)) = pop_to_lparen(output, ops) {
        if s.len() > 0 && spec_is_function(s.last()) {
            assert(o.push(s.last()).drop_last() =~= o);
        }
    }
}

proof fn lemma_drain(output: Seq<Token>, ops: Seq<Token>, x: Token)
    ensures
        drain(output, ops) matches Ok(r) ==> {
            &&& (!spec_is_paren(x) ==> count(r, x) == count(output, x) + count(ops, x))
            &&& (no_operands(ops) ==> operands(r) == operands(output))
            &&& (no_parens(output) ==> no_parens(r))
        },
    decreases ops.len(),
{
    if ops.len() > 0 {
        let top = ops.last();
        if !spec_is_paren(top) {
            lemma_drain(output.push(top), ops.drop_last(), x);
            assert(output.push(top).drop_last() =~= output);
            if no_operands(ops) {
                assert(!spec_is_operand(ops[ops.len() - 1]));
            }
        }
    }
}

proof fn lemma_sy(tokens: Seq<Token>, i: int, output: Seq<Token>, ops: Seq<Token>, x: Token)
    requires
        0 <= i <= tokens.len(),
        no_rparen(ops),
    ensures
        sy(tokens, i, output, ops) matches Ok(r) ==> {
            &&& (!spec_is_paren(x) ==> count(r, x) == count(output, x) + count(ops, x) + count(
                tokens.skip(i),
                x,
            ))
            &&& (no_operands(ops) ==> operands(r) == operands(output) + operands(tokens.skip(i)))
            &&& (no_parens(output) ==> no_parens(r))
        },
    decreases tokens.len() - i,
{
    if i >= tokens.len() {
        lemma_drain(output, ops, x);
        assert(tokens.skip(i) =~= Seq::<Token>::empty());
        assert(operands(output) + Seq::<Token>::empty() =~= operands(output));
    } else {
        let t = tokens[i];
        assert(tokens.skip(i) =~= seq![t] + tokens.skip(i + 1));
        lemma_count_prepend(t, tokens.skip(i + 1), x);
        lemma_operands_prepend(t, tokens.skip(i + 1));
        if spec_is_operand(t) || t is Factorial {
            lemma_sy(tokens, i + 1, output.push(t), ops, x);
            assert(output.push(t).drop_last() =~= output);
            if spec_is_operand(t) {
                assert(operands(output).push(t) + operands(tokens.skip(i + 1)) =~= operands(output)
                    + (seq![t] + operands(tokens.skip(i + 1))));
            }
        } else if spec_is_function(t) || t is LParen {
            let s2 = ops.push(t);
            assert(s2.drop_last() =~= ops);
            assert(no_rparen(s2)) by {
                assert forall|k: int| 0 <= k < s2.len() implies !(#[trigger] s2[k] is RParen) by {
                    if k < ops.len() {
                        assert(s2[k] == ops[k]);
                    }
                }
            }
            lemma_sy(tokens, i + 1, output, s2, x);
            if no_operands(ops) {
                assert(no_operands(s2)) by {
                    assert forall|k: int| 0 <= k < s2.len() implies !spec_is_operand(
                        #[trigger] s2[k],
                    ) by {
                        if k < ops.len() {
                            assert(s2[k] == ops[k]);
                        }
                    }
                }
            }
        } else if t is RParen {
            lemma_close_paren(output, ops, x);
            if let Some((o, s)) = close_paren(output, ops) {
                lemma_sy(tokens, i + 1, o, s, x);
            }
        } else {
            lemma_pop_for_operator(output, ops, t, x);
            let (o, s) = pop_for_operator(output, ops, t);
            let s2 = s.push(t);
            assert(s2.drop_last() =~= s);
            assert(no_rparen(s2)) by {
                assert forall|k: int| 0 <= k < s2.len() implies !(#[trigger] s2[k] is RParen) by {
                    if k < s.len() {
                        assert(s2[k] == s[k]);
                    }
                }
            }
            lemma_sy(tokens, i + 1, o, s2, x);
            if no_operands(ops) {
                assert(no_operands(s2)) by {
                    assert forall|k: int| 0 <= k < s2.len() implies !spec_is_operand(
                        #[trigger] s2[k],
                    ) by {
                        if k < s.len() {
                            assert(s2[k] == s[k]);
                        }
                    }
                }
            }
        }
    }
}


pub(crate) proof fn lemma_count_occurs(s: Seq<Token>, x: Token)
    ensures
        count(s, x) > 0 <==> exists|k: int| 0 <= k < s.len() && s[k] == x,
    decreases s.len(),
{
    if s.len() > 0 {
        let p = s.drop_last();
        lemma_count_occurs(p, x);
        if exists|k: int| 0 <= k < p.len() && p[k] == x {
            let k = choose|k: int| 0 <= k < p.len() && p[k] == x;
            assert(s[k] == x);
        }
        if exists|k: int| 0 <= k < s.len() && s[k] == x {
            let k = choose|k: int| 0 <= k < s.len() && s[k] == x;
            if k < p.len() {
                assert(p[k] == x);
            }
        }
    }
}

/// The postfix form is a rearrangement of the infix tokens with the parentheses left
/// out: every token occurs in it as often as in the input, and no parenthesis occurs.
pub proof fn law_postfix_rearranges_input(tokens: Seq<Token>, x: Token)
    ensures
        spec_shunting_yard(tokens) matches Ok(r) ==> count(r, x) == if spec_is_paren(x) {
            0
        } else {
            count(tokens, x)
        },
{
    lemma_sy(tokens, 0, seq![], seq![], x);
    assert(tokens.skip(0) =~= tokens);
    if let Ok(r) = spec_shunting_yard(tokens) {
        if spec_is_paren(x) {
            lemma_count_no_parens(r, x);
        }
    }
}

/// Numbers and variables keep their order from the infix form to the postfix form.
pub proof fn law_postfix_keeps_operand_order(tokens: Seq<Token>)
    ensures
        spec_shunting_yard(tokens) matches Ok(r) ==> operands(r) == operands(tokens),
{
    lemma_sy(tokens, 0, seq![], seq![], Token::Plus);
    assert(tokens.skip(0) =~= tokens);
    assert(Seq::<Token>::empty() + operands(tokens) =~= operands(tokens));
}


/// Precedence and grouping of two infix operators between three operands: the first
/// operator is applied first exactly when it yields to the second (it binds tighter, or
/// as tightly and the second groups from the left).
pub proof fn law_two_operators(a: Token, o1: Token, b: Token, o2: Token, c: Token)
    requires
        spec_is_operand(a),
        spec_is_operand(b),
        spec_is_operand(c),
        spec_is_binary(o1),
        spec_is_binary(o2),
    ensures
        spec_shunting_yard(seq![a, o1, b, o2, c]) == if yields_to(o1, o2) {
            Ok::<Seq<Token>, CalcErrorView>(seq![a, b, o1, c, o2])
        } else {
            Ok::<Seq<Token>, CalcErrorView>(seq![a, b, c, o2, o1])
        },
{
    let ts = seq![a, o1, b, o2, c];
    let e = Seq::<Token>::empty();
    assert(ts.len() == 5 && ts[0] == a && ts[1] == o1 && ts[2] == b && ts[3] == o2 && ts[4] == c);
    assert(e.push(a) =~= seq![a]);
    assert(pop_for_operator(seq![a], e, o1) == (seq![a], e));
    let s1 = e.push(o1);
    let out2 = seq![a].push(b);
    assert(sy(ts, 0, e, e) == sy(ts, 1, seq![a], e));
    assert(sy(ts, 1, seq![a], e) == sy(ts, 2, seq![a], s1));
    assert(sy(ts, 2, seq![a], s1) == sy(ts, 3, out2, s1));
    let (o, st) = pop_for_operator(out2, s1, o2);
    assert(sy(ts, 3, out2, s1) == sy(ts, 4, o, st.push(o2)));
    assert(sy(ts, 4, o, st.push(o2)) == sy(ts, 5, o.push(c), st.push(o2)));
    assert(sy(ts, 5, o.push(c), st.push(o2)) == drain(o.push(c), st.push(o2)));
    assert(s1.drop_last() =~= e);
    assert(s1.last() == o1);
    if yields_to(o1, o2) {
        assert(pop_for_operator(out2.push(o1), e, o2) == (out2.push(o1), e));
        assert(pop_for_operator(out2, s1, o2) == (out2.push(o1), e));
        let out3 = out2.push(o1).push(c);
        let s2 = e.push(o2);
        assert(s2.drop_last() =~= e);
        assert(drain(out3.push(o2), e) == Ok::<Seq<Token>, CalcErrorView>(out3.push(o2)));
        assert(drain(out3, s2) == Ok::<Seq<Token>, CalcErrorView>(out3.push(o2)));
        assert(out3.push(o2) =~= seq![a, b, o1, c, o2]);
    } else {
        assert(pop_for_operator(out2, s1, o2) == (out2, s1));
        let out3 = out2.push(c);
        let s2 = s1.push(o2);
        assert(s2.drop_last() =~= s1);
        assert(s2.last() == o2);
        assert(drain(out3.push(o2).push(o1), e) == Ok::<Seq<Token>, CalcErrorView>(
            out3.push(o2).push(o1),
        ));
        assert(drain(out3.push(o2), s1) == Ok::<Seq<Token>, CalcErrorView>(
            out3.push(o2).push(o1),
        ));
        assert(drain(out3, s2) == Ok::<Seq<Token>, CalcErrorView>(out3.push(o2).push(o1)));
        assert(out3.push(o2).push(o1) =~= seq![a, b, c, o2, o1]);
    }
}

/// How tightly an infix operator binds: `+` and `-` least, then `*`, `/` and `%`, then `^`.
pub open spec fn binding(op: BinaryOp) -> nat {
    match op {
        BinaryOp::Add | BinaryOp::Sub => 1,
        BinaryOp::Mul | BinaryOp::Div | BinaryOp::Mod => 2,
        BinaryOp::Pow => 3,
    }
}

/// In `a o1 b o2 c`, the first operator is applied first (`(a o1 b) o2 c`) when it binds
/// more tightly than the second, or as tightly and the second is not `^`: operators of
/// equal binding group from the left, and `^` groups from the right. Otherwise the
/// second is applied first (`a o1 (b o2 c)`).
pub proof fn law_operator_grouping(a: Token, o1: BinaryOp, b: Token, o2: BinaryOp, c: Token)
    requires
        a is Number || a is Variable,
        b is Number || b is Variable,
        c is Number || c is Variable,
    ensures
        spec_shunting_yard(seq![a, binary_symbol(o1), b, binary_symbol(o2), c]) == if binding(o1)
            > binding(o2) || (binding(o1) == binding(o2) && o2 != BinaryOp::Pow) {
            Ok::<Seq<Token>, CalcErrorView>(seq![a, b, binary_symbol(o1), c, binary_symbol(o2)])
        } else {
            Ok::<Seq<Token>, CalcErrorView>(seq![a, b, c, binary_symbol(o2), binary_symbol(o1)])
        },
{
    let t1 = binary_symbol(o1);
    let t2 = binary_symbol(o2);
    assert(spec_is_binary(t1) && spec_is_binary(t2));
    assert(!spec_is_function(t1));
    assert(spec_precedence(t1) == binding(o1));
    assert(spec_precedence(t2) == binding(o2));
    assert((t2 is Power) == (o2 == BinaryOp::Pow));
    law_two_operators(a, t1, b, t2, c);
}

/// A parenthesised first pair is applied first, whatever the operators:
/// `(a o1 b) o2 c` is `a b o1 c o2`.
pub proof fn law_parenthesised_left(a: Token, o1: BinaryOp, b: Token, o2: BinaryOp, c: Token)
    requires
        a is Number || a is Variable,
        b is Number || b is Variable,
        c is Number || c is Variable,
    ensures
        spec_shunting_yard(
            seq![Token::LParen, a, binary_symbol(o1), b, Token::RParen, binary_symbol(o2), c],
        ) == Ok::<Seq<Token>, CalcErrorView>(
            seq![a, b, binary_symbol(o1), c, binary_symbol(o2)],
        ),
{
    let t1 = binary_symbol(o1);
    let t2 = binary_symbol(o2);
    let l = Token::LParen;
    let ts = seq![l, a, t1, b, Token::RParen, t2, c];
    let e = Seq::<Token>::empty();
    assert(ts.len() == 7 && ts[0] == l && ts[1] == a && ts[2] == t1 && ts[3] == b && ts[4]
        == Token::RParen && ts[5] == t2 && ts[6] == c);
    let sl = e.push(l);
    let oa = e.push(a);
    assert(sy(ts, 0, e, e) == sy(ts, 1, e, sl));
    assert(sy(ts, 1, e, sl) == sy(ts, 2, oa, sl));
    assert(sl.last() == l);
    assert(pop_for_operator(oa, sl, t1) == (oa, sl));
    let s2 = sl.push(t1);
    assert(sy(ts, 2, oa, sl) == sy(ts, 3, oa, s2));
    let oab = oa.push(b);
    assert(sy(ts, 3, oa, s2) == sy(ts, 4, oab, s2));
    assert(s2.last() == t1 && s2.drop_last() =~= sl);
    assert(sl.drop_last() =~= e);
    let o3 = oab.push(t1);
    assert(pop_to_lparen(o3, sl) == Some((o3, e)));
    assert(pop_to_lparen(oab, s2) == Some((o3, e)));
    assert(close_paren(oab, s2) == Some((o3, e)));
    assert(sy(ts, 4, oab, s2) == sy(ts, 5, o3, e));
    assert(pop_for_operator(o3, e, t2) == (o3, e));
    let s5 = e.push(t2);
    assert(sy(ts, 5, o3, e) == sy(ts, 6, o3, s5));
    let o4 = o3.push(c);
    assert(sy(ts, 6, o3, s5) == sy(ts, 7, o4, s5));
    assert(s5.last() == t2 && s5.drop_last() =~= e);
    assert(drain(o4.push(t2), e) == Ok::<Seq<Token>, CalcErrorView>(o4.push(t2)));
    assert(drain(o4, s5) == Ok::<Seq<Token>, CalcErrorView>(o4.push(t2)));
    assert(o4.push(t2) =~= seq![a, b, t1, c, t2]);
}

/// A parenthesised second pair is applied first, whatever the operators:
/// `a o1 (b o2 c)` is `a b c o2 o1`.
pub proof fn law_parenthesised_right(a: Token, o1: BinaryOp, b: Token, o2: BinaryOp, c: Token)
    requires
        a is Number || a is Variable,
        b is Number || b is Variable,
        c is Number || c is Variable,
    ensures
        spec_shunting_yard(
            seq![a, binary_symbol(o1), Token::LParen, b, binary_symbol(o2), c, Token::RParen],
        ) == Ok::<Seq<Token>, CalcErrorView>(
            seq![a, b, c, binary_symbol(o2), binary_symbol(o1)],
        ),
{
    let t1 = binary_symbol(o1);
    let t2 = binary_symbol(o2);
    let l = Token::LParen;
    let ts = seq![a, t1, l, b, t2, c, Token::RParen];
    let e = Seq::<Token>::empty();
    assert(ts.len() == 7 && ts[0] == a && ts[1] == t1 && ts[2] == l && ts[3] == b && ts[4]
        == t2 && ts[5] == c && ts[6] == Token::RParen);
    let oa = e.push(a);
    assert(sy(ts, 0, e, e) == sy(ts, 1, oa, e));
    assert(pop_for_operator(oa, e, t1) == (oa, e));
    let s1 = e.push(t1);
    assert(sy(ts, 1, oa, e) == sy(ts, 2, oa, s1));
    let s2 = s1.push(l);
    assert(sy(ts, 2, oa, s1) == sy(ts, 3, oa, s2));
    let oab = oa.push(b);
    assert(sy(ts, 3, oa, s2) == sy(ts, 4, oab, s2));
    assert(s2.last() == l);
    assert(pop_for_operator(oab, s2, t2) == (oab, s2));
    let s3 = s2.push(t2);
    assert(sy(ts, 4, oab, s2) == sy(ts, 5, oab, s3));
    let oabc = oab.push(c);
    assert(sy(ts, 5, oab, s3) == sy(ts, 6, oabc, s3));
    assert(s3.last() == t2 && s3.drop_last() =~= s2);
    assert(s2.drop_last() =~= s1);
    let o4 = oabc.push(t2);
    assert(pop_to_lparen(o4, s2) == Some((o4, s1)));
    assert(pop_to_lparen(oabc, s3) == Some((o4, s1)));
    assert(s1.last() == t1 && s1.drop_last() =~= e);
    assert(close_paren(oabc, s3) == Some((o4, s1)));
    assert(sy(ts, 6, oabc, s3) == sy(ts, 7, o4, s1));
    assert(drain(o4.push(t1), e) == Ok::<Seq<Token>, CalcErrorView>(o4.push(t1)));
    assert(drain(o4, s1) == Ok::<Seq<Token>, CalcErrorView>(o4.push(t1)));
    assert(o4.push(t1) =~= seq![a, b, c, t2, t1]);
}

/// A function applied to a parenthesised operand comes after it: `f(a)` is `a f`; and
/// the factorial follows its operand: `a!` is `a !`.
pub proof fn law_function_application(f: UnaryOp, a: Token)
    requires
        a is Number || a is Variable,
    ensures
        f != UnaryOp::Factorial ==> spec_shunting_yard(
            seq![unary_symbol(f), Token::LParen, a, Token::RParen],
        ) == Ok::<Seq<Token>, CalcErrorView>(seq![a, unary_symbol(f)]),
        spec_shunting_yard(seq![a, Token::Factorial]) == Ok::<Seq<Token>, CalcErrorView>(
            seq![a, Token::Factorial],
        ),
{
    let e = Seq::<Token>::empty();
    let oa = e.push(a);
    if f != UnaryOp::Factorial {
        let t = unary_symbol(f);
        assert(spec_is_function(t));
        let l = Token::LParen;
        let ts = seq![t, l, a, Token::RParen];
        assert(ts.len() == 4 && ts[0] == t && ts[1] == l && ts[2] == a && ts[3] == Token::RParen);
        let s1 = e.push(t);
        let s2 = s1.push(l);
        assert(sy(ts, 0, e, e) == sy(ts, 1, e, s1));
        assert(sy(ts, 1, e, s1) == sy(ts, 2, e, s2));
        assert(sy(ts, 2, e, s2) == sy(ts, 3, oa, s2));
        assert(s2.last() == l && s2.drop_last() =~= s1);
        assert(pop_to_lparen(oa, s2) == Some((oa, s1)));
        assert(s1.last() == t && s1.drop_last() =~= e);
        assert(close_paren(oa, s2) == Some((oa.push(t), e)));
        assert(sy(ts, 3, oa, s2) == sy(ts, 4, oa.push(t), e));
        assert(oa.push(t) =~= seq![a, t]);
    }
    let ts = seq![a, Token::Factorial];
    assert(ts.len() == 2 && ts[0] == a && ts[1] == Token::Factorial);
    assert(sy(ts, 0, e, e) == sy(ts, 1, oa, e));
    assert(sy(ts, 1, oa, e) == sy(ts, 2, oa.push(Token::Factorial), e));
    assert(oa.push(Token::Factorial) =~= seq![a, Token::Factorial]);
}

pub open spec fn vec_result_view(r: Result<Vec<Token>, CalcError>) -> Result<
    Seq<Token>,
    CalcErrorView,
> {
    match r {
        Ok(v) => Ok(v@),
        Err(e) => Err(e@),
    }
}

/// Reorder infix tokens into postfix order (shunting-yard).
pub fn shunting_yard(tokens: Vec<Token>) -> (r: Result<Vec<Token>, CalcError>)
    ensures
        vec_result_view(r) == spec_shunting_yard(tokens@),
        r matches Ok(out) ==> operands(out@) == operands(tokens@),
        r matches Ok(out) ==> forall|x: Token|
            #[trigger] count(out@, x) == if spec_is_paren(x) {
                0
            } else {
                count(tokens@, x)
            },
{
    let mut output: Vec<Token> = Vec::new();
    let mut operators: Vec<Token> = Vec::new();
    let mut i: usize = 0;
    while i < tokens.len()
        invariant
            i <= tokens@.len(),
            spec_shunting_yard(tokens@) == sy(tokens@, i as int, output@, operators@),
        decreases tokens.len() - i,
    {
        let token = tokens[i];
        match token {
            Token::Number(_) | Token::Variable(_) | Token::Factorial => {
                output.push(token);
            },
            Token::Sin | Token::Cos | Token::Tan | Token::Asin | Token::Acos | Token::Atan
            | Token::Log | Token::Ln | Token::Sqrt | Token::Abs | Token::Floor | Token::Ceil
            | Token::LParen => {
                operators.push(token);
            },
            Token::Plus | Token::Minus | Token::Multiply | Token::Divide | Token::Power
            | Token::Modulo => {
                let ghost o0 = output@;
                let ghost s0 = operators@;
                loop
                    invariant_except_break
                        pop_for_operator(o0, s0, token) == pop_for_operator(
                            output@,
                            operators@,
                            token,
                        ),
                    ensures
                        pop_for_operator(o0, s0, token) == (output@, operators@),
                    decreases operators.len(),
                {
                    if operators.len() == 0 {
                        break;
                    }
                    let top = operators[operators.len() - 1];
                    if matches!(top, Token::LParen) {
                        break;
                    }
                    if is_function(&top) || precedence(&top) > precedence(&token) || (precedence(
                        &top,
                    ) == precedence(&token) && is_left_associative(&token)) {
                        let ghost before = operators@;
                        operators.pop();
                        assert(operators@ == before.drop_last());
                        output.push(top);
                    } else {
                        break;
                    }
                }
                operators.push(token);
            },
            Token::RParen => {
                let ghost o0 = output@;
                let ghost s0 = operators@;
                let mut found_lparen = false;
                loop
                    invariant_except_break
                        !found_lparen,
                        pop_to_lparen(o0, s0) == pop_to_lparen(output@, operators@),
                    ensures
                        found_lparen ==> pop_to_lparen(o0, s0) == Some((output@, operators@)),
                        !found_lparen ==> pop_to_lparen(o0, s0) is None,
                    decreases operators.len(),
                {
                    if operators.len() == 0 {
                        break;
                    }
                    let ghost before = operators@;
                    let op = operators.pop().unwrap();
                    assert(before.drop_last() == operators@ && before.last() == op);
                    if matches!(op, Token::LParen) {
                        found_lparen = true;
                        break;
                    }
                    output.push(op);
                }
                assert(sy(tokens@, i as int, o0, s0) == match close_paren(o0, s0) {
                    None => Err(CalcErrorView::MismatchedParentheses),
                    Some((o, s)) => sy(tokens@, i + 1, o, s),
                });
                if !found_lparen {
                    return Err(CalcError::MismatchedParentheses);
                }
                if operators.len() > 0 && is_function(&operators[operators.len() - 1]) {
                    let f = operators.pop().unwrap();
                    output.push(f);
                }
            },
        }
        i += 1;
    }
    while operators.len() > 0
        invariant
            spec_shunting_yard(tokens@) == drain(output@, operators@),
        decreases operators.len(),
    {
        let op = operators.pop().unwrap();
        if matches!(op, Token::LParen | Token::RParen) {
            return Err(CalcError::MismatchedParentheses);
        }
        output.push(op);
    }
    proof {
        law_postfix_keeps_operand_order(tokens@);
        assert forall|x: Token|
            #[trigger] count(output@, x) == if spec_is_paren(x) {
                0
            } else {
                count(tokens@, x)
            } by {
            law_postfix_rearranges_input(tokens@, x);
        }
    }
    Ok(output)
}

} // verus!
