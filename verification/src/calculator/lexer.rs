use vstd::prelude::*;

use crate::calculator::error::{CalcError, CalcErrorView};
use crate::calculator::rpn::{binary_symbol, unary_symbol, BinaryOp, UnaryOp};
use crate::calculator::token::{Numeral, Token};

verus! {

/// The characters of `s`, in order.
pub(crate) fn chars_of(s: &str) -> (v: Vec<char>)
    ensures
        v@ == s@,
{
    let mut v: Vec<char> = Vec::new();
    for c in it: s.chars()
        invariant
            it.seq() == s@,
            v@ == it.seq().take(it.index() as int),
    {
        v.push(c);
    }
    v
}

pub open spec fn is_digit(c: char) -> bool {
    '0' <= c <= '9'
}

/// Characters that make up a decimal literal.
pub open spec fn is_numeral_char(c: char) -> bool {
    is_digit(c) || c == '.'
}

pub open spec fn is_ascii_letter(c: char) -> bool {
    ('a' <= c <= 'z') || ('A' <= c <= 'Z')
}

/// ASCII lower case: `'A'..='Z'` to `'a'..='z'`, every other character unchanged.
pub open spec fn ascii_lower(c: char) -> char {
    if 'A' <= c <= 'Z' {
        ((c as u32) + 32) as char
    } else {
        c
    }
}

/// The token that a one-character operator or parenthesis stands for.
pub open spec fn operator_token(c: char) -> Option<Token> {
    if c == '+' {
        Some(Token::Plus)
    } else if c == '-' {
        Some(Token::Minus)
    } else if c == '*' {
        Some(Token::Multiply)
    } else if c == '/' {
        Some(Token::Divide)
    } else if c == '^' {
        Some(Token::Power)
    } else if c == '%' {
        Some(Token::Modulo)
    } else if c == '!' {
        Some(Token::Factorial)
    } else if c == '(' {
        Some(Token::LParen)
    } else if c == ')' {
        Some(Token::RParen)
    } else {
        None
    }
}

/// The token that a (lower-case) word stands for: a function, a variable or a constant.
/// `ans` is the variable `'a'`.
pub open spec fn identifier_token(name: Seq<char>) -> Option<Token> {
    if name == seq!['s', 'i', 'n'] {
        Some(Token::Sin)
    } else if name == seq!['c', 'o', 's'] {
        Some(Token::Cos)
    } else if name == seq!['t', 'a', 'n'] {
        Some(Token::Tan)
    } else if name == seq!['a', 's', 'i', 'n'] || name == seq!['a', 'r', 'c', 's', 'i', 'n'] {
        Some(Token::Asin)
    } else if name == seq!['a', 'c', 'o', 's'] || name == seq!['a', 'r', 'c', 'c', 'o', 's'] {
        Some(Token::Acos)
    } else if name == seq!['a', 't', 'a', 'n'] || name == seq!['a', 'r', 'c', 't', 'a', 'n'] {
        Some(Token::Atan)
    } else if name == seq!['l', 'o', 'g'] {
        Some(Token::Log)
    } else if name == seq!['l', 'n'] {
        Some(Token::Ln)
    } else if name == seq!['s', 'q', 'r', 't'] {
        Some(Token::Sqrt)
    } else if name == seq!['a', 'b', 's'] {
        Some(Token::Abs)
    } else if name == seq!['f', 'l', 'o', 'o', 'r'] {
        Some(Token::Floor)
    } else if name == seq!['c', 'e', 'i', 'l'] {
        Some(Token::Ceil)
    } else if name == seq!['x'] {
        Some(Token::Variable('x'))
    } else if name == seq!['t'] {
        Some(Token::Variable('t'))
    } else if name == seq!['p', 'i'] {
        Some(Token::Number(Numeral::Pi))
    } else if name == seq!['e'] {
        Some(Token::Number(Numeral::E))
    } else if name == seq!['a', 'n', 's'] {
        Some(Token::Variable('a'))
    } else {
        None
    }
}

/// The word that names a scientific function in an expression: `log` is the base-10
/// logarithm and `ln` the natural one. The factorial is written `!` and has no word.
pub open spec fn function_word(op: UnaryOp) -> Seq<char> {
    match op {
        UnaryOp::Sin => seq!['s', 'i', 'n'],
        UnaryOp::Cos => seq!['c', 'o', 's'],
        UnaryOp::Tan => seq!['t', 'a', 'n'],
        UnaryOp::Asin => seq!['a', 's', 'i', 'n'],
        UnaryOp::Acos => seq!['a', 'c', 'o', 's'],
        UnaryOp::Atan => seq!['a', 't', 'a', 'n'],
        UnaryOp::Log => seq!['l', 'o', 'g'],
        UnaryOp::Ln => seq!['l', 'n'],
        UnaryOp::Sqrt => seq!['s', 'q', 'r', 't'],
        UnaryOp::Abs => seq!['a', 'b', 's'],
        UnaryOp::Floor => seq!['f', 'l', 'o', 'o', 'r'],
        UnaryOp::Ceil => seq!['c', 'e', 'i', 'l'],
        UnaryOp::Factorial => seq![],
    }
}

/// Each function word is read as the token of the function it names, and the inverse
/// trigonometric functions may also be written `arcsin`, `arccos` and `arctan`. The
/// constants are `pi` and `e`, and the variables `x`, `t` and `ans` (read as `'a'`).
pub proof fn law_identifier_words()
    ensures
        forall|op: UnaryOp|
            op != UnaryOp::Factorial ==> identifier_token(#[trigger] function_word(op)) == Some(
                unary_symbol(op),
            ),
        identifier_token(seq!['a', 'r', 'c', 's', 'i', 'n']) == Some(Token::Asin),
        identifier_token(seq!['a', 'r', 'c', 'c', 'o', 's']) == Some(Token::Acos),
        identifier_token(seq!['a', 'r', 'c', 't', 'a', 'n']) == Some(Token::Atan),
        identifier_token(seq!['p', 'i']) == Some(Token::Number(Numeral::Pi)),
        identifier_token(seq!['e']) == Some(Token::Number(Numeral::E)),
        identifier_token(seq!['x']) == Some(Token::Variable('x')),
        identifier_token(seq!['t']) == Some(Token::Variable('t')),
        identifier_token(seq!['a', 'n', 's']) == Some(Token::Variable('a')),
{
    assert forall|op: UnaryOp| op != UnaryOp::Factorial implies identifier_token(
        #[trigger] function_word(op),
    ) == Some(unary_symbol(op)) by {
        let w = function_word(op);
        match op {
            UnaryOp::Sin => {},
            UnaryOp::Cos => {
                assert(w != seq!['s', 'i', 'n']) by { assert(w[0] != 's'); }
            },
            UnaryOp::Tan => {
                assert(w != seq!['s', 'i', 'n']) by { assert(w[0] != 's'); }
                assert(w != seq!['c', 'o', 's']) by { assert(w[0] != 'c'); }
            },
            _ => {},
        }
    }
    let e = seq!['e'];
    let t = seq!['t'];
    let x = seq!['x'];
    assert(e != x) by { assert(e[0] != x[0]); }
    assert(e != t) by { assert(e[0] != t[0]); }
    assert(t != x) by { assert(t[0] != x[0]); }
    lemma_variable_t();
}

proof fn lemma_lex_letters(w: Seq<char>, i: int, p: Seq<char>, n: nat)
    requires
        0 <= i <= w.len(),
        forall|k: int| i <= k < w.len() ==> 'a' <= #[trigger] w[k] <= 'z',
    ensures
        lex(w, i, p, n) == match flush(p + w.subrange(i, w.len() as int)) {
            Ok(ts) => Ok::<(Seq<Token>, Seq<Seq<char>>), CalcErrorView>((ts, seq![])),
            Err(e) => Err(e),
        },
    decreases w.len() - i,
{
    if i < w.len() {
        let c = w[i];
        assert('a' <= c <= 'z');
        assert(ascii_lower(c) == c);
        lemma_lex_letters(w, i + 1, p.push(c), n);
        assert(p.push(c) + w.subrange(i + 1, w.len() as int) =~= p + w.subrange(i, w.len() as int));
    } else {
        assert(p + w.subrange(i, w.len() as int) =~= p);
    }
}

/// An expression that is just a function's word tokenizes to that function's token.
pub proof fn law_function_words_tokenize()
    ensures
        forall|op: UnaryOp|
            op != UnaryOp::Factorial ==> spec_tokenize(#[trigger] function_word(op)) == Ok::<
                (Seq<Token>, Seq<Seq<char>>),
                CalcErrorView,
            >((seq![unary_symbol(op)], seq![])),
{
    law_identifier_words();
    assert forall|op: UnaryOp| op != UnaryOp::Factorial implies spec_tokenize(
        #[trigger] function_word(op),
    ) == Ok::<(Seq<Token>, Seq<Seq<char>>), CalcErrorView>((seq![unary_symbol(op)], seq![])) by {
        let w = function_word(op);
        assert(identifier_token(w) == Some(unary_symbol(op)));
        assert(forall|k: int| 0 <= k < w.len() ==> 'a' <= #[trigger] w[k] <= 'z');
        lemma_lex_letters(w, 0, seq![], 0);
        assert(Seq::<char>::empty() + w.subrange(0, w.len() as int) =~= w);
        assert(w.len() > 0);
    }
}

/// The character that writes a two-value operator.
pub open spec fn binary_char(op: BinaryOp) -> char {
    match op {
        BinaryOp::Add => '+',
        BinaryOp::Sub => '-',
        BinaryOp::Mul => '*',
        BinaryOp::Div => '/',
        BinaryOp::Pow => '^',
        BinaryOp::Mod => '%',
    }
}

/// An operator character between two variables ends the first and is read as the
/// operator it writes: `x o x` tokenizes to the variable, the operator's token and the
/// variable again.
pub proof fn law_operator_chars(op: BinaryOp)
    ensures
        spec_tokenize(seq!['x', binary_char(op), 'x']) == Ok::<
            (Seq<Token>, Seq<Seq<char>>),
            CalcErrorView,
        >((seq![Token::Variable('x'), binary_symbol(op), Token::Variable('x')], seq![])),
{
    law_identifier_words();
    let c = binary_char(op);
    let s = seq!['x', c, 'x'];
    let px = seq!['x'];
    let vx = Token::Variable('x');
    let e = Seq::<char>::empty();
    assert(s.len() == 3 && s[0] == 'x' && s[1] == c && s[2] == 'x');
    assert(e.push('x') =~= px);
    assert(identifier_token(px) == Some(vx));
    assert(operator_token(c) == Some(binary_symbol(op)));
    assert(flush(px) == Ok::<Seq<Token>, CalcErrorView>(seq![vx]));
    assert(lex(s, 3, px, 0) == Ok::<(Seq<Token>, Seq<Seq<char>>), CalcErrorView>((seq![vx], seq![])));
    assert(lex(s, 2, e, 0) == lex(s, 3, px, 0));
    assert(lex(s, 0, e, 0) == lex(s, 1, px, 0));
    assert(lex(s, 1, px, 0) == prepend(seq![vx] + seq![binary_symbol(op)], seq![], lex(s, 2, e, 0)));
    assert((seq![vx] + seq![binary_symbol(op)]) + seq![vx] =~= seq![vx, binary_symbol(op), vx]);
    assert(Seq::<Seq<char>>::empty() + Seq::<Seq<char>>::empty() =~= Seq::<Seq<char>>::empty());
}

/// Parentheses and the factorial sign are read as their tokens, and close the word
/// before them: `(x)!` tokenizes to `(`, the variable, `)` and `!`.
pub proof fn law_grouping_chars()
    ensures
        spec_tokenize(seq!['(', 'x', ')', '!']) == Ok::<
            (Seq<Token>, Seq<Seq<char>>),
            CalcErrorView,
        >((seq![Token::LParen, Token::Variable('x'), Token::RParen, Token::Factorial], seq![])),
{
    law_identifier_words();
    let s = seq!['(', 'x', ')', '!'];
    let px = seq!['x'];
    let vx = Token::Variable('x');
    let e = Seq::<char>::empty();
    let none = Seq::<Seq<char>>::empty();
    let nt = Seq::<Token>::empty();
    assert(s.len() == 4 && s[0] == '(' && s[1] == 'x' && s[2] == ')' && s[3] == '!');
    assert(e.push('x') =~= px);
    assert(flush(px) == Ok::<Seq<Token>, CalcErrorView>(seq![vx]));
    assert(flush(e) == Ok::<Seq<Token>, CalcErrorView>(nt));
    assert(lex(s, 4, e, 0) == Ok::<(Seq<Token>, Seq<Seq<char>>), CalcErrorView>((nt, none)));
    assert(lex(s, 3, e, 0) == prepend(nt + seq![Token::Factorial], none, lex(s, 4, e, 0)));
    assert(lex(s, 2, px, 0) == prepend(seq![vx] + seq![Token::RParen], none, lex(s, 3, e, 0)));
    assert(lex(s, 1, e, 0) == lex(s, 2, px, 0));
    assert(lex(s, 0, e, 0) == prepend(nt + seq![Token::LParen], none, lex(s, 1, e, 0)));
    assert((nt + seq![Token::Factorial]) + nt =~= seq![Token::Factorial]);
    assert((seq![vx] + seq![Token::RParen]) + seq![Token::Factorial] =~= seq![
        vx,
        Token::RParen,
        Token::Factorial,
    ]);
    assert((nt + seq![Token::LParen]) + seq![vx, Token::RParen, Token::Factorial] =~= seq![
        Token::LParen,
        vx,
        Token::RParen,
        Token::Factorial,
    ]);
    assert(none + none =~= none);
}

proof fn lemma_dot_count_concat(a: Seq<char>, b: Seq<char>)
    ensures
        dot_count(a + b) == dot_count(a) + dot_count(b),
    decreases b.len(),
{
    if b.len() == 0 {
        assert(a + b =~= a);
    } else {
        lemma_dot_count_concat(a, b.drop_last());
        assert((a + b).drop_last() =~= a + b.drop_last());
        assert((a + b).last() == b.last());
    }
}

proof fn lemma_dot_count_digits(s: Seq<char>)
    requires
        forall|k: int| 0 <= k < s.len() ==> is_digit(#[trigger] s[k]),
    ensures
        dot_count(s) == 0,
    decreases s.len(),
{
    if s.len() > 0 {
        lemma_dot_count_digits(s.drop_last());
        assert(is_digit(s[s.len() - 1]));
    }
}

proof fn lemma_dot_count_has_dot(s: Seq<char>, i: int)
    requires
        0 <= i < s.len(),
        s[i] == '.',
    ensures
        dot_count(s) >= 1,
    decreases s.len(),
{
    if i < s.len() - 1 {
        lemma_dot_count_has_dot(s.drop_last(), i);
    }
}

/// A run of digits and dots read from the start of an expression that is nothing else.
proof fn lemma_tokenize_numeral_run(s: Seq<char>)
    requires
        s.len() > 0,
        forall|k: int| 0 <= k < s.len() ==> is_numeral_char(#[trigger] s[k]),
    ensures
        spec_tokenize(s) == if valid_numeral(s) {
            Ok::<(Seq<Token>, Seq<Seq<char>>), CalcErrorView>(
                (seq![Token::Number(Numeral::Literal(0))], seq![s]),
            )
        } else {
            Err(CalcErrorView::InvalidNumber(s))
        },
{
    lemma_numeral_end(s, 0);
    let j = numeral_end(s, 0);
    assert(j == s.len());
    assert(s.subrange(0, j) =~= s);
    let e = Seq::<char>::empty();
    assert(flush(e) == Ok::<Seq<Token>, CalcErrorView>(seq![]));
    assert(lex(s, j, e, 1) == Ok::<(Seq<Token>, Seq<Seq<char>>), CalcErrorView>((seq![], seq![])));
    let lit0 = Token::Number(Numeral::Literal(0));
    assert(Seq::<Token>::empty() + seq![lit0] =~= seq![lit0]);
    assert(seq![lit0] + Seq::<Token>::empty() =~= seq![lit0]);
    assert(seq![s] + Seq::<Seq<char>>::empty() =~= seq![s]);
}

/// Decimal numbers: a non-empty run of digits, with at most one decimal point among or
/// around them, is one number whose text is kept as the first entry of the literal
/// table; a run with two decimal points, or a lone point, is an invalid number.
pub proof fn law_decimal_numbers(d1: Seq<char>, d2: Seq<char>, s: Seq<char>)
    requires
        forall|k: int| 0 <= k < d1.len() ==> '0' <= #[trigger] d1[k] <= '9',
        forall|k: int| 0 <= k < d2.len() ==> '0' <= #[trigger] d2[k] <= '9',
        s.len() > 0,
        forall|k: int| 0 <= k < s.len() ==> ('0' <= #[trigger] s[k] <= '9' || s[k] == '.'),
    ensures
        d1.len() > 0 ==> spec_tokenize(d1) == Ok::<(Seq<Token>, Seq<Seq<char>>), CalcErrorView>(
            (seq![Token::Number(Numeral::Literal(0))], seq![d1]),
        ),
        d1.len() + d2.len() > 0 ==> spec_tokenize(d1 + seq!['.'] + d2) == Ok::<
            (Seq<Token>, Seq<Seq<char>>),
            CalcErrorView,
        >((seq![Token::Number(Numeral::Literal(0))], seq![d1 + seq!['.'] + d2])),
        (exists|i: int, j: int| 0 <= i < j < s.len() && s[i] == '.' && s[j] == '.')
            ==> spec_tokenize(s) == Err::<(Seq<Token>, Seq<Seq<char>>), CalcErrorView>(
            CalcErrorView::InvalidNumber(s),
        ),
        spec_tokenize(seq!['.']) == Err::<(Seq<Token>, Seq<Seq<char>>), CalcErrorView>(
            CalcErrorView::InvalidNumber(seq!['.']),
        ),
{
    if d1.len() > 0 {
        assert(forall|k: int| 0 <= k < d1.len() ==> is_digit(#[trigger] d1[k]));
        lemma_dot_count_digits(d1);
        assert(is_digit(d1[0]));
        lemma_tokenize_numeral_run(d1);
    }
    let m = d1 + seq!['.'] + d2;
    if d1.len() + d2.len() > 0 {
        assert(forall|k: int| 0 <= k < m.len() ==> is_numeral_char(#[trigger] m[k])) by {
            assert forall|k: int| 0 <= k < m.len() implies is_numeral_char(#[trigger] m[k]) by {
                if k < d1.len() {
                    assert(m[k] == d1[k]);
                } else if k > d1.len() {
                    assert(m[k] == d2[k - d1.len() - 1]);
                }
            }
        }
        lemma_dot_count_digits(d1);
        lemma_dot_count_digits(d2);
        lemma_dot_count_concat(d1, seq!['.']);
        lemma_dot_count_concat(d1 + seq!['.'], d2);
        let q = seq!['.'];
        assert(dot_count(q) == 1) by {
            assert(q.len() == 1 && q.last() == '.');
            assert(q.drop_last() =~= Seq::<char>::empty());
            assert(dot_count(Seq::<char>::empty()) == 0);
        }
        if d1.len() > 0 {
            assert(m[0] == d1[0]);
            assert(is_digit(m[0]));
        } else {
            assert(m[1] == d2[0]);
            assert(is_digit(m[1]));
        }
        lemma_tokenize_numeral_run(m);
    }
    if exists|i: int, j: int| 0 <= i < j < s.len() && s[i] == '.' && s[j] == '.' {
        let (i, j) = choose|i: int, j: int| 0 <= i < j < s.len() && s[i] == '.' && s[j] == '.';
        assert(s =~= s.subrange(0, j) + s.subrange(j, s.len() as int));
        lemma_dot_count_concat(s.subrange(0, j), s.subrange(j, s.len() as int));
        lemma_dot_count_has_dot(s.subrange(0, j), i);
        lemma_dot_count_has_dot(s.subrange(j, s.len() as int), 0);
        assert(forall|k: int| 0 <= k < s.len() ==> is_numeral_char(#[trigger] s[k]));
        lemma_tokenize_numeral_run(s);
    }
    let p = seq!['.'];
    assert(p.len() == 1 && p[0] == '.');
    assert(!valid_numeral(p)) by {
        if exists|k: int| 0 <= k < p.len() && is_digit(#[trigger] p[k]) {
            let k = choose|k: int| 0 <= k < p.len() && is_digit(#[trigger] p[k]);
            assert(k == 0);
        }
    }
    lemma_tokenize_numeral_run(p);
}

proof fn lemma_variable_t()
    ensures
        identifier_token(seq!['t']) == Some(Token::Variable('t')),
{
    let t = seq!['t'];
    assert(t.len() == 1);
    assert(t != seq!['x']) by {
        assert(t[0] != seq!['x'][0]);
    }
    assert(t != seq!['l', 'n']);
}

/// Count of `'.'` in `s`.
pub open spec fn dot_count(s: Seq<char>) -> nat
    decreases s.len(),
{
    if s.len() == 0 {
        0
    } else {
        dot_count(s.drop_last()) + if s.last() == '.' {
            1nat
        } else {
            0nat
        }
    }
}

/// A run of digits and dots is a decimal number when it has a digit and at most one dot
/// (the grammar of `f64::from_str` restricted to these characters).
pub open spec fn valid_numeral(s: Seq<char>) -> bool {
    dot_count(s) <= 1 && exists|k: int| 0 <= k < s.len() && is_digit(#[trigger] s[k])
}

/// End of the run of literal characters that starts at `i`.
pub open spec fn numeral_end(s: Seq<char>, i: int) -> int
    decreases s.len() - i,
{
    if 0 <= i < s.len() && is_numeral_char(s[i]) {
        numeral_end(s, i + 1)
    } else {
        i
    }
}

pub proof fn lemma_numeral_end(s: Seq<char>, i: int)
    requires
        0 <= i <= s.len(),
    ensures
        i <= numeral_end(s, i) <= s.len(),
        forall|k: int| i <= k < numeral_end(s, i) ==> is_numeral_char(#[trigger] s[k]),
        numeral_end(s, i) < s.len() ==> !is_numeral_char(s[numeral_end(s, i)]),
    decreases s.len() - i,
{
    if i < s.len() && is_numeral_char(s[i]) {
        lemma_numeral_end(s, i + 1);
    }
}

/// Tokens of pending letters: none, or the word they spell.
pub open spec fn flush(pending: Seq<char>) -> Result<Seq<Token>, CalcErrorView> {
    if pending.len() == 0 {
        Ok(seq![])
    } else {
        match identifier_token(pending) {
            Some(t) => Ok(seq![t]),
            None => Err(CalcErrorView::UnknownIdentifier(pending)),
        }
    }
}

/// Prefix the tokens and literals of a successful `lex` result.
pub open spec fn prepend(
    ts: Seq<Token>,
    ls: Seq<Seq<char>>,
    r: Result<(Seq<Token>, Seq<Seq<char>>), CalcErrorView>,
) -> Result<(Seq<Token>, Seq<Seq<char>>), CalcErrorView> {
    match r {
        Ok((a, b)) => Ok((ts + a, ls + b)),
        Err(e) => Err(e),
    }
}

pub proof fn lemma_prepend_prepend(
    t: Seq<Token>,
    l: Seq<Seq<char>>,
    a: Seq<Token>,
    b: Seq<Seq<char>>,
    r: Result<(Seq<Token>, Seq<Seq<char>>), CalcErrorView>,
)
    ensures
        prepend(t, l, prepend(a, b, r)) == prepend(t + a, l + b, r),
{
    if let Ok((x, y)) = r {
        assert(t + (a + x) =~= (t + a) + x);
        assert(l + (b + y) =~= (l + b) + y);
    }
}

/// Tokens and literal table for the characters of `s` from position `i` on, with the
/// letters `pending` read and not yet placed, and `nlits` literals numbered before.
/// Spaces are skipped; letters gather (in lower case) into a word that a digit, a dot,
/// an operator or the end closes; a run of digits and dots is one literal.
pub open spec fn lex(s: Seq<char>, i: int, pending: Seq<char>, nlits: nat) -> Result<
    (Seq<Token>, Seq<Seq<char>>),
    CalcErrorView,
>
    decreases s.len() - i,
{
    if i < 0 || i >= s.len() {
        match flush(pending) {
            Ok(ts) => Ok((ts, seq![])),
            Err(e) => Err(e),
        }
    } else {
        let c = s[i];
        if c == ' ' {
            lex(s, i + 1, pending, nlits)
        } else if is_numeral_char(c) {
            proof {
                lemma_numeral_end(s, i);
            }
            let j = numeral_end(s, i);
            let lit = s.subrange(i, j);
            match flush(pending) {
                Err(e) => Err(e),
                Ok(ts) => if !valid_numeral(lit) {
                    Err(CalcErrorView::InvalidNumber(lit))
                } else {
                    prepend(
                        ts + seq![Token::Number(Numeral::Literal(nlits as usize))],
                        seq![lit],
                        lex(s, j, seq![], nlits + 1),
                    )
                },
            }
        } else if is_ascii_letter(c) {
            lex(s, i + 1, pending.push(ascii_lower(c)), nlits)
        } else {
            match operator_token(c) {
                None => Err(CalcErrorView::InvalidCharacter(c)),
                Some(op) => match flush(pending) {
                    Err(e) => Err(e),
                    Ok(ts) => prepend(ts + seq![op], seq![], lex(s, i + 1, seq![], nlits)),
                },
            }
        }
    }
}


proof fn lemma_lower_letter(c: char)
    requires
        is_ascii_letter(c),
    ensures
        is_ascii_letter(ascii_lower(c)),
        ascii_lower(ascii_lower(c)) == ascii_lower(c),
{
    if 'A' <= c <= 'Z' {
        let v = (c as u32) + 32;
        assert(97 <= v <= 122);
    }
}

proof fn lemma_numeral_end_lower(s: Seq<char>, t: Seq<char>, i: int)
    requires
        t.len() == s.len(),
        forall|k: int| 0 <= k < s.len() ==> #[trigger] t[k] == ascii_lower(s[k]),
    ensures
        numeral_end(t, i) == numeral_end(s, i),
    decreases s.len() - i,
{
    if 0 <= i < s.len() {
        assert(t[i] == ascii_lower(s[i]));
        lemma_numeral_end_lower(s, t, i + 1);
    }
}

proof fn lemma_lex_lower(s: Seq<char>, t: Seq<char>, i: int, pending: Seq<char>, nlits: nat)
    requires
        t.len() == s.len(),
        forall|k: int| 0 <= k < s.len() ==> #[trigger] t[k] == ascii_lower(s[k]),
    ensures
        lex(s, i, pending, nlits) == lex(t, i, pending, nlits),
    decreases s.len() - i,
{
    if 0 <= i < s.len() {
        let c = s[i];
        assert(t[i] == ascii_lower(c));
        if c == ' ' {
            lemma_lex_lower(s, t, i + 1, pending, nlits);
        } else if is_numeral_char(c) {
            lemma_numeral_end(s, i);
            lemma_numeral_end_lower(s, t, i);
            let j = numeral_end(s, i);
            assert(s.subrange(i, j) =~= t.subrange(i, j)) by {
                assert forall|k: int| i <= k < j implies #[trigger] s[k] == t[k] by {
                    assert(is_numeral_char(s[k]));
                    assert(t[k] == ascii_lower(s[k]));
                }
            }
            lemma_lex_lower(s, t, j, seq![], nlits + 1);
        } else if is_ascii_letter(c) {
            lemma_lower_letter(c);
            lemma_lex_lower(s, t, i + 1, pending.push(ascii_lower(c)), nlits);
        } else {
            lemma_lex_lower(s, t, i + 1, seq![], nlits);
        }
    }
}

/// Tokenizing ignores the case of letters: an expression and its ASCII lower-case form
/// have the same tokens, literals and errors.
pub proof fn law_tokenize_ignores_case(s: Seq<char>)
    ensures
        spec_tokenize(s) == spec_tokenize(s.map_values(|c: char| ascii_lower(c))),
{
    let t = s.map_values(|c: char| ascii_lower(c));
    lemma_lex_lower(s, t, 0, seq![], 0);
}


/// A token's literal index, if it names a decimal literal, is below `bound`.
pub open spec fn literal_below(t: Token, bound: int) -> bool {
    t matches Token::Number(Numeral::Literal(j)) ==> j < bound
}

proof fn lemma_flush_tokens(pending: Seq<char>)
    ensures
        flush(pending) matches Ok(ts) ==> forall|k: int|
            0 <= k < ts.len() ==> !(#[trigger] ts[k] matches Token::Number(Numeral::Literal(_))),
{
}

proof fn lemma_lex_literals(s: Seq<char>, i: int, pending: Seq<char>, nlits: nat)
    ensures
        lex(s, i, pending, nlits) matches Ok((ts, ls)) ==> {
            &&& forall|k: int| 0 <= k < ts.len() ==> literal_below(#[trigger] ts[k], (nlits + ls.len()) as int)
            &&& forall|k: int| 0 <= k < ls.len() ==> valid_numeral(#[trigger] ls[k])
        },
    decreases s.len() - i,
{
    lemma_flush_tokens(pending);
    if 0 <= i < s.len() {
        let c = s[i];
        if c == ' ' {
            lemma_lex_literals(s, i + 1, pending, nlits);
        } else if is_numeral_char(c) {
            lemma_numeral_end(s, i);
            let j = numeral_end(s, i);
            lemma_lex_literals(s, j, seq![], nlits + 1);
            if let Ok((ts, ls)) = lex(s, i, pending, nlits) {
                let (rest, lits) = lex(s, j, seq![], nlits + 1)->Ok_0;
                let f = flush(pending)->Ok_0;
                let lit = s.subrange(i, j);
                let mid = f + seq![Token::Number(Numeral::Literal(nlits as usize))];
                assert(ts == mid + rest);
                assert(ls == seq![lit] + lits);
                assert forall|k: int| 0 <= k < ts.len() implies literal_below(
                    #[trigger] ts[k],
                    (nlits + ls.len()) as int,
                ) by {
                    if k >= mid.len() {
                        assert(ts[k] == rest[k - mid.len()]);
                    }
                }
                assert forall|k: int| 0 <= k < ls.len() implies valid_numeral(#[trigger] ls[k]) by {
                    if k > 0 {
                        assert(ls[k] == lits[k - 1]);
                    }
                }
            }
        } else if is_ascii_letter(c) {
            lemma_lex_literals(s, i + 1, pending.push(ascii_lower(c)), nlits);
        } else {
            lemma_lex_literals(s, i + 1, seq![], nlits);
            if let Ok((ts, ls)) = lex(s, i, pending, nlits) {
                let (rest, lits) = lex(s, i + 1, seq![], nlits)->Ok_0;
                let f = flush(pending)->Ok_0;
                let op = operator_token(c)->Some_0;
                let mid = f + seq![op];
                assert(ts == mid + rest);
                assert(ls =~= lits);
                assert forall|k: int| 0 <= k < ts.len() implies literal_below(
                    #[trigger] ts[k],
                    (nlits + ls.len()) as int,
                ) by {
                    if k >= mid.len() {
                        assert(ts[k] == rest[k - mid.len()]);
                    }
                }
            }
        }
    }
}

/// Every decimal literal the tokenizer reports is a valid decimal number, and every
/// literal token names an entry of the literal table.
pub proof fn law_tokenize_literals_are_valid(s: Seq<char>)
    ensures
        spec_tokenize(s) matches Ok((ts, ls)) ==> {
            &&& forall|k: int| 0 <= k < ts.len() ==> literal_below(#[trigger] ts[k], ls.len() as int)
            &&& forall|k: int| 0 <= k < ls.len() ==> valid_numeral(#[trigger] ls[k])
        },
{
    lemma_lex_literals(s, 0, seq![], 0);
}

/// The tokens of an expression and the table of its decimal literals
/// (`Numeral::Literal(k)` names `literals[k]`).
pub struct Lexed {
    pub tokens: Vec<Token>,
    pub literals: Vec<Vec<char>>,
}

impl View for Lexed {
    type V = (Seq<Token>, Seq<Seq<char>>);

    open spec fn view(&self) -> (Seq<Token>, Seq<Seq<char>>) {
        (self.tokens@, literal_chars(self.literals@))
    }
}

pub open spec fn result_view<T: View>(r: Result<T, CalcError>) -> Result<T::V, CalcErrorView> {
    match r {
        Ok(t) => Ok(t@),
        Err(e) => Err(e@),
    }
}

/// The tokens of an expression: `lex` from its first character with nothing pending.
pub open spec fn spec_tokenize(s: Seq<char>) -> Result<(Seq<Token>, Seq<Seq<char>>), CalcErrorView> {
    lex(s, 0, seq![], 0)
}


fn is_digit_char(c: char) -> (r: bool)
    ensures
        r == is_digit(c),
{
    '0' <= c && c <= '9'
}

fn is_numeral_character(c: char) -> (r: bool)
    ensures
        r == is_numeral_char(c),
{
    is_digit_char(c) || c == '.'
}

pub(crate) fn is_letter(c: char) -> (r: bool)
    ensures
        r == is_ascii_letter(c),
{
    ('a' <= c && c <= 'z') || ('A' <= c && c <= 'Z')
}

pub(crate) fn to_ascii_lower(c: char) -> (r: char)
    ensures
        r == ascii_lower(c),
{
    if 'A' <= c && c <= 'Z' {
        let code: u32 = c as u32;
        let lower: u8 = (code + 32) as u8;
        lower as char
    } else {
        c
    }
}

fn operator_of(c: char) -> (r: Option<Token>)
    ensures
        r == operator_token(c),
{
    if c == '+' {
        Some(Token::Plus)
    } else if c == '-' {
        Some(Token::Minus)
    } else if c == '*' {
        Some(Token::Multiply)
    } else if c == '/' {
        Some(Token::Divide)
    } else if c == '^' {
        Some(Token::Power)
    } else if c == '%' {
        Some(Token::Modulo)
    } else if c == '!' {
        Some(Token::Factorial)
    } else if c == '(' {
        Some(Token::LParen)
    } else if c == ')' {
        Some(Token::RParen)
    } else {
        None
    }
}

fn same_chars(a: &Vec<char>, b: &Vec<char>) -> (r: bool)
    ensures
        r == (a@ == b@),
{
    if a.len() != b.len() {
        return false;
    }
    let mut i: usize = 0;
    while i < a.len()
        invariant
            a@.len() == b@.len(),
            i <= a@.len(),
            forall|k: int| 0 <= k < i ==> a@[k] == b@[k],
        decreases a.len() - i,
    {
        if a[i] != b[i] {
            return false;
        }
        i += 1;
    }
    assert(a@ =~= b@);
    true
}

/// A copy of a character vector.
fn copy_chars(v: &Vec<char>) -> (r: Vec<char>)
    ensures
        r@ == v@,
{
    let mut r: Vec<char> = Vec::new();
    let mut i: usize = 0;
    while i < v.len()
        invariant
            i <= v@.len(),
            r@ == v@.take(i as int),
        decreases v.len() - i,
    {
        r.push(v[i]);
        i += 1;
        assert(r@ =~= v@.take(i as int));
    }
    assert(v@.take(v@.len() as int) =~= v@);
    r
}

/// The token a word stands for, or `UnknownIdentifier` with the word.
pub fn parse_identifier(name: &Vec<char>) -> (r: Result<Token, CalcError>)
    ensures
        match identifier_token(name@) {
            Some(t) => r == Ok::<Token, CalcError>(t),
            None => r matches Err(e) && e@ == CalcErrorView::UnknownIdentifier(name@),
        },
{
    let w_sin = vec!['s', 'i', 'n'];
    assert(w_sin@ =~= seq!['s', 'i', 'n']);
    if same_chars(name, &w_sin) {
        return Ok(Token::Sin);
    }
    let w_cos = vec!['c', 'o', 's'];
    assert(w_cos@ =~= seq!['c', 'o', 's']);
    if same_chars(name, &w_cos) {
        return Ok(Token::Cos);
    }
    let w_tan = vec!['t', 'a', 'n'];
    assert(w_tan@ =~= seq!['t', 'a', 'n']);
    if same_chars(name, &w_tan) {
        return Ok(Token::Tan);
    }
    let w_asin = vec!['a', 's', 'i', 'n'];
    assert(w_asin@ =~= seq!['a', 's', 'i', 'n']);
    let w_arcsin = vec!['a', 'r', 'c', 's', 'i', 'n'];
    assert(w_arcsin@ =~= seq!['a', 'r', 'c', 's', 'i', 'n']);
    if same_chars(name, &w_asin) || same_chars(name, &w_arcsin) {
        return Ok(Token::Asin);
    }
    let w_acos = vec!['a', 'c', 'o', 's'];
    assert(w_acos@ =~= seq!['a', 'c', 'o', 's']);
    let w_arccos = vec!['a', 'r', 'c', 'c', 'o', 's'];
    assert(w_arccos@ =~= seq!['a', 'r', 'c', 'c', 'o', 's']);
    if same_chars(name, &w_acos) || same_chars(name, &w_arccos) {
        return Ok(Token::Acos);
    }
    let w_atan = vec!['a', 't', 'a', 'n'];
    assert(w_atan@ =~= seq!['a', 't', 'a', 'n']);
    let w_arctan = vec!['a', 'r', 'c', 't', 'a', 'n'];
    assert(w_arctan@ =~= seq!['a', 'r', 'c', 't', 'a', 'n']);
    if same_chars(name, &w_atan) || same_chars(name, &w_arctan) {
        return Ok(Token::Atan);
    }
    let w_log = vec!['l', 'o', 'g'];
    assert(w_log@ =~= seq!['l', 'o', 'g']);
    if same_chars(name, &w_log) {
        return Ok(Token::Log);
    }
    let w_ln = vec!['l', 'n'];
    assert(w_ln@ =~= seq!['l', 'n']);
    if same_chars(name, &w_ln) {
        return Ok(Token::Ln);
    }
    let w_sqrt = vec!['s', 'q', 'r', 't'];
    assert(w_sqrt@ =~= seq!['s', 'q', 'r', 't']);
    if same_chars(name, &w_sqrt) {
        return Ok(Token::Sqrt);
    }
    let w_abs = vec!['a', 'b', 's'];
    assert(w_abs@ =~= seq!['a', 'b', 's']);
    if same_chars(name, &w_abs) {
        return Ok(Token::Abs);
    }
    let w_floor = vec!['f', 'l', 'o', 'o', 'r'];
    assert(w_floor@ =~= seq!['f', 'l', 'o', 'o', 'r']);
    if same_chars(name, &w_floor) {
        return Ok(Token::Floor);
    }
    let w_ceil = vec!['c', 'e', 'i', 'l'];
    assert(w_ceil@ =~= seq!['c', 'e', 'i', 'l']);
    if same_chars(name, &w_ceil) {
        return Ok(Token::Ceil);
    }
    let w_x = vec!['x'];
    assert(w_x@ =~= seq!['x']);
    if same_chars(name, &w_x) {
        return Ok(Token::Variable('x'));
    }
    let w_t = vec!['t'];
    assert(w_t@ =~= seq!['t']);
    if same_chars(name, &w_t) {
        return Ok(Token::Variable('t'));
    }
    let w_pi = vec!['p', 'i'];
    assert(w_pi@ =~= seq!['p', 'i']);
    if same_chars(name, &w_pi) {
        return Ok(Token::Number(Numeral::Pi));
    }
    let w_e = vec!['e'];
    assert(w_e@ =~= seq!['e']);
    if same_chars(name, &w_e) {
        return Ok(Token::Number(Numeral::E));
    }
    let w_ans = vec!['a', 'n', 's'];
    assert(w_ans@ =~= seq!['a', 'n', 's']);
    if same_chars(name, &w_ans) {
        return Ok(Token::Variable('a'));
    }
    Err(CalcError::UnknownIdentifier(copy_chars(name)))
}

/// Whether a run of digits and dots is a decimal number.
fn check_numeral(lit: &Vec<char>) -> (r: bool)
    ensures
        r == valid_numeral(lit@),
{
    let mut dots: usize = 0;
    let mut has_digit = false;
    let mut k: usize = 0;
    while k < lit.len()
        invariant
            k <= lit@.len(),
            dots <= k,
            dots == dot_count(lit@.take(k as int)),
            has_digit == exists|m: int| 0 <= m < k && is_digit(#[trigger] lit@[m]),
        decreases lit.len() - k,
    {
        assert(lit@.take(k + 1).drop_last() =~= lit@.take(k as int));
        if lit[k] == '.' {
            dots += 1;
        }
        if is_digit_char(lit[k]) {
            has_digit = true;
        }
        k += 1;
    }
    assert(lit@.take(lit@.len() as int) =~= lit@);
    dots <= 1 && has_digit
}

/// Place the pending word, if any, as a token.
fn flush_pending(pending: &Vec<char>, tokens: &mut Vec<Token>) -> (r: Result<(), CalcError>)
    ensures
        match flush(pending@) {
            Ok(ts) => r is Ok && final(tokens)@ == old(tokens)@ + ts,
            Err(e) => r matches Err(x) && x@ == e,
        },
{
    if pending.len() == 0 {
        assert(old(tokens)@ + seq![] =~= old(tokens)@);
        Ok(())
    } else {
        match parse_identifier(pending) {
            Ok(t) => {
                tokens.push(t);
                Ok(())
            },
            Err(e) => Err(e),
        }
    }
}

/// The literal table as character sequences.
pub open spec fn literal_chars(ls: Seq<Vec<char>>) -> Seq<Seq<char>> {
    ls.map_values(|v: Vec<char>| v@)
}

/// Split an expression into tokens, with its decimal literals in a table of their own.
pub fn tokenize(expr: &str) -> (r: Result<Lexed, CalcError>)
    ensures
        result_view(r) == spec_tokenize(expr@),
{
    let s = chars_of(expr);
    let mut tokens: Vec<Token> = Vec::new();
    let mut literals: Vec<Vec<char>> = Vec::new();
    let mut pending: Vec<char> = Vec::new();
    let mut i: usize = 0;
    proof {
        assert(literal_chars(literals@) =~= seq![]);
        assert(tokens@ =~= seq![]);
        if let Ok((x, y)) = lex(s@, 0, seq![], 0) {
            assert(seq![] + x =~= x);
            assert(Seq::<Seq<char>>::empty() + y =~= y);
        }
    }
    while i < s.len()
        invariant
            s@ == expr@,
            i <= s@.len(),
            spec_tokenize(expr@) == prepend(
                tokens@,
                literal_chars(literals@),
                lex(s@, i as int, pending@, literals@.len()),
            ),
        decreases s.len() - i,
    {
        let c = s[i];
        if c == ' ' {
            i += 1;
        } else if is_numeral_character(c) {
            proof {
                lemma_numeral_end(s@, i as int);
            }
            let ghost t0 = tokens@;
            let ghost l0 = literal_chars(literals@);
            let ghost n = literals@.len();
            match flush_pending(&pending, &mut tokens) {
                Ok(()) => {},
                Err(e) => return Err(e),
            }
            let ghost ts = flush(pending@)->Ok_0;
            pending = Vec::new();
            let mut lit: Vec<char> = Vec::new();
            let mut j: usize = i;
            while j < s.len() && is_numeral_character(s[j])
                invariant
                    i <= j <= s@.len(),
                    lit@ == s@.subrange(i as int, j as int),
                    numeral_end(s@, i as int) == numeral_end(s@, j as int),
                decreases s.len() - j,
            {
                lit.push(s[j]);
                j += 1;
                assert(lit@ =~= s@.subrange(i as int, j as int));
            }
            assert(numeral_end(s@, j as int) == j);
            if !check_numeral(&lit) {
                return Err(CalcError::InvalidNumber(lit));
            }
            let ghost litv = lit@;
            tokens.push(Token::Number(Numeral::Literal(literals.len())));
            literals.push(lit);
            proof {
                assert(literal_chars(literals@) =~= l0 + seq![litv]);
                assert(tokens@ =~= t0 + (ts + seq![Token::Number(Numeral::Literal(n as usize))]));
                lemma_prepend_prepend(
                    t0,
                    l0,
                    ts + seq![Token::Number(Numeral::Literal(n as usize))],
                    seq![litv],
                    lex(s@, j as int, seq![], n + 1),
                );
            }
            i = j;
        } else if is_letter(c) {
            pending.push(to_ascii_lower(c));
            i += 1;
        } else {
            match operator_of(c) {
                None => return Err(CalcError::InvalidCharacter(c)),
                Some(op) => {
                    let ghost t0 = tokens@;
                    let ghost l0 = literal_chars(literals@);
                    match flush_pending(&pending, &mut tokens) {
                        Ok(()) => {},
                        Err(e) => return Err(e),
                    }
                    let ghost ts = flush(pending@)->Ok_0;
                    pending = Vec::new();
                    tokens.push(op);
                    proof {
                        assert(tokens@ =~= t0 + (ts + seq![op]));
                        assert(l0 + seq![] =~= l0);
                        lemma_prepend_prepend(
                            t0,
                            l0,
                            ts + seq![op],
                            seq![],
                            lex(s@, i + 1, seq![], literals@.len()),
                        );
                    }
                    i += 1;
                },
            }
        }
    }
    let ghost t0 = tokens@;
    match flush_pending(&pending, &mut tokens) {
        Ok(()) => {},
        Err(e) => return Err(e),
    }
    proof {
        assert(literal_chars(literals@) + seq![] =~= literal_chars(literals@));
    }
    Ok(Lexed { tokens, literals })
}

} // verus!
