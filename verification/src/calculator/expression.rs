use vstd::prelude::*;

use crate::calculator::error::{CalcError, CalcErrorView};
use crate::calculator::lexer::{
    ascii_lower, chars_of, flush, identifier_token, is_ascii_letter, is_letter, is_numeral_char,
    law_tokenize_literals_are_valid, lemma_numeral_end, lex, literal_below, literal_chars,
    numeral_end, operator_token, parse_identifier, spec_tokenize, to_ascii_lower, tokenize,
    valid_numeral,
};
use crate::calculator::token::Numeral;
use crate::calculator::parser::{
    count, law_postfix_rearranges_input, lemma_count_occurs, shunting_yard, spec_shunting_yard,
};
use crate::calculator::rpn::token_step;
use crate::calculator::token::spec_is_paren;
use crate::calculator::token::Token;

verus! {

/// Whether `c` has the Unicode `White_Space` property, which is what
/// `char::is_whitespace` tests: the controls U+0009 to U+000D, the space U+0020,
/// U+0085, the no-break space U+00A0, U+1680, the spaces U+2000 to U+200A, the line and
/// paragraph separators U+2028 and U+2029, U+202F, U+205F and U+3000.
pub open spec fn is_whitespace_char(c: char) -> bool {
    let n = c as u32;
    ||| 0x09 <= n <= 0x0D
    ||| n == 0x20
    ||| n == 0x85
    ||| n == 0xA0
    ||| n == 0x1680
    ||| 0x2000 <= n <= 0x200A
    ||| n == 0x2028
    ||| n == 0x2029
    ||| n == 0x202F
    ||| n == 0x205F
    ||| n == 0x3000
}

/// Whether `c` is a whitespace character.
pub fn is_whitespace(c: char) -> (r: bool)
    ensures
        r == is_whitespace_char(c),
{
    let n: u32 = c as u32;
    (0x09 <= n && n <= 0x0D) || n == 0x20 || n == 0x85 || n == 0xA0 || n == 0x1680 || (0x2000
        <= n && n <= 0x200A) || n == 0x2028 || n == 0x2029 || n == 0x202F || n == 0x205F || n
        == 0x3000
}

/// An expression is blank when nothing but whitespace is left after trimming it.
pub open spec fn spec_is_blank(s: Seq<char>) -> bool {
    forall|k: int| 0 <= k < s.len() ==> is_whitespace_char(#[trigger] s[k])
}

/// Whether an expression is empty or whitespace only.
pub fn is_blank(expr: &str) -> (r: bool)
    ensures
        r == spec_is_blank(expr@),
{
    let chars = chars_of(expr);
    let mut i: usize = 0;
    while i < chars.len()
        invariant
            chars@ == expr@,
            i <= chars@.len(),
            forall|k: int| 0 <= k < i ==> is_whitespace_char(#[trigger] chars@[k]),
        decreases chars.len() - i,
    {
        if !is_whitespace(chars[i]) {
            return false;
        }
        i += 1;
    }
    true
}

/// Whether a word, read as an identifier, names the variable `var` (`x`, `t`, or `ans`
/// for `'a'`).
pub open spec fn names_variable(word: Seq<char>, var: char) -> bool {
    identifier_token(word) == Some(Token::Variable(var))
}

/// Whether one of the words of `s` names `var`, `word` being the letters of the word in
/// progress. Words are grouped as the tokenizer groups them: letters are gathered in
/// lower case, spaces are passed over, and any other character ends the word.
pub open spec fn words_name(s: Seq<char>, word: Seq<char>, var: char) -> bool
    decreases s.len(),
{
    if s.len() == 0 {
        names_variable(word, var)
    } else if is_ascii_letter(s[0]) {
        words_name(s.drop_first(), word.push(ascii_lower(s[0])), var)
    } else if s[0] == ' ' {
        words_name(s.drop_first(), word, var)
    } else {
        names_variable(word, var) || words_name(s.drop_first(), seq![], var)
    }
}

/// An expression contains the variable `var` when one of its words names it, whether or
/// not the rest of the expression is well formed.
pub open spec fn spec_contains_variable(s: Seq<char>, var: char) -> bool {
    words_name(s, seq![], var)
}

proof fn lemma_contains_concat(a: Seq<Token>, b: Seq<Token>, x: Token)
    ensures
        (a + b).contains(x) == (a.contains(x) || b.contains(x)),
{
    if a.contains(x) {
        let k = choose|k: int| 0 <= k < a.len() && a[k] == x;
        assert((a + b)[k] == x);
    }
    if b.contains(x) {
        let k = choose|k: int| 0 <= k < b.len() && b[k] == x;
        assert((a + b)[a.len() + k] == x);
    }
    if (a + b).contains(x) {
        let k = choose|k: int| 0 <= k < (a + b).len() && (a + b)[k] == x;
        if k < a.len() {
            assert(a[k] == x);
        } else {
            assert(b[k - a.len()] == x);
        }
    }
}

/// The tokens that closing the word `pending` gives hold the variable `var` exactly
/// when the word names it.
proof fn lemma_flush_variable(pending: Seq<char>, var: char)
    ensures
        flush(pending) matches Ok(ts) ==> ts.contains(Token::Variable(var)) == names_variable(
            pending,
            var,
        ),
{
    if let Ok(ts) = flush(pending) {
        if pending.len() == 0 {
            assert(!names_variable(pending, var));
            assert(!ts.contains(Token::Variable(var)));
        } else {
            let t = identifier_token(pending)->Some_0;
            assert(ts =~= seq![t]);
            if ts.contains(Token::Variable(var)) {
                let k = choose|k: int| 0 <= k < ts.len() && ts[k] == Token::Variable(var);
                assert(k == 0);
            }
            if names_variable(pending, var) {
                assert(ts[0] == Token::Variable(var));
            }
        }
    }
}

/// Characters of a decimal literal end words and start none.
proof fn lemma_numeral_run_words(s: Seq<char>, i: int, j: int, var: char)
    requires
        0 <= i <= j <= s.len(),
        forall|k: int| i <= k < j ==> is_numeral_char(#[trigger] s[k]),
    ensures
        words_name(s.subrange(i, s.len() as int), seq![], var) == words_name(
            s.subrange(j, s.len() as int),
            seq![],
            var,
        ),
    decreases j - i,
{
    if i < j {
        let r = s.subrange(i, s.len() as int);
        assert(r[0] == s[i]);
        assert(is_numeral_char(s[i]));
        assert(r.drop_first() =~= s.subrange(i + 1, s.len() as int));
        let empty: Seq<char> = seq![];
        assert(empty.len() == 0);
        assert(!names_variable(empty, var));
        lemma_numeral_run_words(s, i + 1, j, var);
    }
}

/// Where `lex` succeeds from position `i` with the word `pending` in progress, its
/// tokens hold the variable `var` exactly when one of the words from there on names it.
proof fn lemma_lex_variables(s: Seq<char>, i: int, pending: Seq<char>, nlits: nat, var: char)
    requires
        0 <= i <= s.len(),
    ensures
        lex(s, i, pending, nlits) matches Ok((ts, _)) ==> ts.contains(Token::Variable(var))
            == words_name(s.subrange(i, s.len() as int), pending, var),
    decreases s.len() - i,
{
    let r = s.subrange(i, s.len() as int);
    lemma_flush_variable(pending, var);
    if i < s.len() {
        let c = s[i];
        assert(r[0] == c);
        assert(r.drop_first() =~= s.subrange(i + 1, s.len() as int));
        if c == ' ' {
            lemma_lex_variables(s, i + 1, pending, nlits, var);
        } else if is_numeral_char(c) {
            lemma_numeral_end(s, i);
            let j = numeral_end(s, i);
            lemma_lex_variables(s, j, seq![], nlits + 1, var);
            lemma_numeral_run_words(s, i + 1, j, var);
            if let Ok((ts, _)) = lex(s, i, pending, nlits) {
                let fl = flush(pending)->Ok_0;
                let (rt, rl) = lex(s, j, seq![], nlits + 1)->Ok_0;
                let num = seq![Token::Number(Numeral::Literal(nlits as usize))];
                assert(ts == (fl + num) + rt);
                lemma_contains_concat(fl + num, rt, Token::Variable(var));
                lemma_contains_concat(fl, num, Token::Variable(var));
                assert(!num.contains(Token::Variable(var))) by {
                    if num.contains(Token::Variable(var)) {
                        let k = choose|k: int| 0 <= k < num.len() && num[k] == Token::Variable(var);
                        assert(k == 0);
                    }
                }
            }
        } else if is_ascii_letter(c) {
            lemma_lex_variables(s, i + 1, pending.push(ascii_lower(c)), nlits, var);
        } else {
            lemma_lex_variables(s, i + 1, seq![], nlits, var);
            if let Ok((ts, _)) = lex(s, i, pending, nlits) {
                let op = operator_token(c)->Some_0;
                let fl = flush(pending)->Ok_0;
                let (rt, rl) = lex(s, i + 1, seq![], nlits)->Ok_0;
                assert(ts == (fl + seq![op]) + rt);
                lemma_contains_concat(fl + seq![op], rt, Token::Variable(var));
                lemma_contains_concat(fl, seq![op], Token::Variable(var));
                assert(!seq![op].contains(Token::Variable(var))) by {
                    if seq![op].contains(Token::Variable(var)) {
                        let k = choose|k: int| 0 <= k < seq![op].len() && seq![op][k] == Token::Variable(var);
                        assert(k == 0);
                    }
                }
            }
        }
    }
}

/// Where an expression tokenizes, it contains the variable `var` exactly when one of its
/// tokens is that variable.
pub proof fn law_contains_variable_matches_tokens(s: Seq<char>, var: char)
    ensures
        spec_tokenize(s) matches Ok((ts, _)) ==> spec_contains_variable(s, var) == ts.contains(
            Token::Variable(var),
        ),
{
    lemma_lex_variables(s, 0, seq![], 0, var);
    assert(s.subrange(0, s.len() as int) =~= s);
}

/// Whether `word` names the variable `var`.
fn word_names_variable(word: &Vec<char>, var: char) -> (r: bool)
    ensures
        r == names_variable(word@, var),
{
    match parse_identifier(word) {
        Ok(t) => t == Token::Variable(var),
        Err(_) => false,
    }
}

/// Check if an expression contains a specific variable
pub fn contains_variable(expr: &str, var: char) -> (r: bool)
    ensures
        r == spec_contains_variable(expr@, var),
{
    let s = chars_of(expr);
    let mut word: Vec<char> = Vec::new();
    let mut i: usize = 0;
    proof {
        assert(s@.subrange(0, s@.len() as int) =~= s@);
        assert(word@ =~= seq![]);
    }
    while i < s.len()
        invariant
            s@ == expr@,
            i <= s@.len(),
            spec_contains_variable(expr@, var) == words_name(
                s@.subrange(i as int, s@.len() as int),
                word@,
                var,
            ),
        decreases s.len() - i,
    {
        let c = s[i];
        let ghost rest = s@.subrange(i as int, s@.len() as int);
        proof {
            assert(rest[0] == c);
            assert(rest.drop_first() =~= s@.subrange(i + 1, s@.len() as int));
        }
        if is_letter(c) {
            word.push(to_ascii_lower(c));
        } else if c != ' ' {
            if word_names_variable(&word, var) {
                return true;
            }
            word = Vec::new();
            proof {
                assert(word@ =~= seq![]);
            }
        }
        i += 1;
    }
    proof {
        assert(s@.subrange(i as int, s@.len() as int).len() == 0);
    }
    word_names_variable(&word, var)
}

/// An expression in postfix order, with the table of its decimal literals
/// (`Numeral::Literal(k)` names `literals[k]`).
pub struct Postfix {
    pub tokens: Vec<Token>,
    pub literals: Vec<Vec<char>>,
}

impl View for Postfix {
    type V = (Seq<Token>, Seq<Seq<char>>);

    open spec fn view(&self) -> (Seq<Token>, Seq<Seq<char>>) {
        (self.tokens@, literal_chars(self.literals@))
    }
}

/// The postfix form of an expression: blank is refused, then tokens, then shunting-yard.
pub open spec fn spec_parse_expression(s: Seq<char>) -> Result<
    (Seq<Token>, Seq<Seq<char>>),
    CalcErrorView,
> {
    if spec_is_blank(s) {
        Err(CalcErrorView::EmptyExpression)
    } else {
        match spec_tokenize(s) {
            Err(e) => Err(e),
            Ok((ts, ls)) => match spec_shunting_yard(ts) {
                Err(e) => Err(e),
                Ok(out) => Ok((out, ls)),
            },
        }
    }
}

/// Turn an expression into its postfix form, ready to be evaluated on a stack.
pub fn parse_expression(expr: &str) -> (r: Result<Postfix, CalcError>)
    ensures
        match r {
            Ok(p) => spec_parse_expression(expr@) == Ok::<_, CalcErrorView>(p@),
            Err(e) => spec_parse_expression(expr@) == Err::<(Seq<Token>, Seq<Seq<char>>), _>(e@),
        },
        r matches Ok(p) ==> forall|k: int|
            0 <= k < p.tokens@.len() ==> token_step(#[trigger] p.tokens@[k]) is Some
                && literal_below(p.tokens@[k], p.literals@.len() as int),
        r matches Ok(p) ==> forall|k: int|
            0 <= k < p.literals@.len() ==> valid_numeral(#[trigger] p.literals@[k]@),
{
    proof {
        law_parsed_expression_is_evaluable(expr@);
    }
    if is_blank(expr) {
        return Err(CalcError::EmptyExpression);
    }
    let lexed = match tokenize(expr) {
        Ok(l) => l,
        Err(e) => return Err(e),
    };
    let literals = lexed.literals;
    match shunting_yard(lexed.tokens) {
        Ok(tokens) => {
            let p = Postfix { tokens, literals };
            proof {
                assert forall|k: int| 0 <= k < p.literals@.len() implies valid_numeral(
                    #[trigger] p.literals@[k]@,
                ) by {
                    assert(literal_chars(p.literals@)[k] == p.literals@[k]@);
                }
            }
            Ok(p)
        },
        Err(e) => Err(e),
    }
}


/// A parsed expression can be evaluated token by token: every postfix token has a stack
/// step (no parenthesis is left), every literal token names an entry of the literal table,
/// and every entry of the table is a valid decimal number.
pub proof fn law_parsed_expression_is_evaluable(s: Seq<char>)
    ensures
        spec_parse_expression(s) matches Ok((ts, ls)) ==> {
            &&& forall|k: int| 0 <= k < ts.len() ==> token_step(#[trigger] ts[k]) is Some
            &&& forall|k: int| 0 <= k < ts.len() ==> literal_below(#[trigger] ts[k], ls.len() as int)
            &&& forall|k: int| 0 <= k < ls.len() ==> valid_numeral(#[trigger] ls[k])
        },
{
    if let Ok((out, ls)) = spec_parse_expression(s) {
        let (toks, ls2) = spec_tokenize(s)->Ok_0;
        law_tokenize_literals_are_valid(s);
        assert forall|k: int| 0 <= k < out.len() implies token_step(#[trigger] out[k]) is Some
            && literal_below(out[k], ls.len() as int) by {
            let t = out[k];
            law_postfix_rearranges_input(toks, t);
            lemma_count_occurs(out, t);
            lemma_count_occurs(toks, t);
            assert(count(out, t) > 0);
            let m = choose|m: int| 0 <= m < toks.len() && toks[m] == t;
            assert(literal_below(toks[m], ls2.len() as int));
        }
    }
}

} // verus!
