use rusty_abacus::calculator::error::CalcError;
use rusty_abacus::calculator::expression::{
    contains_variable, is_blank, is_whitespace, parse_expression,
};
use rusty_abacus::calculator::lexer::{parse_identifier, tokenize};
use rusty_abacus::calculator::parser::shunting_yard;
use rusty_abacus::calculator::rpn::{rpn_finish, rpn_step, BinaryOp, RpnStep, UnaryOp};
use rusty_abacus::calculator::token::{is_function, is_left_associative, precedence, Numeral, Token};

fn lit(k: usize) -> Token {
    Token::Number(Numeral::Literal(k))
}

fn chars(s: &str) -> Vec<char> {
    s.chars().collect()
}

fn postfix(expr: &str) -> Vec<Token> {
    parse_expression(expr).unwrap().tokens
}

fn error_message(expr: &str) -> String {
    match parse_expression(expr) {
        Ok(_) => panic!("expected an error for {:?}", expr),
        Err(e) => e.message(),
    }
}

#[test]
fn contains_variable_ignores_case() {
    assert!(contains_variable("sin(X)", 'x'));
    assert!(contains_variable("x^2", 'x'));
    assert!(!contains_variable("2 + 3", 'x'));
    assert!(contains_variable("cos(t)", 't'));
    assert!(!contains_variable("", 'x'));
}

#[test]
fn contains_variable_reads_tokens() {
    // function names are not variables
    assert!(!contains_variable("tan(1)", 't'));
    assert!(!contains_variable("sqrt(2)", 't'));
    assert!(!contains_variable("exp(2)", 'x'));
    assert!(contains_variable("2*T + 1", 't'));
    assert!(contains_variable("ans + 1", 'a'));
    assert!(!contains_variable("x + 1", 't'));
    // the variable counts even where the rest of the expression is not well formed
    assert!(contains_variable("x + $", 'x'));
    assert!(contains_variable("2x + y", 'x'));
    assert!(contains_variable("exp(x)", 'x'));
    assert!(!contains_variable("2x + y", 't'));
    // words are grouped as the tokenizer groups them: spaces do not split a word
    assert!(contains_variable("a n s", 'a'));
    assert!(!contains_variable("x x", 'x'));
    // variables are lower case
    assert!(!contains_variable("X", 'X'));
}

#[test]
fn whitespace_is_the_unicode_set() {
    for n in 0u32..=0x10FFFF {
        if let Some(c) = char::from_u32(n) {
            assert_eq!(is_whitespace(c), c.is_whitespace(), "at U+{:04X}", n);
        }
    }
}

#[test]
fn blank_expressions() {
    assert!(is_blank(""));
    assert!(is_blank("   "));
    assert!(is_blank(" \t\n"));
    assert!(!is_blank(" 1 "));
    assert!(!is_blank("(2+3"));
    assert!(is_blank("\u{a0}\u{3000}\r"));
}

#[test]
fn tokenize_numbers_and_operators() {
    let l = tokenize("2 + 3").unwrap();
    assert_eq!(l.tokens, vec![lit(0), Token::Plus, lit(1)]);
    assert_eq!(l.literals, vec![chars("2"), chars("3")]);

    let l = tokenize("10%3!").unwrap();
    assert_eq!(l.tokens, vec![lit(0), Token::Modulo, lit(1), Token::Factorial]);
    assert_eq!(l.literals, vec![chars("10"), chars("3")]);

    let l = tokenize("3.25*.5").unwrap();
    assert_eq!(l.tokens, vec![lit(0), Token::Multiply, lit(1)]);
    assert_eq!(l.literals, vec![chars("3.25"), chars(".5")]);
}

#[test]
fn tokenize_identifiers_ignore_case() {
    let l = tokenize("SIN(x)").unwrap();
    assert_eq!(l.tokens, vec![Token::Sin, Token::LParen, Token::Variable('x'), Token::RParen]);
    let l = tokenize("Pi*e+ans-t").unwrap();
    assert_eq!(
        l.tokens,
        vec![
            Token::Number(Numeral::Pi),
            Token::Multiply,
            Token::Number(Numeral::E),
            Token::Plus,
            Token::Variable('a'),
            Token::Minus,
            Token::Variable('t'),
        ]
    );
    assert!(l.literals.is_empty());
}

#[test]
fn tokenize_spaces_join_words_but_split_numbers() {
    let l = tokenize("s in(0)").unwrap();
    assert_eq!(l.tokens, vec![Token::Sin, Token::LParen, lit(0), Token::RParen]);
    let l = tokenize("2 3").unwrap();
    assert_eq!(l.tokens, vec![lit(0), lit(1)]);
    assert_eq!(l.literals, vec![chars("2"), chars("3")]);
}

#[test]
fn tokenize_word_before_number() {
    let l = tokenize("sqrt16").unwrap();
    assert_eq!(l.tokens, vec![Token::Sqrt, lit(0)]);
    let l = tokenize("2e3").unwrap();
    assert_eq!(l.tokens, vec![lit(0), Token::Number(Numeral::E), lit(1)]);
}

#[test]
fn tokenize_errors() {
    match tokenize("1.2.3") {
        Err(CalcError::InvalidNumber(s)) => assert_eq!(s, chars("1.2.3")),
        other => panic!("unexpected {:?}", other.map(|l| l.tokens)),
    }
    match tokenize(".") {
        Err(CalcError::InvalidNumber(s)) => assert_eq!(s, chars(".")),
        other => panic!("unexpected {:?}", other.map(|l| l.tokens)),
    }
    match tokenize("2 # 3") {
        Err(CalcError::InvalidCharacter(c)) => assert_eq!(c, '#'),
        other => panic!("unexpected {:?}", other.map(|l| l.tokens)),
    }
    match tokenize("FOO+1") {
        Err(CalcError::UnknownIdentifier(s)) => assert_eq!(s, chars("foo")),
        other => panic!("unexpected {:?}", other.map(|l| l.tokens)),
    }
    // an invalid character wins over the word still being read
    match tokenize("foo#") {
        Err(CalcError::InvalidCharacter(c)) => assert_eq!(c, '#'),
        other => panic!("unexpected {:?}", other.map(|l| l.tokens)),
    }
}

#[test]
fn identifiers() {
    assert_eq!(parse_identifier(&chars("arcsin")).unwrap(), Token::Asin);
    assert_eq!(parse_identifier(&chars("arccos")).unwrap(), Token::Acos);
    assert_eq!(parse_identifier(&chars("arctan")).unwrap(), Token::Atan);
    assert_eq!(parse_identifier(&chars("ln")).unwrap(), Token::Ln);
    assert_eq!(parse_identifier(&chars("ceil")).unwrap(), Token::Ceil);
    assert_eq!(parse_identifier(&chars("floor")).unwrap(), Token::Floor);
    assert!(parse_identifier(&chars("sinh")).is_err());
    assert!(parse_identifier(&chars("X")).is_err());
}

#[test]
fn token_classes() {
    assert!(is_function(&Token::Log));
    assert!(!is_function(&Token::Plus));
    assert_eq!(precedence(&Token::Plus), 1);
    assert_eq!(precedence(&Token::Modulo), 2);
    assert_eq!(precedence(&Token::Power), 3);
    assert_eq!(precedence(&Token::Cos), 4);
    assert_eq!(precedence(&Token::Factorial), 5);
    assert_eq!(precedence(&Token::LParen), 0);
    assert!(!is_left_associative(&Token::Power));
    assert!(is_left_associative(&Token::Minus));
}

#[test]
fn postfix_respects_precedence() {
    assert_eq!(postfix("2 + 3 * 4"), vec![lit(0), lit(1), lit(2), Token::Multiply, Token::Plus]);
    assert_eq!(postfix("(2 + 3) * 4"), vec![lit(0), lit(1), Token::Plus, lit(2), Token::Multiply]);
    assert_eq!(postfix("10 - 4 - 3"), vec![lit(0), lit(1), Token::Minus, lit(2), Token::Minus]);
}

#[test]
fn postfix_power_groups_right() {
    assert_eq!(postfix("2^3^2"), vec![lit(0), lit(1), lit(2), Token::Power, Token::Power]);
}

#[test]
fn postfix_functions_and_factorial() {
    assert_eq!(
        postfix("sqrt(16) + 2^3"),
        vec![lit(0), Token::Sqrt, lit(1), lit(2), Token::Power, Token::Plus]
    );
    assert_eq!(postfix("3! + 2"), vec![lit(0), Token::Factorial, lit(1), Token::Plus]);
    assert_eq!(postfix("sin(x)"), vec![Token::Variable('x'), Token::Sin]);
    assert_eq!(postfix("2*sin(x)"), vec![lit(0), Token::Variable('x'), Token::Sin, Token::Multiply]);
    // a space does not end a word: "sin x" reads as the word "sinx"
    assert_eq!(error_message("2*sin x"), "Unknown identifier: sinx");
}

#[test]
fn postfix_keeps_literal_table() {
    let p = parse_expression("1.5 * (2 - 0.25)").unwrap();
    assert_eq!(p.literals, vec![chars("1.5"), chars("2"), chars("0.25")]);
    assert_eq!(p.tokens, vec![lit(0), lit(1), lit(2), Token::Minus, Token::Multiply]);
}

#[test]
fn shunting_yard_direct() {
    let out = shunting_yard(vec![Token::LParen, lit(0), Token::RParen]).unwrap();
    assert_eq!(out, vec![lit(0)]);
    assert!(matches!(
        shunting_yard(vec![Token::LParen, lit(0)]),
        Err(CalcError::MismatchedParentheses)
    ));
    assert!(matches!(
        shunting_yard(vec![lit(0), Token::RParen]),
        Err(CalcError::MismatchedParentheses)
    ));
}

#[test]
fn parse_errors_and_messages() {
    assert_eq!(error_message(""), "Empty expression");
    assert_eq!(error_message("   "), "Empty expression");
    assert_eq!(error_message("(1 + 2"), "Mismatched parentheses");
    assert_eq!(error_message("1 + 2)"), "Mismatched parentheses");
    assert_eq!(error_message("1.2.3"), "Invalid number: 1.2.3");
    assert_eq!(error_message("2 $ 3"), "Invalid character: $");
    assert_eq!(error_message("foo(2)"), "Unknown identifier: foo");
}

#[test]
fn other_messages() {
    assert_eq!(CalcError::UndefinedVariable('x').message(), "Undefined variable: x");
    assert_eq!(CalcError::InvalidExpression.message(), "Invalid expression");
    assert_eq!(CalcError::InvalidTokenInRpn.message(), "Invalid token in RPN");
    assert_eq!(CalcError::DivisionByZero.message(), "Division by zero");
    assert_eq!(CalcError::ModuloByZero.message(), "Modulo by zero");
    assert_eq!(
        CalcError::FactorialDomain.message(),
        "Factorial requires non-negative integer"
    );
    assert_eq!(CalcError::AsinDomain.message(), "asin domain error");
    assert_eq!(CalcError::AcosDomain.message(), "acos domain error");
    assert_eq!(CalcError::LogDomain.message(), "log of non-positive number");
    assert_eq!(CalcError::LnDomain.message(), "ln of non-positive number");
    assert_eq!(CalcError::SqrtDomain.message(), "sqrt of negative number");
}

#[test]
fn rpn_steps() {
    assert_eq!(rpn_step(0, lit(3)).unwrap(), RpnStep::PushNumber(Numeral::Literal(3)));
    assert_eq!(rpn_step(0, Token::Variable('t')).unwrap(), RpnStep::PushVariable('t'));
    assert_eq!(rpn_step(2, Token::Divide).unwrap(), RpnStep::Apply2(BinaryOp::Div));
    assert_eq!(rpn_step(1, Token::Factorial).unwrap(), RpnStep::Apply1(UnaryOp::Factorial));
    assert_eq!(rpn_step(5, Token::Ceil).unwrap(), RpnStep::Apply1(UnaryOp::Ceil));
    assert!(matches!(rpn_step(1, Token::Plus), Err(CalcError::InvalidExpression)));
    assert!(matches!(rpn_step(0, Token::Sin), Err(CalcError::InvalidExpression)));
    assert!(matches!(rpn_step(3, Token::LParen), Err(CalcError::InvalidTokenInRpn)));
    assert!(rpn_finish(1).is_ok());
    assert!(matches!(rpn_finish(0), Err(CalcError::InvalidExpression)));
    assert!(matches!(rpn_finish(2), Err(CalcError::InvalidExpression)));
}

#[test]
fn rpn_walk_of_a_parsed_expression() {
    // "2 3" parses, but leaves two values on the stack
    let p = parse_expression("2 3").unwrap();
    let mut depth = 0usize;
    for t in &p.tokens {
        let step = rpn_step(depth, *t).unwrap();
        depth = match step {
            RpnStep::PushNumber(_) | RpnStep::PushVariable(_) => depth + 1,
            RpnStep::Apply1(_) => depth,
            RpnStep::Apply2(_) => depth - 1,
        };
    }
    assert!(matches!(rpn_finish(depth), Err(CalcError::InvalidExpression)));
    // "+" alone parses, but has nothing to add
    let p = parse_expression("+").unwrap();
    assert!(matches!(rpn_step(0, p.tokens[0]), Err(CalcError::InvalidExpression)));
}

#[test]
fn tokenizing_ignores_case() {
    for (upper, lower) in [("SIN(X)+PI", "sin(x)+pi"), ("2*Ans", "2*ans"), ("FOO", "foo"), ("1.2.3E", "1.2.3e")] {
        match (tokenize(upper), tokenize(lower)) {
            (Ok(a), Ok(b)) => {
                assert_eq!(a.tokens, b.tokens);
                assert_eq!(a.literals, b.literals);
            }
            (Err(a), Err(b)) => assert_eq!(a.message(), b.message()),
            _ => panic!("{} and {} differ", upper, lower),
        }
    }
}

#[test]
fn postfix_rearranges_and_keeps_operand_order() {
    let expr = "sin(x) * (2 + t) ^ 3! - abs(4 % pi)";
    let infix = tokenize(expr).unwrap().tokens;
    let post = postfix(expr);
    let is_paren = |t: &Token| matches!(t, Token::LParen | Token::RParen);
    let is_operand = |t: &Token| matches!(t, Token::Number(_) | Token::Variable(_));
    assert!(!post.iter().any(is_paren));
    let mut a: Vec<String> = infix.iter().filter(|t| !is_paren(t)).map(|t| format!("{:?}", t)).collect();
    let mut b: Vec<String> = post.iter().map(|t| format!("{:?}", t)).collect();
    a.sort();
    b.sort();
    assert_eq!(a, b);
    let ia: Vec<&Token> = infix.iter().filter(|t| is_operand(t)).collect();
    let ib: Vec<&Token> = post.iter().filter(|t| is_operand(t)).collect();
    assert_eq!(ia, ib);
}

#[test]
fn parsed_literals_are_numbers() {
    let p = parse_expression("0.5 + 12 * .25 - 7.").unwrap();
    for lit in &p.literals {
        let text: String = lit.iter().collect();
        assert!(text.parse::<f64>().is_ok());
    }
    for t in &p.tokens {
        assert!(rpn_step(2, *t).is_ok());
        if let Token::Number(Numeral::Literal(k)) = t {
            assert!(*k < p.literals.len());
        }
    }
}
