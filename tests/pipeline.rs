use shunting_yard::error::MathError;
use shunting_yard::token::{Operator, Span, Token, Tokens};
use shunting_yard::tree::Expr;

/// The text of a literal in the line.
fn literal(line: &str, sp: Span) -> String {
    line.chars().skip(sp.start).take(sp.end - sp.start).collect()
}

/// The value of an expression with the line's literals read as `f64`.
fn value(line: &str, e: &Expr) -> f64 {
    match e {
        Expr::Num(sp) => literal(line, *sp).parse::<f64>().unwrap(),
        Expr::Bin(op, l, r) => {
            let (x, y) = (value(line, l), value(line, r));
            match op {
                Operator::Add => x + y,
                Operator::Sub => x - y,
                Operator::Mul => x * y,
                Operator::Div => x / y,
            }
        }
    }
}

fn eval_value(line: &str) -> f64 {
    match Tokens::eval(line) {
        Ok(e) => value(line, &e),
        Err(err) => panic!("{:?} failed: {:?}", line, err),
    }
}

fn shown(line: &str) -> String {
    format!("{:.3}", eval_value(line))
}

fn num(start: usize, end: usize) -> Token {
    Token::Num(Span { start, end })
}

fn op(c: char) -> Token {
    Token::Oper(Operator::from_char(c))
}

#[test]
fn precedence_multiplication_first() {
    assert_eq!(shown("2+3*4"), "14.000");
}

#[test]
fn precedence_parentheses_first() {
    assert_eq!(shown("(2+3)*4"), "20.000");
}

#[test]
fn subtraction_groups_left() {
    assert_eq!(shown("8-3-2"), "3.000");
}

#[test]
fn division_groups_left() {
    assert_eq!(shown("8/4/2"), "1.000");
}

#[test]
fn mixed_levels_group_left() {
    assert_eq!(shown("2*3-4/2+1"), "5.000");
    assert_eq!(shown("8-(3-2)"), "7.000");
}

#[test]
fn unclosed_open_paren() {
    match Tokens::eval("(1+2") {
        Err(MathError::UnclosedOpenParen(ts)) => {
            assert_eq!(ts, vec![Token::ParenOpen, num(1, 2), op('+'), num(3, 4)]);
        }
        other => panic!("unexpected {:?}", other),
    }
}

#[test]
fn unmatched_close_paren() {
    match Tokens::eval("1+2)") {
        Err(MathError::UnmatchedCloseParen(ts)) => {
            assert_eq!(ts, vec![num(0, 1), op('+'), num(2, 3), Token::ParenClose]);
        }
        other => panic!("unexpected {:?}", other),
    }
}

#[test]
fn invalid_number_literal() {
    match Tokens::eval("1.2.3") {
        Err(MathError::InvalidNumber(s)) => assert_eq!(s, "1.2.3"),
        other => panic!("unexpected {:?}", other),
    }
}

#[test]
fn lone_dot_is_invalid_number() {
    match Tokens::eval("1 + .") {
        Err(MathError::InvalidNumber(s)) => assert_eq!(s, "."),
        other => panic!("unexpected {:?}", other),
    }
}

#[test]
fn unsupported_character() {
    assert!(matches!(Tokens::eval("2^3"), Err(MathError::UnsupportedCharacter('^'))));
}

#[test]
fn first_fault_from_the_left_wins() {
    assert!(matches!(Tokens::eval("2^3 + 1.2.3"), Err(MathError::UnsupportedCharacter('^'))));
    assert!(matches!(Tokens::eval("1..2 ^"), Err(MathError::InvalidNumber(_))));
}

#[test]
fn lone_operator_is_imbalanced() {
    match Tokens::eval("+") {
        Err(MathError::ImbalancedExpression(ts)) => assert_eq!(ts, vec![op('+')]),
        other => panic!("unexpected {:?}", other),
    }
}

#[test]
fn two_numbers_are_imbalanced() {
    match Tokens::eval("1 2") {
        Err(MathError::ImbalancedExpression(ts)) => assert_eq!(ts, vec![num(0, 1), num(2, 3)]),
        other => panic!("unexpected {:?}", other),
    }
}

#[test]
fn empty_line_is_imbalanced() {
    match Tokens::eval("") {
        Err(MathError::ImbalancedExpression(ts)) => assert!(ts.is_empty()),
        other => panic!("unexpected {:?}", other),
    }
    assert!(matches!(Tokens::eval("  = "), Err(MathError::ImbalancedExpression(_))));
}

#[test]
fn rendered_result_reads_back_the_same() {
    for line in ["10/3", "2/3", "1.23456*7", "100-0.0004"] {
        let first = shown(line);
        assert_eq!(shown(&first), first);
    }
}

#[test]
fn whitespace_and_equals_are_ignored() {
    assert_eq!(eval_value("1 + 2 ="), eval_value("1+2"));
    assert_eq!(shown("\t( 1 +\u{3000}2 ) * 3 =\n"), "9.000");
}

#[test]
fn division_by_zero_is_not_an_error() {
    assert!(eval_value("1/0").is_infinite());
    assert!(eval_value("1/0") > 0.0);
    assert!(eval_value("0/0").is_nan());
}

#[test]
fn literal_forms() {
    assert_eq!(shown("5."), "5.000");
    assert_eq!(shown(".5"), "0.500");
    assert_eq!(shown("007.250"), "7.250");
}

#[test]
fn tokenize_spans_and_symbols() {
    let ts = Tokens::parse(" 12.5*(3 - 4)/=").unwrap();
    assert_eq!(
        ts.0,
        vec![
            num(1, 5),
            op('*'),
            Token::ParenOpen,
            num(7, 8),
            op('-'),
            num(11, 12),
            Token::ParenClose,
            op('/'),
        ]
    );
}

#[test]
fn shunting_orders_postfix() {
    let post = Tokens::parse("1+2*3-4").unwrap().shunting().unwrap();
    assert_eq!(
        post.0,
        vec![num(0, 1), num(2, 3), num(4, 5), op('*'), op('+'), num(6, 7), op('-')]
    );
    let post = Tokens::parse("(1+2)*3").unwrap().shunting().unwrap();
    assert_eq!(
        post.0,
        vec![num(1, 2), num(3, 4), op('+'), num(6, 7), op('*')]
    );
}

#[test]
fn solve_builds_tree() {
    let post = Tokens(vec![num(0, 1), num(2, 3), op('-')]);
    match post.solve() {
        Ok(Expr::Bin(Operator::Sub, l, r)) => {
            assert!(matches!(*l, Expr::Num(Span { start: 0, end: 1 })));
            assert!(matches!(*r, Expr::Num(Span { start: 2, end: 3 })));
        }
        other => panic!("unexpected {:?}", other),
    }
}

#[test]
fn operator_from_char_and_precedence() {
    assert_eq!(Operator::from_char('+'), Operator::Add);
    assert_eq!(Operator::from_char('-'), Operator::Sub);
    assert_eq!(Operator::from_char('*'), Operator::Mul);
    assert_eq!(Operator::from_char('/'), Operator::Div);
    assert_eq!(Operator::Add.precedence(), 1);
    assert_eq!(Operator::Sub.precedence(), 1);
    assert_eq!(Operator::Mul.precedence(), 2);
    assert_eq!(Operator::Div.precedence(), 2);
    assert_eq!(Operator::Div.symbol(), '/');
}

#[test]
fn token_predicates() {
    assert_eq!(Token::from_char('('), Token::ParenOpen);
    assert_eq!(Token::from_char(')'), Token::ParenClose);
    assert_eq!(Token::from_char('*'), op('*'));
    assert!(op('+').is_lower(&op('*')));
    assert!(!op('-').is_lower(&op('+')));
    assert!(!op('+').is_lower(&Token::ParenOpen));
    assert!(num(0, 1).is_num() && !num(0, 1).is_oper() && !num(0, 1).is_paren());
    assert!(op('/').is_oper() && Token::ParenOpen.is_paren() && Token::ParenClose.is_paren());
}

#[test]
fn agrees_with_direct_arithmetic() {
    let cases: [(&str, f64); 6] = [
        ("1+2*3-4/2", 1.0 + 2.0 * 3.0 - 4.0 / 2.0),
        ("(1.5+2.5)*(3-1)/4", (1.5 + 2.5) * (3.0 - 1.0) / 4.0),
        ("10-4-3-2", 10.0 - 4.0 - 3.0 - 2.0),
        ("100/10/5*2", 100.0 / 10.0 / 5.0 * 2.0),
        ("2*(3+(4-1)*2)-7", 2.0 * (3.0 + (4.0 - 1.0) * 2.0) - 7.0),
        ("0.1+0.2", 0.1 + 0.2),
    ];
    for (line, expected) in cases {
        assert_eq!(eval_value(line), expected, "{}", line);
    }
}

#[test]
fn trailing_separators_change_nothing() {
    let plain = Tokens::parse("3*(1+2)").unwrap();
    let padded = Tokens::parse("3*(1+2) = \t").unwrap();
    assert_eq!(plain.0, padded.0);
}
