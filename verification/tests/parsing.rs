//! Grammar tests: what parses, what the tree looks like, and what must
//! fail to parse.

use distlang::ast::{Dist, Error, Expr, Statement};
use distlang::parser::parse;

fn var(name: &str) -> Expr {
    Expr::Var(name.to_string())
}

#[test]
fn parse_decl_assign() {
    let r = parse("let x = 5;").unwrap();
    assert_eq!(
        r,
        vec![Statement::DeclAssign { name: var("x"), value: Expr::Int(5) }]
    );
}

#[test]
fn parse_decl_without_init() {
    let r = parse("let x;").unwrap();
    assert_eq!(r, vec![Statement::Decl(var("x"))]);
}

#[test]
fn parse_assignment() {
    let r = parse("x = 41;").unwrap();
    assert_eq!(r, vec![Statement::Assign { name: var("x"), value: Expr::Int(41) }]);
}

#[test]
fn parse_output_call() {
    let r = parse("output(7);").unwrap();
    assert_eq!(r, vec![Statement::HardcodedOutput(Expr::Int(7))]);
}

#[test]
fn parse_precedence_mul_over_add() {
    let r = parse("x = 1 + 2 * 3;").unwrap();
    assert_eq!(
        r,
        vec![Statement::Assign {
            name: var("x"),
            value: Expr::Add(
                Box::new(Expr::Int(1)),
                Box::new(Expr::Mul(Box::new(Expr::Int(2)), Box::new(Expr::Int(3)))),
            ),
        }]
    );
}

#[test]
fn parse_left_associative_subtraction() {
    let r = parse("x = 1 - 2 - 3;").unwrap();
    assert_eq!(
        r,
        vec![Statement::Assign {
            name: var("x"),
            value: Expr::Sub(
                Box::new(Expr::Sub(Box::new(Expr::Int(1)), Box::new(Expr::Int(2)))),
                Box::new(Expr::Int(3)),
            ),
        }]
    );
}

#[test]
fn parse_parenthesized_group() {
    let r = parse("x = (1 + 2) * 3;").unwrap();
    assert_eq!(
        r,
        vec![Statement::Assign {
            name: var("x"),
            value: Expr::Mul(
                Box::new(Expr::Add(Box::new(Expr::Int(1)), Box::new(Expr::Int(2)))),
                Box::new(Expr::Int(3)),
            ),
        }]
    );
}

#[test]
fn parse_unary_minus() {
    let r = parse("x = -5;").unwrap();
    assert_eq!(
        r,
        vec![Statement::Assign { name: var("x"), value: Expr::Neg(Box::new(Expr::Int(5))) }]
    );
}

#[test]
fn parse_double_unary_minus() {
    let r = parse("x = --5;").unwrap();
    assert_eq!(
        r,
        vec![Statement::Assign {
            name: var("x"),
            value: Expr::Neg(Box::new(Expr::Neg(Box::new(Expr::Int(5))))),
        }]
    );
}

#[test]
fn parse_uniform_literal() {
    let r = parse("let d = uniform(1, 6);").unwrap();
    assert_eq!(
        r,
        vec![Statement::DeclAssign {
            name: var("d"),
            value: Expr::Dist(Dist::Uniform(
                Box::new(Expr::Int(1)),
                Box::new(Expr::Int(6)),
            )),
        }]
    );
}

#[test]
fn parse_method_call() {
    let r = parse("output(d:expect(7));").unwrap();
    assert_eq!(
        r,
        vec![Statement::HardcodedOutput(Expr::DistMethodCall {
            var: "d".to_string(),
            method: "expect".to_string(),
            args: vec![Expr::Int(7)],
        })]
    );
}

#[test]
fn parse_method_call_without_arguments() {
    let r = parse("output(d:expect());").unwrap();
    assert_eq!(
        r,
        vec![Statement::HardcodedOutput(Expr::DistMethodCall {
            var: "d".to_string(),
            method: "expect".to_string(),
            args: vec![],
        })]
    );
}

#[test]
fn parse_multiple_statements_and_trailing_semicolon() {
    let with_trailing = parse("let x = 1; x = 2; output(x);").unwrap();
    let without_trailing = parse("let x = 1; x = 2; output(x)").unwrap();
    assert_eq!(with_trailing, without_trailing);
    assert_eq!(with_trailing.len(), 3);
}

#[test]
fn parse_tolerates_whitespace_everywhere() {
    let r = parse("  let\tx\n=\r\n 5 ;  ").unwrap();
    assert_eq!(
        r,
        vec![Statement::DeclAssign { name: var("x"), value: Expr::Int(5) }]
    );
}

#[test]
fn missing_identifier_after_let_fails() {
    assert!(matches!(parse("let = 5;"), Err(Error::ParseError(_))));
}

#[test]
fn trailing_garbage_fails() {
    assert!(matches!(parse("let x = 5; @@@"), Err(Error::ParseError(_))));
    assert!(matches!(parse("let x = 5 let y = 6;"), Err(Error::ParseError(_))));
    assert!(matches!(parse("x = 5; 42"), Err(Error::ParseError(_))));
}

#[test]
fn let_is_reserved() {
    assert!(matches!(parse("x = let;"), Err(Error::ParseError(_))));
    assert!(matches!(parse("let let = 5;"), Err(Error::ParseError(_))));
}

#[test]
fn keyword_needs_word_boundary() {
    let r = parse("letx = 5;").unwrap();
    assert_eq!(r, vec![Statement::Assign { name: var("letx"), value: Expr::Int(5) }]);
}

#[test]
fn identifier_cannot_start_with_digit() {
    assert!(matches!(parse("1x = 5;"), Err(Error::ParseError(_))));
}

#[test]
fn uniform_needs_two_integer_literals() {
    assert!(matches!(parse("let d = uniform(1);"), Err(Error::ParseError(_))));
    assert!(matches!(parse("let d = uniform(1, 2, 3);"), Err(Error::ParseError(_))));
    assert!(matches!(parse("let d = uniform(1, x);"), Err(Error::ParseError(_))));
    assert!(matches!(parse("let d = uniform(1, -2);"), Err(Error::ParseError(_))));
}

#[test]
fn unknown_builtin_fails_to_parse() {
    assert!(matches!(parse("let d = gaussian(1, 6);"), Err(Error::ParseError(_))));
}

#[test]
fn integer_literal_bounds() {
    let r = parse("x = 9223372036854775807;").unwrap();
    assert_eq!(
        r,
        vec![Statement::Assign { name: var("x"), value: Expr::Int(i64::MAX) }]
    );
    assert!(matches!(
        parse("x = 9223372036854775808;"),
        Err(Error::ParseError(_))
    ));
    assert!(matches!(
        parse("x = 99999999999999999999;"),
        Err(Error::ParseError(_))
    ));
}

#[test]
fn empty_program_fails() {
    assert!(matches!(parse(""), Err(Error::ParseError(_))));
    assert!(matches!(parse("   \n  "), Err(Error::ParseError(_))));
}

#[test]
fn double_semicolon_fails() {
    assert!(matches!(parse("x = 5;; y = 6;"), Err(Error::ParseError(_))));
}

#[test]
fn parse_error_positions_point_at_the_failure() {
    assert_eq!(parse("let = 5;"), Err(Error::ParseError(4)));
    assert_eq!(parse("let x = 5; @@@"), Err(Error::ParseError(11)));
    assert_eq!(parse("x = 5 y = 6;"), Err(Error::ParseError(6)));
}
