//! Evaluator and distribution-algebra tests: point mass queries,
//! convolution, the discrete first-match policy, and every error kind the
//! runtime can report.

use distlang::ast::{Dist, Error, Expr, Statement};
use distlang::interpreter::{run, RuntimeEnv};
use distlang::num::Num;
use distlang::parser::parse;

fn var(name: &str) -> Expr {
    Expr::Var(name.to_string())
}

fn run_ok(program: &str) -> Vec<String> {
    let (outs, err) = run(&parse(program).unwrap());
    assert_eq!(err, None);
    outs
}

fn run_err(program: &str) -> (Vec<String>, Error) {
    let (outs, err) = run(&parse(program).unwrap());
    (outs, err.unwrap())
}

fn rat(num: i64, den: i64) -> Num {
    Num::Rat { num, den }
}

#[test]
fn uniform_expect_outside_and_inside() {
    let outs = run_ok("let d = uniform(1,6); output(d:expect(7)); output(d:expect(3));");
    assert_eq!(outs, vec!["0".to_string(), "1/6".to_string()]);
}

#[test]
fn two_dice_convolution() {
    let program = "let x = uniform(1,6);\nlet y = uniform(1,6);\nlet z = x + y;\noutput(z:expect(7));\noutput(z:expect(2));\noutput(z:expect(13));";
    let outs = run_ok(program);
    assert_eq!(
        outs,
        vec!["1/6".to_string(), "1/36".to_string(), "0".to_string()]
    );
}

#[test]
fn discrete_lookup_declared_and_undeclared() {
    let mut env = RuntimeEnv::new();
    let pairs = vec![
        (Expr::Int(1), Expr::Div(Box::new(Expr::Int(1)), Box::new(Expr::Int(4)))),
        (Expr::Int(2), Expr::Div(Box::new(Expr::Int(3)), Box::new(Expr::Int(4)))),
    ];
    env.exec_stmt(&Statement::Assign {
        name: var("d"),
        value: Expr::Dist(Dist::Discrete(pairs)),
    })
    .unwrap();
    let d = "d".to_string();
    let expect = "expect".to_string();
    assert_eq!(env.eval_dist_method(&d, &expect, &vec![Expr::Int(1)]), Ok(rat(1, 4)));
    assert_eq!(env.eval_dist_method(&d, &expect, &vec![Expr::Int(2)]), Ok(rat(3, 4)));
    assert_eq!(env.eval_dist_method(&d, &expect, &vec![Expr::Int(5)]), Ok(rat(0, 1)));
}

#[test]
fn discrete_duplicate_value_takes_first_pair() {
    let mut env = RuntimeEnv::new();
    let pairs = vec![
        (Expr::Int(1), Expr::Div(Box::new(Expr::Int(1)), Box::new(Expr::Int(4)))),
        (Expr::Int(1), Expr::Div(Box::new(Expr::Int(1)), Box::new(Expr::Int(2)))),
    ];
    env.exec_stmt(&Statement::Assign {
        name: var("d"),
        value: Expr::Dist(Dist::Discrete(pairs)),
    })
    .unwrap();
    assert_eq!(
        env.eval_dist_method(&"d".to_string(), &"expect".to_string(), &vec![Expr::Int(1)]),
        Ok(rat(1, 4))
    );
}

#[test]
fn uniform_outcome_enumeration() {
    let env = RuntimeEnv::new();
    let d = Dist::Uniform(Box::new(Expr::Int(1)), Box::new(Expr::Int(3)));
    let outs = env.get_dist_outcomes(&d).unwrap();
    assert_eq!(outs, vec![(1, rat(1, 3)), (2, rat(1, 3)), (3, rat(1, 3))]);
}

#[test]
fn combined_outcome_enumeration_is_cross_product() {
    let env = RuntimeEnv::new();
    let u = || Dist::Uniform(Box::new(Expr::Int(1)), Box::new(Expr::Int(2)));
    let d = Dist::CombinedDist(Box::new(u()), Box::new(u()));
    let outs = env.get_dist_outcomes(&d).unwrap();
    assert_eq!(
        outs,
        vec![(2, rat(1, 4)), (3, rat(1, 4)), (3, rat(1, 4)), (4, rat(1, 4))]
    );
}

#[test]
fn chain_dist_is_unimplemented() {
    let env = RuntimeEnv::new();
    let u = || Box::new(Dist::Uniform(Box::new(Expr::Int(1)), Box::new(Expr::Int(2))));
    let d = Dist::ChainDist(u(), 3, u());
    assert_eq!(env.get_dist_outcomes(&d), Err(Error::UnimplementedFeature));
}

#[test]
fn degenerate_uniform_range_is_rejected() {
    assert_eq!(
        run_err("let d = uniform(6,1); output(d:expect(3));"),
        (vec![], Error::TypeMismatch)
    );
}

#[test]
fn oversized_outcome_set_is_resource_exhausted() {
    let program = "let a = uniform(1,300); let b = uniform(1,300); let c = a + b; output(c:expect(5));";
    assert_eq!(run_err(program), (vec![], Error::ResourceExhausted));
}

#[test]
fn unknown_method_error() {
    assert_eq!(
        run_err("let d = uniform(1,6); output(d:median(3));"),
        (vec![], Error::UnknownMethod("median".to_string()))
    );
}

#[test]
fn arity_error() {
    assert_eq!(
        run_err("let d = uniform(1,6); output(d:expect());"),
        (vec![], Error::ArityError)
    );
    assert_eq!(
        run_err("let d = uniform(1,6); output(d:expect(1, 2));"),
        (vec![], Error::ArityError)
    );
}

#[test]
fn undefined_distribution_error() {
    assert_eq!(
        run_err("output(q:expect(1));"),
        (vec![], Error::UndefinedDistribution("q".to_string()))
    );
}

#[test]
fn undefined_variable_error() {
    assert_eq!(run_err("output(zz);"), (vec![], Error::UndefinedVariable("zz".to_string())));
}

#[test]
fn distribution_read_as_number_is_type_mismatch() {
    assert_eq!(run_err("output(uniform(1,6));"), (vec![], Error::TypeMismatch));
}

#[test]
fn non_integral_query_outcome_is_type_mismatch() {
    assert_eq!(
        run_err("let d = uniform(1,6); output(d:expect(1/2));"),
        (vec![], Error::TypeMismatch)
    );
}

#[test]
fn eval_expr_arithmetic() {
    let env = RuntimeEnv::new();
    let e = Expr::Add(
        Box::new(Expr::Int(2)),
        Box::new(Expr::Mul(Box::new(Expr::Int(3)), Box::new(Expr::Int(4)))),
    );
    assert_eq!(env.eval_expr(&e), Ok(rat(14, 1)));
}

#[test]
fn numeric_assignment_displaces_distribution_binding() {
    let outs = run_ok("let d = uniform(1,6); d = 5; output(d);");
    assert_eq!(outs, vec!["5".to_string()]);
}

#[test]
fn declaration_initializes_to_zero() {
    let outs = run_ok("let x; output(x);");
    assert_eq!(outs, vec!["0".to_string()]);
}

#[test]
fn convolution_precheck_beats_numeric_addition() {
    let program = "let a = uniform(1,2); let b = uniform(1,2); let c = a + b; output(c:expect(3));";
    assert_eq!(run_ok(program), vec!["1/2".to_string()]);
}

#[test]
fn numeric_addition_still_works_for_plain_variables() {
    let outs = run_ok("let a = 3; let b = 4; let c = a + b; output(c);");
    assert_eq!(outs, vec!["7".to_string()]);
}

#[test]
fn exact_rational_arithmetic_normalizes() {
    let a = Num::from_int(1);
    let b = Num::from_int(3);
    let third = a.div(&b).unwrap();
    assert_eq!(third, rat(1, 3));
    let sixth = Num::from_int(1).div(&Num::from_int(6)).unwrap();
    let half = third.add(&sixth).unwrap();
    assert_eq!(half, rat(1, 2));
    let back = half.mul(&Num::from_int(2)).unwrap();
    assert_eq!(back, rat(1, 1));
}

#[test]
fn numeric_overflow_is_resource_exhausted() {
    assert_eq!(
        run_err("output(9223372036854775807 + 1);"),
        (vec![], Error::ResourceExhausted)
    );
}

#[test]
fn uniform_weights_sum_to_exactly_one() {
    let env = RuntimeEnv::new();
    let d = Dist::Uniform(Box::new(Expr::Int(1)), Box::new(Expr::Int(6)));
    let outs = env.get_dist_outcomes(&d).unwrap();
    let mut sum = Num::from_int(0);
    for (_, p) in outs {
        sum = sum.add(&p).unwrap();
    }
    assert_eq!(sum, rat(1, 1));
}

#[test]
fn outcome_cap_boundary() {
    let env = RuntimeEnv::new();
    let at_cap = Dist::Uniform(Box::new(Expr::Int(1)), Box::new(Expr::Int(65536)));
    assert_eq!(env.get_dist_outcomes(&at_cap).unwrap().len(), 65536);
    let past_cap = Dist::Uniform(Box::new(Expr::Int(0)), Box::new(Expr::Int(65536)));
    assert_eq!(env.get_dist_outcomes(&past_cap), Err(Error::ResourceExhausted));
}

#[test]
fn sixty_four_bit_negation_boundary() {
    let outs = run_ok("output(0 - 9223372036854775807 - 1);");
    assert_eq!(outs, vec!["-9223372036854775808".to_string()]);
    assert_eq!(
        run_err("output(-(0 - 9223372036854775807 - 1));"),
        (vec![], Error::ResourceExhausted)
    );
}

#[test]
fn output_before_a_failure_is_kept() {
    let (outs, err) = run_err("output(1); output(2); output(zz); output(3);");
    assert_eq!(outs, vec!["1".to_string(), "2".to_string()]);
    assert_eq!(err, Error::UndefinedVariable("zz".to_string()));
}
