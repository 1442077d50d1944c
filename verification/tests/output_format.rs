//! Output-statement formatting: integral values print as bare integers,
//! other exact fractions as `num/den`, and the special values by name.

use distlang::interpreter::run;
use distlang::num::Num;
use distlang::parser::parse;
use distlang::text::num_text;

fn run_ok(program: &str) -> Vec<String> {
    let (outs, err) = run(&parse(program).unwrap());
    assert_eq!(err, None);
    outs
}

#[test]
fn integral_and_fractional_output_branches() {
    let outs = run_ok("let x; x = 5; output(x);");
    assert_eq!(outs, vec!["5".to_string()]);
    let outs2 = run_ok("let y = 5/2; output(y);");
    assert_eq!(outs2, vec!["5/2".to_string()]);
}

#[test]
fn division_normalizes_before_printing() {
    assert_eq!(run_ok("output(10/4);"), vec!["5/2".to_string()]);
    assert_eq!(run_ok("output(6/3);"), vec!["2".to_string()]);
}

#[test]
fn negative_values_print_with_sign() {
    assert_eq!(run_ok("output(0 - 5);"), vec!["-5".to_string()]);
    assert_eq!(run_ok("output(-5/2);"), vec!["-5/2".to_string()]);
}

#[test]
fn division_by_zero_does_not_trap() {
    assert_eq!(run_ok("output(5/0);"), vec!["inf".to_string()]);
    assert_eq!(run_ok("output((0-5)/0);"), vec!["-inf".to_string()]);
    assert_eq!(run_ok("output(0/0);"), vec!["NaN".to_string()]);
}

#[test]
fn special_values_propagate_through_arithmetic() {
    assert_eq!(run_ok("output(5/0 + 7);"), vec!["inf".to_string()]);
    assert_eq!(run_ok("output(5/0 - 5/0);"), vec!["NaN".to_string()]);
    assert_eq!(run_ok("output(7 / (5/0));"), vec!["0".to_string()]);
}

#[test]
fn sixty_four_bit_extremes_render_exactly() {
    assert_eq!(
        run_ok("output(9223372036854775807);"),
        vec!["9223372036854775807".to_string()]
    );
    assert_eq!(
        num_text(&Num::Rat { num: i64::MIN, den: 1 }),
        "-9223372036854775808".to_string()
    );
}

#[test]
fn several_output_lines_in_order() {
    let outs = run_ok("output(1); output(2/4); output(3);");
    assert_eq!(
        outs,
        vec!["1".to_string(), "1/2".to_string(), "3".to_string()]
    );
}
