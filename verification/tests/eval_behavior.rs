use lisp::env::default_env;
use lisp::err::Error;
use lisp::eval::parse_eval;
use lisp::expr::Expression;

fn run(env: &mut lisp::env::Environment, line: &str) -> Result<Expression, Error> {
    parse_eval(line.to_string(), env)
}

fn expect_number(r: Result<Expression, Error>) -> f64 {
    match r {
        Ok(Expression::Number(bits)) => f64::from_bits(bits),
        other => panic!("expected a number, got {:?}", other.is_ok()),
    }
}

fn expect_bool(r: Result<Expression, Error>) -> bool {
    match r {
        Ok(Expression::Bool(b)) => b,
        _ => panic!("expected a boolean"),
    }
}

fn expect_error(r: Result<Expression, Error>) -> String {
    match r {
        Err(Error::Reason(m)) => m,
        _ => panic!("expected an error"),
    }
}

#[test]
fn def_returns_the_symbol_and_binds_it() {
    let mut env = default_env();
    let r = run(&mut env, "(def x 5)");
    assert!(matches!(r, Ok(Expression::Symbol(ref s)) if s == "x"));
    let v = expect_number(run(&mut env, "x"));
    assert_eq!(v, 5.0);
}

#[test]
fn sum_of_three() {
    let mut env = default_env();
    assert_eq!(expect_number(run(&mut env, "(+ 1 2 3)")), 6.0);
}

#[test]
fn empty_sum_is_zero() {
    let mut env = default_env();
    assert_eq!(expect_number(run(&mut env, "(+ )")), 0.0);
}

#[test]
fn subtraction_takes_the_rest_from_the_first() {
    let mut env = default_env();
    assert_eq!(expect_number(run(&mut env, "(- 10 1 2)")), 7.0);
}

#[test]
fn empty_subtraction_fails() {
    let mut env = default_env();
    let m = expect_error(run(&mut env, "(- )"));
    assert_eq!(m, "expected at least one number");
}

#[test]
fn chained_less_than_holds() {
    let mut env = default_env();
    assert!(expect_bool(run(&mut env, "(< 1 2 3)")));
}

#[test]
fn chained_less_than_fails_on_disorder() {
    let mut env = default_env();
    assert!(!expect_bool(run(&mut env, "(< 1 3 2)")));
}

#[test]
fn other_comparisons() {
    let mut env = default_env();
    assert!(expect_bool(run(&mut env, "(> 3 2 1)")));
    assert!(expect_bool(run(&mut env, "(>= 3 3 1)")));
    assert!(expect_bool(run(&mut env, "(<= 1 1 2)")));
    assert!(expect_bool(run(&mut env, "(= 2 2 2)")));
    assert!(!expect_bool(run(&mut env, "(= 2 2 3)")));
}

#[test]
fn if_takes_the_true_branch() {
    let mut env = default_env();
    assert_eq!(expect_number(run(&mut env, "(if true 1 2)")), 1.0);
}

#[test]
fn if_takes_the_false_branch() {
    let mut env = default_env();
    assert_eq!(expect_number(run(&mut env, "(if false 1 2)")), 2.0);
}

#[test]
fn if_rejects_a_non_boolean_test() {
    let mut env = default_env();
    let m = expect_error(run(&mut env, "(if 1 2 3)"));
    assert_eq!(m, "unexpected test form='1'");
}

#[test]
fn if_rejects_a_missing_branch() {
    let mut env = default_env();
    let m = expect_error(run(&mut env, "(if true)"));
    assert_eq!(m, "expected form idx=1");
    let m = expect_error(run(&mut env, "(if false 1)"));
    assert_eq!(m, "expected form idx=2");
}

#[test]
fn closure_application_binds_parameters() {
    let mut env = default_env();
    run(&mut env, "(def add (fn (a b) (+ a b)))").unwrap();
    assert_eq!(expect_number(run(&mut env, "(add 2 3)")), 5.0);
}

#[test]
fn arity_mismatch_names_both_counts() {
    let mut env = default_env();
    run(&mut env, "(def add (fn (a b) (+ a b)))").unwrap();
    let m = expect_error(run(&mut env, "(add 2)"));
    assert_eq!(m, "expected 2 arguments, got 1");
}

#[test]
fn unbound_symbol_names_the_symbol() {
    let mut env = default_env();
    let m = expect_error(run(&mut env, "nope"));
    assert_eq!(m, "unexpected symbol k='nope'");
}

#[test]
fn reduced_values_evaluate_to_themselves_again() {
    let mut env = default_env();
    let first = expect_number(run(&mut env, "5"));
    let second = expect_number(run(&mut env, "5"));
    assert_eq!(first, second);
    assert_eq!(second, 5.0);
    assert!(expect_bool(run(&mut env, "true")));
    assert!(expect_bool(run(&mut env, "true")));
    assert!(!expect_bool(run(&mut env, "false")));
}

#[test]
fn empty_application_is_an_error() {
    let mut env = default_env();
    let m = expect_error(run(&mut env, "()"));
    assert_eq!(m, "expected a non-empty list");
}

#[test]
fn a_number_is_not_callable() {
    let mut env = default_env();
    let m = expect_error(run(&mut env, "(1 2)"));
    assert_eq!(m, "first form must be a function");
}

#[test]
fn builtins_reject_non_numbers() {
    let mut env = default_env();
    let m = expect_error(run(&mut env, "(+ 1 true)"));
    assert_eq!(m, "expected a number");
}

#[test]
fn if_without_a_test_form_fails() {
    let mut env = default_env();
    assert_eq!(expect_error(run(&mut env, "(if)")), "expected test form");
}

#[test]
fn a_bare_callable_value_is_not_a_term() {
    let mut env = default_env();
    let f = Expression::Function(lisp::expr::Builtin::Plus);
    let m = expect_error(lisp::eval::eval(&f, &mut env, 0, 10));
    assert_eq!(m, "unexpected form");
}

#[test]
fn def_form_errors() {
    let mut env = default_env();
    assert_eq!(expect_error(run(&mut env, "(def)")), "expected first form");
    assert_eq!(expect_error(run(&mut env, "(def 1 2)")), "expected first form to be a symbol");
    assert_eq!(expect_error(run(&mut env, "(def x)")), "expected second form");
    assert_eq!(expect_error(run(&mut env, "(def x 1 2)")), "def can only have two forms ");
}

#[test]
fn fn_form_errors() {
    let mut env = default_env();
    assert_eq!(expect_error(run(&mut env, "(fn)")), "expected args form");
    assert_eq!(expect_error(run(&mut env, "(fn (a))")), "expected second form");
    assert_eq!(expect_error(run(&mut env, "(fn (a) 1 2)")), "fn definition can only have two forms ");
}

#[test]
fn lambda_parameter_form_is_checked_at_call_time() {
    let mut env = default_env();
    assert!(run(&mut env, "(def bad (fn 1 2))").is_ok());
    assert_eq!(expect_error(run(&mut env, "(bad)")), "expected args form to be a list");
    assert!(run(&mut env, "(def bad2 (fn (1) 2))").is_ok());
    assert_eq!(
        expect_error(run(&mut env, "(bad2 3)")),
        "expected symbols in the argument list"
    );
}

#[test]
fn call_frames_shadow_and_are_discarded() {
    let mut env = default_env();
    run(&mut env, "(def n 5)").unwrap();
    run(&mut env, "(def f (fn (n) (+ n 1)))").unwrap();
    assert_eq!(expect_number(run(&mut env, "(f 10)")), 11.0);
    assert_eq!(expect_number(run(&mut env, "n")), 5.0);
}

#[test]
fn free_variables_resolve_through_the_callers_chain() {
    let mut env = default_env();
    run(&mut env, "(def n 5)").unwrap();
    run(&mut env, "(def f (fn (x) (+ x n)))").unwrap();
    assert_eq!(expect_number(run(&mut env, "(f 1)")), 6.0);
}

#[test]
fn fractional_literals_evaluate_exactly() {
    let mut env = default_env();
    let r = run(&mut env, "(+ 1.5 0.25)");
    assert!(matches!(r, Ok(Expression::Number(bits)) if bits == (1.75f64).to_bits()));
}

#[test]
fn a_bad_line_leaves_earlier_bindings_usable() {
    let mut env = default_env();
    run(&mut env, "(def x 5)").unwrap();
    assert!(run(&mut env, "(+ x nope)").is_err());
    assert_eq!(expect_number(run(&mut env, "x")), 5.0);
}

#[test]
fn deep_recursion_reports_the_depth_limit() {
    let mut env = default_env();
    run(&mut env, "(def loop2 (fn (x) (loop2 x)))").unwrap();
    let m = expect_error(run(&mut env, "(loop2 1)"));
    assert_eq!(m, "evaluation depth limit reached");
}
