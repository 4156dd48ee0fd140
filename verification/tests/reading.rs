use lisp::env::default_env;
use lisp::err::Error;
use lisp::eval::parse_eval;
use lisp::expr::Expression;
use lisp::parser::parse;
use lisp::text::to_text;
use lisp::token::tokenize;

#[test]
fn tokenize_pads_parens_and_splits_on_whitespace() {
    let tokens = tokenize("(+ 10 5)".to_string());
    assert_eq!(tokens, vec!["(", "+", "10", "5", ")"]);
}

#[test]
fn tokenize_handles_nesting_and_runs_of_spaces() {
    let tokens = tokenize("  (if  (< a b)\t x\n y) ".to_string());
    assert_eq!(tokens, vec!["(", "if", "(", "<", "a", "b", ")", "x", "y", ")"]);
}

#[test]
fn tokenize_of_empty_input_is_empty() {
    let tokens = tokenize(String::new());
    assert!(tokens.is_empty());
}

#[test]
fn rejoining_tokens_with_spaces_tokenizes_back() {
    let tokens = tokenize("(def x 5)".to_string());
    let rejoined = tokens.join(" ");
    assert_eq!(tokenize(rejoined), tokens);
}

#[test]
fn parse_returns_the_unconsumed_tokens() {
    let tokens = tokenize("x y z".to_string());
    let (exp, rest) = parse(&tokens).unwrap();
    assert!(matches!(exp, Expression::Symbol(ref s) if s == "x"));
    assert_eq!(rest, &["y".to_string(), "z".to_string()][..]);
}

#[test]
fn parse_builds_nested_lists() {
    let tokens = tokenize("(a (b c) d)".to_string());
    let (exp, rest) = parse(&tokens).unwrap();
    assert!(rest.is_empty());
    match exp {
        Expression::List(items) => {
            assert_eq!(items.len(), 3);
            assert!(matches!(items[0], Expression::Symbol(ref s) if s == "a"));
            assert!(matches!(items[1], Expression::List(ref inner) if inner.len() == 2));
            assert!(matches!(items[2], Expression::Symbol(ref s) if s == "d"));
        },
        _ => panic!("expected a list"),
    }
}

#[test]
fn parse_classifies_atoms() {
    let tokens = tokenize("(true false 2.5 foo)".to_string());
    let (exp, _) = parse(&tokens).unwrap();
    match exp {
        Expression::List(items) => {
            assert!(matches!(items[0], Expression::Bool(true)));
            assert!(matches!(items[1], Expression::Bool(false)));
            assert!(matches!(items[2], Expression::Number(bits) if bits == (2.5f64).to_bits()));
            assert!(matches!(items[3], Expression::Symbol(ref s) if s == "foo"));
        },
        _ => panic!("expected a list"),
    }
}

#[test]
fn stray_close_paren_is_an_error() {
    let tokens = tokenize(")".to_string());
    match parse(&tokens) {
        Err(Error::Reason(m)) => assert_eq!(m, "unexpected `)`"),
        _ => panic!("expected an error"),
    }
}

#[test]
fn unterminated_list_is_an_error() {
    let tokens = tokenize("(+ 1 2".to_string());
    match parse(&tokens) {
        Err(Error::Reason(m)) => assert_eq!(m, "could not find closing `)`"),
        _ => panic!("expected an error"),
    }
}

#[test]
fn empty_input_is_an_error() {
    let tokens = tokenize(String::new());
    match parse(&tokens) {
        Err(Error::Reason(m)) => assert_eq!(m, "could not get token"),
        _ => panic!("expected an error"),
    }
}

#[test]
fn rendering_booleans_symbols_and_lists() {
    let tokens = tokenize("(true false foo)".to_string());
    let (exp, _) = parse(&tokens).unwrap();
    assert_eq!(to_text(&exp), "(true,false,foo)");
}

#[test]
fn rendering_closures_uses_a_placeholder() {
    let mut env = default_env();
    let lam = parse_eval("(fn (a) a)".to_string(), &mut env).unwrap();
    assert_eq!(to_text(&lam), "Lambda {}");
    let builtin = parse_eval("+".to_string(), &mut env).unwrap();
    assert_eq!(to_text(&builtin), "Function {}");
}

#[test]
fn rendered_numbers_read_back_as_the_same_number() {
    let mut env = default_env();
    for line in ["0", "5", "1.5", "-2.25", "6", "0.1"] {
        let v = parse_eval(line.to_string(), &mut env).unwrap();
        let bits = match v {
            Expression::Number(bits) => bits,
            _ => panic!("expected a number"),
        };
        let rendered = to_text(&Expression::Number(bits));
        let again = parse_eval(rendered, &mut env).unwrap();
        assert!(matches!(again, Expression::Number(b2) if b2 == bits));
    }
}

#[test]
fn trailing_tokens_are_ignored_by_parse_eval() {
    let mut env = default_env();
    let r = parse_eval("(+ 1 2) (+ 3 4)".to_string(), &mut env).unwrap();
    assert!(matches!(r, Expression::Number(bits) if bits == (3.0f64).to_bits()));
}
