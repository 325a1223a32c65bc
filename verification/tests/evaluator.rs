use calc::ast::{BinaryOp, Expr, FunctionKind};
use calc::env::Environment;
use calc::err::CalcError;
use calc::eval::{Machine, Outcome};
use calc::lexer::Lexer;
use calc::parser::parse_source;
use calc::token::{Associativity, Token};

fn apply_binary(op: BinaryOp, a: f64, b: f64) -> f64 {
    match op {
        BinaryOp::Add => a + b,
        BinaryOp::Subtract => a - b,
        BinaryOp::Multiply => a * b,
        BinaryOp::Divide => a / b,
        BinaryOp::Power => a.powf(b),
    }
}

fn apply_function(f: FunctionKind, a: f64) -> f64 {
    match f {
        FunctionKind::Sine => a.sin(),
        FunctionKind::Cosine => a.cos(),
        FunctionKind::SquareRoot => a.sqrt(),
    }
}

/// Drives the verified machine with real double-precision arithmetic.
fn evaluate(source: &str, env: &mut Environment) -> Result<f64, CalcError> {
    let expr = parse_source(source)?;
    let mut machine = Machine::new(expr);
    loop {
        match machine.step(env) {
            Outcome::Progress => {}
            Outcome::Done(bits) => return Ok(f64::from_bits(bits)),
            Outcome::Failed(e) => return Err(e),
            Outcome::NeedNumber(text) => {
                let v: f64 = text.parse().unwrap();
                machine.supply(v.to_bits());
            }
            Outcome::NeedBinary(op, a, b) => {
                let r = apply_binary(op, f64::from_bits(a), f64::from_bits(b));
                machine.supply(r.to_bits());
            }
            Outcome::NeedFunction(f, a) => {
                let r = apply_function(f, f64::from_bits(a));
                machine.supply(r.to_bits());
            }
            Outcome::Emitted(v) => println!("=> {}", f64::from_bits(v)),
        }
    }
}

fn eval_fresh(source: &str) -> Result<f64, CalcError> {
    let mut env = Environment::new();
    evaluate(source, &mut env)
}

#[test]
fn literal_round_trips_like_the_standard_parser() {
    let mut lexer = Lexer::new("3.14");
    match lexer.next_token() {
        Ok(Token::Number(text)) => {
            assert_eq!(text, "3.14");
            assert_eq!(text.parse::<f64>().unwrap(), 3.14);
        }
        other => panic!("expected a number token, got {:?}", other),
    }
    assert_eq!(eval_fresh("3.14").unwrap(), 3.14);
    assert_eq!(eval_fresh("42").unwrap(), 42.0);
    assert_eq!(eval_fresh("1.").unwrap(), 1.0);
}

#[test]
fn caret_is_right_associative() {
    assert_eq!(eval_fresh("2^3^2").unwrap(), 512.0);
}

#[test]
fn division_is_left_associative() {
    assert_eq!(eval_fresh("8/4/2").unwrap(), 1.0);
}

#[test]
fn multiplication_binds_tighter_than_addition() {
    assert_eq!(eval_fresh("2+3*4").unwrap(), 14.0);
}

#[test]
fn parentheses_override_precedence() {
    assert_eq!(eval_fresh("(2+3)*4").unwrap(), 20.0);
}

#[test]
fn power_parse_tree_nests_to_the_right() {
    let expr = parse_source("2^3^2").unwrap();
    let expected = Expr::Binary(
        BinaryOp::Power,
        Box::new(Expr::Number("2".to_string())),
        Box::new(Expr::Binary(
            BinaryOp::Power,
            Box::new(Expr::Number("3".to_string())),
            Box::new(Expr::Number("2".to_string())),
        )),
    );
    assert_eq!(expr, expected);
}

#[test]
fn assignment_persists_in_the_same_environment() {
    let mut env = Environment::new();
    assert_eq!(evaluate("x = 5", &mut env).unwrap(), 5.0);
    assert_eq!(evaluate("x + 1", &mut env).unwrap(), 6.0);
}

#[test]
fn unbound_variable_fails() {
    let mut env = Environment::new();
    assert_eq!(
        evaluate("y + 1", &mut env),
        Err(CalcError::UnboundVariable("y".to_string()))
    );
}

#[test]
fn unknown_function_fails() {
    let mut env = Environment::new();
    assert_eq!(
        evaluate("foo(1)", &mut env),
        Err(CalcError::UnknownFunction("foo".to_string()))
    );
}

#[test]
fn constants_survive_unrelated_evaluations() {
    let mut env = Environment::new();
    let pi_before = f64::from_bits(env.get(&"pi".to_string()).unwrap());
    assert!((pi_before - 3.14159265358979).abs() < 1e-10);
    evaluate("x = 2 + 2", &mut env).unwrap();
    evaluate("x * 3", &mut env).unwrap();
    let pi_after = f64::from_bits(env.get(&"pi".to_string()).unwrap());
    assert_eq!(pi_before, pi_after);
    let e_val = f64::from_bits(env.get(&"e".to_string()).unwrap());
    assert!((e_val - 2.71828182845904).abs() < 1e-10);
}

#[test]
fn seeded_constants_evaluate() {
    assert_eq!(eval_fresh("pi").unwrap(), std::f64::consts::PI);
    assert_eq!(eval_fresh("e").unwrap(), std::f64::consts::E);
}

#[test]
fn malformed_input_fails_at_the_lex_stage() {
    let mut env = Environment::new();
    assert_eq!(
        evaluate("2 + @", &mut env),
        Err(CalcError::UnexpectedCharacter('@'))
    );
}

#[test]
fn trailing_input_fails() {
    let mut env = Environment::new();
    assert_eq!(
        evaluate("2 + 3 4", &mut env),
        Err(CalcError::TrailingInput(Token::Number("4".to_string())))
    );
}

#[test]
fn two_dots_make_a_malformed_number() {
    assert_eq!(
        eval_fresh("1.2.3"),
        Err(CalcError::MalformedNumber("1.2.3".to_string()))
    );
}

#[test]
fn missing_closing_parenthesis_fails() {
    assert_eq!(
        eval_fresh("(2+3"),
        Err(CalcError::ExpectedToken(
            Token::RightParenthesis,
            Token::EndOfFile
        ))
    );
}

#[test]
fn stray_token_fails_as_unexpected() {
    assert_eq!(
        eval_fresh(")"),
        Err(CalcError::UnexpectedToken(Token::RightParenthesis))
    );
}

#[test]
fn empty_input_fails_as_unexpected_end() {
    assert_eq!(
        eval_fresh(""),
        Err(CalcError::UnexpectedToken(Token::EndOfFile))
    );
}

#[test]
fn nested_assignment_binds_both_names() {
    let mut env = Environment::new();
    assert_eq!(evaluate("x = y = 5", &mut env).unwrap(), 5.0);
    assert_eq!(evaluate("x", &mut env).unwrap(), 5.0);
    assert_eq!(evaluate("y", &mut env).unwrap(), 5.0);
}

#[test]
fn builtin_functions_evaluate() {
    assert_eq!(eval_fresh("sqrt(9)").unwrap(), 3.0);
    assert_eq!(eval_fresh("sin(0)").unwrap(), 0.0);
    assert_eq!(eval_fresh("cos(0)").unwrap(), 1.0);
    assert!((eval_fresh("sin(pi)").unwrap()).abs() < 1e-10);
}

#[test]
fn float_edge_cases_follow_ieee_semantics() {
    assert!(eval_fresh("1/0").unwrap().is_infinite());
    assert!(eval_fresh("0/0").unwrap().is_nan());
}

#[test]
fn negative_square_root_yields_nan_not_an_error() {
    let mut env = Environment::new();
    evaluate("m = 0 - 1", &mut env).unwrap();
    assert!(evaluate("sqrt(m)", &mut env).unwrap().is_nan());
}

#[test]
fn unary_minus_is_not_part_of_the_grammar() {
    assert!(matches!(
        eval_fresh("-5"),
        Err(CalcError::UnexpectedToken(Token::Minus))
    ));
}

#[test]
fn print_yields_its_argument() {
    assert_eq!(eval_fresh("print(2+1)").unwrap(), 3.0);
}

#[test]
fn failed_assignment_commits_nothing() {
    let mut env = Environment::new();
    assert!(evaluate("q = w + 1", &mut env).is_err());
    assert_eq!(env.get(&"q".to_string()), None);
}

#[test]
fn assignment_overwrites_existing_binding() {
    let mut env = Environment::new();
    evaluate("pi = 3", &mut env).unwrap();
    assert_eq!(evaluate("pi", &mut env).unwrap(), 3.0);
}

#[test]
fn whitespace_is_skipped() {
    assert_eq!(eval_fresh("  2   +\t3 ").unwrap(), 5.0);
}

#[test]
fn operator_metadata_matches_the_table() {
    assert_eq!(
        Token::Plus.precedence_and_associativity(),
        Some((1, Associativity::Left))
    );
    assert_eq!(
        Token::Divide.precedence_and_associativity(),
        Some((2, Associativity::Left))
    );
    assert_eq!(
        Token::Caret.precedence_and_associativity(),
        Some((3, Associativity::Right))
    );
    assert_eq!(Token::Number("1".to_string()).precedence_and_associativity(), None);
    assert!(Token::EndOfFile.is_eof());
    assert!(!Token::Plus.is_eof());
}

#[test]
fn function_names_are_case_sensitive() {
    assert_eq!(
        eval_fresh("Sin(0)"),
        Err(CalcError::UnknownFunction("Sin".to_string()))
    );
}

#[test]
fn identifiers_cannot_contain_digits() {
    assert_eq!(
        eval_fresh("x1"),
        Err(CalcError::TrailingInput(Token::Number("1".to_string())))
    );
}

#[test]
fn hash_sign_is_an_unexpected_character() {
    assert_eq!(eval_fresh("#"), Err(CalcError::UnexpectedCharacter('#')));
}
