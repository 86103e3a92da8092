use pemel::{
    EvalError, EvalOutcome, Expr, FnStruct, MathCall, ParseError, ParseOutcome, Token,
};
use std::f32::consts::{E, PI};

/// Compute one transcendental call with the platform's `f32` operations.
fn compute(c: MathCall) -> u32 {
    match c {
        MathCall::Pow(a, b) => f32::from_bits(a).powf(f32::from_bits(b)).to_bits(),
        MathCall::Log(base, arg) => f32::from_bits(arg).log(f32::from_bits(base)).to_bits(),
        MathCall::Sin(a) => f32::from_bits(a).sin().to_bits(),
        MathCall::Cos(a) => f32::from_bits(a).cos().to_bits(),
        MathCall::Tan(a) => f32::from_bits(a).tan().to_bits(),
    }
}

/// Drive parsing to completion, answering transcendental calls as they
/// come.
fn parse_full(input: &str, implicit_evaluation: bool) -> Result<Expr, ParseError> {
    let mut math: Vec<u32> = Vec::new();
    loop {
        match Expr::parse(input, implicit_evaluation, &math) {
            ParseOutcome::Done(e) => return Ok(e),
            ParseOutcome::Fail(e) => return Err(e),
            ParseOutcome::Pending(c) => math.push(compute(c)),
        }
    }
}

fn eval_const_f32(e: &Expr) -> Result<f32, EvalError> {
    let mut math: Vec<u32> = Vec::new();
    loop {
        match e.eval_const(&math) {
            EvalOutcome::Done(b) => return Ok(f32::from_bits(b)),
            EvalOutcome::Fail(err) => return Err(err),
            EvalOutcome::Pending(c) => math.push(compute(c)),
        }
    }
}

fn eval_with_var_f32(e: &Expr, var: &str, value: f32) -> Result<f32, EvalError> {
    let mut math: Vec<u32> = Vec::new();
    loop {
        match e.eval_with_var(var, value.to_bits(), &math) {
            EvalOutcome::Done(b) => return Ok(f32::from_bits(b)),
            EvalOutcome::Fail(err) => return Err(err),
            EvalOutcome::Pending(c) => math.push(compute(c)),
        }
    }
}

fn eval_with_f32(e: &Expr, values: &[(&str, f32)]) -> Result<f32, EvalError> {
    let bits: Vec<(&str, u32)> = values.iter().map(|&(n, v)| (n, v.to_bits())).collect();
    let mut math: Vec<u32> = Vec::new();
    loop {
        match e.eval_with(&bits, &math) {
            EvalOutcome::Done(b) => return Ok(f32::from_bits(b)),
            EvalOutcome::Fail(err) => return Err(err),
            EvalOutcome::Pending(c) => math.push(compute(c)),
        }
    }
}

fn approx_derivative_f32(e: &Expr, var: &str, value: f32, dx: f32) -> Result<f32, EvalError> {
    let mut math: Vec<u32> = Vec::new();
    loop {
        match e.approx_derivative(var, value.to_bits(), dx.to_bits(), &math) {
            EvalOutcome::Done(b) => return Ok(f32::from_bits(b)),
            EvalOutcome::Fail(err) => return Err(err),
            EvalOutcome::Pending(c) => math.push(compute(c)),
        }
    }
}

#[test]
fn bad_syntax() {
    let i1 = "5 + 12x";
    let i2 = "(1 + 5*x) - (45 + x - 2";

    let e1 = parse_full(i1, false);
    let e2 = parse_full(i2, false);

    let token_x = Token::Ident("x".to_string());

    assert_eq!(e1, Err(ParseError::UnexpectedToken(token_x)));
    assert_eq!(e2, Err(ParseError::UnexpectedToken(Token::EOF)));
}

#[test]
fn unrecognized_function() {
    let input = "sinc(3 * 8)";
    let expr = parse_full(input, false);

    assert!(matches!(expr, Err(ParseError::FunctionNotRecognized(_))));
}

#[test]
fn eval_error_in_parse() {
    let input = "2 + 3 / 0";
    let expr = parse_full(input, true);

    assert_eq!(expr, Err(ParseError::EvalError(EvalError::DivisionByZero)));
}

#[test]
fn wrong_number_of_args() {
    let input = "cos(2, 4)";
    let expr = parse_full(input, false);

    assert_eq!(expr, Err(ParseError::WrongNumberOfArgs(2)));
}

#[test]
fn const_expr_eval() {
    let input = "8 + 6 * 2.5  + (2 - 2) + 1.5001";
    let expr = parse_full(input, true).unwrap();
    let result = eval_const_f32(&expr);

    assert_eq!(expr, Expr::Num(24.5001f32.to_bits()));
    assert_eq!(result, Ok(24.5001));
}

#[test]
fn wrong_const_expr_eval() {
    let input = "2.5*8 + 4*(1 - x)";
    let expr = parse_full(input, true).unwrap();
    let result = eval_const_f32(&expr);

    assert_eq!(result, Err(EvalError::VariableNotDefined("x".to_string())));
}

#[test]
fn power() {
    let input = "2*x^3 - 3*x^2/2 + 1*x^(2/1) - 5";
    let expr = parse_full(input, false).unwrap();

    println!("{}", expr.to_text());

    let zero = eval_with_var_f32(&expr, "x", 0.0).unwrap();
    let two = eval_with_var_f32(&expr, "x", 2.0).unwrap();
    let minus_two = eval_with_var_f32(&expr, "x", -2.0).unwrap();

    assert_eq!(zero, -5.0);
    assert_eq!(two, 9.0);
    assert_eq!(minus_two, -23.0);
}

#[test]
fn goniometric() {
    let input = "sin(pi/2) + cos(pi) + tan(pi/4) + cot(pi/4)";
    let expr = parse_full(input, false).unwrap();
    let result = eval_with_var_f32(&expr, "pi", PI).unwrap();

    assert!((result - 2.0).abs() <= f32::EPSILON);
}

#[test]
fn log() {
    let input = "log(2, 8) + ln(e^2) - log(100)";
    let expr = parse_full(input, true).unwrap();
    let result = eval_with_var_f32(&expr, "e", E).unwrap();

    assert_eq!(result, 3.0);
}

#[test]
fn eval_with() {
    let input = "2*x + sin(pi) - ln(e)";
    let expr = parse_full(input, false).unwrap();

    let result = eval_with_f32(&expr, &[("pi", PI), ("e", E), ("x", 3.0)]).unwrap();

    assert_eq!(result, 5.0);
}

#[test]
fn approx_derivative() {
    let input = "x^2 + 2*x + 1";
    let expr = parse_full(input, false).unwrap();
    let result = approx_derivative_f32(&expr, "x", 2.0, 0.001).unwrap();

    assert!((result - 6.0).abs() <= 0.0001);
}

#[test]
fn abs() {
    let input = "abs(1) + abs(-1)";
    let expr = parse_full(input, true).unwrap();
    let result = eval_const_f32(&expr).unwrap();

    assert_eq!(result, 2.0);
}

#[test]
fn derivative_function() {
    let input = "D(x, x^2 + 2*x + 1)";
    let expr = parse_full(input, false).unwrap();
    let result = eval_with_var_f32(&expr, "x", 2.0).unwrap();

    assert!((result - 6.0).abs() <= 0.0001);
}

#[test]
fn display() {
    let input = "2 + 7 - x + 8 * (x - 1) - 2";
    let expr = parse_full(input, true).unwrap();

    println!("{}", expr.to_text());
}

#[test]
fn derivative_not_variable() {
    let expr = parse_full("D(3, x^2)", false);

    assert!(matches!(expr, Err(ParseError::DerivativeNotVariable(_))));
}

#[test]
fn unexpected_character() {
    assert_eq!(
        parse_full("2 + #", false),
        Err(ParseError::UnexpectedChar('#'))
    );
    assert_eq!(
        parse_full("12. + 1", false),
        Err(ParseError::UnexpectedChar('.'))
    );
}

#[test]
fn empty_input() {
    assert_eq!(
        parse_full("", false),
        Err(ParseError::UnexpectedToken(Token::EOF))
    );
}

#[test]
fn invalid_exponentiation() {
    let expr = parse_full("0 ^ -1", true);

    assert_eq!(
        expr,
        Err(ParseError::EvalError(EvalError::InvalidExponentiation))
    );
}

#[test]
fn invalid_logarithm() {
    let expr = parse_full("log(0, 5)", false).unwrap();
    let result = eval_const_f32(&expr);

    assert_eq!(result, Err(EvalError::InvalidLogarithm));
}

#[test]
fn cotangent_of_zero() {
    let expr = parse_full("cot(x)", false).unwrap();
    let result = eval_with_var_f32(&expr, "x", 0.0);

    assert_eq!(result, Err(EvalError::DivisionByZero));
}

#[test]
fn leading_signs_fold() {
    let expr = parse_full("--5 + -3", true).unwrap();

    assert_eq!(expr, Expr::Num(2.0f32.to_bits()));
}

#[test]
fn substitute_then_eval() {
    let mut expr = parse_full("2*x + 1", false).unwrap();
    expr.substitute("x", &Expr::Num(3.0f32.to_bits()));
    let result = eval_const_f32(&expr);

    assert_eq!(result, Ok(7.0));
    assert_eq!(
        result,
        eval_with_var_f32(&parse_full("2*x + 1", false).unwrap(), "x", 3.0)
    );
}

#[test]
fn delayed_substitution() {
    let mut expr = parse_full("D(x, x^2)", false).unwrap();
    expr.substitute("x", &Expr::Num(2.0f32.to_bits()));
    let result = eval_const_f32(&expr).unwrap();

    assert!((result - 4.0).abs() <= 0.001);
}

#[test]
fn substitute_nums_all_variables() {
    let mut expr = parse_full("x + 2*y", false).unwrap();
    expr.substitute_nums(&[("x", 1.0f32.to_bits()), ("y", 2.0f32.to_bits())]);
    let result = eval_const_f32(&expr);

    assert_eq!(result, Ok(5.0));
    assert_eq!(
        result,
        eval_with_f32(
            &parse_full("x + 2*y", false).unwrap(),
            &[("x", 1.0), ("y", 2.0)]
        )
    );
}

#[test]
fn derivative_matches_direct() {
    let wrapped = parse_full("D(x, x^2 + 2*x + 1)", false).unwrap();
    let inner = parse_full("x^2 + 2*x + 1", false).unwrap();

    assert_eq!(
        eval_with_var_f32(&wrapped, "x", 2.0),
        approx_derivative_f32(&inner, "x", 2.0, 0.001)
    );
}

#[test]
fn fold_matches_direct_evaluation() {
    let folded = parse_full("2^3 + sin(0) + 1", true).unwrap();
    let raw = parse_full("2^3 + sin(0) + 1", false).unwrap();
    let direct = eval_const_f32(&raw).unwrap();

    assert_eq!(folded, Expr::Num(direct.to_bits()));
    assert_eq!(direct, 9.0);
}

#[test]
fn eval_with_first_binding_wins() {
    let expr = Expr::Var("x".to_string());
    let result = eval_with_f32(&expr, &[("x", 1.0), ("x", 2.0)]);

    assert_eq!(result, Ok(1.0));
}

#[test]
fn tokenize_stream() {
    let tokens = pemel::tokenize("1.5 + foo_2(x, y)^2").unwrap();

    assert_eq!(
        tokens,
        vec![
            Token::Number(1.5f32.to_bits()),
            Token::Plus,
            Token::Ident("foo_2".to_string()),
            Token::LParen,
            Token::Ident("x".to_string()),
            Token::Comma,
            Token::Ident("y".to_string()),
            Token::RParen,
            Token::Caret,
            Token::Number(2.0f32.to_bits()),
        ]
    );
}

#[test]
fn render_structure() {
    let expr = Expr::new_mul(
        Expr::Var("x".to_string()),
        Expr::new_sin(Expr::Var("y".to_string())),
    );

    assert_eq!(expr.to_text(), "(x * sin(y))");
}

#[test]
fn render_numeric_roundtrip() {
    let expr = parse_full("1.5", false).unwrap();
    let text = expr.to_text();

    assert_eq!(text.parse::<f32>().unwrap(), 1.5);
}

#[test]
fn fn_struct_apply() {
    let f = FnStruct::default();
    let result = f.apply(&[("x", 5.0f32.to_bits())], &[]);

    assert_eq!(result, EvalOutcome::Done(5.0f32.to_bits()));
}

#[test]
fn constructors_build_the_tree() {
    let expr = Expr::new_add(
        Expr::new_pow(Expr::Var("x".to_string()), Expr::Num(2.0f32.to_bits())),
        Expr::Num(1.0f32.to_bits()),
    );
    let result = eval_with_var_f32(&expr, "x", 3.0);

    assert_eq!(result, Ok(10.0));
}

#[test]
fn new_derivative_matches_parsed() {
    let built = Expr::new_derivative(
        "x",
        Expr::new_pow(Expr::Var("x".to_string()), Expr::Num(2.0f32.to_bits())),
    );
    let parsed = parse_full("D(x, x^2)", false).unwrap();

    assert_eq!(built, parsed);
}
