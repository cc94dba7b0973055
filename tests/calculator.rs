use calculator::calculator::{CalcError, ExpressionParser, SimpleTokenizer, StandardEvaluator};
use calculator::config::{
    AngleMode, CalculatorConfig, CalculatorPool, ExternalLibraryAdapter, NumberBase, ProgrammerMode,
    ScientificPrecision, StandardPrecision, get_global_config,
};
use calculator::environment::Environment;
use calculator::evaluation::EvalError;
use calculator::expression::Expression;
use calculator::lexer::{LexError, split_units, tokenize};
use calculator::parser::{ParseError, RecursiveDescentEvaluator, ShuntingYardEvaluator};
use calculator::rewrite::{Issue, OptimizationVisitor, ValidationVisitor, optimize_expression, validate_expression};
use calculator::token::{Function, NumberFormat, Operator, Real, Token};

fn to_real(x: f64) -> Real {
    Real::from_bits(x.to_bits())
}

fn to_f64(r: Real) -> f64 {
    f64::from_bits(r.bits)
}

fn read(s: String) -> Option<Real> {
    s.parse::<f64>().ok().map(to_real)
}

fn arith(op: Operator, a: Real, b: Real) -> Real {
    let (x, y) = (to_f64(a), to_f64(b));
    to_real(match op {
        Operator::Add => x + y,
        Operator::Subtract => x - y,
        Operator::Multiply => x * y,
        Operator::Divide => x / y,
        Operator::Power => x.powf(y),
    })
}

fn func(f: Function, a: Real) -> Option<Real> {
    let x = to_f64(a);
    match f {
        Function::Sin => Some(to_real(x.sin())),
        Function::Cos => Some(to_real(x.cos())),
        Function::Tan => {
            if (x - std::f64::consts::PI / 2.0).abs() % std::f64::consts::PI < 1e-10 {
                None
            } else {
                Some(to_real(x.tan()))
            }
        }
        Function::Sqrt => Some(to_real(x.sqrt())),
    }
}

fn show(v: Real) -> String {
    format!("{}", to_f64(v))
}

fn tokens(text: &str) -> Vec<Token> {
    tokenize(text, &read).expect("lexes")
}

fn rd_tree(text: &str) -> Expression {
    RecursiveDescentEvaluator::new().parse(&tokens(text)).expect("parses")
}

fn sy_tree(text: &str) -> Expression {
    ShuntingYardEvaluator::new().parse(&tokens(text)).expect("parses")
}

fn eval(e: &Expression, env: &Environment) -> Result<f64, EvalError> {
    e.evaluate(env, &arith, &func).map(to_f64)
}

fn empty() -> Environment {
    Environment::new()
}

fn env_with(name: &str, value: f64) -> Environment {
    let mut env = Environment::new();
    env.set(name.to_string(), to_real(value));
    env
}

fn optimized(text: &str, env: &Environment) -> Expression {
    optimize_expression(&sy_tree(text), env, &arith, &func).expect("optimizes")
}

fn constant(e: &Expression) -> Option<f64> {
    e.constant().map(to_f64)
}

#[test]
fn both_parsers_agree_on_precedence() {
    let env = empty();
    assert_eq!(eval(&rd_tree("2 + 3 * 4"), &env).unwrap(), 14.0);
    assert_eq!(eval(&sy_tree("2 + 3 * 4"), &env).unwrap(), 14.0);
}

#[test]
fn both_parsers_agree_on_parentheses() {
    let env = empty();
    assert_eq!(eval(&rd_tree("( 2 + 3 ) * 4"), &env).unwrap(), 20.0);
    assert_eq!(eval(&sy_tree("( 2 + 3 ) * 4"), &env).unwrap(), 20.0);
}

#[test]
fn both_parsers_associate_to_the_left() {
    let env = empty();
    assert_eq!(eval(&rd_tree("2 - 3 - 4"), &env).unwrap(), -5.0);
    assert_eq!(eval(&sy_tree("2 - 3 - 4"), &env).unwrap(), -5.0);
    assert_eq!(eval(&rd_tree("8 / 4 / 2"), &env).unwrap(), 1.0);
    assert_eq!(eval(&sy_tree("8 / 4 / 2"), &env).unwrap(), 1.0);
}

#[test]
fn both_parsers_agree_with_variables_and_functions() {
    let env = env_with("x", 9.0);
    let text = "sqrt ( x ) * ( x - 1 ) + sin ( 0 )";
    assert_eq!(eval(&rd_tree(text), &env).unwrap(), 24.0);
    assert_eq!(eval(&sy_tree(text), &env).unwrap(), 24.0);
}

#[test]
fn power_binds_tighter_than_product_in_both_parsers() {
    let env = empty();
    assert_eq!(eval(&rd_tree("2 * 3 ^ 2"), &env).unwrap(), 18.0);
    assert_eq!(eval(&sy_tree("2 * 3 ^ 2"), &env).unwrap(), 18.0);
    assert_eq!(eval(&rd_tree("2 ^ 3 * 4 ^ 2"), &env).unwrap(), 128.0);
    assert_eq!(eval(&sy_tree("2 ^ 3 * 4 ^ 2"), &env).unwrap(), 128.0);
    assert_eq!(format!("{:?}", rd_tree("2 * ( 1 + 2 ) ^ 2 / x")), format!("{:?}", sy_tree("2 * ( 1 + 2 ) ^ 2 / x")));
    assert_eq!(rd_tree("2 * 3 ^ 2").render(&show), "2 * 3 ^ 2");
}

#[test]
fn both_parsers_agree_when_powers_come_first() {
    let env = empty();
    assert_eq!(eval(&rd_tree("2 ^ 3 * 4"), &env).unwrap(), 32.0);
    assert_eq!(eval(&sy_tree("2 ^ 3 * 4"), &env).unwrap(), 32.0);
    assert_eq!(eval(&rd_tree("2 ^ 3 ^ 2"), &env).unwrap(), 64.0);
    assert_eq!(eval(&sy_tree("2 ^ 3 ^ 2"), &env).unwrap(), 64.0);
    assert_eq!(rd_tree("1 + 2 ^ 2 / 4").render(&show), sy_tree("1 + 2 ^ 2 / 4").render(&show));
}

#[test]
fn optimize_is_idempotent_on_examples() {
    let env = env_with("y", 2.0);
    for text in ["x * y + 0 * z", "sin ( x ) + 3 * y", "( x + 0 ) ^ 1 - x / 1", "2 + 3 * 4"] {
        let once = optimized(text, &env);
        let twice = optimize_expression(&once, &env, &arith, &func).expect("optimizes");
        assert_eq!(format!("{:?}", once), format!("{:?}", twice));
    }
}

fn no_binary(_: Operator, _: Real, _: Real) -> Real {
    panic!("no arithmetic is needed on an optimized tree")
}

fn no_function(_: Function, _: Real) -> Option<Real> {
    panic!("no function is needed on an optimized tree")
}

#[test]
fn reoptimizing_calls_no_backend() {
    let env = env_with("y", 2.0);
    let once = optimized("x * y + sqrt ( z ) ^ 1 - 3 * 4", &env);
    let twice = optimize_expression(&once, &env, &no_binary, &no_function).expect("optimizes");
    assert_eq!(format!("{:?}", once), format!("{:?}", twice));
}

#[test]
fn optimize_folds_constants() {
    let e = optimized("2 + 3 * 4", &empty());
    assert_eq!(constant(&e), Some(14.0));
}

#[test]
fn optimize_propagates_bound_variables() {
    let e = optimized("x * 2 + 1", &env_with("x", 5.0));
    assert_eq!(constant(&e), Some(11.0));
}

#[test]
fn optimize_times_zero_is_zero_whether_or_not_bound() {
    let unbound = optimized("x * 0", &empty());
    assert_eq!(unbound.constant().map(|v| v.bits), Some(0));
    let bound = optimized("x * 0", &env_with("x", 7.0));
    assert_eq!(constant(&bound), Some(0.0));
    let left = optimized("0 * x", &empty());
    assert_eq!(constant(&left), Some(0.0));
}

#[test]
fn optimize_applies_identities() {
    let env = empty();
    assert_eq!(optimized("x + 0", &env).render(&show), "x");
    assert_eq!(optimized("0 + x", &env).render(&show), "x");
    assert_eq!(optimized("x - 0", &env).render(&show), "x");
    assert_eq!(optimized("x * 1", &env).render(&show), "x");
    assert_eq!(optimized("1 * x", &env).render(&show), "x");
    assert_eq!(optimized("x / 1", &env).render(&show), "x");
    assert_eq!(constant(&optimized("0 / x", &env)), Some(0.0));
    assert_eq!(constant(&optimized("x ^ 0", &env)), Some(1.0));
    assert_eq!(optimized("x ^ 1", &env).render(&show), "x");
    assert_eq!(constant(&optimized("1 ^ x", &env)), Some(1.0));
    assert_eq!(optimized("x - y", &env).render(&show), "x - y");
}

#[test]
fn optimize_folds_functions_and_reports_failures() {
    let env = empty();
    assert_eq!(constant(&optimized("sqrt ( 16 )", &env)), Some(4.0));
    assert_eq!(optimized("sqrt ( x )", &env).render(&show), "sqrt(x)");
    let e = sy_tree("sqrt ( -1 )");
    let r = optimize_expression(&e, &env, &arith, &func);
    assert!(matches!(r, Err(ref err) if matches!(err.error, EvalError::DomainError(Function::Sqrt))));
    let e = sy_tree("1 / ( 2 - 2 )");
    let r = optimize_expression(&e, &env, &arith, &func);
    assert!(matches!(r, Err(ref err) if matches!(err.error, EvalError::DivisionByZero)));
}

#[test]
fn optimize_leaves_the_input_tree() {
    let e = sy_tree("x + 2 * 3");
    let before = format!("{:?}", e);
    let _ = optimize_expression(&e, &env_with("x", 1.0), &arith, &func);
    assert_eq!(format!("{:?}", e), before);
}

#[test]
fn validate_finds_division_by_zero() {
    let r = validate_expression(&sy_tree("1 / 0"), &func);
    let err = r.expect_err("division by zero is found");
    assert!(err.message().contains("Division by zero"));
    assert_eq!(err.issues, vec![Issue::DivisionByZero]);
}

#[test]
fn validate_accepts_variable_divisor() {
    assert!(validate_expression(&sy_tree("1 / x"), &func).is_ok());
}

#[test]
fn validate_collects_every_fault() {
    let r = validate_expression(&sy_tree("sqrt ( -4 ) + 1 / 0 + tan ( 1.5707963267948966 )"), &func);
    let err = r.expect_err("faults are found");
    assert_eq!(err.issues, vec![Issue::NegativeSquareRoot, Issue::DivisionByZero, Issue::TangentUndefined]);
    assert_eq!(
        err.message(),
        "Cannot take square root of negative number; Division by zero; Tangent undefined at this value"
    );
}

#[test]
fn validation_visitor_accumulates() {
    let mut visitor = ValidationVisitor::new();
    assert!(visitor.validate(&sy_tree("2 + 3"), &func).is_ok());
    assert!(visitor.validate(&sy_tree("2 / 0"), &func).is_err());
    assert_eq!(visitor.issues, vec![Issue::DivisionByZero]);
}

#[test]
fn render_uses_minimal_parentheses() {
    assert_eq!(sy_tree("2 + 3 * 4").render(&show), "2 + 3 * 4");
    assert_eq!(rd_tree("2 + 3 * 4").render(&show), "2 + 3 * 4");
}

#[test]
fn render_keeps_needed_parentheses() {
    assert_eq!(sy_tree("( 2 + 3 ) * 4").render(&show), "(2 + 3) * 4");
    assert_eq!(sy_tree("2 - ( 3 - 4 )").render(&show), "2 - (3 - 4)");
    assert_eq!(sy_tree("( ( 2 ) )").render(&show), "2");
    assert_eq!(sy_tree("sqrt ( x + 1 ) ^ 2").render(&show), "sqrt(x + 1) ^ 2");
}

#[test]
fn evaluation_reports_left_failure_first() {
    let left = Expression::variable("missing".to_string());
    let right = Expression::binary(
        Operator::Divide,
        Expression::number(to_real(1.0)),
        Expression::number(to_real(0.0)),
    );
    let e = Expression::binary(Operator::Add, left, right);
    match eval(&e, &empty()) {
        Err(EvalError::UndefinedVariable(name)) => assert_eq!(name, "missing"),
        other => panic!("unexpected {:?}", other),
    }
}

#[test]
fn evaluation_errors() {
    let env = empty();
    assert!(matches!(eval(&sy_tree("1 / ( 2 - 2 )"), &env), Err(EvalError::DivisionByZero)));
    assert!(matches!(eval(&sy_tree("1 / -0"), &env), Err(EvalError::DivisionByZero)));
    assert!(matches!(eval(&sy_tree("sqrt ( 0 - 4 )"), &env), Err(EvalError::DomainError(Function::Sqrt))));
    assert!(matches!(
        eval(&sy_tree("tan ( 1.5707963267948966 )"), &env),
        Err(EvalError::DomainError(Function::Tan))
    ));
    assert!(matches!(eval(&sy_tree("y + 1"), &env), Err(EvalError::UndefinedVariable(_))));
}

#[test]
fn evaluation_values() {
    let env = env_with("x", 2.0);
    assert_eq!(eval(&sy_tree("x ^ 10"), &env).unwrap(), 1024.0);
    assert_eq!(eval(&sy_tree("cos ( 0 ) + sqrt ( 0 )"), &env).unwrap(), 1.0);
    assert_eq!(eval(&sy_tree("1.5e3 / x"), &env).unwrap(), 750.0);
    assert!(eval(&sy_tree("-8 ^ 0.5"), &env).unwrap().is_nan());
}

#[test]
fn lexer_classifies_units() {
    let ts = tokens("  3.14 1.23e-4 + sin foo_1 ( ) ");
    assert_eq!(ts.len(), 7);
    assert!(matches!(&ts[0], Token::Number(n) if n.format == NumberFormat::Decimal && to_f64(n.value) == 3.14));
    assert!(matches!(&ts[1], Token::Number(n) if n.format == NumberFormat::Scientific && to_f64(n.value) == 1.23e-4));
    assert!(matches!(&ts[2], Token::Operator(Operator::Add)));
    assert!(matches!(&ts[3], Token::Function(Function::Sin)));
    assert!(matches!(&ts[4], Token::Variable(name) if name == "foo_1"));
    assert!(matches!(&ts[5], Token::OpenParen));
    assert!(matches!(&ts[6], Token::CloseParen));
}

#[test]
fn lexer_accepts_unicode_names() {
    let ts = tokens("café + x2");
    assert!(matches!(&ts[0], Token::Variable(name) if name == "café"));
    assert!(matches!(&ts[2], Token::Variable(name) if name == "x2"));
}

#[test]
fn lexer_rejects_invalid_unit() {
    match tokenize("2 $ 3", &read) {
        Err(LexError::InvalidToken(u)) => assert_eq!(u, "$"),
        other => panic!("unexpected {:?}", other),
    }
    match tokenize("a x-y", &read) {
        Err(LexError::InvalidToken(u)) => assert_eq!(u, "x-y"),
        other => panic!("unexpected {:?}", other),
    }
}

#[test]
fn lexer_splits_on_any_whitespace() {
    assert_eq!(split_units("\t1 +\n2\u{3000}x "), vec!["1", "+", "2", "x"]);
    assert!(split_units("   ").is_empty());
    assert!(tokens("").is_empty());
}

#[test]
fn shunting_yard_errors() {
    let p = ShuntingYardEvaluator::new();
    assert!(matches!(p.parse(&tokens("( 2 + 3")), Err(ParseError::UnmatchedParen)));
    assert!(matches!(p.parse(&tokens("2 + 3 )")), Err(ParseError::UnmatchedParen)));
    assert!(matches!(p.parse(&tokens("2 +")), Err(ParseError::InsufficientOperands)));
    assert!(matches!(p.parse(&tokens("2 3")), Err(ParseError::TrailingValues)));
    assert!(matches!(p.parse(&tokens("")), Err(ParseError::UnexpectedEndOfInput)));
    assert!(matches!(p.parse(&tokens("sin 2")), Err(ParseError::UnexpectedToken(Token::Function(Function::Sin)))));
}

#[test]
fn recursive_descent_errors() {
    let p = RecursiveDescentEvaluator::new();
    assert!(matches!(p.parse(&tokens("( 2 + 3")), Err(ParseError::UnmatchedParen)));
    assert!(matches!(p.parse(&tokens("2 +")), Err(ParseError::UnexpectedEndOfInput)));
    assert!(matches!(p.parse(&tokens("")), Err(ParseError::UnexpectedEndOfInput)));
    assert!(matches!(p.parse(&tokens("2 3")), Err(ParseError::UnexpectedToken(Token::Number(_)))));
    assert!(matches!(p.parse(&tokens("2 )")), Err(ParseError::UnexpectedToken(Token::CloseParen))));
    assert!(matches!(p.parse(&tokens("sin 2")), Err(ParseError::UnexpectedToken(Token::Number(_)))));
    assert!(matches!(p.parse(&tokens("* 2")), Err(ParseError::UnexpectedToken(Token::Operator(Operator::Multiply)))));
}

#[test]
fn pipelines_from_text() {
    let env = env_with("r", 3.0);
    let rd = RecursiveDescentEvaluator::new().evaluate("r * r + 1", &env, &read, &arith, &func);
    assert_eq!(rd.map(to_f64).ok(), Some(10.0));
    let sy = ShuntingYardEvaluator::new().evaluate("r * r + 1", &env, &read, &arith, &func);
    assert_eq!(sy.map(to_f64).ok(), Some(10.0));
    assert!(matches!(
        ShuntingYardEvaluator::new().evaluate("1 / 0", &env, &read, &arith, &func),
        Err(CalcError::Eval(EvalError::DivisionByZero))
    ));
    assert!(matches!(
        RecursiveDescentEvaluator::new().evaluate("1 # 0", &env, &read, &arith, &func),
        Err(CalcError::Lex(_))
    ));
    let tree = ExpressionParser::new().parse("( 1 + 2 ) * r", &read).expect("parses");
    assert_eq!(tree.render(&show), "(1 + 2) * r");
    assert_eq!(StandardEvaluator::new().evaluate(&tree, &env, &arith, &func).map(to_f64).ok(), Some(9.0));
    assert!(matches!(ExpressionParser::new().parse("( 1", &read), Err(CalcError::Parse(ParseError::UnmatchedParen))));
    assert_eq!(SimpleTokenizer::new().tokenize("1 + 2", &read).expect("lexes").len(), 3);
}

#[test]
fn environment_binds_and_rebinds() {
    let mut env = Environment::new();
    let x = "x".to_string();
    assert_eq!(env.get(&x), None);
    env.set("x".to_string(), to_real(1.0));
    env.set("y".to_string(), to_real(2.0));
    env.set("x".to_string(), to_real(3.0));
    assert_eq!(env.get(&x).map(to_f64), Some(3.0));
    assert_eq!(env.get(&"y".to_string()).map(to_f64), Some(2.0));
    assert!(env.contains(&x));
    assert!(!env.contains(&"z".to_string()));
}

#[test]
fn real_predicates_follow_float_comparison() {
    assert!(to_real(0.0).is_zero());
    assert!(to_real(-0.0).is_zero());
    assert!(!to_real(1e-300).is_zero());
    assert!(to_real(1.0).is_one());
    assert!(!to_real(-1.0).is_one());
    assert!(to_real(-1.0).is_negative());
    assert!(to_real(f64::NEG_INFINITY).is_negative());
    assert!(!to_real(-0.0).is_negative());
    assert!(!to_real(-f64::NAN).is_negative());
    assert!(!to_real(2.0).is_negative());
    assert_eq!(Real::zero().bits, 0.0f64.to_bits());
    assert_eq!(Real::one().bits, 1.0f64.to_bits());
}

#[test]
fn operator_table() {
    assert_eq!(Operator::Add.precedence(), 1);
    assert_eq!(Operator::Subtract.precedence(), 1);
    assert_eq!(Operator::Multiply.precedence(), 2);
    assert_eq!(Operator::Divide.precedence(), 2);
    assert_eq!(Operator::Power.precedence(), 3);
    assert_eq!(Operator::Power.symbol(), "^");
    assert_eq!(Function::Sqrt.name(), "sqrt");
    assert_eq!(rd_tree("sin ( 1 )").precedence(), 4);
}

#[test]
fn configurations() {
    let d = get_global_config();
    assert_eq!(d.precision, 10);
    assert_eq!(d.angle_mode, AngleMode::Radians);
    assert_eq!(d.notation, NumberFormat::Decimal);
    let s = CalculatorConfig::scientific();
    assert_eq!((s.precision, s.notation), (15, NumberFormat::Scientific));
    let e = CalculatorConfig::engineering();
    assert_eq!((e.precision, e.notation), (10, NumberFormat::Engineering));
    let pool = CalculatorPool::new(s);
    assert_eq!(pool.get_config(), s);
    assert_eq!(ExternalLibraryAdapter::new(AngleMode::Degrees).angle_mode, AngleMode::Degrees);
    assert_eq!(ProgrammerMode::new().base, NumberBase::Decimal);
    assert_eq!(StandardPrecision::new(4).decimal_places, 4);
    assert_eq!(ScientificPrecision::new(3).significant_figures, 3);
}

#[test]
fn token_from_str_classifies_one_unit() {
    assert!(matches!(Token::from_str("1e3", &read), Ok(Token::Number(n)) if n.format == NumberFormat::Scientific && to_f64(n.value) == 1000.0));
    assert!(matches!(Token::from_str("sqrt", &read), Ok(Token::Function(Function::Sqrt))));
    assert!(matches!(Token::from_str("^", &read), Ok(Token::Operator(Operator::Power))));
    assert!(matches!(Token::from_str("_a", &read), Ok(Token::Variable(name)) if name == "_a"));
    assert!(matches!(Token::from_str("a.b", &read), Err(LexError::InvalidToken(u)) if u == "a.b"));
}

#[test]
fn optimization_visitor_keeps_last_result() {
    let mut visitor = OptimizationVisitor::new(env_with("x", 2.0));
    let e = visitor.optimize(&sy_tree("x + 1"), &arith, &func).expect("optimizes");
    assert_eq!(constant(&e), Some(3.0));
    assert!(visitor.optimized_expression.as_ref().and_then(constant) == Some(3.0));
    assert!(visitor.optimize(&sy_tree("1 / 0"), &arith, &func).is_err());
    assert!(visitor.optimized_expression.as_ref().and_then(constant) == Some(3.0));
}

#[test]
fn token_classify_uses_given_readings() {
    let letters = vec![true, true];
    assert!(matches!(Token::classify("ab", None, &letters), Ok(Token::Variable(name)) if name == "ab"));
    assert!(matches!(Token::classify("ab", None, &vec![true, false]), Err(LexError::InvalidToken(u)) if u == "ab"));
    assert!(matches!(Token::classify("a_", None, &vec![true, false]), Ok(Token::Variable(_))));
    assert!(matches!(
        Token::classify("2e1", Some(to_real(20.0)), &vec![true, true, true]),
        Ok(Token::Number(n)) if n.format == NumberFormat::Scientific && to_f64(n.value) == 20.0
    ));
    assert!(matches!(Token::classify("cos", None, &vec![false, false, false]), Ok(Token::Function(Function::Cos))));
    assert!(matches!(Token::classify("x", None, &vec![true]), Ok(Token::Variable(_))));
}
