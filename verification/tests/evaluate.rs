use rs_eval::evaluate;
use rs_eval::parse_eval;
use rs_eval::tokenize;
use rs_eval::Environment;
use rs_eval::EvalError;
use rs_eval::LexDetail;
use rs_eval::Number;
use rs_eval::Operator;
use rs_eval::Request;
use rs_eval::Token;

fn value(n: Number) -> f64 {
    f64::from_bits(n.to_bits())
}

fn number(x: f64) -> Number {
    Number::from_bits(x.to_bits())
}

fn arithmetic(request: Request) -> Number {
    match request {
        Request::Literal(text) => number(text.parse::<f64>().unwrap()),
        Request::Binary(op, a, b) => {
            let (a, b) = (value(a), value(b));
            number(match op {
                Operator::Plus => a + b,
                Operator::Minus => a - b,
                Operator::Star => a * b,
                Operator::Slash => a / b,
                Operator::Percent => a % b,
                Operator::Caret => a.powf(b),
            })
        }
        Request::Call(name, args) => {
            let args: Vec<f64> = args.into_iter().map(value).collect();
            number(match name.as_str() {
                "sqrt" => args[0].sqrt(),
                "abs" => args[0].abs(),
                "floor" => args[0].floor(),
                "max" => args[0].max(args[1]),
                "min" => args[0].min(args[1]),
                "atan2" => args[0].atan2(args[1]),
                "three" => args[0] + args[1] + args[2],
                "answer" => 42.0,
                other => panic!("no arithmetic for {}", other),
            })
        }
    }
}

fn run(text: &str) -> Result<f64, EvalError> {
    evaluate(text, &Environment::standard(), &arithmetic).map(value)
}

fn name(text: &str) -> String {
    String::from(text)
}

#[test]
fn product_binds_tighter_than_sum() {
    assert_eq!(run("2+3*4"), Ok(14.0));
}

#[test]
fn parentheses_override_precedence() {
    assert_eq!(run("(2+3)*4"), Ok(20.0));
}

#[test]
fn power_groups_to_the_right() {
    assert_eq!(run("2^3^2"), Ok(512.0));
}

#[test]
fn sign_binds_looser_than_power() {
    assert_eq!(run("-2^2"), Ok(-4.0));
}

#[test]
fn division_by_zero_is_an_error() {
    assert_eq!(run("1/0"), Err(EvalError::DivisionByZero));
}

#[test]
fn trailing_operator_is_unexpected_end() {
    assert_eq!(run("2 + "), Err(EvalError::UnexpectedEnd));
}

#[test]
fn undefined_function_is_reported_by_name() {
    assert_eq!(run("foo(1,2)"), Err(EvalError::UnknownFunction { name: name("foo") }));
}

#[test]
fn square_root_of_four() {
    assert_eq!(run("sqrt(4)"), Ok(2.0));
}

#[test]
fn same_text_gives_same_result_again() {
    let env = Environment::standard();
    for text in ["2+3*4", "1/0", "sqrt(2)*pi", "foo(1)", "2 $ 3", "(1"] {
        let first = evaluate(text, &env, &arithmetic);
        let second = evaluate(text, &env, &arithmetic);
        assert_eq!(first, second);
    }
}

#[test]
fn flat_expression_is_grouped_by_precedence_and_from_the_left() {
    assert_eq!(run("1 - 2 * 3 + 8 / 4 / 2 - 5"), Ok(((1.0 - (2.0 * 3.0)) + ((8.0 / 4.0) / 2.0)) - 5.0));
    assert_eq!(run("1 - 2 * 3 + 8 / 4 / 2 - 5"), Ok(-9.0));
}

#[test]
fn subtraction_groups_to_the_left() {
    assert_eq!(run("10-4-3"), Ok(3.0));
}

#[test]
fn division_groups_to_the_left() {
    assert_eq!(run("100/10/5"), Ok(2.0));
}

#[test]
fn remainder_is_a_product_operator() {
    assert_eq!(run("1+7%4*2"), Ok(7.0));
}

#[test]
fn sign_binds_tighter_than_product() {
    assert_eq!(run("-2*3"), Ok(-6.0));
    assert_eq!(run("2*-3"), Ok(-6.0));
    assert_eq!(run("2--3"), Ok(5.0));
}

#[test]
fn exponent_may_carry_a_sign() {
    assert_eq!(run("2^-1"), Ok(0.5));
    assert_eq!(run("-2^-2"), Ok(-0.25));
}

#[test]
fn power_binds_tighter_than_product() {
    assert_eq!(run("2*3^2"), Ok(18.0));
    assert_eq!(run("(2*3)^2"), Ok(36.0));
}

#[test]
fn unary_plus_keeps_the_value() {
    assert_eq!(run("+5"), Ok(5.0));
    assert_eq!(run("-+-5"), Ok(5.0));
}

#[test]
fn nested_parentheses() {
    assert_eq!(run("((((7))))"), Ok(7.0));
    assert_eq!(run("2*(3+(4-1))"), Ok(12.0));
}

#[test]
fn literals_with_fraction_and_exponent() {
    assert_eq!(run("1.5e3"), Ok(1500.0));
    assert_eq!(run("2E-2"), Ok(0.02));
    assert_eq!(run("1."), Ok(1.0));
    assert_eq!(run("0.25+0.5"), Ok(0.75));
    assert_eq!(run("1e+2"), Ok(100.0));
}

#[test]
fn whitespace_between_tokens_is_skipped() {
    assert_eq!(run(" \t2\n+\r 3 "), Ok(5.0));
}

#[test]
fn constants_of_the_standard_environment() {
    assert_eq!(run("pi"), Ok(std::f64::consts::PI));
    assert_eq!(run("e"), Ok(std::f64::consts::E));
    assert_eq!(run("2*pi"), Ok(2.0 * std::f64::consts::PI));
}

#[test]
fn functions_of_two_arguments() {
    assert_eq!(run("max(1, 2) + min(3, 4)"), Ok(5.0));
    assert_eq!(run("max(1+1, 2*3)"), Ok(6.0));
}

#[test]
fn calls_nest() {
    assert_eq!(run("sqrt(abs(-16))"), Ok(4.0));
    assert_eq!(run("sqrt(sqrt(16)) ^ 2"), Ok(4.0));
}

#[test]
fn unknown_variable_is_reported_by_name() {
    assert_eq!(run("x + 1"), Err(EvalError::UnknownVariable { name: name("x") }));
}

#[test]
fn a_function_name_alone_is_a_variable() {
    assert_eq!(run("sqrt"), Err(EvalError::UnknownVariable { name: name("sqrt") }));
}

#[test]
fn a_constant_cannot_be_called() {
    assert_eq!(run("pi(1)"), Err(EvalError::UnknownFunction { name: name("pi") }));
}

#[test]
fn arity_mismatch_names_expected_and_actual() {
    assert_eq!(
        run("sqrt(1, 2)"),
        Err(EvalError::ArityMismatch { name: name("sqrt"), expected: 1, actual: 2 })
    );
    assert_eq!(
        run("atan2(1)"),
        Err(EvalError::ArityMismatch { name: name("atan2"), expected: 2, actual: 1 })
    );
    assert_eq!(
        run("sqrt()"),
        Err(EvalError::ArityMismatch { name: name("sqrt"), expected: 1, actual: 0 })
    );
}

#[test]
fn remainder_by_zero_is_an_error() {
    assert_eq!(run("5 % 0"), Err(EvalError::DivisionByZero));
}

#[test]
fn negative_zero_is_zero() {
    assert_eq!(run("1 / -0"), Err(EvalError::DivisionByZero));
    assert_eq!(run("1 / (0 * -1)"), Err(EvalError::DivisionByZero));
}

#[test]
fn zero_divided_is_no_error() {
    assert_eq!(run("0 / 4"), Ok(0.0));
    assert_eq!(run("1 / 0.5"), Ok(2.0));
}

#[test]
fn the_left_operand_is_evaluated_first() {
    assert_eq!(run("1/0 + foo(1)"), Err(EvalError::DivisionByZero));
    assert_eq!(run("foo(1) + 1/0"), Err(EvalError::UnknownFunction { name: name("foo") }));
    assert_eq!(run("x / 0"), Err(EvalError::UnknownVariable { name: name("x") }));
}

#[test]
fn the_function_is_looked_up_before_its_arguments() {
    assert_eq!(run("foo(1/0)"), Err(EvalError::UnknownFunction { name: name("foo") }));
}

#[test]
fn arguments_are_evaluated_before_the_arity_is_checked() {
    assert_eq!(run("sqrt(1/0, 2)"), Err(EvalError::DivisionByZero));
    assert_eq!(run("sqrt(1, y)"), Err(EvalError::UnknownVariable { name: name("y") }));
}

#[test]
fn arguments_are_evaluated_from_left_to_right() {
    assert_eq!(run("max(x, 1/0)"), Err(EvalError::UnknownVariable { name: name("x") }));
    assert_eq!(run("max(1/0, x)"), Err(EvalError::DivisionByZero));
}

#[test]
fn a_syntax_error_comes_before_any_evaluation() {
    assert_eq!(run("1/0 +"), Err(EvalError::UnexpectedEnd));
    assert_eq!(
        run("foo(1) )"),
        Err(EvalError::UnexpectedToken { found: Token::RightParen, position: 4 })
    );
}

#[test]
fn a_lexical_error_comes_before_any_parsing() {
    assert_eq!(
        run(") 2 $"),
        Err(EvalError::LexError { position: 4, detail: LexDetail::UnexpectedCharacter('$') })
    );
}

#[test]
fn trailing_garbage_is_rejected() {
    assert_eq!(
        run("2 + 2 )"),
        Err(EvalError::UnexpectedToken { found: Token::RightParen, position: 3 })
    );
    assert_eq!(
        run("2 3"),
        Err(EvalError::UnexpectedToken { found: Token::Number(name("3")), position: 1 })
    );
}

#[test]
fn missing_closing_parenthesis_is_unexpected_end() {
    assert_eq!(run("(2+3"), Err(EvalError::UnexpectedEnd));
    assert_eq!(run("sqrt(4"), Err(EvalError::UnexpectedEnd));
    assert_eq!(run("max(1,"), Err(EvalError::UnexpectedEnd));
}

#[test]
fn empty_text_is_unexpected_end() {
    assert_eq!(run(""), Err(EvalError::UnexpectedEnd));
    assert_eq!(run("   "), Err(EvalError::UnexpectedEnd));
}

#[test]
fn an_operator_where_an_operand_belongs_is_unexpected() {
    assert_eq!(
        run("2 * * 3"),
        Err(EvalError::UnexpectedToken { found: Token::Operator(Operator::Star), position: 2 })
    );
    assert_eq!(
        run("()"),
        Err(EvalError::UnexpectedToken { found: Token::RightParen, position: 1 })
    );
    assert_eq!(
        run("max(1,,2)"),
        Err(EvalError::UnexpectedToken { found: Token::Comma, position: 4 })
    );
}

#[test]
fn a_comma_outside_a_call_is_unexpected() {
    assert_eq!(
        run("1, 2"),
        Err(EvalError::UnexpectedToken { found: Token::Comma, position: 1 })
    );
    assert_eq!(
        run("(1, 2)"),
        Err(EvalError::UnexpectedToken { found: Token::Comma, position: 2 })
    );
}

#[test]
fn an_environment_of_ones_own() {
    let mut env = Environment::new();
    env.define_constant("half", number(0.5));
    env.define_function("three", 3);
    env.define_function("answer", 0);
    assert_eq!(evaluate("three(half, half, 1)", &env, &arithmetic).map(value), Ok(2.0));
    assert_eq!(evaluate("answer()", &env, &arithmetic).map(value), Ok(42.0));
    assert_eq!(
        evaluate("pi", &env, &arithmetic),
        Err(EvalError::UnknownVariable { name: name("pi") })
    );
    assert_eq!(
        evaluate("sqrt(4)", &env, &arithmetic),
        Err(EvalError::UnknownFunction { name: name("sqrt") })
    );
}

#[test]
fn tokens_can_be_evaluated_directly() {
    let env = Environment::standard();
    let tokens = tokenize("2+3*4").unwrap();
    assert_eq!(parse_eval(&tokens, &env, &arithmetic).map(value), Ok(14.0));
    let tokens = vec![
        Token::Number(name("6")),
        Token::Operator(Operator::Slash),
        Token::Number(name("0")),
        Token::End,
    ];
    assert_eq!(parse_eval(&tokens, &env, &arithmetic), Err(EvalError::DivisionByZero));
}

#[test]
fn the_host_is_asked_for_exactly_the_operations_of_the_tree() {
    let log = std::cell::RefCell::new(Vec::new());
    let recording = |request: Request| {
        log.borrow_mut().push(request.clone());
        arithmetic(request)
    };
    let env = Environment::standard();
    assert_eq!(evaluate("1+2*3", &env, &recording).map(value), Ok(7.0));
    assert_eq!(
        log.into_inner(),
        vec![
            Request::Literal(name("1")),
            Request::Literal(name("2")),
            Request::Literal(name("3")),
            Request::Binary(Operator::Star, number(2.0), number(3.0)),
            Request::Binary(Operator::Plus, number(1.0), number(6.0)),
        ]
    );
}

#[test]
fn the_printed_text_has_the_same_value() {
    let env = Environment::standard();
    for text in ["2+3*4", "(2+3)*4", "-2^2", "(-2)^2", "2^3^2", "(2^3)^2", "10-(4-3)", "1/0"] {
        let tree = rs_eval::parse(&tokenize(text).unwrap()).unwrap();
        let printed = rs_eval::pretty(&tree);
        assert_eq!(
            evaluate(&printed, &env, &arithmetic),
            evaluate(text, &env, &arithmetic),
            "for {}",
            text
        );
        assert_eq!(
            rs_eval::evaluate_expression(&tree, &env, &arithmetic),
            evaluate(text, &env, &arithmetic)
        );
    }
}

#[test]
fn the_host_is_not_asked_to_divide_by_zero() {
    let refusing = |request: Request| match request {
        Request::Binary(Operator::Slash, _, _) => panic!("asked to divide"),
        other => arithmetic(other),
    };
    let env = Environment::standard();
    assert_eq!(evaluate("4/(2-2)", &env, &refusing), Err(EvalError::DivisionByZero));
}
