use rs_eval::calculate;
use rs_eval::render;
use rs_eval::Environment;
use rs_eval::EvalError;
use rs_eval::LexDetail;
use rs_eval::Number;
use rs_eval::Operator;
use rs_eval::Request;
use rs_eval::Token;

fn plain(request: Request) -> Number {
    let of = |x: f64| Number::from_bits(x.to_bits());
    let to = |n: Number| f64::from_bits(n.to_bits());
    match request {
        Request::Literal(text) => of(text.parse::<f64>().unwrap()),
        Request::Binary(op, a, b) => of(match op {
            Operator::Plus => to(a) + to(b),
            Operator::Minus => to(a) - to(b),
            Operator::Star => to(a) * to(b),
            Operator::Slash => to(a) / to(b),
            Operator::Percent => to(a) % to(b),
            Operator::Caret => to(a).powf(to(b)),
        }),
        Request::Call(name, args) => match name.as_str() {
            "sqrt" => of(to(args[0]).sqrt()),
            other => panic!("no arithmetic for {}", other),
        },
    }
}

fn show(n: Number) -> String {
    f64::from_bits(n.to_bits()).to_string()
}

fn answer(text: &str) -> String {
    calculate(text, &Environment::standard(), &plain, &show)
}

#[test]
fn a_number_is_shown_as_the_caller_shows_it() {
    assert_eq!(answer("2+3*4"), "14");
    assert_eq!(answer("1/4"), "0.25");
    assert_eq!(answer("-2^2"), "-4");
    assert_eq!(answer("sqrt(4)"), "2");
    assert_eq!(answer("0.1+0.2"), "0.30000000000000004");
}

#[test]
fn an_error_is_shown_behind_the_fixed_prefix() {
    assert_eq!(answer("1/0"), "Invalid expression: division by zero");
    assert_eq!(answer("2 + "), "Invalid expression: unexpected end of input");
    assert_eq!(answer("foo(1,2)"), "Invalid expression: unknown function 'foo'");
    assert_eq!(answer("x"), "Invalid expression: unknown variable 'x'");
    assert_eq!(answer("2 $ 3"), "Invalid expression: unexpected character '$' at offset 2");
    assert_eq!(answer("1.2.3"), "Invalid expression: malformed number at offset 3");
    assert_eq!(answer("2 + 2 )"), "Invalid expression: unexpected token ')' at position 3");
    assert_eq!(
        answer("sqrt(1, 2)"),
        "Invalid expression: function 'sqrt' takes 1 arguments, got 2"
    );
}

#[test]
fn render_shows_what_it_is_given() {
    assert_eq!(render(&Ok(Number::from_bits(0x4000_0000_0000_0000)), &show), "2");
    assert_eq!(
        render(&Err(EvalError::DivisionByZero), &show),
        "Invalid expression: division by zero"
    );
    let bits = |n: Number| format!("{:#x}", n.to_bits());
    assert_eq!(render(&Ok(Number::from_bits(255)), &bits), "0xff");
}

#[test]
fn the_message_of_every_error() {
    let name = String::from("f_1");
    assert_eq!(
        EvalError::LexError { position: 0, detail: LexDetail::UnexpectedCharacter('é') }
            .message(),
        "unexpected character 'é' at offset 0"
    );
    assert_eq!(
        EvalError::LexError { position: 1234567890, detail: LexDetail::MalformedNumber }
            .message(),
        "malformed number at offset 1234567890"
    );
    assert_eq!(
        EvalError::UnexpectedToken { found: Token::Number(String::from("1e5")), position: 10 }
            .message(),
        "unexpected token '1e5' at position 10"
    );
    assert_eq!(
        EvalError::UnexpectedToken { found: Token::Identifier(name.clone()), position: 7 }
            .message(),
        "unexpected token 'f_1' at position 7"
    );
    assert_eq!(
        EvalError::UnexpectedToken { found: Token::Operator(Operator::Caret), position: 99 }
            .message(),
        "unexpected token '^' at position 99"
    );
    assert_eq!(
        EvalError::UnexpectedToken { found: Token::Comma, position: 100 }.message(),
        "unexpected token ',' at position 100"
    );
    assert_eq!(
        EvalError::UnexpectedToken { found: Token::LeftParen, position: 101 }.message(),
        "unexpected token '(' at position 101"
    );
    assert_eq!(EvalError::UnexpectedEnd.message(), "unexpected end of input");
    assert_eq!(
        EvalError::UnknownVariable { name: name.clone() }.message(),
        "unknown variable 'f_1'"
    );
    assert_eq!(
        EvalError::UnknownFunction { name: name.clone() }.message(),
        "unknown function 'f_1'"
    );
    assert_eq!(
        EvalError::ArityMismatch { name, expected: 2, actual: 10 }.message(),
        "function 'f_1' takes 2 arguments, got 10"
    );
    assert_eq!(EvalError::DivisionByZero.message(), "division by zero");
}

#[test]
fn positions_are_written_in_decimal() {
    for (position, text) in [(0usize, "0"), (9, "9"), (10, "10"), (109, "109"), (65536, "65536")] {
        assert_eq!(
            EvalError::LexError { position, detail: LexDetail::MalformedNumber }.message(),
            format!("malformed number at offset {}", text)
        );
    }
    assert_eq!(
        EvalError::LexError { position: usize::MAX, detail: LexDetail::MalformedNumber }
            .message(),
        format!("malformed number at offset {}", usize::MAX)
    );
}
