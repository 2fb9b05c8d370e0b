use rs_eval::parse;
use rs_eval::pretty;
use rs_eval::print;
use rs_eval::tokenize;
use rs_eval::EvalError;
use rs_eval::Expression;
use rs_eval::Operator;
use rs_eval::Sign;
use rs_eval::Token;

fn lit(text: &str) -> Expression {
    Expression::Literal(String::from(text))
}

fn var(text: &str) -> Expression {
    Expression::Variable(String::from(text))
}

fn bin(op: Operator, left: Expression, right: Expression) -> Expression {
    Expression::BinaryOp(op, Box::new(left), Box::new(right))
}

fn neg(operand: Expression) -> Expression {
    Expression::UnaryOp(Sign::Minus, Box::new(operand))
}

fn call(name: &str, args: Vec<Expression>) -> Expression {
    Expression::Call(String::from(name), args)
}

fn tree(text: &str) -> Result<Expression, EvalError> {
    parse(&tokenize(text).unwrap())
}

#[test]
fn a_product_is_the_right_operand_of_a_sum() {
    assert_eq!(
        tree("2+3*4"),
        Ok(bin(Operator::Plus, lit("2"), bin(Operator::Star, lit("3"), lit("4"))))
    );
}

#[test]
fn a_parenthesized_sum_is_an_operand_of_a_product() {
    assert_eq!(
        tree("(2+3)*4"),
        Ok(bin(Operator::Star, bin(Operator::Plus, lit("2"), lit("3")), lit("4")))
    );
}

#[test]
fn powers_nest_to_the_right() {
    assert_eq!(
        tree("2^3^2"),
        Ok(bin(Operator::Caret, lit("2"), bin(Operator::Caret, lit("3"), lit("2"))))
    );
}

#[test]
fn a_sign_applies_to_the_whole_power() {
    assert_eq!(tree("-2^2"), Ok(neg(bin(Operator::Caret, lit("2"), lit("2")))));
}

#[test]
fn a_sign_applies_to_one_factor_only() {
    assert_eq!(tree("-2*3"), Ok(bin(Operator::Star, neg(lit("2")), lit("3"))));
    assert_eq!(tree("2*-3"), Ok(bin(Operator::Star, lit("2"), neg(lit("3")))));
}

#[test]
fn an_exponent_may_be_signed() {
    assert_eq!(tree("2^-3"), Ok(bin(Operator::Caret, lit("2"), neg(lit("3")))));
    assert_eq!(
        tree("2^-3^4"),
        Ok(bin(Operator::Caret, lit("2"), neg(bin(Operator::Caret, lit("3"), lit("4")))))
    );
}

#[test]
fn sums_and_products_nest_to_the_left() {
    assert_eq!(
        tree("1-2+3"),
        Ok(bin(Operator::Plus, bin(Operator::Minus, lit("1"), lit("2")), lit("3")))
    );
    assert_eq!(
        tree("8/4%3*2"),
        Ok(bin(
            Operator::Star,
            bin(Operator::Percent, bin(Operator::Slash, lit("8"), lit("4")), lit("3")),
            lit("2")
        ))
    );
}

#[test]
fn unary_plus_stays_in_the_tree() {
    assert_eq!(tree("+x"), Ok(Expression::UnaryOp(Sign::Plus, Box::new(var("x")))));
    assert_eq!(
        tree("-+x"),
        Ok(neg(Expression::UnaryOp(Sign::Plus, Box::new(var("x")))))
    );
}

#[test]
fn names_are_variables_or_calls() {
    assert_eq!(tree("x"), Ok(var("x")));
    assert_eq!(tree("f()"), Ok(call("f", vec![])));
    assert_eq!(tree("f(x)"), Ok(call("f", vec![var("x")])));
    assert_eq!(
        tree("f(1, g(2), 3+4)"),
        Ok(call(
            "f",
            vec![lit("1"), call("g", vec![lit("2")]), bin(Operator::Plus, lit("3"), lit("4"))]
        ))
    );
    assert_eq!(tree("f (x)"), Ok(call("f", vec![var("x")])));
}

#[test]
fn parentheses_leave_no_node() {
    assert_eq!(tree("((x))"), Ok(var("x")));
    assert_eq!(tree("(1)+(2)"), Ok(bin(Operator::Plus, lit("1"), lit("2"))));
}

#[test]
fn the_end_inside_an_expression() {
    assert_eq!(tree(""), Err(EvalError::UnexpectedEnd));
    assert_eq!(tree("2 +"), Err(EvalError::UnexpectedEnd));
    assert_eq!(tree("2 ^"), Err(EvalError::UnexpectedEnd));
    assert_eq!(tree("-"), Err(EvalError::UnexpectedEnd));
    assert_eq!(tree("(2"), Err(EvalError::UnexpectedEnd));
    assert_eq!(tree("f(2"), Err(EvalError::UnexpectedEnd));
    assert_eq!(tree("f("), Err(EvalError::UnexpectedEnd));
    assert_eq!(tree("f(2,"), Err(EvalError::UnexpectedEnd));
}

#[test]
fn a_token_out_of_place() {
    assert_eq!(
        tree("2 )"),
        Err(EvalError::UnexpectedToken { found: Token::RightParen, position: 1 })
    );
    assert_eq!(
        tree("2 x"),
        Err(EvalError::UnexpectedToken {
            found: Token::Identifier(String::from("x")),
            position: 1
        })
    );
    assert_eq!(
        tree("(2 3)"),
        Err(EvalError::UnexpectedToken { found: Token::Number(String::from("3")), position: 2 })
    );
    assert_eq!(
        tree("* 2"),
        Err(EvalError::UnexpectedToken { found: Token::Operator(Operator::Star), position: 0 })
    );
    assert_eq!(
        tree("2 (3)"),
        Err(EvalError::UnexpectedToken { found: Token::LeftParen, position: 1 })
    );
    assert_eq!(
        tree("f(1 2)"),
        Err(EvalError::UnexpectedToken { found: Token::Number(String::from("2")), position: 3 })
    );
}

#[test]
fn the_input_ends_at_the_end_marker_or_behind_the_last_token() {
    let two = Token::Number(String::from("2"));
    assert_eq!(parse(&vec![two.clone()]), Ok(lit("2")));
    assert_eq!(parse(&vec![two.clone(), Token::End, Token::RightParen]), Ok(lit("2")));
    assert_eq!(parse(&vec![]), Err(EvalError::UnexpectedEnd));
    assert_eq!(
        parse(&vec![two.clone(), Token::Operator(Operator::Plus), Token::End, two]),
        Err(EvalError::UnexpectedEnd)
    );
}

#[test]
fn printing_uses_parentheses_only_where_needed() {
    let shown = |text: &str| pretty(&tree(text).unwrap());
    assert_eq!(shown("2+3*4"), "2 + 3 * 4");
    assert_eq!(shown("(2+3)*4"), "(2 + 3) * 4");
    assert_eq!(shown("((2))+(3*4)"), "2 + 3 * 4");
    assert_eq!(shown("2-(3-4)"), "2 - (3 - 4)");
    assert_eq!(shown("(2-3)-4"), "2 - 3 - 4");
    assert_eq!(shown("2/(3*4)"), "2 / (3 * 4)");
    assert_eq!(shown("(2/3)*4"), "2 / 3 * 4");
    assert_eq!(shown("(2^3)^2"), "(2 ^ 3) ^ 2");
    assert_eq!(shown("2^(3^2)"), "2 ^ 3 ^ 2");
    assert_eq!(shown("(-2)^2"), "(-2) ^ 2");
    assert_eq!(shown("-(2^2)"), "-2 ^ 2");
    assert_eq!(shown("-(2*3)"), "-(2 * 3)");
    assert_eq!(shown("(-2)*3"), "-2 * 3");
    assert_eq!(shown("2^(-3)"), "2 ^ -3");
    assert_eq!(shown("2*(3^4)"), "2 * 3 ^ 4");
    assert_eq!(shown("(2*3)^4"), "(2 * 3) ^ 4");
    assert_eq!(shown("f((1),(2+3))"), "f(1, 2 + 3)");
    assert_eq!(shown("f ( )"), "f()");
    assert_eq!(shown("(f(x))^2"), "f(x) ^ 2");
}

#[test]
fn the_tokens_of_a_tree() {
    let minus = Token::Operator(Operator::Minus);
    let two = Token::Number(String::from("2"));
    assert_eq!(
        print(&tree("(-2)^2").unwrap()),
        vec![
            Token::LeftParen,
            minus.clone(),
            two.clone(),
            Token::RightParen,
            Token::Operator(Operator::Caret),
            two.clone(),
            Token::End,
        ]
    );
    assert_eq!(
        print(&tree("-(2^2)").unwrap()),
        vec![minus, two.clone(), Token::Operator(Operator::Caret), two, Token::End]
    );
}

#[test]
fn printing_closes_with_the_end_marker() {
    assert_eq!(print(&lit("1")), vec![Token::Number(String::from("1")), Token::End]);
}

#[test]
fn parsing_what_was_printed_gives_the_tree_back() {
    let texts = [
        "2+3*4",
        "(2+3)*4",
        "2^3^2",
        "(2^3)^2",
        "-2^2",
        "(-2)^2",
        "2^-3^4",
        "1-(2-3)-(4-(5-6))",
        "a*(b+c)/(d%e)",
        "-(-(-x))",
        "+(1+2)",
        "f()",
        "f(g(h(1)), -2, (3))",
        "max(1, 2) ^ min(3, 4) ^ 2",
        "-(a+b)^-(c*d)",
        "2 * - 3 % + 4",
    ];
    for text in texts {
        let first = tree(text).unwrap();
        let second = parse(&print(&first)).unwrap();
        assert_eq!(first, second, "for {}", text);
        let third = tree(&pretty(&first)).unwrap();
        assert_eq!(first, third, "for {}", text);
        assert_eq!(tokenize(&pretty(&first)).unwrap(), print(&first), "for {}", text);
    }
}

#[test]
fn trees_built_by_hand_come_back_too() {
    let trees = vec![
        bin(Operator::Minus, lit("1"), bin(Operator::Minus, lit("2"), lit("3"))),
        bin(Operator::Caret, bin(Operator::Caret, lit("2"), lit("3")), lit("2")),
        bin(Operator::Caret, neg(lit("2")), neg(lit("2"))),
        neg(bin(Operator::Plus, var("a"), var("b"))),
        bin(Operator::Star, bin(Operator::Plus, lit("1"), lit("2")), neg(neg(lit("3")))),
        call("f", vec![bin(Operator::Percent, lit("7"), bin(Operator::Slash, lit("4"), lit("2")))]),
        bin(Operator::Slash, lit("8"), bin(Operator::Percent, lit("4"), lit("3"))),
    ];
    for t in trees {
        assert_eq!(tree(&pretty(&t)).as_ref(), Ok(&t));
        assert_eq!(parse(&print(&t)), Ok(t));
    }
}
