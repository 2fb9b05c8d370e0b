use rs_eval::pretty;
use rs_eval::spell_out;
use rs_eval::tokenize;
use rs_eval::Expression;
use rs_eval::Operator;
use rs_eval::Sign;
use rs_eval::Token;

fn again(text: &str) -> String {
    spell_out(&tokenize(text).unwrap())
}

#[test]
fn the_end_marker_is_written_as_nothing() {
    assert_eq!(spell_out(&vec![Token::End]), "");
    assert_eq!(spell_out(&vec![]), "");
    assert_eq!(spell_out(&vec![Token::Number(String::from("1")), Token::End]), "1");
}

#[test]
fn binary_operators_stand_between_blanks() {
    assert_eq!(again("1+2"), "1 + 2");
    assert_eq!(again("1  -  2"), "1 - 2");
    assert_eq!(again("a*b/c%d^e"), "a * b / c % d ^ e");
}

#[test]
fn a_sign_stands_directly_before_its_operand() {
    assert_eq!(again("- 1"), "-1");
    assert_eq!(again("+ x"), "+x");
    assert_eq!(again("2 * - 3"), "2 * -3");
    assert_eq!(again("2 - - 3"), "2 - -3");
    assert_eq!(again("- - x"), "--x");
    assert_eq!(again("( - x )"), "(-x)");
    assert_eq!(again("f( - x , + y )"), "f(-x, +y)");
    assert_eq!(again("- ( 1 )"), "-(1)");
}

#[test]
fn parentheses_and_commas_hug_what_they_enclose() {
    assert_eq!(again("( 1 + 2 ) * 3"), "(1 + 2) * 3");
    assert_eq!(again("max ( 1 , 2 )"), "max(1, 2)");
    assert_eq!(again("f ( )"), "f()");
    assert_eq!(again("( ( x ) )"), "((x))");
    assert_eq!(again("2 * ( 3 )"), "2 * (3)");
}

#[test]
fn numerals_are_written_as_they_were_spelled() {
    assert_eq!(again("007 + 1.50 * 2E+3"), "007 + 1.50 * 2E+3");
    assert_eq!(again("1. + 1.e2"), "1. + 1.e2");
}

#[test]
fn what_was_written_is_read_as_the_same_tokens() {
    let texts = [
        "",
        "1",
        "-1",
        "1 + 2 * 3",
        "f(x, -y) ^ (2 - -3)",
        "a b c",
        "1 2 (3) )(",
        "x (1)",
        ", , ,",
        "2e5 e 5",
        "1.5.x" ,
    ];
    for text in texts {
        if let Ok(tokens) = tokenize(text) {
            assert_eq!(tokenize(&spell_out(&tokens)), Ok(tokens), "for {:?}", text);
        }
    }
}

#[test]
fn a_tree_as_text() {
    let two = || Expression::Literal(String::from("2"));
    let power = Expression::BinaryOp(Operator::Caret, Box::new(two()), Box::new(two()));
    let negative = Expression::UnaryOp(Sign::Minus, Box::new(power));
    assert_eq!(pretty(&negative), "-2 ^ 2");
    let base = Expression::UnaryOp(Sign::Minus, Box::new(two()));
    let squared = Expression::BinaryOp(Operator::Caret, Box::new(base), Box::new(two()));
    assert_eq!(pretty(&squared), "(-2) ^ 2");
    let call = Expression::Call(
        String::from("max"),
        vec![Expression::Variable(String::from("pi")), squared],
    );
    assert_eq!(pretty(&call), "max(pi, (-2) ^ 2)");
}
