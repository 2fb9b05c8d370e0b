use rs_eval::tokenize;
use rs_eval::EvalError;
use rs_eval::LexDetail;
use rs_eval::Operator;
use rs_eval::Token;

fn num(text: &str) -> Token {
    Token::Number(String::from(text))
}

fn ident(text: &str) -> Token {
    Token::Identifier(String::from(text))
}

fn lex_error(position: usize, detail: LexDetail) -> Result<Vec<Token>, EvalError> {
    Err(EvalError::LexError { position, detail })
}

#[test]
fn empty_text_is_just_the_end() {
    assert_eq!(tokenize(""), Ok(vec![Token::End]));
    assert_eq!(tokenize(" \t\r\n"), Ok(vec![Token::End]));
}

#[test]
fn every_operator_and_punctuation_mark() {
    assert_eq!(
        tokenize("+-*/%^(),"),
        Ok(vec![
            Token::Operator(Operator::Plus),
            Token::Operator(Operator::Minus),
            Token::Operator(Operator::Star),
            Token::Operator(Operator::Slash),
            Token::Operator(Operator::Percent),
            Token::Operator(Operator::Caret),
            Token::LeftParen,
            Token::RightParen,
            Token::Comma,
            Token::End,
        ])
    );
}

#[test]
fn numbers_keep_their_spelling() {
    assert_eq!(tokenize("007"), Ok(vec![num("007"), Token::End]));
    assert_eq!(tokenize("3.14"), Ok(vec![num("3.14"), Token::End]));
    assert_eq!(tokenize("1."), Ok(vec![num("1."), Token::End]));
    assert_eq!(tokenize("1e10"), Ok(vec![num("1e10"), Token::End]));
    assert_eq!(tokenize("1.5E-3"), Ok(vec![num("1.5E-3"), Token::End]));
    assert_eq!(tokenize("2e+7"), Ok(vec![num("2e+7"), Token::End]));
    assert_eq!(tokenize("1.e2"), Ok(vec![num("1.e2"), Token::End]));
}

#[test]
fn a_sign_is_never_part_of_a_number() {
    assert_eq!(
        tokenize("2-3"),
        Ok(vec![num("2"), Token::Operator(Operator::Minus), num("3"), Token::End])
    );
    assert_eq!(
        tokenize("2 -3"),
        Ok(vec![num("2"), Token::Operator(Operator::Minus), num("3"), Token::End])
    );
    assert_eq!(tokenize("-3"), Ok(vec![Token::Operator(Operator::Minus), num("3"), Token::End]));
}

#[test]
fn identifiers_take_letters_digits_and_underscores() {
    assert_eq!(tokenize("x"), Ok(vec![ident("x"), Token::End]));
    assert_eq!(tokenize("_a1_B2"), Ok(vec![ident("_a1_B2"), Token::End]));
    assert_eq!(tokenize("sin cos"), Ok(vec![ident("sin"), ident("cos"), Token::End]));
    assert_eq!(tokenize("e"), Ok(vec![ident("e"), Token::End]));
}

#[test]
fn a_number_ends_where_a_letter_begins() {
    assert_eq!(tokenize("2x"), Ok(vec![num("2"), ident("x"), Token::End]));
    assert_eq!(tokenize("2 e3"), Ok(vec![num("2"), ident("e3"), Token::End]));
}

#[test]
fn a_call_is_four_kinds_of_token() {
    assert_eq!(
        tokenize("max(1, x)"),
        Ok(vec![
            ident("max"),
            Token::LeftParen,
            num("1"),
            Token::Comma,
            ident("x"),
            Token::RightParen,
            Token::End,
        ])
    );
}

#[test]
fn a_second_decimal_point_is_malformed() {
    assert_eq!(tokenize("1.2.3"), lex_error(3, LexDetail::MalformedNumber));
    assert_eq!(tokenize("1.."), lex_error(2, LexDetail::MalformedNumber));
    assert_eq!(tokenize("  4 + 1.5.0"), lex_error(9, LexDetail::MalformedNumber));
}

#[test]
fn an_exponent_without_digits_is_malformed() {
    assert_eq!(tokenize("1e"), lex_error(2, LexDetail::MalformedNumber));
    assert_eq!(tokenize("1e+"), lex_error(3, LexDetail::MalformedNumber));
    assert_eq!(tokenize("1e-x"), lex_error(3, LexDetail::MalformedNumber));
    assert_eq!(tokenize("1ex"), lex_error(2, LexDetail::MalformedNumber));
    assert_eq!(tokenize("2.5E )"), lex_error(4, LexDetail::MalformedNumber));
}

#[test]
fn a_decimal_point_cannot_start_a_token() {
    assert_eq!(tokenize(".5"), lex_error(0, LexDetail::UnexpectedCharacter('.')));
}

#[test]
fn an_unknown_character_is_named_with_its_offset() {
    assert_eq!(tokenize("2 $ 3"), lex_error(2, LexDetail::UnexpectedCharacter('$')));
    assert_eq!(tokenize("a = 1"), lex_error(2, LexDetail::UnexpectedCharacter('=')));
    assert_eq!(tokenize("#"), lex_error(0, LexDetail::UnexpectedCharacter('#')));
}

#[test]
fn offsets_count_characters() {
    assert_eq!(tokenize("1 + é"), lex_error(4, LexDetail::UnexpectedCharacter('é')));
    assert_eq!(tokenize("é é"), lex_error(0, LexDetail::UnexpectedCharacter('é')));
    assert_eq!(tokenize("1 × 2 $"), lex_error(2, LexDetail::UnexpectedCharacter('×')));
}

#[test]
fn the_first_error_wins() {
    assert_eq!(tokenize("1.2.3 $"), lex_error(3, LexDetail::MalformedNumber));
    assert_eq!(tokenize("$ 1.2.3"), lex_error(0, LexDetail::UnexpectedCharacter('$')));
}
