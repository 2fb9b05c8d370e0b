//! What can go wrong while reading or evaluating an expression.
use vstd::prelude::*;
use crate::text::decimal;
use crate::text::push_all;
use crate::text::push_decimal;
use crate::token::Token;
use crate::token::TokenView;

verus! {

/// Why the lexer stopped.
#[derive(Clone, Copy, Debug, PartialEq, Eq, Structural)]
pub enum LexDetail {
    /// A character that starts no token.
    UnexpectedCharacter(char),
    /// A numeric literal with a second decimal point, or with an exponent
    /// marker that no digit follows.
    MalformedNumber,
}

/// Every failure of tokenizing, parsing or evaluating.
#[derive(Clone, Debug, PartialEq, Eq)]
pub enum EvalError {
    /// The text cannot be read at offset `position`, counted in characters
    /// from zero: that character starts no token, or a numeric literal stops
    /// being one there.
    LexError { position: usize, detail: LexDetail },
    /// The token at index `position` of the token sequence is not what the
    /// grammar allows there.
    UnexpectedToken { found: Token, position: usize },
    /// The input ended inside an expression.
    UnexpectedEnd,
    /// A name that is not followed by `(` and that the environment binds to
    /// no constant.
    UnknownVariable { name: String },
    /// A name that is called and that the environment declares as no
    /// function.
    UnknownFunction { name: String },
    /// A function that takes `expected` arguments was called with `actual`.
    ArityMismatch { name: String, expected: usize, actual: usize },
    /// The right operand of `/` or `%` is zero.
    DivisionByZero,
}

/// The mathematical content of an [`EvalError`].
pub enum EvalErrorView {
    LexError { position: nat, detail: LexDetail },
    UnexpectedToken { found: TokenView, position: nat },
    UnexpectedEnd,
    UnknownVariable { name: Seq<char> },
    UnknownFunction { name: Seq<char> },
    ArityMismatch { name: Seq<char>, expected: nat, actual: nat },
    DivisionByZero,
}

impl View for EvalError {
    type V = EvalErrorView;

    open spec fn view(&self) -> EvalErrorView {
        match self {
            EvalError::LexError { position, detail } => EvalErrorView::LexError {
                position: *position as nat,
                detail: *detail,
            },
            EvalError::UnexpectedToken { found, position } => EvalErrorView::UnexpectedToken {
                found: found@,
                position: *position as nat,
            },
            EvalError::UnexpectedEnd => EvalErrorView::UnexpectedEnd,
            EvalError::UnknownVariable { name } => EvalErrorView::UnknownVariable { name: name@ },
            EvalError::UnknownFunction { name } => EvalErrorView::UnknownFunction { name: name@ },
            EvalError::ArityMismatch { name, expected, actual } => EvalErrorView::ArityMismatch {
                name: name@,
                expected: *expected as nat,
                actual: *actual as nat,
            },
            EvalError::DivisionByZero => EvalErrorView::DivisionByZero,
        }
    }
}

impl EvalErrorView {
    /// The description of the error in words.
    pub open spec fn message(self) -> Seq<char> {
        match self {
            EvalErrorView::LexError { position, detail } => match detail {
                LexDetail::UnexpectedCharacter(c) => "unexpected character '"@.push(c)
                    + "' at offset "@ + decimal(position),
                LexDetail::MalformedNumber => "malformed number at offset "@ + decimal(position),
            },
            EvalErrorView::UnexpectedToken { found, position } => "unexpected token '"@
                + found.spelling() + "' at position "@ + decimal(position),
            EvalErrorView::UnexpectedEnd => "unexpected end of input"@,
            EvalErrorView::UnknownVariable { name } => "unknown variable '"@ + name + "'"@,
            EvalErrorView::UnknownFunction { name } => "unknown function '"@ + name + "'"@,
            EvalErrorView::ArityMismatch { name, expected, actual } => "function '"@ + name
                + "' takes "@ + decimal(expected) + " arguments, got "@ + decimal(actual),
            EvalErrorView::DivisionByZero => "division by zero"@,
        }
    }
}

impl EvalError {
    /// The description of the error in words.
    pub fn message(&self) -> (text: String)
        ensures
            text@ == self@.message(),
    {
        let mut text = String::new();
        match self {
            EvalError::LexError { position, detail } => match detail {
                LexDetail::UnexpectedCharacter(c) => {
                    push_all(&mut text, "unexpected character '");
                    text.push(*c);
                    push_all(&mut text, "' at offset ");
                    push_decimal(&mut text, *position);
                },
                LexDetail::MalformedNumber => {
                    push_all(&mut text, "malformed number at offset ");
                    push_decimal(&mut text, *position);
                },
            },
            EvalError::UnexpectedToken { found, position } => {
                push_all(&mut text, "unexpected token '");
                found.append_to(&mut text);
                push_all(&mut text, "' at position ");
                push_decimal(&mut text, *position);
            },
            EvalError::UnexpectedEnd => {
                push_all(&mut text, "unexpected end of input");
            },
            EvalError::UnknownVariable { name } => {
                push_all(&mut text, "unknown variable '");
                push_all(&mut text, name.as_str());
                push_all(&mut text, "'");
            },
            EvalError::UnknownFunction { name } => {
                push_all(&mut text, "unknown function '");
                push_all(&mut text, name.as_str());
                push_all(&mut text, "'");
            },
            EvalError::ArityMismatch { name, expected, actual } => {
                push_all(&mut text, "function '");
                push_all(&mut text, name.as_str());
                push_all(&mut text, "' takes ");
                push_decimal(&mut text, *expected);
                push_all(&mut text, " arguments, got ");
                push_decimal(&mut text, *actual);
            },
            EvalError::DivisionByZero => {
                push_all(&mut text, "division by zero");
            },
        }
        assert(text@ =~= self@.message());
        text
    }
}

} // verus!
