//! A small arithmetic-expression evaluator whose parsing and evaluation rules
//! are proved.
//!
//! Text is split into tokens ([`tokenize`]), tokens are parsed into an
//! [`Expression`] by precedence climbing ([`parse`]), and the tree is folded
//! into a [`Number`] ([`evaluate_expression`]).  Numbers are IEEE 754 binary64
//! values carried as bit patterns: the library decides *which* operations are
//! applied to *which* operands and in *what order*, and asks the caller's
//! arithmetic for each single operation.
pub mod number;
pub mod token;
pub mod error;
pub mod text;
pub mod lexer;
pub mod spelling;
pub mod expr;
pub mod parser;
pub mod env;
pub mod eval;
pub mod laws;
pub mod printer;
pub mod writer;
pub mod wellformed;
pub mod roundtrip;
pub mod precedence;
pub mod report;

pub use crate::env::Environment;
pub use crate::env::EnvironmentView;
pub use crate::error::EvalError;
pub use crate::error::EvalErrorView;
pub use crate::error::LexDetail;
pub use crate::eval::Request;
pub use crate::eval::RequestView;
pub use crate::eval::apply_operator;
pub use crate::eval::evaluate;
pub use crate::eval::evaluate_expression;
pub use crate::eval::parse_eval;
pub use crate::expr::Expression;
pub use crate::expr::ExpressionView;
pub use crate::expr::Sign;
pub use crate::lexer::tokenize;
pub use crate::number::Number;
pub use crate::parser::parse;
pub use crate::printer::print;
pub use crate::report::calculate;
pub use crate::report::render;
pub use crate::token::Operator;
pub use crate::token::Token;
pub use crate::token::TokenView;
pub use crate::writer::pretty;
pub use crate::writer::spell_out;
