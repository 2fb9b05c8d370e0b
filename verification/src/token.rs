//! Tokens: the smallest lexical units of an expression.
use vstd::prelude::*;
use crate::text::copy_string;
use crate::text::push_all;

verus! {

/// The operator symbols `+ - * / % ^`.
#[derive(Clone, Copy, Debug, PartialEq, Eq, Structural)]
pub enum Operator {
    Plus,
    Minus,
    Star,
    Slash,
    Percent,
    Caret,
}

/// One token of input.  A number keeps its spelling; its value is not needed
/// before evaluation.
#[derive(Clone, Debug, PartialEq, Eq)]
pub enum Token {
    Number(String),
    Identifier(String),
    Operator(Operator),
    LeftParen,
    RightParen,
    Comma,
    End,
}

/// The mathematical content of a [`Token`].
pub enum TokenView {
    Number(Seq<char>),
    Identifier(Seq<char>),
    Operator(Operator),
    LeftParen,
    RightParen,
    Comma,
    End,
}

impl View for Token {
    type V = TokenView;

    open spec fn view(&self) -> TokenView {
        match self {
            Token::Number(s) => TokenView::Number(s@),
            Token::Identifier(s) => TokenView::Identifier(s@),
            Token::Operator(op) => TokenView::Operator(*op),
            Token::LeftParen => TokenView::LeftParen,
            Token::RightParen => TokenView::RightParen,
            Token::Comma => TokenView::Comma,
            Token::End => TokenView::End,
        }
    }
}

/// The character that an operator is written as.
pub open spec fn operator_char(op: Operator) -> char {
    match op {
        Operator::Plus => '+',
        Operator::Minus => '-',
        Operator::Star => '*',
        Operator::Slash => '/',
        Operator::Percent => '%',
        Operator::Caret => '^',
    }
}

impl TokenView {
    /// How the token is written in a text.  The end of the input is written
    /// as nothing.
    pub open spec fn spelling(self) -> Seq<char> {
        match self {
            TokenView::Number(s) => s,
            TokenView::Identifier(s) => s,
            TokenView::Operator(op) => seq![operator_char(op)],
            TokenView::LeftParen => seq!['('],
            TokenView::RightParen => seq![')'],
            TokenView::Comma => seq![','],
            TokenView::End => Seq::empty(),
        }
    }
}

/// The contents of a token sequence, token by token.
pub open spec fn token_views(tokens: Seq<Token>) -> Seq<TokenView> {
    tokens.map_values(|t: Token| t@)
}

impl Token {
    /// Appends the token's spelling to `out`.
    pub fn append_to(&self, out: &mut String)
        ensures
            final(out)@ == old(out)@ + self@.spelling(),
    {
        match self {
            Token::Number(s) => push_all(out, s.as_str()),
            Token::Identifier(s) => push_all(out, s.as_str()),
            Token::Operator(op) => {
                let c = match op {
                    Operator::Plus => '+',
                    Operator::Minus => '-',
                    Operator::Star => '*',
                    Operator::Slash => '/',
                    Operator::Percent => '%',
                    Operator::Caret => '^',
                };
                out.push(c);
                assert(old(out)@.push(c) =~= old(out)@ + seq![c]);
            },
            Token::LeftParen => {
                out.push('(');
                assert(old(out)@.push('(') =~= old(out)@ + seq!['(']);
            },
            Token::RightParen => {
                out.push(')');
                assert(old(out)@.push(')') =~= old(out)@ + seq![')']);
            },
            Token::Comma => {
                out.push(',');
                assert(old(out)@.push(',') =~= old(out)@ + seq![',']);
            },
            Token::End => {
                assert(old(out)@ =~= old(out)@ + Seq::<char>::empty());
            },
        }
    }

    /// A fresh token with the same content.
    pub fn duplicate(&self) -> (t: Token)
        ensures
            t@ == self@,
    {
        match self {
            Token::Number(s) => Token::Number(copy_string(s)),
            Token::Identifier(s) => Token::Identifier(copy_string(s)),
            Token::Operator(op) => Token::Operator(*op),
            Token::LeftParen => Token::LeftParen,
            Token::RightParen => Token::RightParen,
            Token::Comma => Token::Comma,
            Token::End => Token::End,
        }
    }
}

} // verus!
