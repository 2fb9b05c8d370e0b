//! The printer: from an expression tree back to tokens.
//!
//! An operand is put in parentheses exactly where the grammar would
//! otherwise group it differently, so the tokens of a tree are the shortest
//! that the parser reads back as that tree.
use vstd::prelude::*;
use crate::expr::Expression;
use crate::expr::expression_views;
use crate::expr::ExpressionView;
use crate::expr::lemma_call_view;
use crate::expr::Sign;
use crate::parser::is_additive;
use crate::parser::is_multiplicative;
use crate::text::copy_string;
use crate::token::Operator;
use crate::token::Token;
use crate::token::token_views;
use crate::token::TokenView;

verus! {

/// The grammar level of a binary operator: 0 for `+ -`, 1 for `* / %`,
/// 3 for `^`.
pub open spec fn operator_level(op: Operator) -> nat {
    if is_additive(op) {
        0
    } else if is_multiplicative(op) {
        1
    } else {
        3
    }
}

/// The level that the left operand of `op` has to stand at.
pub open spec fn left_level(op: Operator) -> nat {
    if is_additive(op) {
        0
    } else if is_multiplicative(op) {
        1
    } else {
        4
    }
}

/// The level that the right operand of `op` has to stand at.
pub open spec fn right_level(op: Operator) -> nat {
    if is_additive(op) {
        1
    } else {
        2
    }
}

/// The grammar level at which a tree stands without parentheses: 0 for a
/// sum, 1 for a term, 2 for a signed operand, 3 for a power, 4 for a
/// primary.
pub open spec fn level(e: ExpressionView) -> nat {
    match e {
        ExpressionView::BinaryOp(op, _, _) => operator_level(op),
        ExpressionView::UnaryOp(_, _) => 2,
        _ => 4,
    }
}

/// The operator that a sign is written as.
pub open spec fn sign_operator(sign: Sign) -> Operator {
    match sign {
        Sign::Plus => Operator::Plus,
        Sign::Minus => Operator::Minus,
    }
}

/// The tokens of `e` where the grammar asks for level `min` or tighter:
/// in parentheses if `e` binds looser than that.
pub open spec fn tokens_of(e: ExpressionView, min: nat) -> Seq<TokenView>
    decreases e, 1nat,
{
    if level(e) < min {
        seq![TokenView::LeftParen] + bare_tokens(e) + seq![TokenView::RightParen]
    } else {
        bare_tokens(e)
    }
}

/// The tokens of `e` without parentheses around the whole.
pub open spec fn bare_tokens(e: ExpressionView) -> Seq<TokenView>
    decreases e, 0nat,
{
    match e {
        ExpressionView::Literal(s) => seq![TokenView::Number(s)],
        ExpressionView::Variable(name) => seq![TokenView::Identifier(name)],
        ExpressionView::UnaryOp(sign, operand) => seq![
            TokenView::Operator(sign_operator(sign)),
        ] + tokens_of(*operand, 2),
        ExpressionView::BinaryOp(op, left, right) => tokens_of(*left, left_level(op)) + seq![
            TokenView::Operator(op),
        ] + tokens_of(*right, right_level(op)),
        ExpressionView::Call(name, args) => seq![
            TokenView::Identifier(name),
            TokenView::LeftParen,
        ] + argument_tokens(args, args.len()) + seq![TokenView::RightParen],
    }
}

/// The tokens of the first `count` of `args`, with commas between them.
pub open spec fn argument_tokens(args: Seq<ExpressionView>, count: nat) -> Seq<TokenView>
    decreases args, count,
{
    if count == 0 || count > args.len() {
        Seq::empty()
    } else if count == 1 {
        tokens_of(args[0], 0)
    } else {
        argument_tokens(args, (count - 1) as nat) + seq![TokenView::Comma] + tokens_of(
            args[count - 1],
            0,
        )
    }
}

/// The token sequence of a whole expression, closed by the end marker.
pub open spec fn print_spec(e: ExpressionView) -> Seq<TokenView> {
    tokens_of(e, 0) + seq![TokenView::End]
}

fn level_of(e: &Expression) -> (l: usize)
    ensures
        l == level(e@),
{
    match e {
        Expression::BinaryOp(op, _, _) => match op {
            Operator::Plus => 0,
            Operator::Minus => 0,
            Operator::Star => 1,
            Operator::Slash => 1,
            Operator::Percent => 1,
            Operator::Caret => 3,
        },
        Expression::UnaryOp(_, _) => 2,
        Expression::Literal(_) => 4,
        Expression::Variable(_) => 4,
        Expression::Call(_, _) => 4,
    }
}

/// Appends one token.
fn emit(out: &mut Vec<Token>, t: Token)
    ensures
        token_views(final(out)@) == token_views(old(out)@) + seq![t@],
{
    out.push(t);
    assert(token_views(out@) =~= token_views(old(out)@) + seq![t@]);
}

/// Appends the tokens of `e` for a place that asks for level `min`.
fn write_tokens(e: &Expression, min: usize, out: &mut Vec<Token>)
    ensures
        token_views(final(out)@) == token_views(old(out)@) + tokens_of(e@, min as nat),
    decreases e, 1nat,
{
    if level_of(e) < min {
        emit(out, Token::LeftParen);
        write_bare(e, out);
        emit(out, Token::RightParen);
        assert(token_views(out@) =~= token_views(old(out)@) + tokens_of(e@, min as nat));
    } else {
        write_bare(e, out);
    }
}

/// Appends the tokens of `e` without parentheses around the whole.
fn write_bare(e: &Expression, out: &mut Vec<Token>)
    ensures
        token_views(final(out)@) == token_views(old(out)@) + bare_tokens(e@),
    decreases e, 0nat,
{
    match e {
        Expression::Literal(s) => {
            emit(out, Token::Number(copy_string(s)));
        },
        Expression::Variable(name) => {
            emit(out, Token::Identifier(copy_string(name)));
        },
        Expression::UnaryOp(sign, operand) => {
            let op = match sign {
                Sign::Plus => Operator::Plus,
                Sign::Minus => Operator::Minus,
            };
            emit(out, Token::Operator(op));
            write_tokens(operand, 2, out);
            assert(token_views(out@) =~= token_views(old(out)@) + bare_tokens(e@));
        },
        Expression::BinaryOp(op, left, right) => {
            let (l, r): (usize, usize) = match op {
                Operator::Plus => (0, 1),
                Operator::Minus => (0, 1),
                Operator::Star => (1, 2),
                Operator::Slash => (1, 2),
                Operator::Percent => (1, 2),
                Operator::Caret => (4, 2),
            };
            write_tokens(left, l, out);
            emit(out, Token::Operator(*op));
            write_tokens(right, r, out);
            assert(token_views(out@) =~= token_views(old(out)@) + bare_tokens(e@));
        },
        Expression::Call(name, args) => {
            proof {
                lemma_call_view(*name, *args);
            }
            emit(out, Token::Identifier(copy_string(name)));
            emit(out, Token::LeftParen);
            write_arguments(args, out);
            emit(out, Token::RightParen);
            assert(token_views(out@) =~= token_views(old(out)@) + bare_tokens(e@));
        },
    }
}

/// Appends the tokens of `args`, with commas between them.
fn write_arguments(args: &Vec<Expression>, out: &mut Vec<Token>)
    ensures
        token_views(final(out)@) == token_views(old(out)@) + argument_tokens(
            expression_views(args@),
            args@.len(),
        ),
    decreases args,
{
    let ghost views = expression_views(args@);
    let ghost before = token_views(out@);
    let mut i: usize = 0;
    assert(before =~= before + argument_tokens(views, 0));
    while i < args.len()
        invariant
            i <= args.len(),
            views == expression_views(args@),
            token_views(out@) == before + argument_tokens(views, i as nat),
        decreases args.len() - i,
    {
        let ghost so_far = token_views(out@);
        if i > 0 {
            emit(out, Token::Comma);
        }
        write_tokens(&args[i], 0, out);
        proof {
            assert(views[i as int] == args@[i as int]@);
            assert(token_views(out@) =~= before + argument_tokens(views, (i + 1) as nat));
        }
        i += 1;
    }
}

/// The tokens of `e`, with parentheses only where the grammar needs them,
/// closed by [`Token::End`].
pub fn print(e: &Expression) -> (tokens: Vec<Token>)
    ensures
        token_views(tokens@) == print_spec(e@),
{
    let mut tokens: Vec<Token> = Vec::new();
    assert(token_views(tokens@) =~= Seq::empty());
    write_tokens(e, 0, &mut tokens);
    emit(&mut tokens, Token::End);
    assert(token_views(tokens@) =~= print_spec(e@));
    tokens
}

} // verus!
