//! Trees whose literals and names are spelled as the lexer reads them.
//!
//! Every tree that comes out of [`crate::parser::parse`] on the lexer's
//! tokens is of this kind, and only such a tree can be written as text and
//! read again.
use vstd::prelude::*;
use crate::expr::ExpressionView;
use crate::parser::arguments_at;
use crate::parser::forward;
use crate::parser::is_additive;
use crate::parser::is_multiplicative;
use crate::parser::parse_spec;
use crate::parser::Parsed;
use crate::parser::peek;
use crate::parser::power_at;
use crate::parser::primary_at;
use crate::parser::sum_at;
use crate::parser::sum_tail;
use crate::parser::term_at;
use crate::parser::term_tail;
use crate::parser::unary_at;
use crate::printer::argument_tokens;
use crate::printer::bare_tokens;
use crate::printer::left_level;
use crate::printer::level;
use crate::printer::print_spec;
use crate::printer::right_level;
use crate::printer::sign_operator;
use crate::printer::tokens_of;
use crate::spelling::is_name;
use crate::spelling::is_numeral;
use crate::spelling::well_spelled;
use crate::token::Operator;
use crate::token::TokenView;
use crate::writer::valid_tokens;

verus! {

/// Every literal of the tree is a numeral, and every name an identifier.
pub open spec fn well_formed(e: ExpressionView) -> bool
    decreases e,
{
    match e {
        ExpressionView::Literal(l) => is_numeral(l),
        ExpressionView::Variable(name) => is_name(name),
        ExpressionView::UnaryOp(_, operand) => well_formed(*operand),
        ExpressionView::BinaryOp(_, left, right) => well_formed(*left) && well_formed(*right),
        ExpressionView::Call(name, args) => is_name(name) && forall|i: int|
            0 <= i < args.len() ==> well_formed(#[trigger] args[i]),
    }
}

/// Every expression of the sequence is well formed.
pub open spec fn all_well_formed(es: Seq<ExpressionView>) -> bool {
    forall|i: int| 0 <= i < es.len() ==> well_formed(#[trigger] es[i])
}

/// Every token but an end marker is well spelled.
pub open spec fn spelled(ts: Seq<TokenView>) -> bool {
    forall|i: int| 0 <= i < ts.len() ==> (#[trigger] ts[i]) is End || well_spelled(ts[i])
}

/// Every token is well spelled, so none is an end marker.
pub open spec fn all_spelled(ts: Seq<TokenView>) -> bool {
    forall|i: int| 0 <= i < ts.len() ==> well_spelled(#[trigger] ts[i])
}

/// A result whose tree, if there is one, is well formed.
pub open spec fn gives_well_formed(r: Parsed) -> bool {
    r matches Ok((e, _)) ==> well_formed(e)
}

/// Folding well-formed operands gives a well-formed tree.
proof fn lemma_tails_well_formed(ts: Seq<TokenView>, pos: nat, left: ExpressionView)
    requires
        spelled(ts),
        well_formed(left),
    ensures
        gives_well_formed(sum_tail(ts, pos, left)),
        gives_well_formed(term_tail(ts, pos, left)),
    decreases ts.len() - pos, 0nat,
{
    match peek(ts, pos) {
        TokenView::Operator(op) => {
            if is_additive(op) {
                lemma_parsed_well_formed(ts, pos + 1);
                if let Ok((right, p)) = forward(ts, pos, term_at(ts, pos + 1)) {
                    lemma_tails_well_formed(
                        ts,
                        p,
                        ExpressionView::BinaryOp(op, Box::new(left), Box::new(right)),
                    );
                }
            }
            if is_multiplicative(op) {
                lemma_parsed_well_formed(ts, pos + 1);
                if let Ok((right, p)) = forward(ts, pos, unary_at(ts, pos + 1)) {
                    lemma_tails_well_formed(
                        ts,
                        p,
                        ExpressionView::BinaryOp(op, Box::new(left), Box::new(right)),
                    );
                }
            }
        },
        _ => {},
    }
}

/// Arguments read behind well-formed ones are well formed.
proof fn lemma_arguments_well_formed(ts: Seq<TokenView>, pos: nat, done: Seq<ExpressionView>)
    requires
        spelled(ts),
        all_well_formed(done),
    ensures
        arguments_at(ts, pos, done) matches Ok((args, _)) ==> all_well_formed(args),
    decreases ts.len() - pos, 1nat,
{
    lemma_parsed_well_formed(ts, pos);
    if let Ok((argument, p)) = forward(ts, pos, sum_at(ts, pos)) {
        let more = done.push(argument);
        assert forall|i: int| 0 <= i < more.len() implies well_formed(#[trigger] more[i]) by {
            if i < done.len() {
                assert(more[i] == done[i]);
            }
        }
        if peek(ts, p) == TokenView::Comma {
            lemma_arguments_well_formed(ts, p + 1, more);
        }
    }
}

/// Whatever the grammar reads from well-spelled tokens is well formed.
pub proof fn lemma_parsed_well_formed(ts: Seq<TokenView>, pos: nat)
    requires
        spelled(ts),
    ensures
        gives_well_formed(sum_at(ts, pos)),
        gives_well_formed(term_at(ts, pos)),
        gives_well_formed(unary_at(ts, pos)),
        gives_well_formed(power_at(ts, pos)),
        gives_well_formed(primary_at(ts, pos)),
    decreases ts.len() - pos, 0nat,
{
    // primary
    match peek(ts, pos) {
        TokenView::Number(l) => {
            assert(ts[pos as int] == TokenView::Number(l));
        },
        TokenView::Identifier(name) => {
            assert(ts[pos as int] == TokenView::Identifier(name));
            if peek(ts, pos + 1) == TokenView::LeftParen {
                if peek(ts, pos + 2) != TokenView::RightParen {
                    lemma_arguments_well_formed(ts, pos + 2, Seq::empty());
                }
            }
        },
        TokenView::LeftParen => {
            lemma_parsed_well_formed(ts, pos + 1);
        },
        _ => {},
    }
    assert(gives_well_formed(primary_at(ts, pos)));
    // power
    if let Ok((base, p)) = forward(ts, pos, primary_at(ts, pos)) {
        if peek(ts, p) == TokenView::Operator(Operator::Caret) {
            lemma_parsed_well_formed(ts, p + 1);
        }
    }
    assert(gives_well_formed(power_at(ts, pos)));
    // unary
    match peek(ts, pos) {
        TokenView::Operator(op) => {
            if is_additive(op) {
                lemma_parsed_well_formed(ts, pos + 1);
            }
        },
        _ => {},
    }
    assert(gives_well_formed(unary_at(ts, pos)));
    // term
    if let Ok((left, p)) = forward(ts, pos, unary_at(ts, pos)) {
        lemma_tails_well_formed(ts, p, left);
    }
    assert(gives_well_formed(term_at(ts, pos)));
    // sum
    if let Ok((left, p)) = forward(ts, pos, term_at(ts, pos)) {
        lemma_tails_well_formed(ts, p, left);
    }
}

/// The tree of a valid token sequence is well formed.
pub proof fn lemma_parse_gives_well_formed(ts: Seq<TokenView>)
    requires
        valid_tokens(ts),
    ensures
        parse_spec(ts) matches Ok(e) ==> well_formed(e),
{
    assert(spelled(ts)) by {
        assert forall|i: int| 0 <= i < ts.len() implies (#[trigger] ts[i]) is End || well_spelled(
            ts[i],
        ) by {
            if i < ts.len() - 1 {
                assert(well_spelled(ts[i]));
            }
        }
    }
    lemma_parsed_well_formed(ts, 0);
}

proof fn lemma_all_spelled_concat(a: Seq<TokenView>, b: Seq<TokenView>)
    requires
        all_spelled(a),
        all_spelled(b),
    ensures
        all_spelled(a + b),
{
    let whole = a + b;
    assert forall|i: int| 0 <= i < whole.len() implies well_spelled(#[trigger] whole[i]) by {
        if i < a.len() {
            assert(whole[i] == a[i]);
        } else {
            assert(whole[i] == b[i - a.len()]);
        }
    }
}

/// The printed tokens of a well-formed tree are well spelled.
pub proof fn lemma_printed_is_spelled(e: ExpressionView, min: nat)
    requires
        well_formed(e),
    ensures
        all_spelled(tokens_of(e, min)),
        all_spelled(bare_tokens(e)),
    decreases e, 0nat,
{
    let open = seq![TokenView::LeftParen];
    let close = seq![TokenView::RightParen];
    match e {
        ExpressionView::Literal(l) => {},
        ExpressionView::Variable(name) => {},
        ExpressionView::UnaryOp(sign, operand) => {
            lemma_printed_is_spelled(*operand, 2);
            lemma_all_spelled_concat(
                seq![TokenView::Operator(sign_operator(sign))],
                tokens_of(*operand, 2),
            );
        },
        ExpressionView::BinaryOp(op, left, right) => {
            lemma_printed_is_spelled(*left, left_level(op));
            lemma_printed_is_spelled(*right, right_level(op));
            let l = tokens_of(*left, left_level(op));
            let middle = seq![TokenView::Operator(op)];
            lemma_all_spelled_concat(l, middle);
            lemma_all_spelled_concat(l + middle, tokens_of(*right, right_level(op)));
        },
        ExpressionView::Call(name, args) => {
            lemma_arguments_are_spelled(args, args.len());
            let head = seq![TokenView::Identifier(name), TokenView::LeftParen];
            lemma_all_spelled_concat(head, argument_tokens(args, args.len()));
            lemma_all_spelled_concat(head + argument_tokens(args, args.len()), close);
        },
    }
    assert(all_spelled(bare_tokens(e)));
    if level(e) < min {
        lemma_all_spelled_concat(open, bare_tokens(e));
        lemma_all_spelled_concat(open + bare_tokens(e), close);
    }
}

/// The printed tokens of well-formed arguments are well spelled.
proof fn lemma_arguments_are_spelled(args: Seq<ExpressionView>, count: nat)
    requires
        all_well_formed(args),
    ensures
        all_spelled(argument_tokens(args, count)),
    decreases args, count,
{
    if count == 0 || count > args.len() {
    } else if count == 1 {
        lemma_printed_is_spelled(args[0], 0);
    } else {
        lemma_arguments_are_spelled(args, (count - 1) as nat);
        lemma_printed_is_spelled(args[count - 1], 0);
        let before = argument_tokens(args, (count - 1) as nat);
        let comma = seq![TokenView::Comma];
        lemma_all_spelled_concat(before, comma);
        lemma_all_spelled_concat(before + comma, tokens_of(args[count - 1], 0));
    }
}

/// The token sequence of a well-formed tree is one that the lexer can give.
pub proof fn lemma_print_is_valid(e: ExpressionView)
    requires
        well_formed(e),
    ensures
        valid_tokens(print_spec(e)),
{
    lemma_printed_is_spelled(e, 0);
    let ts = print_spec(e);
    let body = tokens_of(e, 0);
    assert(ts.last() == TokenView::End);
    assert forall|i: int| 0 <= i < ts.len() - 1 implies well_spelled(#[trigger] ts[i]) by {
        assert(ts[i] == body[i]);
    }
}

} // verus!
