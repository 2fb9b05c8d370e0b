//! Precedence and associativity, stated on flat expressions.
//!
//! A flat expression is a literal followed by any number of steps, each an
//! operator among `+ - * / %` and a literal, with no parentheses.  Read by
//! hand, `* / %` bind tighter than `+ -`, and operators of one kind group
//! from the left; [`grouped`] is that reading, and the parser agrees.
use vstd::prelude::*;
use crate::env::EnvironmentView;
use crate::error::EvalErrorView;
use crate::eval::Arithmetic;
use crate::eval::evaluates_to;
use crate::eval::Outcome;
use crate::eval::text_evaluates_to;
use crate::eval::tokens_evaluate_to;
use crate::expr::ExpressionView;
use crate::lexer::tokenize_spec;
use crate::parser::is_additive;
use crate::parser::is_multiplicative;
use crate::parser::parse_spec;
use crate::printer::bare_tokens;
use crate::printer::level;
use crate::printer::tokens_of;
use crate::roundtrip::lemma_parse_inverts_print;
use crate::spelling::is_numeral;
use crate::spelling::well_spelled;
use crate::token::Operator;
use crate::token::TokenView;
use crate::writer::lemma_tokenize_inverts_spelling;
use crate::writer::valid_tokens;
use crate::writer::written;

verus! {

/// An operator and the literal that follows it.
pub type Step = (Operator, Seq<char>);

/// Every operator of `rest` is one of `+ - * / %`.
pub open spec fn basic(rest: Seq<Step>) -> bool {
    forall|i: int| 0 <= i < rest.len() ==> is_additive(#[trigger] rest[i].0) || is_multiplicative(
        rest[i].0,
    )
}

/// The tokens of the flat expression `first rest[0] rest[1] ..`.
pub open spec fn flat_tokens(first: Seq<char>, rest: Seq<Step>) -> Seq<TokenView>
    decreases rest.len(),
{
    if rest.len() == 0 {
        seq![TokenView::Number(first)]
    } else {
        flat_tokens(first, rest.drop_last()) + seq![
            TokenView::Operator(rest.last().0),
            TokenView::Number(rest.last().1),
        ]
    }
}

/// The steps applied one after the other, from the left:
/// `((first op0 lit0) op1 lit1) ..`.
pub open spec fn folded(first: Seq<char>, rest: Seq<Step>) -> ExpressionView
    decreases rest.len(),
{
    if rest.len() == 0 {
        ExpressionView::Literal(first)
    } else {
        ExpressionView::BinaryOp(
            rest.last().0,
            Box::new(folded(first, rest.drop_last())),
            Box::new(ExpressionView::Literal(rest.last().1)),
        )
    }
}

/// The index of the last `+` or `-` among the steps, or -1.
pub open spec fn last_additive(rest: Seq<Step>) -> int
    decreases rest.len(),
{
    if rest.len() == 0 {
        -1
    } else if is_additive(rest.last().0) {
        rest.len() - 1
    } else {
        last_additive(rest.drop_last())
    }
}

/// The flat expression as precedence and associativity group it: the last
/// `+` or `-` is the root, what stands before it is grouped in the same
/// way, and what stands behind it is a product folded from the left.
pub open spec fn grouped(first: Seq<char>, rest: Seq<Step>) -> ExpressionView
    decreases rest.len(),
{
    let k = last_additive(rest);
    if 0 <= k < rest.len() {
        ExpressionView::BinaryOp(
            rest[k].0,
            Box::new(grouped(first, rest.take(k))),
            Box::new(folded(rest[k].1, rest.skip(k + 1))),
        )
    } else {
        folded(first, rest)
    }
}

proof fn lemma_last_additive(rest: Seq<Step>)
    ensures
        -1 <= last_additive(rest) < rest.len(),
        last_additive(rest) >= 0 ==> is_additive(rest[last_additive(rest)].0),
        forall|i: int| last_additive(rest) < i < rest.len() ==> !is_additive(#[trigger] rest[i].0),
    decreases rest.len(),
{
    if rest.len() > 0 && !is_additive(rest.last().0) {
        let shorter = rest.drop_last();
        lemma_last_additive(shorter);
        assert forall|i: int| last_additive(rest) < i < rest.len() implies !is_additive(
            #[trigger] rest[i].0,
        ) by {
            if i < shorter.len() {
                assert(shorter[i] == rest[i]);
            }
        }
    }
}

/// A product folded from the left is written without parentheses.
proof fn lemma_folded_tokens(first: Seq<char>, rest: Seq<Step>)
    requires
        forall|i: int| 0 <= i < rest.len() ==> is_multiplicative(#[trigger] rest[i].0),
    ensures
        tokens_of(folded(first, rest), 1) == flat_tokens(first, rest),
        tokens_of(folded(first, rest), 0) == flat_tokens(first, rest),
    decreases rest.len(),
{
    if rest.len() == 0 {
        let e = folded(first, rest);
        assert(tokens_of(e, 1) == bare_tokens(e));
        assert(tokens_of(e, 0) == bare_tokens(e));
    } else {
        let shorter = rest.drop_last();
        assert forall|i: int| 0 <= i < shorter.len() implies is_multiplicative(
            #[trigger] shorter[i].0,
        ) by {
            assert(shorter[i] == rest[i]);
        }
        lemma_folded_tokens(first, shorter);
        let op = rest.last().0;
        assert(is_multiplicative(rest[rest.len() - 1].0));
        let e = folded(first, rest);
        let operand = ExpressionView::Literal(rest.last().1);
        assert(level(e) == 1);
        assert(tokens_of(operand, 2) == bare_tokens(operand));
        assert(bare_tokens(operand) == seq![TokenView::Number(rest.last().1)]);
        assert(bare_tokens(e) =~= flat_tokens(first, rest));
    }
}

/// The tokens of a flat expression, cut at step `k`.
proof fn lemma_flat_split(first: Seq<char>, rest: Seq<Step>, k: int)
    requires
        0 <= k < rest.len(),
    ensures
        flat_tokens(first, rest) == flat_tokens(first, rest.take(k)) + seq![
            TokenView::Operator(rest[k].0),
        ] + flat_tokens(rest[k].1, rest.skip(k + 1)),
    decreases rest.len(),
{
    let shorter = rest.drop_last();
    if k == rest.len() - 1 {
        assert(rest.take(k) =~= shorter);
        assert(rest.skip(k + 1) =~= Seq::empty());
        assert(flat_tokens(first, rest) =~= flat_tokens(first, rest.take(k)) + seq![
            TokenView::Operator(rest[k].0),
        ] + flat_tokens(rest[k].1, rest.skip(k + 1)));
    } else {
        lemma_flat_split(first, shorter, k);
        assert(shorter.take(k) =~= rest.take(k));
        assert(shorter[k] == rest[k]);
        assert(rest.skip(k + 1).drop_last() =~= shorter.skip(k + 1));
        assert(rest.skip(k + 1).last() == rest.last());
        assert(flat_tokens(first, rest) =~= flat_tokens(first, rest.take(k)) + seq![
            TokenView::Operator(rest[k].0),
        ] + flat_tokens(rest[k].1, rest.skip(k + 1)));
    }
}

/// The grouped tree is written without parentheses, as the flat expression
/// itself.
pub proof fn lemma_grouped_tokens(first: Seq<char>, rest: Seq<Step>)
    requires
        basic(rest),
    ensures
        tokens_of(grouped(first, rest), 0) == flat_tokens(first, rest),
    decreases rest.len(),
{
    lemma_last_additive(rest);
    let k = last_additive(rest);
    if 0 <= k < rest.len() {
        let before = rest.take(k);
        let after = rest.skip(k + 1);
        assert forall|i: int| 0 <= i < before.len() implies is_additive(#[trigger] before[i].0)
            || is_multiplicative(before[i].0) by {
            assert(before[i] == rest[i]);
        }
        assert forall|i: int| 0 <= i < after.len() implies is_multiplicative(
            #[trigger] after[i].0,
        ) by {
            assert(after[i] == rest[k + 1 + i]);
        }
        lemma_grouped_tokens(first, before);
        lemma_folded_tokens(rest[k].1, after);
        lemma_flat_split(first, rest, k);
    } else {
        assert forall|i: int| 0 <= i < rest.len() implies is_multiplicative(#[trigger] rest[i].0) by {
            assert(!is_additive(rest[i].0));
        }
        lemma_folded_tokens(first, rest);
    }
}

/// Precedence and associativity: a flat expression is parsed as the tree
/// that groups it by hand.
pub proof fn lemma_flat_expression_parses_as_grouped(first: Seq<char>, rest: Seq<Step>)
    requires
        basic(rest),
    ensures
        parse_spec(flat_tokens(first, rest) + seq![TokenView::End]) == Ok::<
            ExpressionView,
            EvalErrorView,
        >(grouped(first, rest)),
{
    lemma_grouped_tokens(first, rest);
    lemma_parse_inverts_print(grouped(first, rest));
}

/// The results of evaluating a flat expression are the results of
/// evaluating the tree that groups it by hand.
pub proof fn lemma_flat_expression_value(
    arithmetic: Arithmetic,
    env: EnvironmentView,
    first: Seq<char>,
    rest: Seq<Step>,
    out: Outcome,
)
    requires
        basic(rest),
    ensures
        tokens_evaluate_to(arithmetic, env, flat_tokens(first, rest) + seq![TokenView::End], out)
            == evaluates_to(arithmetic, env, grouped(first, rest), out),
{
    lemma_flat_expression_parses_as_grouped(first, rest);
}

/// Every literal of the flat expression is a numeral.
pub open spec fn numerals(first: Seq<char>, rest: Seq<Step>) -> bool {
    is_numeral(first) && forall|i: int| 0 <= i < rest.len() ==> is_numeral(#[trigger] rest[i].1)
}

/// The text of the flat expression: `first op0 lit0 op1 lit1 ..`, with a
/// blank on either side of each operator.
pub open spec fn flat_text(first: Seq<char>, rest: Seq<Step>) -> Seq<char> {
    written(flat_tokens(first, rest) + seq![TokenView::End])
}

/// The tokens of a flat expression of numerals are well spelled.
proof fn lemma_flat_tokens_spelled(first: Seq<char>, rest: Seq<Step>)
    requires
        numerals(first, rest),
    ensures
        flat_tokens(first, rest).len() > 0,
        forall|i: int|
            0 <= i < flat_tokens(first, rest).len() ==> well_spelled(
                #[trigger] flat_tokens(first, rest)[i],
            ),
    decreases rest.len(),
{
    if rest.len() > 0 {
        let shorter = rest.drop_last();
        assert forall|i: int| 0 <= i < shorter.len() implies is_numeral(#[trigger] shorter[i].1) by {
            assert(shorter[i] == rest[i]);
        }
        lemma_flat_tokens_spelled(first, shorter);
        assert(is_numeral(rest[rest.len() - 1].1));
        let before = flat_tokens(first, shorter);
        let whole = flat_tokens(first, rest);
        assert forall|i: int| 0 <= i < whole.len() implies well_spelled(#[trigger] whole[i]) by {
            if i < before.len() {
                assert(whole[i] == before[i]);
            }
        }
    }
}

/// Precedence and associativity, on text: the lexer and the parser read a
/// flat expression of numerals as the tree that groups it by hand, so its
/// results are the results of that tree.
pub proof fn lemma_flat_text_value(
    arithmetic: Arithmetic,
    env: EnvironmentView,
    first: Seq<char>,
    rest: Seq<Step>,
    out: Outcome,
)
    requires
        basic(rest),
        numerals(first, rest),
    ensures
        tokenize_spec(flat_text(first, rest)) == Ok::<Seq<TokenView>, EvalErrorView>(
            flat_tokens(first, rest) + seq![TokenView::End],
        ),
        parse_spec(flat_tokens(first, rest) + seq![TokenView::End]) == Ok::<
            ExpressionView,
            EvalErrorView,
        >(grouped(first, rest)),
        text_evaluates_to(arithmetic, env, flat_text(first, rest), out) == evaluates_to(
            arithmetic,
            env,
            grouped(first, rest),
            out,
        ),
{
    let body = flat_tokens(first, rest);
    let ts = body + seq![TokenView::End];
    lemma_flat_tokens_spelled(first, rest);
    assert(valid_tokens(ts)) by {
        assert(ts.last() == TokenView::End);
        assert forall|i: int| 0 <= i < ts.len() - 1 implies well_spelled(#[trigger] ts[i]) by {
            assert(ts[i] == body[i]);
        }
    }
    lemma_tokenize_inverts_spelling(ts);
    lemma_flat_expression_parses_as_grouped(first, rest);
}

} // verus!
