//! What holds of evaluation as a whole.
use vstd::prelude::*;
use crate::env::EnvironmentView;
use crate::eval::arguments_evaluate_to;
use crate::eval::Arithmetic;
use crate::eval::arithmetic_of;
use crate::eval::calls;
use crate::eval::combines;
use crate::eval::evaluates_to;
use crate::eval::extends;
use crate::eval::Outcome;
use crate::eval::Outcomes;
use crate::eval::Request;
use crate::eval::RequestView;
use crate::eval::signs;
use crate::eval::text_evaluates_to;
use crate::expr::ExpressionView;
use crate::lexer::tokenize_spec;
use crate::number::Number;
use crate::parser::parse_spec;

verus! {

/// The arithmetic is a function: a request has at most one answer.
pub open spec fn deterministic(arithmetic: Arithmetic) -> bool {
    forall|request: RequestView, v1: Number, v2: Number|
        #[trigger] arithmetic(request, v1) && #[trigger] arithmetic(request, v2) ==> v1 == v2
}

/// A host whose answer depends on the content of the request alone has
/// deterministic arithmetic.
pub proof fn lemma_host_is_deterministic<H: Fn(Request) -> Number>(host: H)
    requires
        forall|r1: Request, r2: Request, v1: Number, v2: Number|
            r1@ == r2@ && #[trigger] call_ensures(host, (r1,), v1) && #[trigger] call_ensures(
                host,
                (r2,),
                v2,
            ) ==> v1 == v2,
    ensures
        deterministic(arithmetic_of(host)),
{
}

/// With deterministic arithmetic an expression has one result: evaluating
/// the same tree in the same environment again gives the same number or the
/// same error.
pub proof fn lemma_expression_has_one_result(
    arithmetic: Arithmetic,
    env: EnvironmentView,
    e: ExpressionView,
    first: Outcome,
    second: Outcome,
)
    requires
        deterministic(arithmetic),
        evaluates_to(arithmetic, env, e, first),
        evaluates_to(arithmetic, env, e, second),
    ensures
        first == second,
    decreases e, 0nat,
{
    match e {
        ExpressionView::Literal(s) => {},
        ExpressionView::Variable(name) => {},
        ExpressionView::UnaryOp(sign, operand) => {
            let i1 = choose|inner: Outcome|
                #![trigger signs(sign, inner)]
                evaluates_to(arithmetic, env, *operand, inner) && first == signs(sign, inner);
            let i2 = choose|inner: Outcome|
                #![trigger signs(sign, inner)]
                evaluates_to(arithmetic, env, *operand, inner) && second == signs(sign, inner);
            lemma_expression_has_one_result(arithmetic, env, *operand, i1, i2);
        },
        ExpressionView::BinaryOp(op, left, right) => {
            let (a1, b1) = choose|a: Outcome, b: Outcome|
                #![trigger combines(arithmetic, op, a, b, first)]
                evaluates_to(arithmetic, env, *left, a) && (a is Ok ==> evaluates_to(
                    arithmetic,
                    env,
                    *right,
                    b,
                )) && combines(arithmetic, op, a, b, first);
            let (a2, b2) = choose|a: Outcome, b: Outcome|
                #![trigger combines(arithmetic, op, a, b, second)]
                evaluates_to(arithmetic, env, *left, a) && (a is Ok ==> evaluates_to(
                    arithmetic,
                    env,
                    *right,
                    b,
                )) && combines(arithmetic, op, a, b, second);
            lemma_expression_has_one_result(arithmetic, env, *left, a1, a2);
            if a1 is Ok {
                lemma_expression_has_one_result(arithmetic, env, *right, b1, b2);
            }
        },
        ExpressionView::Call(name, args) => {
            if env.functions.contains_key(name) {
                let arity = env.functions[name];
                let v1 = choose|values: Outcomes|
                    #![trigger calls(arithmetic, name, arity, values, first)]
                    arguments_evaluate_to(arithmetic, env, args, args.len(), values) && calls(
                        arithmetic,
                        name,
                        arity,
                        values,
                        first,
                    );
                let v2 = choose|values: Outcomes|
                    #![trigger calls(arithmetic, name, arity, values, second)]
                    arguments_evaluate_to(arithmetic, env, args, args.len(), values) && calls(
                        arithmetic,
                        name,
                        arity,
                        values,
                        second,
                    );
                lemma_arguments_have_one_result(arithmetic, env, args, args.len(), v1, v2);
            }
        },
    }
}

/// With deterministic arithmetic a list of arguments has one result.
pub proof fn lemma_arguments_have_one_result(
    arithmetic: Arithmetic,
    env: EnvironmentView,
    args: Seq<ExpressionView>,
    count: nat,
    first: Outcomes,
    second: Outcomes,
)
    requires
        deterministic(arithmetic),
        arguments_evaluate_to(arithmetic, env, args, count, first),
        arguments_evaluate_to(arithmetic, env, args, count, second),
    ensures
        first == second,
    decreases args, count,
{
    if count == 0 || count > args.len() {
    } else {
        let (b1, l1) = choose|before: Outcomes, last: Outcome|
            #![trigger extends(before, last)]
            arguments_evaluate_to(arithmetic, env, args, (count - 1) as nat, before) && (before is Ok
                ==> evaluates_to(arithmetic, env, args[count - 1], last)) && first == extends(
                before,
                last,
            );
        let (b2, l2) = choose|before: Outcomes, last: Outcome|
            #![trigger extends(before, last)]
            arguments_evaluate_to(arithmetic, env, args, (count - 1) as nat, before) && (before is Ok
                ==> evaluates_to(arithmetic, env, args[count - 1], last)) && second == extends(
                before,
                last,
            );
        lemma_arguments_have_one_result(arithmetic, env, args, (count - 1) as nat, b1, b2);
        if b1 is Ok {
            lemma_expression_has_one_result(arithmetic, env, args[count - 1], l1, l2);
        }
    }
}

/// Evaluation has no hidden state: with deterministic arithmetic, reading
/// and evaluating the same text in the same environment again gives the
/// same result.
pub proof fn lemma_evaluation_repeats(
    arithmetic: Arithmetic,
    env: EnvironmentView,
    text: Seq<char>,
    first: Outcome,
    second: Outcome,
)
    requires
        deterministic(arithmetic),
        text_evaluates_to(arithmetic, env, text, first),
        text_evaluates_to(arithmetic, env, text, second),
    ensures
        first == second,
{
    if let Ok(ts) = tokenize_spec(text) {
        if let Ok(e) = parse_spec(ts) {
            lemma_expression_has_one_result(arithmetic, env, e, first, second);
        }
    }
}

} // verus!
