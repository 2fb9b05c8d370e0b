//! Evaluation: folding an expression tree into a number.
//!
//! The library fixes the order of evaluation, the lookups and every error.
//! What it leaves to the caller is the arithmetic itself: each literal to be
//! converted, each binary operation and each function application is handed
//! to the caller's `host` as a [`Request`], and the answer is taken as the
//! value.  [`evaluates_to`] states the result in terms of those answers: it
//! takes the arithmetic as a relation between requests and values, which for
//! a host is [`arithmetic_of`].
use vstd::prelude::*;
use crate::env::Environment;
use crate::env::EnvironmentView;
use crate::error::EvalError;
use crate::error::EvalErrorView;
use crate::expr::Expression;
use crate::expr::expression_views;
use crate::expr::ExpressionView;
use crate::expr::lemma_call_view;
use crate::expr::Sign;
use crate::lexer::tokenize;
use crate::lexer::tokenize_spec;
use crate::number::Number;
use crate::parser::parse;
use crate::parser::parse_spec;
use crate::text::copy_string;
use crate::token::Operator;
use crate::token::Token;
use crate::token::token_views;
use crate::token::TokenView;

verus! {

/// One piece of arithmetic that the host is asked to do.
#[derive(Clone, Debug, PartialEq, Eq)]
pub enum Request {
    /// The value of the numeric literal with this spelling.
    Literal(String),
    /// The operator applied to a left and a right operand.
    Binary(Operator, Number, Number),
    /// The function of this name applied to the arguments, in order.
    Call(String, Vec<Number>),
}

/// The mathematical content of a [`Request`].
pub enum RequestView {
    Literal(Seq<char>),
    Binary(Operator, Number, Number),
    Call(Seq<char>, Seq<Number>),
}

impl View for Request {
    type V = RequestView;

    open spec fn view(&self) -> RequestView {
        match self {
            Request::Literal(s) => RequestView::Literal(s@),
            Request::Binary(op, a, b) => RequestView::Binary(*op, *a, *b),
            Request::Call(name, args) => RequestView::Call(name@, args@),
        }
    }
}

/// What evaluating gives: a number or an error.
pub type Outcome = Result<Number, EvalErrorView>;

/// What evaluating a list of arguments gives.
pub type Outcomes = Result<Seq<Number>, EvalErrorView>;

/// `value` is an answer that `host` may give to `request`.
pub open spec fn answers<H: Fn(Request) -> Number>(
    host: H,
    request: RequestView,
    value: Number,
) -> bool {
    exists|r: Request| r@ == request && #[trigger] call_ensures(host, (r,), value)
}

/// The arithmetic that evaluation relies on, as a relation between a
/// request and a value that answers it.
pub type Arithmetic = spec_fn(RequestView, Number) -> bool;

/// The arithmetic of a host: the answers that it may give.
pub open spec fn arithmetic_of<H: Fn(Request) -> Number>(host: H) -> Arithmetic {
    |request: RequestView, value: Number| answers(host, request, value)
}

/// `host` answers every request.
pub open spec fn total<H: Fn(Request) -> Number>(host: H) -> bool {
    forall|r: Request| call_requires(host, (r,))
}

/// Whether the operator divides by its right operand.
pub open spec fn divides(op: Operator) -> bool {
    op == Operator::Slash || op == Operator::Percent
}

/// The operand with the sign applied.
pub open spec fn signed(sign: Sign, value: Number) -> Number {
    match sign {
        Sign::Plus => value,
        Sign::Minus => value.opposite(),
    }
}

/// What the name of a constant evaluates to.
pub open spec fn constant_outcome(env: EnvironmentView, name: Seq<char>) -> Outcome {
    if env.constants.contains_key(name) {
        Ok(env.constants[name])
    } else {
        Err(EvalErrorView::UnknownVariable { name })
    }
}

/// The outcome of a signed operand whose own outcome is `inner`.
pub open spec fn signs(sign: Sign, inner: Outcome) -> Outcome {
    match inner {
        Err(error) => Err(error),
        Ok(v) => Ok(signed(sign, v)),
    }
}

/// `out` is a result of applying `op` to the values `x` and `y`: a zero
/// right operand of `/` or `%` is refused, anything else is the arithmetic's
/// answer.
pub open spec fn applies(
    arithmetic: Arithmetic,
    op: Operator,
    x: Number,
    y: Number,
    out: Outcome,
) -> bool {
    if divides(op) && y.zero() {
        out == Err::<Number, EvalErrorView>(EvalErrorView::DivisionByZero)
    } else {
        out matches Ok(v) && arithmetic(RequestView::Binary(op, x, y), v)
    }
}

/// `out` is a result of a binary operation whose left operand came out as
/// `a` and whose right operand, if the left one has a value, came out as
/// `b`: the first error, or the operator applied to the two values.
pub open spec fn combines(
    arithmetic: Arithmetic,
    op: Operator,
    a: Outcome,
    b: Outcome,
    out: Outcome,
) -> bool {
    match a {
        Err(error) => out == Err::<Number, EvalErrorView>(error),
        Ok(x) => match b {
            Err(error) => out == Err::<Number, EvalErrorView>(error),
            Ok(y) => applies(arithmetic, op, x, y, out),
        },
    }
}

/// `out` is a result of calling the function `name`, which takes `arity`
/// arguments, when the arguments came out as `values`: their error, a
/// mismatch of their number with the arity, or the arithmetic's answer.
pub open spec fn calls(
    arithmetic: Arithmetic,
    name: Seq<char>,
    arity: usize,
    values: Outcomes,
    out: Outcome,
) -> bool {
    match values {
        Err(error) => out == Err::<Number, EvalErrorView>(error),
        Ok(vs) => if vs.len() != arity {
            out == Err::<Number, EvalErrorView>(
                EvalErrorView::ArityMismatch { name, expected: arity as nat, actual: vs.len() },
            )
        } else {
            out matches Ok(v) && arithmetic(RequestView::Call(name, vs), v)
        },
    }
}

/// The outcome of a list of arguments when those before the last came out
/// as `before` and the last one, if they all have values, as `last`.
pub open spec fn extends(before: Outcomes, last: Outcome) -> Outcomes {
    match before {
        Err(error) => Err(error),
        Ok(vs) => match last {
            Err(error) => Err(error),
            Ok(v) => Ok(vs.push(v)),
        },
    }
}

/// `out` is a result of evaluating `e` in `env` with the given arithmetic.
///
/// - A literal is what the arithmetic answers for its spelling.
/// - A name is the constant bound to it, or `UnknownVariable`.
/// - A signed operand is evaluated, then kept or negated.
/// - For a binary operation the left operand is evaluated, then the right
///   one; the first error ends the evaluation.  A zero right operand of `/`
///   or `%` gives `DivisionByZero`; otherwise the arithmetic answers.
/// - For a call the name is looked up first (`UnknownFunction`), then the
///   arguments are evaluated from left to right, then their number is held
///   against the arity (`ArityMismatch`), and then the arithmetic answers.
pub open spec fn evaluates_to(
    arithmetic: Arithmetic,
    env: EnvironmentView,
    e: ExpressionView,
    out: Outcome,
) -> bool
    decreases e, 0nat,
{
    match e {
        ExpressionView::Literal(s) => out matches Ok(v) && arithmetic(RequestView::Literal(s),
            v,
        ),
        ExpressionView::Variable(name) => out == constant_outcome(env, name),
        ExpressionView::UnaryOp(sign, operand) => exists|inner: Outcome|
            #![trigger signs(sign, inner)]
            evaluates_to(arithmetic, env, *operand, inner) && out == signs(sign, inner),
        ExpressionView::BinaryOp(op, left, right) => exists|a: Outcome, b: Outcome|
            #![trigger combines(arithmetic, op, a, b, out)]
            evaluates_to(arithmetic, env, *left, a) && (a is Ok ==> evaluates_to(arithmetic, env, *right, b))
                && combines(arithmetic, op, a, b, out),
        ExpressionView::Call(name, args) => if !env.functions.contains_key(name) {
            out == Err::<Number, EvalErrorView>(EvalErrorView::UnknownFunction { name })
        } else {
            exists|values: Outcomes|
                #![trigger calls(arithmetic, name, env.functions[name], values, out)]
                arguments_evaluate_to(arithmetic, env, args, args.len(), values) && calls(
                    arithmetic,
                    name,
                    env.functions[name],
                    values,
                    out,
                )
        },
    }
}

/// `out` is a result of evaluating the first `count` of `args` from left to
/// right: their values, or the first error.
pub open spec fn arguments_evaluate_to(
    arithmetic: Arithmetic,
    env: EnvironmentView,
    args: Seq<ExpressionView>,
    count: nat,
    out: Outcomes,
) -> bool
    decreases args, count,
{
    if count == 0 || count > args.len() {
        out == Ok::<Seq<Number>, EvalErrorView>(Seq::empty())
    } else {
        exists|before: Outcomes, last: Outcome|
            #![trigger extends(before, last)]
            arguments_evaluate_to(arithmetic, env, args, (count - 1) as nat, before) && (before is Ok
                ==> evaluates_to(arithmetic, env, args[count - 1], last)) && out == extends(
                before,
                last,
            )
    }
}

/// `out` is a result of reading and evaluating the token sequence `ts`: the
/// parse error, or a result of evaluating the tree.
pub open spec fn tokens_evaluate_to(
    arithmetic: Arithmetic,
    env: EnvironmentView,
    ts: Seq<TokenView>,
    out: Outcome,
) -> bool {
    match parse_spec(ts) {
        Err(error) => out == Err::<Number, EvalErrorView>(error),
        Ok(e) => evaluates_to(arithmetic, env, e, out),
    }
}

/// `out` is a result of reading and evaluating `text`: the lexical error,
/// the parse error, or a result of evaluating the tree.
pub open spec fn text_evaluates_to(
    arithmetic: Arithmetic,
    env: EnvironmentView,
    text: Seq<char>,
    out: Outcome,
) -> bool {
    match tokenize_spec(text) {
        Err(error) => out == Err::<Number, EvalErrorView>(error),
        Ok(ts) => tokens_evaluate_to(arithmetic, env, ts, out),
    }
}

/// The content of a result of evaluation.
pub open spec fn outcome_view(r: Result<Number, EvalError>) -> Outcome {
    match r {
        Ok(v) => Ok(v),
        Err(e) => Err(e@),
    }
}

/// An error among the first arguments is the error of the whole list.
proof fn lemma_argument_error_stays(
    arithmetic: Arithmetic,
    env: EnvironmentView,
    args: Seq<ExpressionView>,
    count: nat,
    upto: nat,
    error: EvalErrorView,
)
    requires
        0 < count <= upto <= args.len(),
        arguments_evaluate_to(arithmetic, env, args, count, Err(error)),
    ensures
        arguments_evaluate_to(arithmetic, env, args, upto, Err(error)),
    decreases upto - count,
{
    if count < upto {
        lemma_argument_error_stays(arithmetic, env, args, count, (upto - 1) as nat, error);
        let before: Outcomes = Err(error);
        let last: Outcome = Err(error);
        assert(extends(before, last) == before);
    }
}

/// Evaluates `e` in `env`, asking `host` for each piece of arithmetic.
pub fn evaluate_expression<H: Fn(Request) -> Number>(
    e: &Expression,
    env: &Environment,
    host: &H,
) -> (r: Result<Number, EvalError>)
    requires
        total(*host),
    ensures
        evaluates_to(arithmetic_of(*host), env@, e@, outcome_view(r)),
    decreases e,
{
    match e {
        Expression::Literal(s) => {
            let request = Request::Literal(copy_string(s));
            let v = host(request);
            Ok(v)
        },
        Expression::Variable(name) => match env.constant(name) {
            Some(v) => Ok(v),
            None => Err(EvalError::UnknownVariable { name: copy_string(name) }),
        },
        Expression::UnaryOp(sign, operand) => {
            let inner = evaluate_expression(operand, env, host);
            let r = match inner {
                Err(error) => Err(error),
                Ok(v) => match sign {
                    Sign::Plus => Ok(v),
                    Sign::Minus => Ok(v.negated()),
                },
            };
            proof {
                assert(outcome_view(r) == signs(*sign, outcome_view(inner)));
            }
            r
        },
        Expression::BinaryOp(op, left, right) => {
            let a = evaluate_expression(left, env, host);
            match a {
                Err(error) => {
                    proof {
                        let failed: Outcome = Err(error@);
                        assert(combines(arithmetic_of(*host), *op, failed, failed, failed));
                    }
                    Err(error)
                },
                Ok(x) => {
                    let b = evaluate_expression(right, env, host);
                    let r = match b {
                        Err(error) => Err(error),
                        Ok(y) => apply_operator(*op, x, y, host),
                    };
                    proof {
                        assert(combines(
                            arithmetic_of(*host),
                            *op,
                            Ok(x),
                            outcome_view(b),
                            outcome_view(r),
                        ));
                    }
                    r
                },
            }
        },
        Expression::Call(name, args) => {
            proof {
                lemma_call_view(*name, *args);
            }
            match env.arity(name) {
                None => Err(EvalError::UnknownFunction { name: copy_string(name) }),
                Some(arity) => {
                    let values = evaluate_arguments(args, env, host);
                    let ghost found = outcomes_view(values);
                    let r = match values {
                        Err(error) => Err(error),
                        Ok(values) => {
                            if values.len() != arity {
                                Err(
                                    EvalError::ArityMismatch {
                                        name: copy_string(name),
                                        expected: arity,
                                        actual: values.len(),
                                    },
                                )
                            } else {
                                let request = Request::Call(copy_string(name), values);
                                let v = host(request);
                                Ok(v)
                            }
                        },
                    };
                    proof {
                        assert(calls(arithmetic_of(*host), name@, arity, found, outcome_view(r)));
                    }
                    r
                },
            }
        },
    }
}

/// The content of a result of evaluating arguments.
pub open spec fn outcomes_view(r: Result<Vec<Number>, EvalError>) -> Outcomes {
    match r {
        Ok(vs) => Ok(vs@),
        Err(e) => Err(e@),
    }
}

/// Evaluates `args` from left to right and stops at the first error.
fn evaluate_arguments<H: Fn(Request) -> Number>(
    args: &Vec<Expression>,
    env: &Environment,
    host: &H,
) -> (r: Result<Vec<Number>, EvalError>)
    requires
        total(*host),
    ensures
        arguments_evaluate_to(
            arithmetic_of(*host),
            env@,
            expression_views(args@),
            args@.len(),
            outcomes_view(r),
        ),
    decreases args,
{
    let ghost views = expression_views(args@);
    let mut values: Vec<Number> = Vec::new();
    let mut i: usize = 0;
    while i < args.len()
        invariant
            i <= args.len(),
            total(*host),
            views == expression_views(args@),
            arguments_evaluate_to(arithmetic_of(*host), env@, views, i as nat, Ok(values@)),
        decreases args.len() - i,
    {
        let one = evaluate_expression(&args[i], env, host);
        let ghost before: Outcomes = Ok(values@);
        match one {
            Err(error) => {
                proof {
                    assert(extends(before, outcome_view(one)) == Err::<
                        Seq<Number>,
                        EvalErrorView,
                    >(error@));
                    lemma_argument_error_stays(
                        arithmetic_of(*host),
                        env@,
                        views,
                        (i + 1) as nat,
                        views.len(),
                        error@,
                    );
                }
                return Err(error);
            },
            Ok(v) => {
                values.push(v);
                proof {
                    assert(extends(before, outcome_view(one)) == Ok::<Seq<Number>, EvalErrorView>(
                        values@,
                    ));
                }
                i += 1;
            },
        }
    }
    Ok(values)
}

/// Applies a binary operator to two values: a zero divisor is refused,
/// everything else is the host's arithmetic.
pub fn apply_operator<H: Fn(Request) -> Number>(op: Operator, x: Number, y: Number, host: &H) -> (r:
    Result<Number, EvalError>)
    requires
        total(*host),
    ensures
        applies(arithmetic_of(*host), op, x, y, outcome_view(r)),
{
    let dividing = match op {
        Operator::Slash => true,
        Operator::Percent => true,
        _ => false,
    };
    if dividing && y.is_zero() {
        Err(EvalError::DivisionByZero)
    } else {
        let request = Request::Binary(op, x, y);
        let v = host(request);
        Ok(v)
    }
}

/// Parses `tokens` and evaluates the tree.  A parse error comes before any
/// error of evaluation.
pub fn parse_eval<H: Fn(Request) -> Number>(tokens: &Vec<Token>, env: &Environment, host: &H) -> (r:
    Result<Number, EvalError>)
    requires
        total(*host),
    ensures
        tokens_evaluate_to(arithmetic_of(*host), env@, token_views(tokens@), outcome_view(r)),
{
    match parse(tokens) {
        Err(error) => Err(error),
        Ok(e) => evaluate_expression(&e, env, host),
    }
}

/// Reads `text` as an expression and evaluates it: a lexical error comes
/// before a parse error, and a parse error before any error of evaluation.
pub fn evaluate<H: Fn(Request) -> Number>(text: &str, env: &Environment, host: &H) -> (r: Result<
    Number,
    EvalError,
>)
    requires
        total(*host),
    ensures
        text_evaluates_to(arithmetic_of(*host), env@, text@, outcome_view(r)),
{
    match tokenize(text) {
        Err(error) => Err(error),
        Ok(tokens) => parse_eval(&tokens, env, host),
    }
}

} // verus!
