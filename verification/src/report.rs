//! Results as text.
use vstd::prelude::*;
use crate::env::Environment;
use crate::error::EvalError;
use crate::eval::arithmetic_of;
use crate::eval::evaluate;
use crate::eval::Outcome;
use crate::eval::outcome_view;
use crate::eval::Request;
use crate::eval::text_evaluates_to;
use crate::eval::total;
use crate::number::Number;
use crate::text::push_all;

verus! {

/// `text` is a rendering of `outcome`: what `show` makes of the number, or
/// `Invalid expression: ` followed by the error's message.
pub open spec fn renders<S: Fn(Number) -> String>(show: S, outcome: Outcome, text: String) -> bool {
    match outcome {
        Ok(v) => call_ensures(show, (v,), text),
        Err(e) => text@ == "Invalid expression: "@ + e.message(),
    }
}

/// Renders a result of evaluation: a number as `show` writes it, an error
/// as `Invalid expression: ` and its message.
pub fn render<S: Fn(Number) -> String>(result: &Result<Number, EvalError>, show: &S) -> (text:
    String)
    requires
        forall|n: Number| call_requires(*show, (n,)),
    ensures
        renders(*show, outcome_view(*result), text),
{
    match result {
        Ok(v) => show(*v),
        Err(e) => {
            let mut text = String::new();
            push_all(&mut text, "Invalid expression: ");
            let message = e.message();
            push_all(&mut text, message.as_str());
            assert(text@ =~= "Invalid expression: "@ + e@.message());
            text
        },
    }
}

/// Evaluates `expression` and renders the result.
pub fn calculate<H: Fn(Request) -> Number, S: Fn(Number) -> String>(
    expression: &str,
    env: &Environment,
    host: &H,
    show: &S,
) -> (text: String)
    requires
        total(*host),
        forall|n: Number| call_requires(*show, (n,)),
    ensures
        exists|outcome: Outcome|
            #![trigger text_evaluates_to(arithmetic_of(*host), env@, expression@, outcome)]
            text_evaluates_to(arithmetic_of(*host), env@, expression@, outcome) && renders(
                *show,
                outcome,
                text,
            ),
{
    let result = evaluate(expression, env, host);
    render(&result, show)
}

} // verus!
