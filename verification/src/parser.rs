//! The parser: from tokens to an expression tree.
//!
//! The grammar has five levels, from loosest to tightest binding:
//!
//! ```text
//! sum     := term (('+' | '-') term)*
//! term    := unary (('*' | '/' | '%') unary)*
//! unary   := ('+' | '-') unary | power
//! power   := primary ('^' unary)?
//! primary := number | name | name '(' (sum (',' sum)*)? ')' | '(' sum ')'
//! ```
//!
//! So `+ -` and `* / %` group to the left, `^` groups to the right, and a
//! sign binds looser than `^` but tighter than `*`: `-2^2` is `-(2^2)`.
use vstd::prelude::*;
use crate::error::EvalError;
use crate::error::EvalErrorView;
use crate::expr::Expression;
use crate::expr::expression_views;
use crate::expr::ExpressionView;
use crate::expr::lemma_call_view;
use crate::expr::Sign;
use crate::text::copy_string;
use crate::token::Operator;
use crate::token::Token;
use crate::token::token_views;
use crate::token::TokenView;

verus! {

/// What parsing from some position gives: the tree and the position behind
/// it, or the error.
pub type Parsed = Result<(ExpressionView, nat), EvalErrorView>;

/// What parsing an argument list gives.
pub type ParsedArguments = Result<(Seq<ExpressionView>, nat), EvalErrorView>;

/// The token at `pos`; behind the last token the input reads as ended.
pub open spec fn peek(ts: Seq<TokenView>, pos: nat) -> TokenView {
    if pos < ts.len() {
        ts[pos as int]
    } else {
        TokenView::End
    }
}

/// The error for a token that the grammar does not allow at `pos`.
pub open spec fn unexpected(ts: Seq<TokenView>, pos: nat) -> EvalErrorView {
    match peek(ts, pos) {
        TokenView::End => EvalErrorView::UnexpectedEnd,
        t => EvalErrorView::UnexpectedToken { found: t, position: pos },
    }
}

/// `r`, as long as it ends behind `pos` and inside the input.  Parsing
/// always does (see [`lemma_parsing_advances`]); stating it here lets the
/// grammar below be read as a terminating definition.
pub open spec fn forward(ts: Seq<TokenView>, pos: nat, r: Parsed) -> Parsed {
    match r {
        Ok((e, p)) => if pos < p <= ts.len() {
            r
        } else {
            Err(EvalErrorView::UnexpectedEnd)
        },
        Err(_) => r,
    }
}

/// `+` or `-`.
pub open spec fn is_additive(op: Operator) -> bool {
    op == Operator::Plus || op == Operator::Minus
}

/// `*`, `/` or `%`.
pub open spec fn is_multiplicative(op: Operator) -> bool {
    op == Operator::Star || op == Operator::Slash || op == Operator::Percent
}

/// The sign that an additive operator in front of an operand stands for.
pub open spec fn sign_of(op: Operator) -> Sign {
    if op == Operator::Minus {
        Sign::Minus
    } else {
        Sign::Plus
    }
}

/// `sum := term (('+' | '-') term)*`
pub open spec fn sum_at(ts: Seq<TokenView>, pos: nat) -> Parsed
    decreases ts.len() - pos, 5nat,
{
    match forward(ts, pos, term_at(ts, pos)) {
        Err(e) => Err(e),
        Ok((left, p)) => sum_tail(ts, p, left),
    }
}

/// The rest of a sum whose operands so far fold to `left`.
pub open spec fn sum_tail(ts: Seq<TokenView>, pos: nat, left: ExpressionView) -> Parsed
    decreases ts.len() - pos, 0nat,
{
    match peek(ts, pos) {
        TokenView::Operator(op) => if is_additive(op) {
            match forward(ts, pos, term_at(ts, pos + 1)) {
                Err(e) => Err(e),
                Ok((right, p)) => sum_tail(
                    ts,
                    p,
                    ExpressionView::BinaryOp(op, Box::new(left), Box::new(right)),
                ),
            }
        } else {
            Ok((left, pos))
        },
        _ => Ok((left, pos)),
    }
}

/// `term := unary (('*' | '/' | '%') unary)*`
pub open spec fn term_at(ts: Seq<TokenView>, pos: nat) -> Parsed
    decreases ts.len() - pos, 4nat,
{
    match forward(ts, pos, unary_at(ts, pos)) {
        Err(e) => Err(e),
        Ok((left, p)) => term_tail(ts, p, left),
    }
}

/// The rest of a term whose operands so far fold to `left`.
pub open spec fn term_tail(ts: Seq<TokenView>, pos: nat, left: ExpressionView) -> Parsed
    decreases ts.len() - pos, 0nat,
{
    match peek(ts, pos) {
        TokenView::Operator(op) => if is_multiplicative(op) {
            match forward(ts, pos, unary_at(ts, pos + 1)) {
                Err(e) => Err(e),
                Ok((right, p)) => term_tail(
                    ts,
                    p,
                    ExpressionView::BinaryOp(op, Box::new(left), Box::new(right)),
                ),
            }
        } else {
            Ok((left, pos))
        },
        _ => Ok((left, pos)),
    }
}

/// `unary := ('+' | '-') unary | power`
pub open spec fn unary_at(ts: Seq<TokenView>, pos: nat) -> Parsed
    decreases ts.len() - pos, 3nat,
{
    match peek(ts, pos) {
        TokenView::Operator(op) => if is_additive(op) {
            match unary_at(ts, pos + 1) {
                Err(e) => Err(e),
                Ok((operand, p)) => Ok(
                    (ExpressionView::UnaryOp(sign_of(op), Box::new(operand)), p),
                ),
            }
        } else {
            power_at(ts, pos)
        },
        _ => power_at(ts, pos),
    }
}

/// `power := primary ('^' unary)?`
pub open spec fn power_at(ts: Seq<TokenView>, pos: nat) -> Parsed
    decreases ts.len() - pos, 2nat,
{
    match forward(ts, pos, primary_at(ts, pos)) {
        Err(e) => Err(e),
        Ok((base, p)) => if peek(ts, p) == TokenView::Operator(Operator::Caret) {
            match unary_at(ts, p + 1) {
                Err(e) => Err(e),
                Ok((exponent, q)) => Ok(
                    (
                        ExpressionView::BinaryOp(
                            Operator::Caret,
                            Box::new(base),
                            Box::new(exponent),
                        ),
                        q,
                    ),
                ),
            }
        } else {
            Ok((base, p))
        },
    }
}

/// `primary := number | name | name '(' (sum (',' sum)*)? ')' | '(' sum ')'`
pub open spec fn primary_at(ts: Seq<TokenView>, pos: nat) -> Parsed
    decreases ts.len() - pos, 1nat,
{
    match peek(ts, pos) {
        TokenView::Number(s) => Ok((ExpressionView::Literal(s), pos + 1)),
        TokenView::Identifier(name) => if peek(ts, pos + 1) == TokenView::LeftParen {
            if peek(ts, pos + 2) == TokenView::RightParen {
                Ok((ExpressionView::Call(name, Seq::empty()), pos + 3))
            } else {
                match arguments_at(ts, pos + 2, Seq::empty()) {
                    Err(e) => Err(e),
                    Ok((args, p)) => Ok((ExpressionView::Call(name, args), p)),
                }
            }
        } else {
            Ok((ExpressionView::Variable(name), pos + 1))
        },
        TokenView::LeftParen => match sum_at(ts, pos + 1) {
            Err(e) => Err(e),
            Ok((inner, p)) => if peek(ts, p) == TokenView::RightParen {
                Ok((inner, p + 1))
            } else {
                Err(unexpected(ts, p))
            },
        },
        _ => Err(unexpected(ts, pos)),
    }
}

/// The arguments from `pos` up to and including the closing parenthesis,
/// behind the arguments `done` that were read before.
pub open spec fn arguments_at(
    ts: Seq<TokenView>,
    pos: nat,
    done: Seq<ExpressionView>,
) -> ParsedArguments
    decreases ts.len() - pos, 6nat,
{
    match forward(ts, pos, sum_at(ts, pos)) {
        Err(e) => Err(e),
        Ok((argument, p)) => match peek(ts, p) {
            TokenView::Comma => arguments_at(ts, p + 1, done.push(argument)),
            TokenView::RightParen => Ok((done.push(argument), p + 1)),
            _ => Err(unexpected(ts, p)),
        },
    }
}

/// The tree that the token sequence `ts` stands for: one sum, and then the
/// end of the input.
pub open spec fn parse_spec(ts: Seq<TokenView>) -> Result<ExpressionView, EvalErrorView> {
    match sum_at(ts, 0) {
        Err(e) => Err(e),
        Ok((e, p)) => match peek(ts, p) {
            TokenView::End => Ok(e),
            t => Err(EvalErrorView::UnexpectedToken { found: t, position: p }),
        },
    }
}

/// Whether a result, if it is a success, ends behind `pos` and inside the
/// input.
pub open spec fn advances(ts: Seq<TokenView>, pos: nat, r: Parsed) -> bool {
    r matches Ok((_, p)) ==> pos < p <= ts.len()
}

/// Whether a result, if it is a success, ends at or behind `pos` and inside
/// the input.
pub open spec fn stays(ts: Seq<TokenView>, pos: nat, r: Parsed) -> bool {
    r matches Ok((_, p)) ==> pos <= p <= ts.len()
}

/// A folding tail never moves backwards.
proof fn lemma_tails_stay(ts: Seq<TokenView>, pos: nat, left: ExpressionView)
    requires
        pos <= ts.len(),
    ensures
        stays(ts, pos, sum_tail(ts, pos, left)),
        stays(ts, pos, term_tail(ts, pos, left)),
    decreases ts.len() - pos,
{
    match peek(ts, pos) {
        TokenView::Operator(op) => {
            if is_additive(op) {
                if let Ok((right, p)) = forward(ts, pos, term_at(ts, pos + 1)) {
                    lemma_tails_stay(
                        ts,
                        p,
                        ExpressionView::BinaryOp(op, Box::new(left), Box::new(right)),
                    );
                }
            }
            if is_multiplicative(op) {
                if let Ok((right, p)) = forward(ts, pos, unary_at(ts, pos + 1)) {
                    lemma_tails_stay(
                        ts,
                        p,
                        ExpressionView::BinaryOp(op, Box::new(left), Box::new(right)),
                    );
                }
            }
        },
        _ => {},
    }
}

/// An argument list ends behind its start and inside the input.
proof fn lemma_arguments_advance(ts: Seq<TokenView>, pos: nat, done: Seq<ExpressionView>)
    ensures
        arguments_at(ts, pos, done) matches Ok((_, p)) ==> pos < p <= ts.len(),
    decreases ts.len() - pos,
{
    if let Ok((argument, p)) = forward(ts, pos, sum_at(ts, pos)) {
        if peek(ts, p) == TokenView::Comma {
            lemma_arguments_advance(ts, p + 1, done.push(argument));
        }
    }
}

/// Every level of the grammar, where it succeeds, consumes at least one
/// token and ends inside the input.  So [`forward`] never changes a result.
pub proof fn lemma_parsing_advances(ts: Seq<TokenView>, pos: nat)
    ensures
        advances(ts, pos, sum_at(ts, pos)),
        advances(ts, pos, term_at(ts, pos)),
        advances(ts, pos, unary_at(ts, pos)),
        advances(ts, pos, power_at(ts, pos)),
        advances(ts, pos, primary_at(ts, pos)),
        forward(ts, pos, sum_at(ts, pos)) == sum_at(ts, pos),
        forward(ts, pos, term_at(ts, pos)) == term_at(ts, pos),
        forward(ts, pos, unary_at(ts, pos)) == unary_at(ts, pos),
        forward(ts, pos, primary_at(ts, pos)) == primary_at(ts, pos),
    decreases ts.len() - pos,
{
    // primary
    match peek(ts, pos) {
        TokenView::Identifier(name) => {
            if peek(ts, pos + 1) == TokenView::LeftParen && peek(ts, pos + 2)
                != TokenView::RightParen {
                lemma_arguments_advance(ts, pos + 2, Seq::empty());
            }
        },
        TokenView::LeftParen => {
            lemma_parsing_advances(ts, pos + 1);
        },
        _ => {},
    }
    assert(advances(ts, pos, primary_at(ts, pos)));
    // power
    if let Ok((base, p)) = forward(ts, pos, primary_at(ts, pos)) {
        if peek(ts, p) == TokenView::Operator(Operator::Caret) {
            lemma_parsing_advances(ts, p + 1);
        }
    }
    assert(advances(ts, pos, power_at(ts, pos)));
    // unary
    match peek(ts, pos) {
        TokenView::Operator(op) => {
            if is_additive(op) {
                lemma_parsing_advances(ts, pos + 1);
            }
        },
        _ => {},
    }
    assert(advances(ts, pos, unary_at(ts, pos)));
    // term
    if let Ok((left, p)) = forward(ts, pos, unary_at(ts, pos)) {
        lemma_tails_stay(ts, p, left);
    }
    assert(advances(ts, pos, term_at(ts, pos)));
    // sum
    if let Ok((left, p)) = forward(ts, pos, term_at(ts, pos)) {
        lemma_tails_stay(ts, p, left);
    }
}

/// The content of what the parsing functions return.
pub open spec fn parsed_view(r: Result<(Expression, usize), EvalError>) -> Parsed {
    match r {
        Ok((e, p)) => Ok((e@, p as nat)),
        Err(e) => Err(e@),
    }
}

/// The content of what reading an argument list returns.
pub open spec fn parsed_arguments_view(
    r: Result<(Vec<Expression>, usize), EvalError>,
) -> ParsedArguments {
    match r {
        Ok((es, p)) => Ok((expression_views(es@), p as nat)),
        Err(e) => Err(e@),
    }
}

/// Whether a result, if it is a success, ends behind `pos` and inside the
/// input.
pub open spec fn ends_within<T>(r: Result<(T, usize), EvalError>, pos: usize, len: usize) -> bool {
    r matches Ok((_, p)) ==> pos < p <= len
}

fn token_at<'a>(tokens: &'a Vec<Token>, pos: usize) -> (t: Option<&'a Token>)
    ensures
        match t {
            Some(t) => pos < tokens.len() && t@ == peek(token_views(tokens@), pos as nat) && !(t@
                is End),
            None => peek(token_views(tokens@), pos as nat) is End,
        },
{
    if pos < tokens.len() {
        match &tokens[pos] {
            Token::End => None,
            t => Some(t),
        }
    } else {
        None
    }
}

fn unexpected_at(tokens: &Vec<Token>, pos: usize) -> (e: EvalError)
    ensures
        e@ == unexpected(token_views(tokens@), pos as nat),
{
    match token_at(tokens, pos) {
        None => EvalError::UnexpectedEnd,
        Some(t) => EvalError::UnexpectedToken { found: t.duplicate(), position: pos },
    }
}

fn additive_at(tokens: &Vec<Token>, pos: usize) -> (op: Option<Operator>)
    ensures
        match op {
            Some(op) => pos < tokens.len() && is_additive(op) && peek(
                token_views(tokens@),
                pos as nat,
            ) == TokenView::Operator(op),
            None => !(peek(token_views(tokens@), pos as nat) matches TokenView::Operator(op)
                && is_additive(op)),
        },
{
    match token_at(tokens, pos) {
        Some(Token::Operator(Operator::Plus)) => Some(Operator::Plus),
        Some(Token::Operator(Operator::Minus)) => Some(Operator::Minus),
        _ => None,
    }
}

fn multiplicative_at(tokens: &Vec<Token>, pos: usize) -> (op: Option<Operator>)
    ensures
        match op {
            Some(op) => pos < tokens.len() && is_multiplicative(op) && peek(
                token_views(tokens@),
                pos as nat,
            ) == TokenView::Operator(op),
            None => !(peek(token_views(tokens@), pos as nat) matches TokenView::Operator(op)
                && is_multiplicative(op)),
        },
{
    match token_at(tokens, pos) {
        Some(Token::Operator(Operator::Star)) => Some(Operator::Star),
        Some(Token::Operator(Operator::Slash)) => Some(Operator::Slash),
        Some(Token::Operator(Operator::Percent)) => Some(Operator::Percent),
        _ => None,
    }
}

fn parse_sum(tokens: &Vec<Token>, pos: usize) -> (r: Result<(Expression, usize), EvalError>)
    ensures
        parsed_view(r) == sum_at(token_views(tokens@), pos as nat),
        ends_within(r, pos, tokens.len()),
    decreases tokens.len() - pos, 5nat,
{
    let ghost ts = token_views(tokens@);
    let (mut left, mut p) = match parse_term(tokens, pos) {
        Err(e) => {
            return Err(e);
        },
        Ok(first) => first,
    };
    loop
        invariant
            ts == token_views(tokens@),
            pos < p <= tokens.len(),
            sum_at(ts, pos as nat) == sum_tail(ts, p as nat, left@),
        decreases tokens.len() - p,
    {
        let op = match additive_at(tokens, p) {
            None => {
                return Ok((left, p));
            },
            Some(op) => op,
        };
        match parse_term(tokens, p + 1) {
            Err(e) => {
                return Err(e);
            },
            Ok((right, q)) => {
                left = Expression::BinaryOp(op, Box::new(left), Box::new(right));
                p = q;
            },
        }
    }
}

fn parse_term(tokens: &Vec<Token>, pos: usize) -> (r: Result<(Expression, usize), EvalError>)
    ensures
        parsed_view(r) == term_at(token_views(tokens@), pos as nat),
        ends_within(r, pos, tokens.len()),
    decreases tokens.len() - pos, 4nat,
{
    let ghost ts = token_views(tokens@);
    let (mut left, mut p) = match parse_unary(tokens, pos) {
        Err(e) => {
            return Err(e);
        },
        Ok(first) => first,
    };
    loop
        invariant
            ts == token_views(tokens@),
            pos < p <= tokens.len(),
            term_at(ts, pos as nat) == term_tail(ts, p as nat, left@),
        decreases tokens.len() - p,
    {
        let op = match multiplicative_at(tokens, p) {
            None => {
                return Ok((left, p));
            },
            Some(op) => op,
        };
        match parse_unary(tokens, p + 1) {
            Err(e) => {
                return Err(e);
            },
            Ok((right, q)) => {
                left = Expression::BinaryOp(op, Box::new(left), Box::new(right));
                p = q;
            },
        }
    }
}

fn parse_unary(tokens: &Vec<Token>, pos: usize) -> (r: Result<(Expression, usize), EvalError>)
    ensures
        parsed_view(r) == unary_at(token_views(tokens@), pos as nat),
        ends_within(r, pos, tokens.len()),
    decreases tokens.len() - pos, 3nat,
{
    match additive_at(tokens, pos) {
        Some(op) => {
            let sign = match op {
                Operator::Minus => Sign::Minus,
                _ => Sign::Plus,
            };
            match parse_unary(tokens, pos + 1) {
                Err(e) => Err(e),
                Ok((operand, p)) => Ok((Expression::UnaryOp(sign, Box::new(operand)), p)),
            }
        },
        None => parse_power(tokens, pos),
    }
}

fn parse_power(tokens: &Vec<Token>, pos: usize) -> (r: Result<(Expression, usize), EvalError>)
    ensures
        parsed_view(r) == power_at(token_views(tokens@), pos as nat),
        ends_within(r, pos, tokens.len()),
    decreases tokens.len() - pos, 2nat,
{
    let (base, p) = match parse_primary(tokens, pos) {
        Err(e) => {
            return Err(e);
        },
        Ok(first) => first,
    };
    match token_at(tokens, p) {
        Some(Token::Operator(Operator::Caret)) => match parse_unary(tokens, p + 1) {
            Err(e) => Err(e),
            Ok((exponent, q)) => Ok(
                (Expression::BinaryOp(Operator::Caret, Box::new(base), Box::new(exponent)), q),
            ),
        },
        _ => Ok((base, p)),
    }
}

fn parse_primary(tokens: &Vec<Token>, pos: usize) -> (r: Result<(Expression, usize), EvalError>)
    ensures
        parsed_view(r) == primary_at(token_views(tokens@), pos as nat),
        ends_within(r, pos, tokens.len()),
    decreases tokens.len() - pos, 1nat,
{
    match token_at(tokens, pos) {
        Some(Token::Number(s)) => Ok((Expression::Literal(copy_string(s)), pos + 1)),
        Some(Token::Identifier(name)) => {
            match token_at(tokens, pos + 1) {
                Some(Token::LeftParen) => {
                    match token_at(tokens, pos + 2) {
                        Some(Token::RightParen) => {
                            let args: Vec<Expression> = Vec::new();
                            let callee = copy_string(name);
                            proof {
                                lemma_call_view(callee, args);
                                assert(expression_views(args@) =~= Seq::empty());
                            }
                            Ok((Expression::Call(callee, args), pos + 3))
                        },
                        _ => match parse_arguments(tokens, pos + 2) {
                            Err(e) => Err(e),
                            Ok((args, p)) => {
                                let callee = copy_string(name);
                                proof {
                                    lemma_call_view(callee, args);
                                }
                                Ok((Expression::Call(callee, args), p))
                            },
                        },
                    }
                },
                _ => Ok((Expression::Variable(copy_string(name)), pos + 1)),
            }
        },
        Some(Token::LeftParen) => match parse_sum(tokens, pos + 1) {
            Err(e) => Err(e),
            Ok((inner, p)) => match token_at(tokens, p) {
                Some(Token::RightParen) => Ok((inner, p + 1)),
                _ => Err(unexpected_at(tokens, p)),
            },
        },
        _ => Err(unexpected_at(tokens, pos)),
    }
}

fn parse_arguments(tokens: &Vec<Token>, pos: usize) -> (r: Result<
    (Vec<Expression>, usize),
    EvalError,
>)
    requires
        pos <= tokens.len(),
    ensures
        parsed_arguments_view(r) == arguments_at(token_views(tokens@), pos as nat, Seq::empty()),
        ends_within(r, pos, tokens.len()),
    decreases tokens.len() - pos, 6nat,
{
    let ghost ts = token_views(tokens@);
    let mut args: Vec<Expression> = Vec::new();
    let mut p: usize = pos;
    proof {
        assert(expression_views(args@) =~= Seq::empty());
    }
    loop
        invariant
            ts == token_views(tokens@),
            pos <= p <= tokens.len(),
            arguments_at(ts, pos as nat, Seq::empty()) == arguments_at(
                ts,
                p as nat,
                expression_views(args@),
            ),
        decreases tokens.len() - p,
    {
        let (argument, q) = match parse_sum(tokens, p) {
            Err(e) => {
                return Err(e);
            },
            Ok(found) => found,
        };
        proof {
            assert(expression_views(args@.push(argument)) =~= expression_views(args@).push(
                argument@,
            ));
        }
        args.push(argument);
        match token_at(tokens, q) {
            Some(Token::Comma) => {
                p = q + 1;
            },
            Some(Token::RightParen) => {
                return Ok((args, q + 1));
            },
            _ => {
                return Err(unexpected_at(tokens, q));
            },
        }
    }
}

/// Parses a whole token sequence: one expression, then the end of the
/// input.
///
/// A token that cannot stand where it is found gives
/// [`EvalError::UnexpectedToken`] with its index; input that ends inside an
/// expression gives [`EvalError::UnexpectedEnd`].  The sequence reads as
/// ended at its first [`Token::End`], and behind its last token.
pub fn parse(tokens: &Vec<Token>) -> (r: Result<Expression, EvalError>)
    ensures
        match r {
            Ok(e) => parse_spec(token_views(tokens@)) == Ok::<ExpressionView, EvalErrorView>(e@),
            Err(e) => parse_spec(token_views(tokens@)) == Err::<ExpressionView, EvalErrorView>(
                e@,
            ),
        },
{
    match parse_sum(tokens, 0) {
        Err(e) => Err(e),
        Ok((e, p)) => match token_at(tokens, p) {
            None => Ok(e),
            Some(t) => Err(EvalError::UnexpectedToken { found: t.duplicate(), position: p }),
        },
    }
}

} // verus!
