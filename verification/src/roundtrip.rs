//! Parsing what the printer wrote gives the tree back.
use vstd::prelude::*;
use crate::env::EnvironmentView;
use crate::error::EvalErrorView;
use crate::eval::Arithmetic;
use crate::eval::evaluates_to;
use crate::eval::Outcome;
use crate::eval::text_evaluates_to;
use crate::expr::ExpressionView;
use crate::lexer::tokenize_spec;
use crate::parser::arguments_at;
use crate::parser::forward;
use crate::parser::is_additive;
use crate::parser::is_multiplicative;
use crate::parser::parse_spec;
use crate::parser::Parsed;
use crate::parser::ParsedArguments;
use crate::parser::peek;
use crate::parser::power_at;
use crate::parser::primary_at;
use crate::parser::sign_of;
use crate::parser::sum_at;
use crate::parser::sum_tail;
use crate::parser::term_at;
use crate::parser::term_tail;
use crate::parser::unary_at;
use crate::printer::argument_tokens;
use crate::printer::bare_tokens;
use crate::printer::left_level;
use crate::printer::level;
use crate::printer::print_spec;
use crate::printer::sign_operator;
use crate::printer::tokens_of;
use crate::token::Operator;
use crate::token::TokenView;
use crate::wellformed::lemma_parse_gives_well_formed;
use crate::wellformed::lemma_print_is_valid;
use crate::wellformed::well_formed;
use crate::writer::lemma_read_tokens_are_valid;
use crate::writer::lemma_tokenize_inverts_spelling;
use crate::writer::pretty_spec;

verus! {

/// The tokens `part` stand in `ts` from `pos` on.
pub open spec fn occurs(ts: Seq<TokenView>, pos: nat, part: Seq<TokenView>) -> bool {
    &&& pos + part.len() <= ts.len()
    &&& forall|i: int| 0 <= i < part.len() ==> ts[pos + i] == #[trigger] part[i]
}

/// A token behind an expression that was parsed at `level` ends it there:
/// it cannot be taken for a continuation.
pub open spec fn stops(level: nat, t: TokenView) -> bool {
    &&& t != TokenView::LeftParen
    &&& level <= 3 ==> t != TokenView::Operator(Operator::Caret)
    &&& level <= 1 ==> !(t matches TokenView::Operator(op) && is_multiplicative(op))
    &&& level == 0 ==> !(t matches TokenView::Operator(op) && is_additive(op))
}

/// The grammar's function for a level.
pub open spec fn parse_at(level: nat, ts: Seq<TokenView>, pos: nat) -> Parsed {
    if level == 0 {
        sum_at(ts, pos)
    } else if level == 1 {
        term_at(ts, pos)
    } else if level == 2 {
        unary_at(ts, pos)
    } else if level == 3 {
        power_at(ts, pos)
    } else {
        primary_at(ts, pos)
    }
}

/// Whether a token can begin an operand that needs no sign in front.
pub open spec fn begins_primary(t: TokenView) -> bool {
    t is Number || t is Identifier || t is LeftParen
}

proof fn lemma_occurs_concat(ts: Seq<TokenView>, pos: nat, a: Seq<TokenView>, b: Seq<TokenView>)
    requires
        occurs(ts, pos, a + b),
    ensures
        occurs(ts, pos, a),
        occurs(ts, pos + a.len(), b),
{
    let whole = a + b;
    assert forall|i: int| 0 <= i < a.len() implies ts[pos + i] == #[trigger] a[i] by {
        assert(whole[i] == a[i]);
    }
    assert forall|i: int| 0 <= i < b.len() implies ts[pos + a.len() + i] == #[trigger] b[i] by {
        assert(whole[a.len() + i] == b[i]);
    }
}

proof fn lemma_occurs_three(
    ts: Seq<TokenView>,
    pos: nat,
    a: Seq<TokenView>,
    b: Seq<TokenView>,
    c: Seq<TokenView>,
)
    requires
        occurs(ts, pos, a + b + c),
    ensures
        occurs(ts, pos, a),
        occurs(ts, pos + a.len(), b),
        occurs(ts, pos + a.len() + b.len(), c),
        (a + b + c).len() == a.len() + b.len() + c.len(),
{
    lemma_occurs_concat(ts, pos, a + b, c);
    lemma_occurs_concat(ts, pos, a, b);
}

/// A token that occurs is the token that the parser sees.
proof fn lemma_occurs_peek(ts: Seq<TokenView>, pos: nat, part: Seq<TokenView>, i: int)
    requires
        occurs(ts, pos, part),
        0 <= i < part.len(),
    ensures
        peek(ts, (pos + i) as nat) == part[i],
        pos + i < ts.len(),
{
    assert(ts[pos + i] == part[i]);
}

/// Printed tokens are never empty, start an operand, and start a primary
/// where one is asked for.
pub proof fn lemma_first_token(e: ExpressionView, min: nat)
    ensures
        tokens_of(e, min).len() > 0,
        begins_primary(tokens_of(e, min)[0]) || (tokens_of(e, min)[0] matches TokenView::Operator(
            op,
        ) && is_additive(op)),
        min >= 3 ==> begins_primary(tokens_of(e, min)[0]),
        level(e) >= 3 ==> begins_primary(bare_tokens(e)[0]),
        bare_tokens(e).len() > 0,
    decreases e,
{
    match e {
        ExpressionView::BinaryOp(op, left, right) => {
            lemma_first_token(*left, left_level(op));
        },
        _ => {},
    }
}

/// A successful result.
pub open spec fn done(e: ExpressionView, end: nat) -> Parsed {
    Ok((e, end))
}

/// The place of a round-trip step in the order of the proof: steps on the
/// same tree go from parenthesized to bare and from loose to tight levels.
pub open spec fn rank(e: ExpressionView, min: nat) -> nat {
    if min > level(e) {
        10
    } else {
        (9 - 2 * min) as nat
    }
}

/// A primary that is not followed by `^` is a power.
proof fn lemma_primary_is_power(ts: Seq<TokenView>, pos: nat, e: ExpressionView, end: nat)
    requires
        primary_at(ts, pos) == done(e, end),
        pos < end <= ts.len(),
        peek(ts, end) != TokenView::Operator(Operator::Caret),
    ensures
        power_at(ts, pos) == done(e, end),
{
}

/// A power that does not start with a sign is a signed operand.
proof fn lemma_power_is_unary(ts: Seq<TokenView>, pos: nat, e: ExpressionView, end: nat)
    requires
        power_at(ts, pos) == done(e, end),
        begins_primary(peek(ts, pos)),
    ensures
        unary_at(ts, pos) == done(e, end),
{
}

/// A signed operand that is not followed by `*`, `/` or `%` is a term.
proof fn lemma_unary_is_term(ts: Seq<TokenView>, pos: nat, e: ExpressionView, end: nat)
    requires
        unary_at(ts, pos) == done(e, end),
        pos < end <= ts.len(),
        !(peek(ts, end) matches TokenView::Operator(op) && is_multiplicative(op)),
    ensures
        term_at(ts, pos) == done(e, end),
        term_at(ts, pos) == term_tail(ts, end, e),
{
    assert(term_tail(ts, end, e) == done(e, end));
}

/// Parsing the printed tokens of `e` at the level they were printed for
/// gives `e` and ends behind them.
pub proof fn lemma_level_round_trip(ts: Seq<TokenView>, pos: nat, e: ExpressionView, min: nat)
    requires
        min <= 4,
        occurs(ts, pos, tokens_of(e, min)),
        stops(min, peek(ts, pos + tokens_of(e, min).len())),
    ensures
        parse_at(min, ts, pos) == done(e, pos + tokens_of(e, min).len()),
        tokens_of(e, min).len() > 0,
    decreases e, rank(e, min), 1nat,
{
    lemma_first_token(e, min);
    if min > level(e) {
        lemma_parenthesized(ts, pos, e, min);
    } else if min == 0 {
        let end = pos + tokens_of(e, 0).len();
        lemma_sum_prefix(ts, pos, e);
        assert(sum_tail(ts, end, e) == done(e, end));
    } else if min == 1 {
        let end = pos + tokens_of(e, 1).len();
        lemma_term_prefix(ts, pos, e);
        assert(term_tail(ts, end, e) == done(e, end));
    } else if min == 2 {
        lemma_unary_level(ts, pos, e);
    } else if min == 3 {
        lemma_power_level(ts, pos, e);
    } else {
        lemma_primary_level(ts, pos, e);
    }
}

/// The round trip of a tree that was printed in parentheses.
proof fn lemma_parenthesized(ts: Seq<TokenView>, pos: nat, e: ExpressionView, min: nat)
    requires
        min <= 4,
        min > level(e),
        occurs(ts, pos, tokens_of(e, min)),
        stops(min, peek(ts, pos + tokens_of(e, min).len())),
    ensures
        parse_at(min, ts, pos) == done(e, pos + tokens_of(e, min).len()),
    decreases e, rank(e, min), 0nat,
{
    let tokens = tokens_of(e, min);
    let end = pos + tokens.len();
    let bare = bare_tokens(e);
    lemma_first_token(e, 0);
    lemma_occurs_three(ts, pos, seq![TokenView::LeftParen], bare, seq![TokenView::RightParen]);
    lemma_occurs_peek(ts, pos, seq![TokenView::LeftParen], 0);
    lemma_occurs_peek(ts, pos + 1 + bare.len(), seq![TokenView::RightParen], 0);
    assert(tokens_of(e, 0) == bare);
    assert(peek(ts, pos) == TokenView::LeftParen);
    assert(peek(ts, pos + 1 + bare.len()) == TokenView::RightParen);
    assert(end == pos + 1 + bare.len() + 1);
    lemma_level_round_trip(ts, pos + 1, e, 0);
    assert(sum_at(ts, pos + 1) == done(e, pos + 1 + bare.len()));
    assert(primary_at(ts, pos) == done(e, end));
    if min <= 3 {
        lemma_primary_is_power(ts, pos, e, end);
    }
    if min <= 2 {
        lemma_power_is_unary(ts, pos, e, end);
    }
    if min <= 1 {
        lemma_unary_is_term(ts, pos, e, end);
    }
}

/// The round trip where a signed operand is asked for.
proof fn lemma_unary_level(ts: Seq<TokenView>, pos: nat, e: ExpressionView)
    requires
        level(e) >= 2,
        occurs(ts, pos, tokens_of(e, 2)),
        stops(2, peek(ts, pos + tokens_of(e, 2).len())),
    ensures
        unary_at(ts, pos) == done(e, pos + tokens_of(e, 2).len()),
    decreases e, rank(e, 2), 0nat,
{
    let tokens = tokens_of(e, 2);
    let end = pos + tokens.len();
    lemma_first_token(e, 2);
    lemma_occurs_peek(ts, pos, tokens, 0);
    match e {
        ExpressionView::UnaryOp(sign, operand) => {
            let head = seq![TokenView::Operator(sign_operator(sign))];
            let rest = tokens_of(*operand, 2);
            assert(tokens == head + rest);
            lemma_occurs_concat(ts, pos, head, rest);
            assert(peek(ts, pos) == TokenView::Operator(sign_operator(sign)));
            lemma_level_round_trip(ts, pos + 1, *operand, 2);
            assert(unary_at(ts, pos + 1) == done(*operand, end));
            assert(sign_of(sign_operator(sign)) == sign);
            assert(is_additive(sign_operator(sign)));
        },
        _ => {
            assert(tokens_of(e, 3) == tokens);
            lemma_level_round_trip(ts, pos, e, 3);
            assert(begins_primary(tokens[0]));
            lemma_power_is_unary(ts, pos, e, end);
        },
    }
}

/// The round trip where a power is asked for.
proof fn lemma_power_level(ts: Seq<TokenView>, pos: nat, e: ExpressionView)
    requires
        level(e) >= 3,
        occurs(ts, pos, tokens_of(e, 3)),
        stops(3, peek(ts, pos + tokens_of(e, 3).len())),
    ensures
        power_at(ts, pos) == done(e, pos + tokens_of(e, 3).len()),
    decreases e, rank(e, 3), 0nat,
{
    let tokens = tokens_of(e, 3);
    let end = pos + tokens.len();
    lemma_first_token(e, 3);
    match e {
        ExpressionView::BinaryOp(op, left, right) => {
            assert(op == Operator::Caret);
            let l = tokens_of(*left, 4);
            let r = tokens_of(*right, 2);
            let middle = seq![TokenView::Operator(op)];
            assert(tokens == l + middle + r);
            lemma_occurs_three(ts, pos, l, middle, r);
            lemma_occurs_peek(ts, pos + l.len(), middle, 0);
            lemma_first_token(*left, 4);
            lemma_first_token(*right, 2);
            let mid = pos + l.len();
            assert(peek(ts, mid) == TokenView::Operator(Operator::Caret));
            lemma_level_round_trip(ts, pos, *left, 4);
            assert(primary_at(ts, pos) == done(*left, mid));
            lemma_level_round_trip(ts, mid + 1, *right, 2);
            assert(unary_at(ts, mid + 1) == done(*right, end));
            assert(forward(ts, pos, primary_at(ts, pos)) == done(*left, mid));
        },
        _ => {
            assert(tokens_of(e, 4) == tokens);
            lemma_level_round_trip(ts, pos, e, 4);
            lemma_primary_is_power(ts, pos, e, end);
        },
    }
}

/// The round trip where a primary is asked for.
proof fn lemma_primary_level(ts: Seq<TokenView>, pos: nat, e: ExpressionView)
    requires
        level(e) >= 4,
        occurs(ts, pos, tokens_of(e, 4)),
        stops(4, peek(ts, pos + tokens_of(e, 4).len())),
    ensures
        primary_at(ts, pos) == done(e, pos + tokens_of(e, 4).len()),
    decreases e, rank(e, 4), 0nat,
{
    let tokens = tokens_of(e, 4);
    let end = pos + tokens.len();
    lemma_occurs_peek(ts, pos, tokens, 0);
    match e {
        ExpressionView::Call(name, args) => {
            let head = seq![TokenView::Identifier(name), TokenView::LeftParen];
            let middle = argument_tokens(args, args.len());
            let tail = seq![TokenView::RightParen];
            assert(tokens == head + middle + tail);
            lemma_occurs_three(ts, pos, head, middle, tail);
            lemma_occurs_peek(ts, pos, head, 0);
            lemma_occurs_peek(ts, pos, head, 1);
            lemma_occurs_peek(ts, pos + 2 + middle.len(), tail, 0);
            assert(peek(ts, pos) == TokenView::Identifier(name));
            assert(peek(ts, pos + 1) == TokenView::LeftParen);
            assert(peek(ts, pos + 2 + middle.len()) == TokenView::RightParen);
            if args.len() == 0 {
                assert(args =~= Seq::empty());
                assert(middle.len() == 0);
            } else {
                lemma_argument_tokens_start(args, args.len());
                lemma_occurs_peek(ts, pos + 2, middle, 0);
                lemma_first_token(args[0], 0);
                assert(peek(ts, pos + 2) != TokenView::RightParen);
                lemma_arguments_round_trip(ts, pos + 2, args, args.len());
                assert(args.take(args.len() as int) =~= args);
                assert(arguments_at(ts, pos + 2, Seq::empty()) == Ok::<
                    (Seq<ExpressionView>, nat),
                    EvalErrorView,
                >((args, end)));
            }
        },
        _ => {},
    }
}

/// A list of printed arguments starts like its first argument.
proof fn lemma_argument_tokens_start(args: Seq<ExpressionView>, count: nat)
    requires
        1 <= count <= args.len(),
    ensures
        argument_tokens(args, count).len() > 0,
        argument_tokens(args, count)[0] == tokens_of(args[0], 0)[0],
    decreases count,
{
    lemma_first_token(args[0], 0);
    if count > 1 {
        lemma_argument_tokens_start(args, (count - 1) as nat);
    }
}

/// What reading an argument list does behind the first `count` printed
/// arguments: it goes on behind a comma and ends behind a closing
/// parenthesis, with those arguments read.
pub open spec fn arguments_after(
    ts: Seq<TokenView>,
    end: nat,
    read: Seq<ExpressionView>,
) -> ParsedArguments {
    match peek(ts, end) {
        TokenView::Comma => arguments_at(ts, end + 1, read),
        TokenView::RightParen => Ok((read, end + 1)),
        _ => arguments_at(ts, end, read),
    }
}

/// Reading printed arguments gives the arguments back.
proof fn lemma_arguments_round_trip(
    ts: Seq<TokenView>,
    pos: nat,
    args: Seq<ExpressionView>,
    count: nat,
)
    requires
        1 <= count <= args.len(),
        occurs(ts, pos, argument_tokens(args, count)),
        peek(ts, pos + argument_tokens(args, count).len()) == TokenView::Comma || peek(
            ts,
            pos + argument_tokens(args, count).len(),
        ) == TokenView::RightParen,
    ensures
        arguments_at(ts, pos, Seq::empty()) == arguments_after(
            ts,
            pos + argument_tokens(args, count).len(),
            args.take(count as int),
        ),
    decreases args, count, 0nat,
{
    let last = tokens_of(args[count - 1], 0);
    lemma_first_token(args[count - 1], 0);
    if count == 1 {
        let end = pos + last.len();
        lemma_level_round_trip(ts, pos, args[0], 0);
        assert(sum_at(ts, pos) == done(args[0], end));
        assert(forward(ts, pos, sum_at(ts, pos)) == done(args[0], end));
        assert(Seq::<ExpressionView>::empty().push(args[0]) =~= args.take(1));
    } else {
        let before = argument_tokens(args, (count - 1) as nat);
        let comma = seq![TokenView::Comma];
        assert(argument_tokens(args, count) == before + comma + last);
        lemma_occurs_three(ts, pos, before, comma, last);
        lemma_occurs_peek(ts, pos + before.len(), comma, 0);
        assert(peek(ts, pos + before.len()) == TokenView::Comma);
        lemma_arguments_round_trip(ts, pos, args, (count - 1) as nat);
        let start = pos + before.len() + 1;
        let end = start + last.len();
        let read = args.take(count - 1);
        assert(arguments_at(ts, pos, Seq::empty()) == arguments_at(ts, start, read));
        lemma_level_round_trip(ts, start, args[count - 1], 0);
        assert(sum_at(ts, start) == done(args[count - 1], end));
        assert(forward(ts, start, sum_at(ts, start)) == done(args[count - 1], end));
        assert(read.push(args[count - 1]) =~= args.take(count as int));
    }
}

/// Behind the printed tokens of `e`, a term is read up to `e` and goes on
/// from there.
proof fn lemma_term_prefix(ts: Seq<TokenView>, pos: nat, e: ExpressionView)
    requires
        occurs(ts, pos, tokens_of(e, 1)),
        stops(2, peek(ts, pos + tokens_of(e, 1).len())),
    ensures
        term_at(ts, pos) == term_tail(ts, pos + tokens_of(e, 1).len(), e),
    decreases e, (if level(e) == 0 {
            11nat
        } else {
            6nat
        }), 0nat,
{
    let tokens = tokens_of(e, 1);
    let end = pos + tokens.len();
    lemma_first_token(e, 1);
    match e {
        ExpressionView::BinaryOp(op, left, right) if is_multiplicative(op) => {
                let l = tokens_of(*left, 1);
                let r = tokens_of(*right, 2);
                let middle = seq![TokenView::Operator(op)];
                assert(tokens == l + middle + r);
                lemma_occurs_three(ts, pos, l, middle, r);
                lemma_occurs_peek(ts, pos + l.len(), middle, 0);
                lemma_first_token(*left, 1);
                lemma_first_token(*right, 2);
                let mid = pos + l.len();
                assert(peek(ts, mid) == TokenView::Operator(op));
                lemma_term_prefix(ts, pos, *left);
                assert(term_at(ts, pos) == term_tail(ts, mid, *left));
                lemma_level_round_trip(ts, mid + 1, *right, 2);
                assert(unary_at(ts, mid + 1) == done(*right, end));
                assert(forward(ts, mid, unary_at(ts, mid + 1)) == done(*right, end));
                assert(term_tail(ts, mid, *left) == term_tail(ts, end, e));
        },
        _ => {
                assert(tokens_of(e, 2) == tokens);
                lemma_level_round_trip(ts, pos, e, 2);
                assert(unary_at(ts, pos) == done(e, end));
                assert(forward(ts, pos, unary_at(ts, pos)) == done(e, end));
        },
    }
}

/// Behind the printed tokens of `e`, a sum is read up to `e` and goes on
/// from there.
proof fn lemma_sum_prefix(ts: Seq<TokenView>, pos: nat, e: ExpressionView)
    requires
        occurs(ts, pos, tokens_of(e, 0)),
        stops(1, peek(ts, pos + tokens_of(e, 0).len())),
    ensures
        sum_at(ts, pos) == sum_tail(ts, pos + tokens_of(e, 0).len(), e),
    decreases e, 8nat, 0nat,
{
    let tokens = tokens_of(e, 0);
    let end = pos + tokens.len();
    lemma_first_token(e, 0);
    match e {
        ExpressionView::BinaryOp(op, left, right) if is_additive(op) => {
                let l = tokens_of(*left, 0);
                let r = tokens_of(*right, 1);
                let middle = seq![TokenView::Operator(op)];
                assert(tokens == l + middle + r);
                lemma_occurs_three(ts, pos, l, middle, r);
                lemma_occurs_peek(ts, pos + l.len(), middle, 0);
                lemma_first_token(*left, 0);
                lemma_first_token(*right, 1);
                let mid = pos + l.len();
                assert(peek(ts, mid) == TokenView::Operator(op));
                lemma_sum_prefix(ts, pos, *left);
                assert(sum_at(ts, pos) == sum_tail(ts, mid, *left));
                lemma_level_round_trip(ts, mid + 1, *right, 1);
                assert(term_at(ts, mid + 1) == done(*right, end));
                assert(forward(ts, mid, term_at(ts, mid + 1)) == done(*right, end));
                assert(sum_tail(ts, mid, *left) == sum_tail(ts, end, e));
        },
        _ => {
                assert(tokens_of(e, 1) == tokens);
                lemma_level_round_trip(ts, pos, e, 1);
                assert(term_at(ts, pos) == done(e, end));
                assert(forward(ts, pos, term_at(ts, pos)) == done(e, end));
        },
    }
}

/// Printing a tree and parsing the tokens gives the tree back.
pub proof fn lemma_parse_inverts_print(e: ExpressionView)
    ensures
        parse_spec(print_spec(e)) == Ok::<ExpressionView, EvalErrorView>(e),
{
    let ts = print_spec(e);
    let tokens = tokens_of(e, 0);
    assert forall|i: int| 0 <= i < tokens.len() implies ts[0 + i] == #[trigger] tokens[i] by {}
    assert(ts[tokens.len() as int] == TokenView::End);
    lemma_level_round_trip(ts, 0, e, 0);
}

/// Writing a well-formed tree as text and reading the text gives the tree
/// back: the lexer returns the printed tokens, and the parser the tree.
pub proof fn lemma_read_inverts_pretty(e: ExpressionView)
    requires
        well_formed(e),
    ensures
        tokenize_spec(pretty_spec(e)) == Ok::<Seq<TokenView>, EvalErrorView>(print_spec(e)),
        parse_spec(print_spec(e)) == Ok::<ExpressionView, EvalErrorView>(e),
{
    lemma_print_is_valid(e);
    lemma_tokenize_inverts_spelling(print_spec(e));
    lemma_parse_inverts_print(e);
}

/// Pretty-printing the tree that was parsed from a text, and parsing what
/// was printed, gives the same tree.
pub proof fn lemma_parsed_tree_round_trip(text: Seq<char>, ts: Seq<TokenView>, e: ExpressionView)
    requires
        tokenize_spec(text) == Ok::<Seq<TokenView>, EvalErrorView>(ts),
        parse_spec(ts) == Ok::<ExpressionView, EvalErrorView>(e),
    ensures
        well_formed(e),
        tokenize_spec(pretty_spec(e)) == Ok::<Seq<TokenView>, EvalErrorView>(print_spec(e)),
        parse_spec(print_spec(e)) == Ok::<ExpressionView, EvalErrorView>(e),
{
    lemma_read_tokens_are_valid(text, 0);
    lemma_parse_gives_well_formed(ts);
    lemma_read_inverts_pretty(e);
}

/// Printing does not change the value: the results of reading and
/// evaluating the text of a well-formed tree are the results of evaluating
/// the tree.
pub proof fn lemma_pretty_keeps_value(
    arithmetic: Arithmetic,
    env: EnvironmentView,
    e: ExpressionView,
    out: Outcome,
)
    requires
        well_formed(e),
    ensures
        text_evaluates_to(arithmetic, env, pretty_spec(e), out) == evaluates_to(arithmetic, env, e, out),
{
    lemma_read_inverts_pretty(e);
}

} // verus!
