//! Writing tokens out as text.
//!
//! Tokens are separated by one blank, except that nothing stands behind an
//! opening parenthesis, before a closing parenthesis or a comma, between a
//! function's name and its opening parenthesis, and behind a sign:
//! `-2 ^ 2`, `(2 + 3) * 4`, `max(1, -x)`.
use vstd::prelude::*;
use crate::error::EvalErrorView;
use crate::expr::Expression;
use crate::expr::ExpressionView;
use crate::lexer::is_space;
use crate::lexer::token_at;
use crate::lexer::tokenize_spec;
use crate::lexer::tokens_from;
use crate::printer::print;
use crate::printer::print_spec;
use crate::spelling::agree;
use crate::spelling::closed_at;
use crate::spelling::closes_word;
use crate::spelling::lemma_read_is_spelled;
use crate::spelling::lemma_spelling_is_read;
use crate::spelling::well_spelled;
use crate::token::Operator;
use crate::token::Token;
use crate::token::token_views;
use crate::token::TokenView;

verus! {

/// Whether the token at `j` is a sign: a `+` or `-` at the start, or behind
/// an operator, an opening parenthesis or a comma.
pub open spec fn is_sign(ts: Seq<TokenView>, j: int) -> bool {
    &&& 0 <= j < ts.len()
    &&& (ts[j] == TokenView::Operator(Operator::Plus) || ts[j] == TokenView::Operator(
        Operator::Minus,
    ))
    &&& (j == 0 || ts[j - 1] is Operator || ts[j - 1] is LeftParen || ts[j - 1] is Comma)
}

/// Whether the token at `i` is written directly behind the one before it.
pub open spec fn glued(ts: Seq<TokenView>, i: int) -> bool {
    ||| ts[i - 1] is LeftParen
    ||| ts[i] is RightParen
    ||| ts[i] is Comma
    ||| ts[i] is End
    ||| (ts[i - 1] is Identifier && ts[i] is LeftParen)
    ||| is_sign(ts, i - 1)
}

/// What is written between the token at `i` and the one before it.
pub open spec fn separator(ts: Seq<TokenView>, i: int) -> Seq<char> {
    if i > 0 && !glued(ts, i) {
        seq![' ']
    } else {
        Seq::empty()
    }
}

/// The text of the tokens from index `i` on, with what separates the first
/// of them from the token before.
pub open spec fn written_from(ts: Seq<TokenView>, i: nat) -> Seq<char>
    decreases ts.len() - i,
{
    if i >= ts.len() {
        Seq::empty()
    } else {
        separator(ts, i as int) + ts[i as int].spelling() + written_from(ts, i + 1)
    }
}

/// The text of the first `i` tokens.
pub open spec fn written_upto(ts: Seq<TokenView>, i: nat) -> Seq<char>
    decreases i,
{
    if i == 0 || i > ts.len() {
        Seq::empty()
    } else {
        written_upto(ts, (i - 1) as nat) + separator(ts, i - 1) + ts[i - 1].spelling()
    }
}

/// The text of a token sequence.
pub open spec fn written(ts: Seq<TokenView>) -> Seq<char> {
    written_from(ts, 0)
}

/// The text of an expression: its tokens, written out.
pub open spec fn pretty_spec(e: ExpressionView) -> Seq<char> {
    written(print_spec(e))
}

/// A token sequence as the lexer gives it: well-spelled tokens, closed by
/// one end marker.
pub open spec fn valid_tokens(ts: Seq<TokenView>) -> bool {
    &&& ts.len() > 0
    &&& ts.last() is End
    &&& forall|i: int| 0 <= i < ts.len() - 1 ==> well_spelled(#[trigger] ts[i])
}

/// The text of all tokens is the text of the first `i` and of the rest.
proof fn lemma_written_parts(ts: Seq<TokenView>, i: nat)
    requires
        i <= ts.len(),
    ensures
        written_upto(ts, i) + written_from(ts, i) == written(ts),
    decreases i,
{
    if i == 0 {
        assert(written_upto(ts, 0) + written_from(ts, 0) =~= written(ts));
    } else {
        lemma_written_parts(ts, (i - 1) as nat);
        let before = written_upto(ts, (i - 1) as nat);
        let piece = separator(ts, i - 1) + ts[i - 1].spelling();
        assert(written_from(ts, (i - 1) as nat) == piece + written_from(ts, i));
        assert(written_upto(ts, i) + written_from(ts, i) =~= before + (piece + written_from(
            ts,
            i,
        )));
    }
}

/// The first character behind a numeral or a name closes it.
proof fn lemma_word_is_closed(ts: Seq<TokenView>, i: nat)
    requires
        valid_tokens(ts),
        i + 1 < ts.len(),
        ts[i as int] is Number || ts[i as int] is Identifier,
    ensures
        written_from(ts, i + 1).len() == 0 || closes_word(written_from(ts, i + 1)[0]),
{
    let j = i + 1;
    let rest = written_from(ts, j);
    let sep = separator(ts, j as int);
    let sp = ts[j as int].spelling();
    assert(rest == sep + sp + written_from(ts, j + 1));
    if sep.len() > 0 {
        assert(rest[0] == ' ');
    } else if ts[j as int] is End {
        assert(j == ts.len() - 1) by {
            if j < ts.len() - 1 {
                assert(well_spelled(ts[j as int]));
            }
        }
        assert(written_from(ts, j + 1).len() == 0);
        assert(rest.len() == 0);
    } else {
        assert(sp.len() == 1);
        assert(rest[0] == sp[0]);
    }
}

/// The lexer reads written tokens back: from where the tokens from index
/// `i` on are written, it gives exactly those tokens.
pub proof fn lemma_written_is_read(s: Seq<char>, pos: nat, ts: Seq<TokenView>, i: nat)
    requires
        valid_tokens(ts),
        i < ts.len(),
        agree(written_from(ts, i), 0, s, pos, written_from(ts, i).len()),
        pos + written_from(ts, i).len() == s.len(),
    ensures
        tokens_from(s, pos) == Ok::<Seq<TokenView>, EvalErrorView>(ts.skip(i as int)),
    decreases ts.len() - i,
{
    let w = written_from(ts, i);
    let t = ts[i as int];
    let sep = separator(ts, i as int);
    let sp = t.spelling();
    let rest = written_from(ts, i + 1);
    assert(w == sep + sp + rest);
    if t is End {
        assert(i == ts.len() - 1) by {
            if i < ts.len() - 1 {
                assert(well_spelled(ts[i as int]));
            }
        }
        assert(rest.len() == 0);
        assert(sep.len() == 0);
        assert(ts.skip(i as int) =~= seq![TokenView::End]);
    } else {
        assert(i < ts.len() - 1);
        assert(well_spelled(t));
        let start = pos + sep.len();
        if sep.len() > 0 {
            assert(w[0] == ' ');
            assert(w[0 + 0int] == s[pos + 0int]);
            assert(is_space(s[pos as int]));
        }
        assert(agree(sp, 0, s, start, sp.len())) by {
            assert forall|k: int| 0 <= k < sp.len() implies sp[0 + k] == #[trigger] s[start + k] by {
                assert(w[0 + (sep.len() + k)] == s[pos + (sep.len() + k)]);
                assert(w[sep.len() + k] == sp[k]);
            }
        }
        let end = start + sp.len();
        if t is Number || t is Identifier {
            lemma_word_is_closed(ts, i);
            if rest.len() > 0 {
                assert(w[0 + (sep.len() + sp.len() + 0int)] == s[pos + (sep.len() + sp.len()
                    + 0int)]);
                assert(w[sep.len() + sp.len() + 0int] == rest[0]);
            }
            assert(closed_at(s, end));
        }
        lemma_spelling_is_read(s, start, t);
        assert(agree(rest, 0, s, end, rest.len())) by {
            assert forall|k: int| 0 <= k < rest.len() implies rest[0 + k] == #[trigger] s[end
                + k] by {
                assert(w[0 + (sep.len() + sp.len() + k)] == s[pos + (sep.len() + sp.len() + k)]);
                assert(w[sep.len() + sp.len() + k] == rest[k]);
            }
        }
        lemma_written_is_read(s, end, ts, i + 1);
        assert(seq![t] + ts.skip(i as int + 1) =~= ts.skip(i as int));
        assert(tokens_from(s, start) == Ok::<Seq<TokenView>, EvalErrorView>(ts.skip(i as int)));
    }
}

/// Writing a valid token sequence and reading the text gives it back.
pub proof fn lemma_tokenize_inverts_spelling(ts: Seq<TokenView>)
    requires
        valid_tokens(ts),
    ensures
        tokenize_spec(written(ts)) == Ok::<Seq<TokenView>, EvalErrorView>(ts),
{
    let s = written(ts);
    lemma_written_is_read(s, 0, ts, 0);
    assert(ts.skip(0) =~= ts);
}

/// What the lexer reads is a valid token sequence.
pub proof fn lemma_read_tokens_are_valid(s: Seq<char>, pos: nat)
    ensures
        tokens_from(s, pos) matches Ok(ts) ==> valid_tokens(ts),
    decreases s.len() - pos,
{
    if pos >= s.len() {
    } else if is_space(s[pos as int]) {
        lemma_read_tokens_are_valid(s, pos + 1);
    } else {
        lemma_read_is_spelled(s, pos);
        if let Ok((t, next)) = token_at(s, pos) {
            lemma_read_tokens_are_valid(s, next);
            if let Ok(rest) = tokens_from(s, next) {
                let ts = seq![t] + rest;
                assert forall|i: int| 0 <= i < ts.len() - 1 implies well_spelled(
                    #[trigger] ts[i],
                ) by {
                    if i > 0 {
                        assert(ts[i] == rest[i - 1]);
                    }
                }
                assert(ts.last() == rest.last());
            }
        }
    }
}

fn is_sign_at(tokens: &Vec<Token>, j: usize) -> (b: bool)
    requires
        j < tokens.len(),
    ensures
        b == is_sign(token_views(tokens@), j as int),
{
    let additive = match &tokens[j] {
        Token::Operator(Operator::Plus) => true,
        Token::Operator(Operator::Minus) => true,
        _ => false,
    };
    if !additive {
        false
    } else if j == 0 {
        true
    } else {
        match &tokens[j - 1] {
            Token::Operator(_) => true,
            Token::LeftParen => true,
            Token::Comma => true,
            _ => false,
        }
    }
}

fn is_glued(tokens: &Vec<Token>, i: usize) -> (b: bool)
    requires
        0 < i < tokens.len(),
    ensures
        b == glued(token_views(tokens@), i as int),
{
    let closing = match &tokens[i] {
        Token::RightParen => true,
        Token::Comma => true,
        Token::End => true,
        _ => false,
    };
    let opening = match &tokens[i - 1] {
        Token::LeftParen => true,
        Token::Identifier(_) => match &tokens[i] {
            Token::LeftParen => true,
            _ => false,
        },
        _ => false,
    };
    closing || opening || is_sign_at(tokens, i - 1)
}

/// Writes a token sequence out as text.
pub fn spell_out(tokens: &Vec<Token>) -> (text: String)
    ensures
        text@ == written(token_views(tokens@)),
{
    let ghost ts = token_views(tokens@);
    let mut text = String::new();
    let mut i: usize = 0;
    while i < tokens.len()
        invariant
            i <= tokens.len(),
            ts == token_views(tokens@),
            text@ == written_upto(ts, i as nat),
        decreases tokens.len() - i,
    {
        let ghost before = text@;
        if i > 0 && !is_glued(tokens, i) {
            text.push(' ');
        }
        assert(text@ =~= before + separator(ts, i as int));
        tokens[i].append_to(&mut text);
        i += 1;
    }
    proof {
        lemma_written_parts(ts, ts.len());
        assert(written_upto(ts, ts.len()) + written_from(ts, ts.len()) =~= written_upto(
            ts,
            ts.len(),
        ));
    }
    text
}

/// The expression as text, with parentheses only where the grammar needs
/// them.
pub fn pretty(e: &Expression) -> (text: String)
    ensures
        text@ == pretty_spec(e@),
{
    let tokens = print(e);
    spell_out(&tokens)
}

} // verus!
