//! The lexer: from characters to tokens.
//!
//! [`tokenize_spec`] says, as a function on character sequences, which token
//! sequence a text stands for; [`tokenize`] computes it.
use vstd::prelude::*;
use crate::error::EvalError;
use crate::error::EvalErrorView;
use crate::error::LexDetail;
use crate::text::characters;
use crate::text::string_of;
use crate::token::Operator;
use crate::token::Token;
use crate::token::token_views;
use crate::token::TokenView;

verus! {

/// The character classes that tokens are made of.
#[derive(Clone, Copy, Debug, PartialEq, Eq, Structural)]
pub enum CharClass {
    /// Blank, tab, line feed, carriage return.
    Space,
    /// `0` to `9`.
    Digit,
    /// Letters, digits and the underscore: what may continue an identifier.
    Word,
}

/// Blank, tab, line feed or carriage return.
pub open spec fn is_space(c: char) -> bool {
    c == ' ' || c == '\t' || c == '\n' || c == '\r'
}

/// `0` to `9`.
pub open spec fn is_digit(c: char) -> bool {
    '0' <= c <= '9'
}

/// What may start an identifier: `a` to `z`, `A` to `Z`, or `_`.
pub open spec fn is_letter(c: char) -> bool {
    ('a' <= c <= 'z') || ('A' <= c <= 'Z') || c == '_'
}

/// Whether `c` belongs to `class`.
pub open spec fn in_class(class: CharClass, c: char) -> bool {
    match class {
        CharClass::Space => is_space(c),
        CharClass::Digit => is_digit(c),
        CharClass::Word => is_letter(c) || is_digit(c),
    }
}

/// Where the run of `class` characters that starts at `pos` ends: the first
/// index from `pos` on whose character is outside the class, or the length.
pub open spec fn run_end(s: Seq<char>, pos: nat, class: CharClass) -> nat
    decreases s.len() - pos,
{
    if pos < s.len() && in_class(class, s[pos as int]) {
        run_end(s, pos + 1, class)
    } else {
        pos
    }
}

/// Where the mantissa that starts at `pos` ends: digits, then optionally a
/// decimal point and further digits.
pub open spec fn mantissa_end(s: Seq<char>, pos: nat) -> nat {
    let a = run_end(s, pos, CharClass::Digit);
    if a < s.len() && s[a as int] == '.' {
        run_end(s, a + 1, CharClass::Digit)
    } else {
        a
    }
}

/// Where the exponent digits start when an exponent marker stands at
/// `marker`: behind the marker and an optional sign.
pub open spec fn exponent_digits_start(s: Seq<char>, marker: nat) -> nat {
    if marker + 1 < s.len() && (s[marker as int + 1] == '+' || s[marker as int + 1] == '-') {
        marker + 2
    } else {
        marker + 1
    }
}

/// Where the numeric literal that starts at `pos` ends, or the offset at
/// which it is malformed: a second decimal point, or an exponent marker
/// without a digit behind it.
pub open spec fn number_end(s: Seq<char>, pos: nat) -> Result<nat, nat> {
    let m = mantissa_end(s, pos);
    if m < s.len() && s[m as int] == '.' {
        Err(m)
    } else if m < s.len() && (s[m as int] == 'e' || s[m as int] == 'E') {
        let d = exponent_digits_start(s, m);
        if d < s.len() && is_digit(s[d as int]) {
            Ok(run_end(s, d, CharClass::Digit))
        } else {
            Err(d)
        }
    } else {
        Ok(m)
    }
}

/// The token that a single operator or punctuation character stands for.
pub open spec fn symbol(c: char) -> Option<TokenView> {
    if c == '+' {
        Some(TokenView::Operator(Operator::Plus))
    } else if c == '-' {
        Some(TokenView::Operator(Operator::Minus))
    } else if c == '*' {
        Some(TokenView::Operator(Operator::Star))
    } else if c == '/' {
        Some(TokenView::Operator(Operator::Slash))
    } else if c == '%' {
        Some(TokenView::Operator(Operator::Percent))
    } else if c == '^' {
        Some(TokenView::Operator(Operator::Caret))
    } else if c == '(' {
        Some(TokenView::LeftParen)
    } else if c == ')' {
        Some(TokenView::RightParen)
    } else if c == ',' {
        Some(TokenView::Comma)
    } else {
        None
    }
}

/// The token that starts at `pos`, with the offset just behind it, or the
/// lexical error found there.  `pos` is inside the text and not on a space.
pub open spec fn token_at(s: Seq<char>, pos: nat) -> Result<(TokenView, nat), EvalErrorView> {
    let c = s[pos as int];
    if is_digit(c) {
        match number_end(s, pos) {
            Ok(end) => Ok((TokenView::Number(s.subrange(pos as int, end as int)), end)),
            Err(at) => Err(
                EvalErrorView::LexError { position: at, detail: LexDetail::MalformedNumber },
            ),
        }
    } else if is_letter(c) {
        let end = run_end(s, pos + 1, CharClass::Word);
        Ok((TokenView::Identifier(s.subrange(pos as int, end as int)), end))
    } else {
        match symbol(c) {
            Some(t) => Ok((t, pos + 1)),
            None => Err(
                EvalErrorView::LexError {
                    position: pos,
                    detail: LexDetail::UnexpectedCharacter(c),
                },
            ),
        }
    }
}

/// The tokens of `s` from offset `pos` on, closed by [`TokenView::End`], or
/// the first lexical error.
pub open spec fn tokens_from(s: Seq<char>, pos: nat) -> Result<Seq<TokenView>, EvalErrorView>
    decreases s.len() - pos,
{
    if pos >= s.len() {
        Ok(seq![TokenView::End])
    } else if is_space(s[pos as int]) {
        tokens_from(s, pos + 1)
    } else {
        match token_at(s, pos) {
            Err(e) => Err(e),
            Ok((t, next)) => {
                proof {
                    lemma_token_advances(s, pos);
                }
                match tokens_from(s, next) {
                    Err(e) => Err(e),
                    Ok(rest) => Ok(seq![t] + rest),
                }
            },
        }
    }
}

/// The token sequence that the text `s` stands for.
pub open spec fn tokenize_spec(s: Seq<char>) -> Result<Seq<TokenView>, EvalErrorView> {
    tokens_from(s, 0)
}

/// A run ends at or behind its start, inside the text, and on a character
/// outside the class.
pub proof fn lemma_run_end(s: Seq<char>, pos: nat, class: CharClass)
    requires
        pos <= s.len(),
    ensures
        pos <= run_end(s, pos, class) <= s.len(),
        run_end(s, pos, class) < s.len() ==> !in_class(class, s[run_end(s, pos, class) as int]),
        forall|i: int| pos <= i < run_end(s, pos, class) ==> in_class(class, #[trigger] s[i]),
    decreases s.len() - pos,
{
    if pos < s.len() && in_class(class, s[pos as int]) {
        lemma_run_end(s, pos + 1, class);
    }
}

/// A numeric literal ends inside the text, behind its first digit.
pub proof fn lemma_number_end(s: Seq<char>, pos: nat)
    requires
        pos < s.len(),
        is_digit(s[pos as int]),
    ensures
        number_end(s, pos) matches Ok(end) ==> pos < end <= s.len(),
        number_end(s, pos) matches Err(at) ==> pos < at <= s.len(),
{
    lemma_run_end(s, pos, CharClass::Digit);
    let a = run_end(s, pos, CharClass::Digit);
    if a < s.len() {
        lemma_run_end(s, a + 1, CharClass::Digit);
    }
    let m = mantissa_end(s, pos);
    if m < s.len() {
        let d = exponent_digits_start(s, m);
        if d <= s.len() {
            lemma_run_end(s, d, CharClass::Digit);
        }
    }
}

/// Every token is at least one character long and ends inside the text.
pub proof fn lemma_token_advances(s: Seq<char>, pos: nat)
    requires
        pos < s.len(),
    ensures
        token_at(s, pos) matches Ok((_, next)) ==> pos < next <= s.len(),
        token_at(s, pos) matches Err(EvalErrorView::LexError { position, .. }) ==> pos <= position
            <= s.len(),
{
    let c = s[pos as int];
    if is_digit(c) {
        lemma_number_end(s, pos);
    } else if is_letter(c) {
        lemma_run_end(s, pos + 1, CharClass::Word);
    }
}

fn char_in_class(class: CharClass, c: char) -> (b: bool)
    ensures
        b == in_class(class, c),
{
    match class {
        CharClass::Space => c == ' ' || c == '\t' || c == '\n' || c == '\r',
        CharClass::Digit => '0' <= c && c <= '9',
        CharClass::Word => ('a' <= c && c <= 'z') || ('A' <= c && c <= 'Z') || c == '_' || ('0'
            <= c && c <= '9'),
    }
}

/// Walks over the run of `class` characters that starts at `pos`.
fn scan_run(chars: &Vec<char>, pos: usize, class: CharClass) -> (end: usize)
    requires
        pos <= chars.len(),
    ensures
        end == run_end(chars@, pos as nat, class),
        pos <= end <= chars.len(),
{
    let mut i: usize = pos;
    while i < chars.len() && char_in_class(class, chars[i])
        invariant
            pos <= i <= chars.len(),
            run_end(chars@, i as nat, class) == run_end(chars@, pos as nat, class),
        decreases chars.len() - i,
    {
        i += 1;
    }
    i
}

/// Finds the end of the numeric literal that starts at `pos`.
fn scan_number(chars: &Vec<char>, pos: usize) -> (r: Result<usize, usize>)
    requires
        pos < chars.len(),
        is_digit(chars@[pos as int]),
    ensures
        match r {
            Ok(end) => number_end(chars@, pos as nat) == Ok::<nat, nat>(end as nat) && pos < end
                <= chars.len(),
            Err(at) => number_end(chars@, pos as nat) == Err::<nat, nat>(at as nat) && pos < at
                <= chars.len(),
        },
{
    proof {
        lemma_number_end(chars@, pos as nat);
    }
    let a = scan_run(chars, pos, CharClass::Digit);
    let m = if a < chars.len() && chars[a] == '.' {
        scan_run(chars, a + 1, CharClass::Digit)
    } else {
        a
    };
    if m < chars.len() && chars[m] == '.' {
        Err(m)
    } else if m < chars.len() && (chars[m] == 'e' || chars[m] == 'E') {
        let d = if m + 1 < chars.len() && (chars[m + 1] == '+' || chars[m + 1] == '-') {
            m + 2
        } else {
            m + 1
        };
        if d < chars.len() && char_in_class(CharClass::Digit, chars[d]) {
            Ok(scan_run(chars, d, CharClass::Digit))
        } else {
            Err(d)
        }
    } else {
        Ok(m)
    }
}

/// The token for an operator or punctuation character.
fn symbol_token(c: char) -> (t: Option<Token>)
    ensures
        match t {
            Some(t) => symbol(c) == Some(t@),
            None => symbol(c) is None,
        },
{
    if c == '+' {
        Some(Token::Operator(Operator::Plus))
    } else if c == '-' {
        Some(Token::Operator(Operator::Minus))
    } else if c == '*' {
        Some(Token::Operator(Operator::Star))
    } else if c == '/' {
        Some(Token::Operator(Operator::Slash))
    } else if c == '%' {
        Some(Token::Operator(Operator::Percent))
    } else if c == '^' {
        Some(Token::Operator(Operator::Caret))
    } else if c == '(' {
        Some(Token::LeftParen)
    } else if c == ')' {
        Some(Token::RightParen)
    } else if c == ',' {
        Some(Token::Comma)
    } else {
        None
    }
}

/// Reads the token that starts at `pos`.
fn scan_token(chars: &Vec<char>, pos: usize) -> (r: Result<(Token, usize), EvalError>)
    requires
        pos < chars.len(),
    ensures
        match r {
            Ok((t, next)) => token_at(chars@, pos as nat) == Ok::<
                (TokenView, nat),
                EvalErrorView,
            >((t@, next as nat)) && pos < next <= chars.len(),
            Err(e) => token_at(chars@, pos as nat) == Err::<(TokenView, nat), EvalErrorView>(e@),
        },
{
    let c = chars[pos];
    if char_in_class(CharClass::Digit, c) {
        match scan_number(chars, pos) {
            Ok(end) => Ok((Token::Number(string_of(chars, pos, end)), end)),
            Err(at) => Err(EvalError::LexError { position: at, detail: LexDetail::MalformedNumber }),
        }
    } else if ('a' <= c && c <= 'z') || ('A' <= c && c <= 'Z') || c == '_' {
        let end = scan_run(chars, pos + 1, CharClass::Word);
        Ok((Token::Identifier(string_of(chars, pos, end)), end))
    } else {
        match symbol_token(c) {
            Some(t) => Ok((t, pos + 1)),
            None => Err(
                EvalError::LexError { position: pos, detail: LexDetail::UnexpectedCharacter(c) },
            ),
        }
    }
}

/// Splits `text` into tokens and closes them with [`Token::End`].
///
/// Blanks, tabs and line breaks between tokens are skipped.  The first
/// character that starts no token, or the first malformed numeric literal,
/// ends the work with [`EvalError::LexError`] and its offset.
pub fn tokenize(text: &str) -> (r: Result<Vec<Token>, EvalError>)
    ensures
        match r {
            Ok(tokens) => tokenize_spec(text@) == Ok::<Seq<TokenView>, EvalErrorView>(
                token_views(tokens@),
            ),
            Err(e) => tokenize_spec(text@) == Err::<Seq<TokenView>, EvalErrorView>(e@),
        },
{
    let chars = characters(text);
    let mut tokens: Vec<Token> = Vec::new();
    let mut pos: usize = 0;
    while pos < chars.len()
        invariant
            pos <= chars.len(),
            chars@ == text@,
            match tokens_from(chars@, pos as nat) {
                Ok(rest) => tokenize_spec(chars@) == Ok::<Seq<TokenView>, EvalErrorView>(
                    token_views(tokens@) + rest,
                ),
                Err(e) => tokenize_spec(chars@) == Err::<Seq<TokenView>, EvalErrorView>(e),
            },
        decreases chars.len() - pos,
    {
        if char_in_class(CharClass::Space, chars[pos]) {
            pos += 1;
        } else {
            match scan_token(&chars, pos) {
                Err(e) => {
                    return Err(e);
                },
                Ok((t, next)) => {
                    proof {
                        let before = token_views(tokens@);
                        let after = token_views(tokens@.push(t));
                        assert(after =~= before.push(t@));
                        if let Ok(rest) = tokens_from(chars@, next as nat) {
                            assert(after + rest =~= before + (seq![t@] + rest));
                        }
                    }
                    tokens.push(t);
                    pos = next;
                },
            }
        }
    }
    proof {
        assert(token_views(tokens@.push(Token::End)) =~= token_views(tokens@) + seq![
            TokenView::End,
        ]);
    }
    tokens.push(Token::End);
    Ok(tokens)
}

} // verus!
