//! Which spellings the lexer reads back as one token.
//!
//! A numeral or a name is read as one token wherever it stands, as long as
//! the character behind it cannot continue it.  That is what lets a token
//! sequence be written out as text and read again.
use vstd::prelude::*;
use crate::error::EvalErrorView;
use crate::lexer::CharClass;
use crate::lexer::exponent_digits_start;
use crate::lexer::in_class;
use crate::lexer::is_digit;
use crate::lexer::is_letter;
use crate::lexer::is_space;
use crate::lexer::lemma_number_end;
use crate::lexer::lemma_run_end;
use crate::lexer::mantissa_end;
use crate::lexer::number_end;
use crate::lexer::run_end;
use crate::lexer::token_at;
use crate::token::TokenView;

verus! {

/// The spelling of a numeric literal: the lexer reads all of it, and
/// nothing else, as one number.
pub open spec fn is_numeral(l: Seq<char>) -> bool {
    &&& l.len() > 0
    &&& is_digit(l[0])
    &&& number_end(l, 0) == Ok::<nat, nat>(l.len())
}

/// The spelling of an identifier: a letter or underscore, then letters,
/// digits and underscores.
pub open spec fn is_name(l: Seq<char>) -> bool {
    &&& l.len() > 0
    &&& is_letter(l[0])
    &&& run_end(l, 1, CharClass::Word) == l.len()
}

/// A token whose spelling the lexer reads as that token.  The end marker is
/// not written, so it is not one of them.
pub open spec fn well_spelled(t: TokenView) -> bool {
    match t {
        TokenView::Number(l) => is_numeral(l),
        TokenView::Identifier(l) => is_name(l),
        TokenView::End => false,
        _ => true,
    }
}

/// `u` from `pu` on and `v` from `pv` on hold the same `n` characters.
pub open spec fn agree(u: Seq<char>, pu: nat, v: Seq<char>, pv: nat, n: nat) -> bool {
    &&& pu + n <= u.len()
    &&& pv + n <= v.len()
    &&& forall|k: int| 0 <= k < n ==> u[pu + k] == #[trigger] v[pv + k]
}

/// A character that can stand directly behind a numeral or a name without
/// being read as part of it.
pub open spec fn closes_word(c: char) -> bool {
    c == ' ' || c == '(' || c == ')' || c == ','
}

/// Behind the `n` characters from `pos` the text ends, or goes on with a
/// character that closes a word.
pub open spec fn closed_at(s: Seq<char>, end: nat) -> bool {
    end >= s.len() || closes_word(s[end as int])
}

/// A run that lies inside the common part is the same run in both texts.
proof fn lemma_run_transfer(
    u: Seq<char>,
    pu: nat,
    v: Seq<char>,
    pv: nat,
    n: nat,
    i: nat,
    class: CharClass,
)
    requires
        agree(u, pu, v, pv, n),
        i <= n,
        run_end(u, pu + i, class) <= pu + n,
        pv + n == v.len() || !in_class(class, v[pv + n as int]),
    ensures
        run_end(v, pv + i, class) - pv == run_end(u, pu + i, class) - pu,
    decreases n - i,
{
    lemma_run_end(u, pu + i, class);
    if i < n {
        assert(u[pu + i as int] == v[pv + i as int]);
        if in_class(class, u[pu + i as int]) {
            lemma_run_transfer(u, pu, v, pv, n, i + 1, class);
        }
    }
}

/// A numeric literal that fills the common part of two texts is the same
/// literal in the second, if nothing there continues it.
proof fn lemma_number_transfer(u: Seq<char>, pu: nat, v: Seq<char>, pv: nat, n: nat)
    requires
        agree(u, pu, v, pv, n),
        n > 0,
        is_digit(u[pu as int]),
        number_end(u, pu) == Ok::<nat, nat>(pu + n),
        pv + n == v.len() || !(is_digit(v[pv + n as int]) || v[pv + n as int] == '.' || v[pv + n as int] == 'e' || v[pv + n as int] == 'E'),
    ensures
        number_end(v, pv) == Ok::<nat, nat>(pv + n),
{
    let digits = CharClass::Digit;
    // the digits before the decimal point
    let au = run_end(u, pu, digits);
    lemma_run_end(u, pu, digits);
    if au < u.len() {
        lemma_run_end(u, au + 1, digits);
    }
    let mu = mantissa_end(u, pu);
    assert(au <= mu);
    assert(mu <= u.len());
    if mu < u.len() && (u[mu as int] == 'e' || u[mu as int] == 'E') {
        let du = exponent_digits_start(u, mu);
        assert(du < u.len() && is_digit(u[du as int]));
        lemma_run_end(u, du, digits);
        assert(run_end(u, du, digits) == run_end(u, du + 1, digits));
        lemma_run_end(u, du + 1, digits);
    }
    assert(mu <= pu + n);
    lemma_run_transfer(u, pu, v, pv, n, 0, digits);
    let av = run_end(v, pv, digits);
    assert(av - pv == au - pu);
    // the decimal point and the digits behind it
    let a = (au - pu) as nat;
    if a < n {
        assert(u[pu + a as int] == v[pv + a as int]);
        if u[au as int] == '.' {
            lemma_run_transfer(u, pu, v, pv, n, a + 1, digits);
        }
    }
    let mv = mantissa_end(v, pv);
    assert(mv - pv == mu - pu);
    let m = (mu - pu) as nat;
    if m < n {
        assert(u[pu + m as int] == v[pv + m as int]);
        assert(u[mu as int] == 'e' || u[mu as int] == 'E');
        let du = exponent_digits_start(u, mu);
        let d = (du - pu) as nat;
        assert(d < n);
        assert(m + 1 < n);
        assert(u[pu + (m + 1) as int] == v[pv + (m + 1) as int]);
        let dv = exponent_digits_start(v, mv);
        assert(dv - pv == d);
        assert(u[pu + d as int] == v[pv + d as int]);
        lemma_run_transfer(u, pu, v, pv, n, d, digits);
    }
}

/// The lexer reads a well-spelled token as that token wherever its spelling
/// stands, if a numeral or name is closed behind.
pub proof fn lemma_spelling_is_read(s: Seq<char>, pos: nat, t: TokenView)
    requires
        well_spelled(t),
        agree(t.spelling(), 0, s, pos, t.spelling().len()),
        (t is Number || t is Identifier) ==> closed_at(s, pos + t.spelling().len()),
    ensures
        t.spelling().len() > 0,
        !is_space(s[pos as int]),
        token_at(s, pos) == Ok::<(TokenView, nat), EvalErrorView>((t, pos + t.spelling().len())),
{
    let l = t.spelling();
    let n = l.len();
    assert(n > 0);
    assert(l[0 + 0int] == s[pos + 0int]);
    match t {
        TokenView::Number(_) => {
            lemma_number_transfer(l, 0, s, pos, n);
            assert(s.subrange(pos as int, pos + n as int) =~= l) by {
                assert forall|k: int| 0 <= k < n implies s[pos + k] == l[k] by {
                    assert(l[0 + k] == s[pos + k]);
                }
            }
        },
        TokenView::Identifier(_) => {
            lemma_run_end(l, 1, CharClass::Word);
            lemma_run_transfer(l, 0, s, pos, n, 1, CharClass::Word);
            assert(s.subrange(pos as int, pos + n as int) =~= l) by {
                assert forall|k: int| 0 <= k < n implies s[pos + k] == l[k] by {
                    assert(l[0 + k] == s[pos + k]);
                }
            }
        },
        _ => {},
    }
}

/// What the lexer reads as a token is well spelled, and is spelled as the
/// text it was read from.
pub proof fn lemma_read_is_spelled(s: Seq<char>, pos: nat)
    requires
        pos < s.len(),
    ensures
        token_at(s, pos) matches Ok((t, next)) ==> well_spelled(t) && pos < next <= s.len()
            && t.spelling() == s.subrange(pos as int, next as int),
{
    let c = s[pos as int];
    if let Ok((t, next)) = token_at(s, pos) {
        let l = s.subrange(pos as int, next as int);
        if is_digit(c) {
            lemma_number_end(s, pos);
            let n = (next - pos) as nat;
            assert(agree(s, pos, l, 0, n)) by {
                assert forall|k: int| 0 <= k < n implies s[pos + k] == #[trigger] l[0 + k] by {}
            }
            lemma_number_transfer(s, pos, l, 0, n);
        } else if is_letter(c) {
            lemma_run_end(s, pos + 1, CharClass::Word);
            let n = (next - pos) as nat;
            assert(agree(s, pos, l, 0, n)) by {
                assert forall|k: int| 0 <= k < n implies s[pos + k] == #[trigger] l[0 + k] by {}
            }
            lemma_run_transfer(s, pos, l, 0, n, 1, CharClass::Word);
        } else {
            assert(t.spelling() =~= l);
        }
    }
}

} // verus!
