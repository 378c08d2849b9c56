use vstd::prelude::*;

use crate::ast::{AddSub, AddSubP, Factor, MulDiv, MulDivP};
use crate::token::{EvalError, Token};

verus! {

// The five productions below mirror the grammar
//
//   Expression ::= Term TermTail?        (sp_add_sub)
//   TermTail   ::= ('+'|'-') Term TermTail?   (sp_add_sub_p)
//   Term       ::= Factor FactorTail?    (sp_mul_div)
//   FactorTail ::= ('*'|'/') Factor FactorTail?   (sp_mul_div_p)
//   Factor     ::= INTEGER | '-' INTEGER | '(' Expression ')'   (sp_factor)
//
// Each function takes the remaining tokens, and on success returns the node
// parsed together with the tokens left over. A successful sub-parse always
// consumes at least one token (lemma_sp_mul_div_consumes); the `rest.len() <
// toks.len()` tests below are never false and only justify termination.
/// Parse one `Expression`: a term, then an optional `+`/`-` tail chain.
pub open spec fn sp_add_sub(toks: Seq<Token>) -> Result<(AddSub, Seq<Token>), EvalError>
    decreases toks.len(), 2int,
{
    if toks.len() == 0 {
        Err(EvalError::UnexpectedEndOfInput)
    } else {
        match sp_mul_div(toks) {
            Ok((md, rest)) => if rest.len() < toks.len() {
                match sp_add_sub_p(rest) {
                    Ok((asp, rest2)) => Ok((AddSub { md: Box::new(md), asp }, rest2)),
                    Err(er) => Err(er),
                }
            } else {
                Err(EvalError::UnexpectedEndOfInput)
            },
            Err(er) => Err(er),
        }
    }
}

/// Parse an optional `+`/`-` tail: absence of a tail is not an error.
pub open spec fn sp_add_sub_p(toks: Seq<Token>) -> Result<
    (Option<Box<AddSubP>>, Seq<Token>),
    EvalError,
>
    decreases toks.len(), 0int,
{
    if toks.len() == 0 {
        Ok((None, toks))
    } else if toks[0] == Token::Plus || toks[0] == Token::Minus {
        let is_add = toks[0] == Token::Plus;
        match sp_mul_div(toks.skip(1)) {
            Ok((md, rest)) => if rest.len() < toks.len() {
                match sp_add_sub_p(rest) {
                    Ok((asp, rest2)) => Ok(
                        (Some(Box::new(AddSubP { is_add, md: Box::new(md), asp })), rest2),
                    ),
                    Err(er) => Err(er),
                }
            } else {
                Err(EvalError::UnexpectedEndOfInput)
            },
            Err(er) => Err(er),
        }
    } else {
        Ok((None, toks))
    }
}

/// Parse one `Term`: a factor, then an optional `*`/`/` tail chain.
pub open spec fn sp_mul_div(toks: Seq<Token>) -> Result<(MulDiv, Seq<Token>), EvalError>
    decreases toks.len(), 1int,
{
    if toks.len() == 0 {
        Err(EvalError::UnexpectedEndOfInput)
    } else {
        match sp_factor(toks) {
            Ok((f, rest)) => if rest.len() < toks.len() {
                match sp_mul_div_p(rest) {
                    Ok((mdp, rest2)) => Ok((MulDiv { f: Box::new(f), mdp }, rest2)),
                    Err(er) => Err(er),
                }
            } else {
                Err(EvalError::UnexpectedEndOfInput)
            },
            Err(er) => Err(er),
        }
    }
}

/// Parse an optional `*`/`/` tail: absence of a tail is not an error.
pub open spec fn sp_mul_div_p(toks: Seq<Token>) -> Result<
    (Option<Box<MulDivP>>, Seq<Token>),
    EvalError,
>
    decreases toks.len(), 0int,
{
    if toks.len() == 0 {
        Ok((None, toks))
    } else if toks[0] == Token::Star || toks[0] == Token::Slash {
        let is_mul = toks[0] == Token::Star;
        match sp_factor(toks.skip(1)) {
            Ok((f, rest)) => if rest.len() < toks.len() {
                match sp_mul_div_p(rest) {
                    Ok((mdp, rest2)) => Ok(
                        (Some(Box::new(MulDivP { is_mul, f: Box::new(f), mdp })), rest2),
                    ),
                    Err(er) => Err(er),
                }
            } else {
                Err(EvalError::UnexpectedEndOfInput)
            },
            Err(er) => Err(er),
        }
    } else {
        Ok((None, toks))
    }
}

/// Parse one `Factor`: an integer literal, a `-` that must be followed
/// immediately by an integer literal (unary minus never applies to a
/// parenthesized group), or a parenthesized expression that must be closed by
/// `)`.
pub open spec fn sp_factor(toks: Seq<Token>) -> Result<(Factor, Seq<Token>), EvalError>
    decreases toks.len(), 0int,
{
    if toks.len() == 0 {
        Err(EvalError::UnexpectedEndOfInput)
    } else {
        match toks[0] {
            Token::Minus => if toks.len() >= 2 {
                match toks[1] {
                    Token::Num(n) => if n == i64::MIN {
                        Err(EvalError::Overflow)
                    } else {
                        Ok((Factor::Num((-n) as i64), toks.skip(2)))
                    },
                    _ => Err(EvalError::ExpectedNumberAfterMinus),
                }
            } else {
                Err(EvalError::ExpectedNumberAfterMinus)
            },
            Token::Num(n) => Ok((Factor::Num(n), toks.skip(1))),
            Token::LParen => match sp_add_sub(toks.skip(1)) {
                Ok((sub, rest)) => if rest.len() > 0 && rest[0] == Token::RParen {
                    Ok((Factor::Expr(Box::new(sub)), rest.skip(1)))
                } else {
                    Err(EvalError::ExpectedClosingParen)
                },
                Err(er) => Err(er),
            },
            t => Err(EvalError::UnexpectedToken(t)),
        }
    }
}

/// A successful factor parse consumes at least one token.
pub proof fn lemma_sp_factor_consumes(toks: Seq<Token>)
    ensures
        (sp_factor(toks) matches Ok(fr) ==> fr.1.len() < toks.len()),
    decreases toks.len(), 0int,
{
    if toks.len() > 0 && toks[0] is LParen {
        lemma_sp_add_sub_consumes(toks.skip(1));
    }
}

/// A successful term parse consumes at least one token.
pub proof fn lemma_sp_mul_div_consumes(toks: Seq<Token>)
    ensures
        (sp_mul_div(toks) matches Ok(tr) ==> tr.1.len() < toks.len()),
    decreases toks.len(), 1int,
{
    if toks.len() > 0 {
        lemma_sp_factor_consumes(toks);
        match sp_factor(toks) {
            Ok(fr) => {
                lemma_sp_mul_div_p_bound(fr.1);
            },
            Err(_) => {},
        }
    }
}

/// A `*`/`/` tail parse never hands back more tokens than it was given.
pub proof fn lemma_sp_mul_div_p_bound(toks: Seq<Token>)
    ensures
        (sp_mul_div_p(toks) matches Ok(pr) ==> pr.1.len() <= toks.len()),
    decreases toks.len(), 0int,
{
    if toks.len() > 0 && (toks[0] == Token::Star || toks[0] == Token::Slash) {
        lemma_sp_factor_consumes(toks.skip(1));
        match sp_factor(toks.skip(1)) {
            Ok(fr) => {
                if fr.1.len() < toks.len() {
                    lemma_sp_mul_div_p_bound(fr.1);
                }
            },
            Err(_) => {},
        }
    }
}

/// A successful expression parse consumes at least one token.
pub proof fn lemma_sp_add_sub_consumes(toks: Seq<Token>)
    ensures
        (sp_add_sub(toks) matches Ok(tr) ==> tr.1.len() < toks.len()),
    decreases toks.len(), 2int,
{
    if toks.len() > 0 {
        lemma_sp_mul_div_consumes(toks);
        match sp_mul_div(toks) {
            Ok(tr) => {
                lemma_sp_add_sub_p_bound(tr.1);
            },
            Err(_) => {},
        }
    }
}

/// A `+`/`-` tail parse never hands back more tokens than it was given.
pub proof fn lemma_sp_add_sub_p_bound(toks: Seq<Token>)
    ensures
        (sp_add_sub_p(toks) matches Ok(pr) ==> pr.1.len() <= toks.len()),
    decreases toks.len(), 0int,
{
    if toks.len() > 0 && (toks[0] == Token::Plus || toks[0] == Token::Minus) {
        lemma_sp_mul_div_consumes(toks.skip(1));
        match sp_mul_div(toks.skip(1)) {
            Ok(tr) => {
                if tr.1.len() < toks.len() {
                    lemma_sp_add_sub_p_bound(tr.1);
                }
            },
            Err(_) => {},
        }
    }
}

/// The token spelling of a factor: a non-negative literal is one `Num` token,
/// a negative literal is `-` followed by its magnitude, and a nested
/// expression stands between parentheses.
pub open spec fn toks_of_factor(f: Factor) -> Seq<Token>
    decreases f,
{
    match f {
        Factor::Num(n) => if n < 0 {
            seq![Token::Minus, Token::Num((-n) as i64)]
        } else {
            seq![Token::Num(n)]
        },
        Factor::Expr(e) => seq![Token::LParen] + toks_of_add_sub(*e) + seq![Token::RParen],
    }
}

/// The token spelling of a term: its factor, then its tail chain.
pub open spec fn toks_of_mul_div(t: MulDiv) -> Seq<Token>
    decreases t,
{
    toks_of_factor(*t.f) + match t.mdp {
        Some(p) => toks_of_mul_div_p(*p),
        None => Seq::empty(),
    }
}

/// The token spelling of a `*`/`/` tail chain: each step is its operator
/// symbol, its factor, and the rest of the chain.
pub open spec fn toks_of_mul_div_p(p: MulDivP) -> Seq<Token>
    decreases p,
{
    seq![if p.is_mul {
            Token::Star
        } else {
            Token::Slash
        }] + toks_of_factor(*p.f) + match p.mdp {
        Some(q) => toks_of_mul_div_p(*q),
        None => Seq::empty(),
    }
}

/// The token spelling of an expression: its term, then its tail chain.
pub open spec fn toks_of_add_sub(e: AddSub) -> Seq<Token>
    decreases e,
{
    toks_of_mul_div(*e.md) + match e.asp {
        Some(p) => toks_of_add_sub_p(*p),
        None => Seq::empty(),
    }
}

/// The token spelling of a `+`/`-` tail chain.
pub open spec fn toks_of_add_sub_p(p: AddSubP) -> Seq<Token>
    decreases p,
{
    seq![if p.is_add {
            Token::Plus
        } else {
            Token::Minus
        }] + toks_of_mul_div(*p.md) + match p.asp {
        Some(q) => toks_of_add_sub_p(*q),
        None => Seq::empty(),
    }
}

/// Literals in a token sequence are in the form the parse tree can spell back:
/// no `Num` token is negative, and no `Num(0)` stands right after a `-` (a
/// tree cannot remember the sign of a negated zero).
pub open spec fn literals_canonical(toks: Seq<Token>) -> bool {
    forall|i: int|
        0 <= i < toks.len() ==> match #[trigger] toks[i] {
            Token::Num(n) => n >= 0 && (n == 0 ==> !(i > 0 && toks[i - 1] == Token::Minus)),
            _ => true,
        }
}

/// Canonical literals remain canonical after dropping a prefix.
proof fn lemma_canonical_skip(toks: Seq<Token>, k: int)
    requires
        literals_canonical(toks),
        0 <= k <= toks.len(),
    ensures
        literals_canonical(toks.skip(k)),
{
    let s = toks.skip(k);
    assert forall|i: int| 0 <= i < s.len() implies match #[trigger] s[i] {
        Token::Num(n) => n >= 0 && (n == 0 ==> !(i > 0 && s[i - 1] == Token::Minus)),
        _ => true,
    } by {
        assert(s[i] == toks[k + i]);
        if i > 0 {
            assert(s[i - 1] == toks[k + i - 1]);
        }
    }
}

/// Canonical literals remain canonical in the remainder after a consumed
/// prefix.
proof fn lemma_canonical_drop(pre: Seq<Token>, rest: Seq<Token>)
    requires
        literals_canonical(pre + rest),
    ensures
        literals_canonical(rest),
{
    assert((pre + rest).skip(pre.len() as int) =~= rest);
    lemma_canonical_skip(pre + rest, pre.len() as int);
}

/// Soundness of the factor production: a factor parsed from canonical tokens
/// spells back exactly the tokens it consumed.
pub proof fn lemma_sp_factor_sound(toks: Seq<Token>)
    requires
        literals_canonical(toks),
    ensures
        (sp_factor(toks) matches Ok(fr) ==> toks == toks_of_factor(fr.0) + fr.1),
    decreases toks.len(), 0int,
{
    if toks.len() == 0 {
        return ;
    }
    match toks[0] {
        Token::Minus => {
            if toks.len() >= 2 {
                if let Token::Num(n) = toks[1] {
                    if n != i64::MIN {
                        assert(n > 0);
                        assert(toks_of_factor(Factor::Num((-n) as i64)) =~= seq![
                            Token::Minus,
                            Token::Num(n),
                        ]);
                        assert(toks =~= seq![Token::Minus, Token::Num(n)] + toks.skip(2));
                    }
                }
            }
        },
        Token::Num(n) => {
            assert(n >= 0);
            assert(toks =~= seq![Token::Num(n)] + toks.skip(1));
        },
        Token::LParen => {
            lemma_canonical_skip(toks, 1);
            lemma_sp_add_sub_sound(toks.skip(1));
            if let Ok((sub, rest)) = sp_add_sub(toks.skip(1)) {
                if rest.len() > 0 && rest[0] == Token::RParen {
                    let ser = toks_of_add_sub(sub);
                    assert(toks.skip(1) == ser + rest);
                    assert(rest =~= seq![Token::RParen] + rest.skip(1));
                    assert(toks =~= seq![Token::LParen] + toks.skip(1));
                    assert(toks =~= (seq![Token::LParen] + ser + seq![Token::RParen]) + rest.skip(
                        1,
                    ));
                }
            }
        },
        _ => {},
    }
}

/// Soundness of the term production: a term parsed from canonical tokens
/// spells back exactly the tokens it consumed.
pub proof fn lemma_sp_mul_div_sound(toks: Seq<Token>)
    requires
        literals_canonical(toks),
    ensures
        (sp_mul_div(toks) matches Ok(tr) ==> toks == toks_of_mul_div(tr.0) + tr.1),
    decreases toks.len(), 1int,
{
    if toks.len() == 0 {
        return ;
    }
    lemma_sp_factor_sound(toks);
    if let Ok((f, rest)) = sp_factor(toks) {
        if rest.len() < toks.len() {
            let ser_f = toks_of_factor(f);
            lemma_canonical_drop(ser_f, rest);
            lemma_sp_mul_div_p_sound(rest);
            if let Ok((mdp, rest2)) = sp_mul_div_p(rest) {
                match mdp {
                    Some(p) => {
                        assert(toks_of_mul_div(MulDiv { f: Box::new(f), mdp: Some(p) }) == ser_f
                            + toks_of_mul_div_p(*p));
                        assert(toks =~= (ser_f + toks_of_mul_div_p(*p)) + rest2);
                    },
                    None => {
                        assert(toks_of_mul_div(MulDiv { f: Box::new(f), mdp: None }) =~= ser_f);
                        assert(toks =~= toks_of_mul_div(MulDiv { f: Box::new(f), mdp: None })
                            + rest2);
                    },
                }
            }
        }
    }
}

/// Soundness of the `*`/`/` tail production: a tail parsed from canonical
/// tokens spells back exactly the tokens it consumed, and an absent tail
/// consumes nothing.
pub proof fn lemma_sp_mul_div_p_sound(toks: Seq<Token>)
    requires
        literals_canonical(toks),
    ensures
        (sp_mul_div_p(toks) matches Ok(pr) ==> match pr.0 {
            Some(p) => toks == toks_of_mul_div_p(*p) + pr.1,
            None => pr.1 == toks,
        }),
    decreases toks.len(), 0int,
{
    if toks.len() > 0 && (toks[0] == Token::Star || toks[0] == Token::Slash) {
        lemma_canonical_skip(toks, 1);
        lemma_sp_factor_sound(toks.skip(1));
        if let Ok((f, rest)) = sp_factor(toks.skip(1)) {
            if rest.len() < toks.len() {
                let ser_f = toks_of_factor(f);
                assert(toks.skip(1) == ser_f + rest);
                lemma_canonical_drop(ser_f, rest);
                lemma_sp_mul_div_p_sound(rest);
                if let Ok((mdp2, rest2)) = sp_mul_div_p(rest) {
                    let is_mul = toks[0] == Token::Star;
                    let node = MulDivP { is_mul, f: Box::new(f), mdp: mdp2 };
                    let op = seq![
                        if is_mul {
                            Token::Star
                        } else {
                            Token::Slash
                        },
                    ];
                    assert(toks =~= op + toks.skip(1));
                    match mdp2 {
                        Some(q) => {
                            assert(toks_of_mul_div_p(node) == op + ser_f + toks_of_mul_div_p(*q));
                            assert(toks =~= (op + ser_f + toks_of_mul_div_p(*q)) + rest2);
                        },
                        None => {
                            assert(toks_of_mul_div_p(node) =~= op + ser_f);
                            assert(toks =~= (op + ser_f) + rest2);
                        },
                    }
                }
            }
        }
    }
}

/// Soundness of the expression production: an expression parsed from
/// canonical tokens spells back exactly the tokens it consumed.
pub proof fn lemma_sp_add_sub_sound(toks: Seq<Token>)
    requires
        literals_canonical(toks),
    ensures
        (sp_add_sub(toks) matches Ok(tr) ==> toks == toks_of_add_sub(tr.0) + tr.1),
    decreases toks.len(), 2int,
{
    if toks.len() == 0 {
        return ;
    }
    lemma_sp_mul_div_sound(toks);
    if let Ok((md, rest)) = sp_mul_div(toks) {
        if rest.len() < toks.len() {
            let ser_md = toks_of_mul_div(md);
            lemma_canonical_drop(ser_md, rest);
            lemma_sp_add_sub_p_sound(rest);
            if let Ok((asp, rest2)) = sp_add_sub_p(rest) {
                match asp {
                    Some(p) => {
                        assert(toks_of_add_sub(AddSub { md: Box::new(md), asp: Some(p) }) == ser_md
                            + toks_of_add_sub_p(*p));
                        assert(toks =~= (ser_md + toks_of_add_sub_p(*p)) + rest2);
                    },
                    None => {
                        assert(toks_of_add_sub(AddSub { md: Box::new(md), asp: None }) =~= ser_md);
                        assert(toks =~= toks_of_add_sub(AddSub { md: Box::new(md), asp: None })
                            + rest2);
                    },
                }
            }
        }
    }
}

/// Soundness of the `+`/`-` tail production: a tail parsed from canonical
/// tokens spells back exactly the tokens it consumed, and an absent tail
/// consumes nothing.
pub proof fn lemma_sp_add_sub_p_sound(toks: Seq<Token>)
    requires
        literals_canonical(toks),
    ensures
        (sp_add_sub_p(toks) matches Ok(pr) ==> match pr.0 {
            Some(p) => toks == toks_of_add_sub_p(*p) + pr.1,
            None => pr.1 == toks,
        }),
    decreases toks.len(), 0int,
{
    if toks.len() > 0 && (toks[0] == Token::Plus || toks[0] == Token::Minus) {
        lemma_canonical_skip(toks, 1);
        lemma_sp_mul_div_sound(toks.skip(1));
        if let Ok((md, rest)) = sp_mul_div(toks.skip(1)) {
            if rest.len() < toks.len() {
                let ser_md = toks_of_mul_div(md);
                assert(toks.skip(1) == ser_md + rest);
                lemma_canonical_drop(ser_md, rest);
                lemma_sp_add_sub_p_sound(rest);
                if let Ok((asp2, rest2)) = sp_add_sub_p(rest) {
                    let is_add = toks[0] == Token::Plus;
                    let node = AddSubP { is_add, md: Box::new(md), asp: asp2 };
                    let op = seq![
                        if is_add {
                            Token::Plus
                        } else {
                            Token::Minus
                        },
                    ];
                    assert(toks =~= op + toks.skip(1));
                    match asp2 {
                        Some(q) => {
                            assert(toks_of_add_sub_p(node) == op + ser_md + toks_of_add_sub_p(*q));
                            assert(toks =~= (op + ser_md + toks_of_add_sub_p(*q)) + rest2);
                        },
                        None => {
                            assert(toks_of_add_sub_p(node) =~= op + ser_md);
                            assert(toks =~= (op + ser_md) + rest2);
                        },
                    }
                }
            }
        }
    }
}

/// Unary minus applies only to an immediately following integer literal: when
/// the token after `-` is anything else, or nothing follows it, the factor
/// production fails with `ExpectedNumberAfterMinus`.
pub proof fn lemma_minus_requires_literal(toks: Seq<Token>)
    requires
        toks.len() > 0,
        toks[0] == Token::Minus,
        toks.len() > 1 ==> !(toks[1] is Num),
    ensures
        sp_factor(toks) == Err::<(Factor, Seq<Token>), EvalError>(
            EvalError::ExpectedNumberAfterMinus,
        ),
{
}

/// Parse one `Expression` starting at `pos`; on success the new position is
/// just past the tokens that form it.
pub fn add_sub(toks: &Vec<Token>, pos: usize) -> (r: Result<(Box<AddSub>, usize), EvalError>)
    requires
        pos <= toks@.len(),
    ensures
        (match r {
            Ok(tr) => pos < tr.1 <= toks@.len() && sp_add_sub(toks@.skip(pos as int)) == Ok::<
                (AddSub, Seq<Token>),
                EvalError,
            >((*tr.0, toks@.skip(tr.1 as int))),
            Err(e) => sp_add_sub(toks@.skip(pos as int)) == Err::<(AddSub, Seq<Token>), EvalError>(
                e,
            ),
        }),
    decreases toks@.len() - pos, 2int,
{
    if pos == toks.len() {
        return Err(EvalError::UnexpectedEndOfInput);
    }
    let (md, p1) = match mul_div(toks, pos) {
        Ok(t) => t,
        Err(e) => {
            return Err(e);
        },
    };
    proof {
        lemma_sp_mul_div_consumes(toks@.skip(pos as int));
    }
    let (asp, p2) = match add_sub_p(toks, p1) {
        Ok(t) => t,
        Err(e) => {
            return Err(e);
        },
    };
    Ok((Box::new(AddSub { md, asp }), p2))
}

/// Parse an optional `+`/`-` tail starting at `pos`.
pub fn add_sub_p(toks: &Vec<Token>, pos: usize) -> (r: Result<
    (Option<Box<AddSubP>>, usize),
    EvalError,
>)
    requires
        pos <= toks@.len(),
    ensures
        (match r {
            Ok(tr) => pos <= tr.1 <= toks@.len() && sp_add_sub_p(toks@.skip(pos as int)) == Ok::<
                (Option<Box<AddSubP>>, Seq<Token>),
                EvalError,
            >((tr.0, toks@.skip(tr.1 as int))),
            Err(e) => sp_add_sub_p(toks@.skip(pos as int)) == Err::<
                (Option<Box<AddSubP>>, Seq<Token>),
                EvalError,
            >(e),
        }),
    decreases toks@.len() - pos, 0int,
{
    if pos == toks.len() {
        return Ok((None, pos));
    }
    proof {
        assert(toks@.skip(pos as int)[0] == toks@[pos as int]);
        assert(toks@.skip(pos as int).skip(1) =~= toks@.skip(pos as int + 1));
    }
    let is_add = match toks[pos] {
        Token::Plus => true,
        Token::Minus => false,
        _ => {
            return Ok((None, pos));
        },
    };
    let (md, p1) = match mul_div(toks, pos + 1) {
        Ok(t) => t,
        Err(e) => {
            return Err(e);
        },
    };
    proof {
        lemma_sp_mul_div_consumes(toks@.skip(pos as int + 1));
    }
    let (asp, p2) = match add_sub_p(toks, p1) {
        Ok(t) => t,
        Err(e) => {
            return Err(e);
        },
    };
    Ok((Some(Box::new(AddSubP { is_add, md, asp })), p2))
}

/// Parse one `Term` starting at `pos`.
pub fn mul_div(toks: &Vec<Token>, pos: usize) -> (r: Result<(Box<MulDiv>, usize), EvalError>)
    requires
        pos <= toks@.len(),
    ensures
        (match r {
            Ok(tr) => pos < tr.1 <= toks@.len() && sp_mul_div(toks@.skip(pos as int)) == Ok::<
                (MulDiv, Seq<Token>),
                EvalError,
            >((*tr.0, toks@.skip(tr.1 as int))),
            Err(e) => sp_mul_div(toks@.skip(pos as int)) == Err::<(MulDiv, Seq<Token>), EvalError>(
                e,
            ),
        }),
    decreases toks@.len() - pos, 1int,
{
    if pos == toks.len() {
        return Err(EvalError::UnexpectedEndOfInput);
    }
    let (f, p1) = match factor(toks, pos) {
        Ok(t) => t,
        Err(e) => {
            return Err(e);
        },
    };
    proof {
        lemma_sp_factor_consumes(toks@.skip(pos as int));
    }
    let (mdp, p2) = match mul_div_p(toks, p1) {
        Ok(t) => t,
        Err(e) => {
            return Err(e);
        },
    };
    Ok((Box::new(MulDiv { f, mdp }), p2))
}

/// Parse an optional `*`/`/` tail starting at `pos`.
pub fn mul_div_p(toks: &Vec<Token>, pos: usize) -> (r: Result<
    (Option<Box<MulDivP>>, usize),
    EvalError,
>)
    requires
        pos <= toks@.len(),
    ensures
        (match r {
            Ok(tr) => pos <= tr.1 <= toks@.len() && sp_mul_div_p(toks@.skip(pos as int)) == Ok::<
                (Option<Box<MulDivP>>, Seq<Token>),
                EvalError,
            >((tr.0, toks@.skip(tr.1 as int))),
            Err(e) => sp_mul_div_p(toks@.skip(pos as int)) == Err::<
                (Option<Box<MulDivP>>, Seq<Token>),
                EvalError,
            >(e),
        }),
    decreases toks@.len() - pos, 0int,
{
    if pos == toks.len() {
        return Ok((None, pos));
    }
    proof {
        assert(toks@.skip(pos as int)[0] == toks@[pos as int]);
        assert(toks@.skip(pos as int).skip(1) =~= toks@.skip(pos as int + 1));
    }
    let is_mul = match toks[pos] {
        Token::Star => true,
        Token::Slash => false,
        _ => {
            return Ok((None, pos));
        },
    };
    let (f, p1) = match factor(toks, pos + 1) {
        Ok(t) => t,
        Err(e) => {
            return Err(e);
        },
    };
    proof {
        lemma_sp_factor_consumes(toks@.skip(pos as int + 1));
    }
    let (mdp, p2) = match mul_div_p(toks, p1) {
        Ok(t) => t,
        Err(e) => {
            return Err(e);
        },
    };
    Ok((Some(Box::new(MulDivP { is_mul, f, mdp })), p2))
}

/// Parse one `Factor` starting at `pos`.
pub fn factor(toks: &Vec<Token>, pos: usize) -> (r: Result<(Box<Factor>, usize), EvalError>)
    requires
        pos <= toks@.len(),
    ensures
        (match r {
            Ok(fr) => pos < fr.1 <= toks@.len() && sp_factor(toks@.skip(pos as int)) == Ok::<
                (Factor, Seq<Token>),
                EvalError,
            >((*fr.0, toks@.skip(fr.1 as int))),
            Err(e) => sp_factor(toks@.skip(pos as int)) == Err::<(Factor, Seq<Token>), EvalError>(
                e,
            ),
        }),
    decreases toks@.len() - pos, 0int,
{
    if pos == toks.len() {
        return Err(EvalError::UnexpectedEndOfInput);
    }
    proof {
        assert(toks@.skip(pos as int)[0] == toks@[pos as int]);
    }
    match toks[pos] {
        Token::Minus => {
            if pos + 1 == toks.len() {
                return Err(EvalError::ExpectedNumberAfterMinus);
            }
            proof {
                assert(toks@.skip(pos as int)[1] == toks@[pos as int + 1]);
            }
            match toks[pos + 1] {
                Token::Num(n) => {
                    if n == i64::MIN {
                        return Err(EvalError::Overflow);
                    }
                    proof {
                        assert(toks@.skip(pos as int).skip(2) =~= toks@.skip(pos as int + 2));
                    }
                    Ok((Box::new(Factor::Num(-n)), pos + 2))
                },
                _ => Err(EvalError::ExpectedNumberAfterMinus),
            }
        },
        Token::Num(n) => {
            proof {
                assert(toks@.skip(pos as int).skip(1) =~= toks@.skip(pos as int + 1));
            }
            Ok((Box::new(Factor::Num(n)), pos + 1))
        },
        Token::LParen => {
            proof {
                assert(toks@.skip(pos as int).skip(1) =~= toks@.skip(pos as int + 1));
            }
            match add_sub(toks, pos + 1) {
                Ok((sub, p2)) => {
                    if p2 == toks.len() {
                        return Err(EvalError::ExpectedClosingParen);
                    }
                    proof {
                        assert(toks@.skip(p2 as int)[0] == toks@[p2 as int]);
                    }
                    match toks[p2] {
                        Token::RParen => {
                            proof {
                                assert(toks@.skip(p2 as int).skip(1) =~= toks@.skip(
                                    p2 as int + 1,
                                ));
                            }
                            Ok((Box::new(Factor::Expr(sub)), p2 + 1))
                        },
                        _ => Err(EvalError::ExpectedClosingParen),
                    }
                },
                Err(er) => Err(er),
            }
        },
        t => Err(EvalError::UnexpectedToken(t)),
    }
}

/// Parse a whole expression from the front of the token sequence. Tokens
/// after the first complete expression are deliberately left unread rather
/// than rejected.
pub fn parse(toks: &Vec<Token>) -> (r: Result<Box<AddSub>, EvalError>)
    ensures
        (match r {
            Ok(t) => (sp_add_sub(toks@) matches Ok(tr) && *t == tr.0),
            Err(e) => sp_add_sub(toks@) == Err::<(AddSub, Seq<Token>), EvalError>(e),
        }),
{
    proof {
        assert(toks@.skip(0int) =~= toks@);
    }
    match add_sub(toks, 0) {
        Ok((t, _pos)) => Ok(t),
        Err(e) => Err(e),
    }
}

} // verus!
