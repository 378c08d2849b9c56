use vstd::prelude::*;

use crate::token::{EvalError, Token};

verus! {

/// The characters the lexer skips: the Unicode `White_Space` set, which is
/// what `char::is_whitespace` recognizes, written out.
pub open spec fn is_space(c: char) -> bool {
    c == ' ' || c == '\t' || c == '\n' || c == '\u{b}' || c == '\u{c}' || c == '\r' || c
        == '\u{85}' || c == '\u{a0}' || c == '\u{1680}' || c == '\u{2000}' || c == '\u{2001}' || c
        == '\u{2002}' || c == '\u{2003}' || c == '\u{2004}' || c == '\u{2005}' || c == '\u{2006}'
        || c == '\u{2007}' || c == '\u{2008}' || c == '\u{2009}' || c == '\u{200a}' || c
        == '\u{2028}' || c == '\u{2029}' || c == '\u{202f}' || c == '\u{205f}' || c == '\u{3000}'
}

/// Whether `c` is skipped as whitespace.
pub fn is_space_char(c: char) -> (r: bool)
    ensures
        r == is_space(c),
{
    c == ' ' || c == '\t' || c == '\n' || c == '\u{b}' || c == '\u{c}' || c == '\r' || c
        == '\u{85}' || c == '\u{a0}' || c == '\u{1680}' || c == '\u{2000}' || c == '\u{2001}' || c
        == '\u{2002}' || c == '\u{2003}' || c == '\u{2004}' || c == '\u{2005}' || c == '\u{2006}'
        || c == '\u{2007}' || c == '\u{2008}' || c == '\u{2009}' || c == '\u{200a}' || c
        == '\u{2028}' || c == '\u{2029}' || c == '\u{202f}' || c == '\u{205f}' || c == '\u{3000}'
}

/// Whether `c` is a decimal digit.
pub open spec fn is_digit_char(c: char) -> bool {
    '0' <= c && c <= '9'
}

/// The numeric value of a decimal digit.
pub open spec fn digit_val(c: char) -> int
    recommends
        is_digit_char(c),
{
    c as int - '0' as int
}

/// Prepend one finished token to the outcome of lexing the rest of the input.
pub open spec fn lex_cons(t: Token, r: Result<Seq<Token>, EvalError>) -> Result<
    Seq<Token>,
    EvalError,
> {
    match r {
        Ok(ts) => Ok(seq![t] + ts),
        Err(e) => Err(e),
    }
}

/// The token sequence of the input, scanned left to right: whitespace is
/// skipped, the six symbol characters become their tokens, a digit starts a
/// maximal run of digits read as one decimal literal, and any other character
/// is an `InvalidToken` error. A literal past `i64::MAX` is an `Overflow`
/// error.
pub open spec fn sp_lex(s: Seq<char>) -> Result<Seq<Token>, EvalError>
    decreases s.len(), 0int,
{
    if s.len() == 0 {
        Ok(Seq::empty())
    } else {
        let c = s[0];
        if is_space(c) {
            sp_lex(s.skip(1))
        } else if c == '(' {
            lex_cons(Token::LParen, sp_lex(s.skip(1)))
        } else if c == ')' {
            lex_cons(Token::RParen, sp_lex(s.skip(1)))
        } else if c == '*' {
            lex_cons(Token::Star, sp_lex(s.skip(1)))
        } else if c == '/' {
            lex_cons(Token::Slash, sp_lex(s.skip(1)))
        } else if c == '+' {
            lex_cons(Token::Plus, sp_lex(s.skip(1)))
        } else if c == '-' {
            lex_cons(Token::Minus, sp_lex(s.skip(1)))
        } else if is_digit_char(c) {
            sp_lex_num(s.skip(1), digit_val(c))
        } else {
            Err(EvalError::InvalidToken(c))
        }
    }
}

/// Continue a decimal literal whose digits so far have the value `acc`:
/// while digits follow, each one extends the value by `acc * 10 + digit`;
/// the first value past `i64::MAX` is an `Overflow` error; at the first
/// non-digit the literal is finished and lexing of the rest resumes.
pub open spec fn sp_lex_num(s: Seq<char>, acc: int) -> Result<Seq<Token>, EvalError>
    recommends
        0 <= acc <= i64::MAX,
    decreases s.len(), 1int,
{
    if s.len() > 0 && is_digit_char(s[0]) {
        let acc2 = acc * 10 + digit_val(s[0]);
        if acc2 > i64::MAX {
            Err(EvalError::Overflow)
        } else {
            sp_lex_num(s.skip(1), acc2)
        }
    } else {
        lex_cons(Token::Num(acc as i64), sp_lex(s))
    }
}

/// No literal token in the sequence is negative.
pub open spec fn literals_nonneg(ts: Seq<Token>) -> bool {
    forall|i: int|
        0 <= i < ts.len() ==> ((#[trigger] ts[i]) matches Token::Num(n) ==> n >= 0)
}

/// Putting one more token in front keeps every literal non-negative, as long
/// as that token is not a negative literal itself.
proof fn lemma_nonneg_cons(t: Token, ts: Seq<Token>)
    requires
        literals_nonneg(ts),
        t matches Token::Num(n) ==> n >= 0,
    ensures
        literals_nonneg(seq![t] + ts),
{
    let r = seq![t] + ts;
    assert forall|i: int| 0 <= i < r.len() implies ((#[trigger] r[i]) matches Token::Num(n) ==> n
        >= 0) by {
        if i == 0 {
            assert(r[0] == t);
        } else {
            assert(r[i] == ts[i - 1]);
        }
    }
}

/// The lexer never produces a negative literal token: the `-` of a negative
/// number stays a token of its own, and the literal after it is its
/// magnitude.
pub proof fn lemma_lex_literals_nonneg(s: Seq<char>)
    ensures
        (sp_lex(s) matches Ok(ts) ==> literals_nonneg(ts)),
    decreases s.len(), 0int,
{
    if s.len() == 0 {
        return ;
    }
    let c = s[0];
    if is_space(c) {
        lemma_lex_literals_nonneg(s.skip(1));
    } else if c == '(' || c == ')' || c == '*' || c == '/' || c == '+' || c == '-' {
        lemma_lex_literals_nonneg(s.skip(1));
        if let Ok(ts0) = sp_lex(s.skip(1)) {
            lemma_nonneg_cons(Token::LParen, ts0);
            lemma_nonneg_cons(Token::RParen, ts0);
            lemma_nonneg_cons(Token::Star, ts0);
            lemma_nonneg_cons(Token::Slash, ts0);
            lemma_nonneg_cons(Token::Plus, ts0);
            lemma_nonneg_cons(Token::Minus, ts0);
        }
    } else if is_digit_char(c) {
        lemma_lex_num_literals_nonneg(s.skip(1), digit_val(c));
    }
}

/// The tokens produced while finishing a decimal literal have no negative
/// literal either: the literal being finished is the non-negative `acc`.
proof fn lemma_lex_num_literals_nonneg(s: Seq<char>, acc: int)
    requires
        0 <= acc <= i64::MAX,
    ensures
        (sp_lex_num(s, acc) matches Ok(ts) ==> literals_nonneg(ts)),
    decreases s.len(), 1int,
{
    if s.len() > 0 && is_digit_char(s[0]) {
        let acc2 = acc * 10 + digit_val(s[0]);
        if acc2 <= i64::MAX {
            lemma_lex_num_literals_nonneg(s.skip(1), acc2);
        }
    } else {
        lemma_lex_literals_nonneg(s);
        if let Ok(ts0) = sp_lex(s) {
            lemma_nonneg_cons(Token::Num(acc as i64), ts0);
        }
    }
}

/// Whitespace in front of the input never changes the outcome of lexing.
pub proof fn lemma_lex_leading_space(c: char, s: Seq<char>)
    requires
        is_space(c),
    ensures
        sp_lex(seq![c] + s) == sp_lex(s),
{
    assert((seq![c] + s)[0] == c);
    assert((seq![c] + s).skip(1) =~= s);
}

/// Whitespace at the end of the input never changes the outcome of lexing.
pub proof fn lemma_lex_trailing_space(s: Seq<char>, c: char)
    requires
        is_space(c),
    ensures
        sp_lex(s.push(c)) == sp_lex(s),
    decreases s.len(), 0int,
{
    let t = s.push(c);
    if s.len() == 0 {
        assert(t[0] == c);
        assert(t.skip(1) =~= s);
        assert(sp_lex(t) == sp_lex(s));
    } else {
        assert(t[0] == s[0]);
        assert(t.skip(1) =~= s.skip(1).push(c));
        if is_digit_char(s[0]) {
            lemma_lex_num_trailing_space(s.skip(1), digit_val(s[0]), c);
        } else {
            lemma_lex_trailing_space(s.skip(1), c);
        }
    }
}

/// Whitespace at the end of the input never changes the outcome of finishing
/// a decimal literal either: the whitespace ends the digit run exactly where
/// the end of the input would.
proof fn lemma_lex_num_trailing_space(s: Seq<char>, acc: int, c: char)
    requires
        is_space(c),
    ensures
        sp_lex_num(s.push(c), acc) == sp_lex_num(s, acc),
    decreases s.len(), 1int,
{
    let t = s.push(c);
    if s.len() > 0 && is_digit_char(s[0]) {
        assert(t[0] == s[0]);
        assert(t.skip(1) =~= s.skip(1).push(c));
        let acc2 = acc * 10 + digit_val(s[0]);
        if acc2 <= i64::MAX {
            lemma_lex_num_trailing_space(s.skip(1), acc2, c);
        }
    } else {
        if s.len() == 0 {
            assert(t[0] == c);
            assert(!is_digit_char(c));
        } else {
            assert(t[0] == s[0]);
        }
        lemma_lex_trailing_space(s, c);
    }
}

/// Finishing one more token keeps the running output aligned with the
/// remaining input: appending it to the tokens built so far commutes with
/// prepending it to the tokens still to come.
proof fn lemma_lex_cons_extend(
    toks0: Seq<Token>,
    t: Token,
    r: Result<Seq<Token>, EvalError>,
    full: Result<Seq<Token>, EvalError>,
)
    requires
        match lex_cons(t, r) {
            Ok(ts) => full == Ok::<Seq<Token>, EvalError>(toks0 + ts),
            Err(e) => full == Err::<Seq<Token>, EvalError>(e),
        },
    ensures
        match r {
            Ok(ts) => full == Ok::<Seq<Token>, EvalError>(toks0.push(t) + ts),
            Err(e) => full == Err::<Seq<Token>, EvalError>(e),
        },
{
    if let Ok(ts) = r {
        assert(toks0 + (seq![t] + ts) =~= toks0.push(t) + ts);
    }
}

/// Convert the input into its token sequence, or report the first lexical
/// error; the token order is exactly the order of appearance in the input.
pub fn lex(s: &str) -> (r: Result<Vec<Token>, EvalError>)
    ensures
        match r {
            Ok(ts) => sp_lex(s@) == Ok::<Seq<Token>, EvalError>(ts@),
            Err(e) => sp_lex(s@) == Err::<Seq<Token>, EvalError>(e),
        },
{
    let n = s.unicode_len();
    let mut toks: Vec<Token> = Vec::new();
    let mut i: usize = 0;
    proof {
        assert(s@.skip(0int) =~= s@);
        if let Ok(ts) = sp_lex(s@) {
            assert(Seq::<Token>::empty() + ts =~= ts);
        }
    }
    while i < n
        invariant
            i <= n,
            n == s@.len(),
            match sp_lex(s@.skip(i as int)) {
                Ok(ts) => sp_lex(s@) == Ok::<Seq<Token>, EvalError>(toks@ + ts),
                Err(e) => sp_lex(s@) == Err::<Seq<Token>, EvalError>(e),
            },
        decreases n - i,
    {
        let c = s.get_char(i);
        proof {
            assert(s@.skip(i as int)[0] == c);
            assert(s@.skip(i as int).skip(1) =~= s@.skip(i as int + 1));
        }
        if is_space_char(c) {
            i = i + 1;
        } else if c == '(' {
            proof {
                lemma_lex_cons_extend(
                    toks@,
                    Token::LParen,
                    sp_lex(s@.skip(i as int + 1)),
                    sp_lex(s@),
                );
            }
            toks.push(Token::LParen);
            i = i + 1;
        } else if c == ')' {
            proof {
                lemma_lex_cons_extend(
                    toks@,
                    Token::RParen,
                    sp_lex(s@.skip(i as int + 1)),
                    sp_lex(s@),
                );
            }
            toks.push(Token::RParen);
            i = i + 1;
        } else if c == '*' {
            proof {
                lemma_lex_cons_extend(toks@, Token::Star, sp_lex(s@.skip(i as int + 1)), sp_lex(s@));
            }
            toks.push(Token::Star);
            i = i + 1;
        } else if c == '/' {
            proof {
                lemma_lex_cons_extend(
                    toks@,
                    Token::Slash,
                    sp_lex(s@.skip(i as int + 1)),
                    sp_lex(s@),
                );
            }
            toks.push(Token::Slash);
            i = i + 1;
        } else if c == '+' {
            proof {
                lemma_lex_cons_extend(toks@, Token::Plus, sp_lex(s@.skip(i as int + 1)), sp_lex(s@));
            }
            toks.push(Token::Plus);
            i = i + 1;
        } else if c == '-' {
            proof {
                lemma_lex_cons_extend(
                    toks@,
                    Token::Minus,
                    sp_lex(s@.skip(i as int + 1)),
                    sp_lex(s@),
                );
            }
            toks.push(Token::Minus);
            i = i + 1;
        } else if '0' <= c && c <= '9' {
            let mut acc: i64 = (c as u32 as i64) - 48;
            let mut j: usize = i + 1;
            proof {
                assert(sp_lex(s@.skip(i as int)) == sp_lex_num(
                    s@.skip(i as int + 1),
                    digit_val(c),
                ));
            }
            loop
                invariant
                    i < j <= n,
                    n == s@.len(),
                    0 <= acc,
                    match sp_lex_num(s@.skip(j as int), acc as int) {
                        Ok(ts) => sp_lex(s@) == Ok::<Seq<Token>, EvalError>(toks@ + ts),
                        Err(e) => sp_lex(s@) == Err::<Seq<Token>, EvalError>(e),
                    },
                ensures
                    i < j <= n,
                    0 <= acc,
                    j == n || !is_digit_char(s@[j as int]),
                    match sp_lex_num(s@.skip(j as int), acc as int) {
                        Ok(ts) => sp_lex(s@) == Ok::<Seq<Token>, EvalError>(toks@ + ts),
                        Err(e) => sp_lex(s@) == Err::<Seq<Token>, EvalError>(e),
                    },
                decreases n - j,
            {
                if j == n {
                    break ;
                }
                let d = s.get_char(j);
                proof {
                    assert(s@.skip(j as int)[0] == d);
                    assert(s@.skip(j as int).skip(1) =~= s@.skip(j as int + 1));
                }
                if !('0' <= d && d <= '9') {
                    break ;
                }
                let dv: i64 = (d as u32 as i64) - 48;
                let acc10 = match acc.checked_mul(10) {
                    Some(v) => v,
                    None => {
                        return Err(EvalError::Overflow);
                    },
                };
                acc = match acc10.checked_add(dv) {
                    Some(v) => v,
                    None => {
                        return Err(EvalError::Overflow);
                    },
                };
                j = j + 1;
            }
            proof {
                let rem = s@.skip(j as int);
                if j < n {
                    assert(rem[0] == s@[j as int]);
                } else {
                    assert(rem =~= Seq::<char>::empty());
                }
                assert(sp_lex_num(rem, acc as int) == lex_cons(Token::Num(acc), sp_lex(rem)));
                lemma_lex_cons_extend(toks@, Token::Num(acc), sp_lex(rem), sp_lex(s@));
            }
            toks.push(Token::Num(acc));
            i = j;
        } else {
            proof {
                assert(sp_lex(s@.skip(i as int)) == Err::<Seq<Token>, EvalError>(
                    EvalError::InvalidToken(c),
                ));
            }
            return Err(EvalError::InvalidToken(c));
        }
    }
    proof {
        assert(s@.skip(n as int) =~= Seq::<char>::empty());
        assert(toks@ + Seq::<Token>::empty() =~= toks@);
    }
    Ok(toks)
}

} // verus!
