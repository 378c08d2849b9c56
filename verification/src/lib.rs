use vstd::prelude::*;

pub mod ast;
pub mod lexer;
pub mod parser;
pub mod token;

verus! {

use crate::ast::{sp_eval_add_sub, AddSub, AddSubP, Factor, MulDiv, MulDivP};
use crate::lexer::sp_lex;
use crate::parser::sp_add_sub;
use crate::token::{EvalError, Token};

/// The value of one line of text: its token sequence, the expression tree
/// parsed from the front of that sequence, and the fold of that tree — or the
/// first error on the way.
pub open spec fn sp_eval_str(s: Seq<char>) -> Result<i64, EvalError> {
    match sp_lex(s) {
        Ok(ts) => match sp_add_sub(ts) {
            Ok(tr) => sp_eval_add_sub(tr.0),
            Err(e) => Err(e),
        },
        Err(e) => Err(e),
    }
}

/// `*` and `/` bind tighter than `+` and `-`: for every `a`, `b` and `c`, the
/// token sequence of `a + b * c` parses completely, and its value applies the
/// multiplication to `b` and `c` first and adds `a` to that product — never
/// `(a + b) * c`.
pub proof fn lemma_multiplication_binds_tighter(a: i64, b: i64, c: i64)
    ensures
        ({
            let toks = seq![
                Token::Num(a),
                Token::Plus,
                Token::Num(b),
                Token::Star,
                Token::Num(c),
            ];
            sp_add_sub(toks) matches Ok(tr) && tr.1.len() == 0 && sp_eval_add_sub(tr.0) == (
            match crate::ast::sp_apply_mul_div(true, b, c) {
                Ok(v) => crate::ast::sp_apply_add_sub(true, a, v),
                Err(er) => Err::<i64, EvalError>(er),
            })
        }),
{
    let toks = seq![Token::Num(a), Token::Plus, Token::Num(b), Token::Star, Token::Num(c)];
    let s1 = seq![Token::Plus, Token::Num(b), Token::Star, Token::Num(c)];
    let s2 = seq![Token::Num(b), Token::Star, Token::Num(c)];
    let s3 = seq![Token::Star, Token::Num(c)];
    let s4 = seq![Token::Num(c)];
    let s5 = Seq::<Token>::empty();
    assert(toks.skip(1) =~= s1);
    assert(s1.skip(1) =~= s2);
    assert(s2.skip(1) =~= s3);
    assert(s3.skip(1) =~= s4);
    assert(s4.skip(1) =~= s5);

    let fa = Factor::Num(a);
    let fb = Factor::Num(b);
    let fc = Factor::Num(c);
    assert(crate::parser::sp_factor(toks) == Ok::<(Factor, Seq<Token>), EvalError>((fa, s1)));
    assert(crate::parser::sp_mul_div_p(s1) == Ok::<(Option<Box<MulDivP>>, Seq<Token>), EvalError>(
        (None, s1),
    ));
    let term_a = MulDiv { f: Box::new(fa), mdp: None };
    assert(crate::parser::sp_mul_div(toks) == Ok::<(MulDiv, Seq<Token>), EvalError>((term_a, s1)));

    assert(crate::parser::sp_factor(s2) == Ok::<(Factor, Seq<Token>), EvalError>((fb, s3)));
    assert(crate::parser::sp_factor(s4) == Ok::<(Factor, Seq<Token>), EvalError>((fc, s5)));
    assert(crate::parser::sp_mul_div_p(s5) == Ok::<(Option<Box<MulDivP>>, Seq<Token>), EvalError>(
        (None, s5),
    ));
    let tail_c = MulDivP { is_mul: true, f: Box::new(fc), mdp: None };
    assert(crate::parser::sp_mul_div_p(s3) == Ok::<(Option<Box<MulDivP>>, Seq<Token>), EvalError>(
        (Some(Box::new(tail_c)), s5),
    ));
    let term_bc = MulDiv { f: Box::new(fb), mdp: Some(Box::new(tail_c)) };
    assert(crate::parser::sp_mul_div(s2) == Ok::<(MulDiv, Seq<Token>), EvalError>((term_bc, s5)));

    assert(crate::parser::sp_add_sub_p(s5) == Ok::<
        (Option<Box<AddSubP>>, Seq<Token>),
        EvalError,
    >((None, s5)));
    let tail_bc = AddSubP { is_add: true, md: Box::new(term_bc), asp: None };
    assert(crate::parser::sp_add_sub_p(s1) == Ok::<
        (Option<Box<AddSubP>>, Seq<Token>),
        EvalError,
    >((Some(Box::new(tail_bc)), s5)));
    let tree = AddSub { md: Box::new(term_a), asp: Some(Box::new(tail_bc)) };
    assert(sp_add_sub(toks) == Ok::<(AddSub, Seq<Token>), EvalError>((tree, s5)));

    assert(crate::ast::sp_eval_mul_div(term_a) == Ok::<i64, EvalError>(a));
    assert(crate::ast::sp_eval_mul_div(term_bc) == match crate::ast::sp_apply_mul_div(true, b, c) {
        Ok(v) => Ok::<i64, EvalError>(v),
        Err(er) => Err::<i64, EvalError>(er),
    });
    assert(sp_eval_add_sub(tree) == match crate::ast::sp_apply_mul_div(true, b, c) {
        Ok(v) => crate::ast::sp_apply_add_sub(true, a, v),
        Err(er) => Err::<i64, EvalError>(er),
    });
}

/// Whitespace insensitivity at the ends of the line: whitespace put in front
/// of the input, or appended to it, never changes the value of the line.
pub proof fn lemma_eval_str_whitespace(s: Seq<char>, c: char)
    requires
        crate::lexer::is_space(c),
    ensures
        sp_eval_str(seq![c] + s) == sp_eval_str(s),
        sp_eval_str(s.push(c)) == sp_eval_str(s),
{
    crate::lexer::lemma_lex_leading_space(c, s);
    crate::lexer::lemma_lex_trailing_space(s, c);
}

/// Evaluate one line of text: lex it, parse the expression at the front of
/// the tokens, and fold the tree into its integer value.
pub fn eval(s: &str) -> (r: Result<i64, EvalError>)
    ensures
        r == sp_eval_str(s@),
{
    let tokens = match crate::lexer::lex(s) {
        Ok(ts) => ts,
        Err(e) => {
            return Err(e);
        },
    };
    let tree = match crate::parser::parse(&tokens) {
        Ok(t) => t,
        Err(e) => {
            return Err(e);
        },
    };
    tree.eval()
}

} // verus!
