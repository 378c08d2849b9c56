use vstd::prelude::*;

use crate::token::EvalError;

verus! {

/// Root of the parse tree: one `MulDiv` operand followed by an optional chain
/// of additions and subtractions.
#[derive(Debug)]
pub struct AddSub {
    pub md: Box<MulDiv>,
    pub asp: Option<Box<AddSubP>>,
}

/// One addition or subtraction step: the operator (`is_add`), its right-hand
/// operand, and the rest of the chain. The chain is linked to the right but is
/// always folded head to tail against a running accumulator, which is what
/// makes `+` and `-` left-associative.
#[derive(Debug)]
pub struct AddSubP {
    pub is_add: bool,
    pub md: Box<MulDiv>,
    pub asp: Option<Box<AddSubP>>,
}

/// One `Factor` operand followed by an optional chain of multiplications and
/// divisions.
#[derive(Debug)]
pub struct MulDiv {
    pub f: Box<Factor>,
    pub mdp: Option<Box<MulDivP>>,
}

/// One multiplication or division step, folded exactly as `AddSubP` one
/// precedence level up.
#[derive(Debug)]
pub struct MulDivP {
    pub is_mul: bool,
    pub f: Box<Factor>,
    pub mdp: Option<Box<MulDivP>>,
}

/// The atomic unit of the grammar: an integer literal (possibly negated) or a
/// parenthesized sub-expression.
#[derive(Debug)]
pub enum Factor {
    Num(i64),
    Expr(Box<AddSub>),
}

/// Integer division truncating toward zero, the semantics of `/` on machine
/// integers: the magnitudes are divided and the sign is put back.
pub open spec fn div_trunc(x: int, d: int) -> int
    recommends
        d != 0,
{
    if x == 0 {
        0
    } else if x > 0 && d > 0 {
        x / d
    } else if x < 0 && d < 0 {
        (-x) / (-d)
    } else if x < 0 {
        -((-x) / d)
    } else {
        -(x / (-d))
    }
}

/// The value of one addition or subtraction step applied to the running
/// accumulator `n`, checked against the `i64` range.
pub open spec fn sp_apply_add_sub(is_add: bool, n: i64, m: i64) -> Result<i64, EvalError> {
    let v = if is_add {
        n + m
    } else {
        n - m
    };
    if v < i64::MIN || v > i64::MAX {
        Err(EvalError::Overflow)
    } else {
        Ok(v as i64)
    }
}

/// The value of one multiplication or division step applied to the running
/// accumulator `n`: division by zero and results outside the `i64` range are
/// errors, and division truncates toward zero.
pub open spec fn sp_apply_mul_div(is_mul: bool, n: i64, m: i64) -> Result<i64, EvalError> {
    if is_mul {
        if n * m < i64::MIN || n * m > i64::MAX {
            Err(EvalError::Overflow)
        } else {
            Ok((n * m) as i64)
        }
    } else if m == 0 {
        Err(EvalError::DivisionByZero)
    } else {
        let q = div_trunc(n as int, m as int);
        if q < i64::MIN || q > i64::MAX {
            Err(EvalError::Overflow)
        } else {
            Ok(q as i64)
        }
    }
}

/// The value of a whole tree: the first operand, then the chain folded over
/// it.
pub open spec fn sp_eval_add_sub(e: AddSub) -> Result<i64, EvalError>
    decreases e,
{
    match sp_eval_mul_div(*e.md) {
        Ok(m) => match e.asp {
            Some(p) => sp_eval_add_sub_p(*p, m),
            None => Ok(m),
        },
        Err(er) => Err(er),
    }
}

/// The value of an addition/subtraction chain folded left to right, starting
/// from the accumulator `n`.
pub open spec fn sp_eval_add_sub_p(p: AddSubP, n: i64) -> Result<i64, EvalError>
    decreases p,
{
    match sp_eval_mul_div(*p.md) {
        Ok(m) => match sp_apply_add_sub(p.is_add, n, m) {
            Ok(v) => match p.asp {
                Some(q) => sp_eval_add_sub_p(*q, v),
                None => Ok(v),
            },
            Err(er) => Err(er),
        },
        Err(er) => Err(er),
    }
}

/// The value of a term: the first factor, then the chain folded over it.
pub open spec fn sp_eval_mul_div(t: MulDiv) -> Result<i64, EvalError>
    decreases t,
{
    match sp_eval_factor(*t.f) {
        Ok(m) => match t.mdp {
            Some(p) => sp_eval_mul_div_p(*p, m),
            None => Ok(m),
        },
        Err(er) => Err(er),
    }
}

/// The value of a multiplication/division chain folded left to right, starting
/// from the accumulator `n`.
pub open spec fn sp_eval_mul_div_p(p: MulDivP, n: i64) -> Result<i64, EvalError>
    decreases p,
{
    match sp_eval_factor(*p.f) {
        Ok(m) => match sp_apply_mul_div(p.is_mul, n, m) {
            Ok(v) => match p.mdp {
                Some(q) => sp_eval_mul_div_p(*q, v),
                None => Ok(v),
            },
            Err(er) => Err(er),
        },
        Err(er) => Err(er),
    }
}

/// The value of a factor: the literal itself, or the value of the nested
/// expression.
pub open spec fn sp_eval_factor(f: Factor) -> Result<i64, EvalError>
    decreases f,
{
    match f {
        Factor::Num(i) => Ok(i),
        Factor::Expr(e) => sp_eval_add_sub(*e),
    }
}

/// Division truncates toward zero: negating either operand negates the
/// quotient (which floor division would not satisfy), and on non-negative
/// operands the quotient is the ordinary floor quotient.
pub proof fn lemma_div_trunc_toward_zero(x: int, d: int)
    requires
        d != 0,
    ensures
        div_trunc(-x, d) == -div_trunc(x, d),
        div_trunc(x, -d) == -div_trunc(x, d),
        x >= 0 && d > 0 ==> div_trunc(x, d) == x / d,
{
}

/// Left-associativity of `*` and `/`: a chain of two same-level operations
/// starting from the accumulator `n` evaluates as the left-nested
/// `(n op1 a) op2 b`, never as `n op1 (a op2 b)`.
pub proof fn lemma_mul_div_chain_left_assoc(
    op1_is_mul: bool,
    op2_is_mul: bool,
    n: i64,
    a: i64,
    b: i64,
)
    ensures
        ({
            let chain = MulDivP {
                is_mul: op1_is_mul,
                f: Box::new(Factor::Num(a)),
                mdp: Some(
                    Box::new(MulDivP { is_mul: op2_is_mul, f: Box::new(Factor::Num(b)), mdp: None }),
                ),
            };
            sp_eval_mul_div_p(chain, n) == match sp_apply_mul_div(op1_is_mul, n, a) {
                Ok(v) => sp_apply_mul_div(op2_is_mul, v, b),
                Err(er) => Err::<i64, EvalError>(er),
            }
        }),
{
    reveal_with_fuel(sp_eval_mul_div_p, 2);
    let inner = MulDivP { is_mul: op2_is_mul, f: Box::new(Factor::Num(b)), mdp: None };
    let chain = MulDivP {
        is_mul: op1_is_mul,
        f: Box::new(Factor::Num(a)),
        mdp: Some(Box::new(inner)),
    };
    assert(sp_eval_factor(*chain.f) == Ok::<i64, EvalError>(a));
    assert(sp_eval_factor(*inner.f) == Ok::<i64, EvalError>(b));
    match sp_apply_mul_div(op1_is_mul, n, a) {
        Ok(v) => {
            assert(sp_eval_mul_div_p(chain, n) == sp_eval_mul_div_p(inner, v));
        },
        Err(er) => {
            assert(sp_eval_mul_div_p(chain, n) == Err::<i64, EvalError>(er));
        },
    }
}

/// Left-associativity of `+` and `-`: a chain of two same-level operations
/// starting from the accumulator `n` evaluates as the left-nested
/// `(n op1 a) op2 b`, never as `n op1 (a op2 b)`.
pub proof fn lemma_add_sub_chain_left_assoc(
    op1_is_add: bool,
    op2_is_add: bool,
    n: i64,
    a: i64,
    b: i64,
)
    ensures
        ({
            let chain = AddSubP {
                is_add: op1_is_add,
                md: Box::new(MulDiv { f: Box::new(Factor::Num(a)), mdp: None }),
                asp: Some(
                    Box::new(
                        AddSubP {
                            is_add: op2_is_add,
                            md: Box::new(MulDiv { f: Box::new(Factor::Num(b)), mdp: None }),
                            asp: None,
                        },
                    ),
                ),
            };
            sp_eval_add_sub_p(chain, n) == match sp_apply_add_sub(op1_is_add, n, a) {
                Ok(v) => sp_apply_add_sub(op2_is_add, v, b),
                Err(er) => Err::<i64, EvalError>(er),
            }
        }),
{
    reveal_with_fuel(sp_eval_add_sub_p, 2);
    let term_a = MulDiv { f: Box::new(Factor::Num(a)), mdp: None };
    let term_b = MulDiv { f: Box::new(Factor::Num(b)), mdp: None };
    let inner = AddSubP { is_add: op2_is_add, md: Box::new(term_b), asp: None };
    let chain = AddSubP { is_add: op1_is_add, md: Box::new(term_a), asp: Some(Box::new(inner)) };
    assert(sp_eval_mul_div(term_a) == Ok::<i64, EvalError>(a));
    assert(sp_eval_mul_div(term_b) == Ok::<i64, EvalError>(b));
    match sp_apply_add_sub(op1_is_add, n, a) {
        Ok(v) => {
            assert(sp_eval_add_sub_p(chain, n) == sp_eval_add_sub_p(inner, v));
        },
        Err(er) => {
            assert(sp_eval_add_sub_p(chain, n) == Err::<i64, EvalError>(er));
        },
    }
}

/// Re-evaluating an already-built tree yields the same integer every time:
/// any two results that `AddSub::eval` can return for the same tree are
/// equal, because the tree is only read and the result is a function of the
/// tree alone.
pub proof fn lemma_eval_deterministic(
    e: &AddSub,
    r1: Result<i64, EvalError>,
    r2: Result<i64, EvalError>,
)
    requires
        call_ensures(AddSub::eval, (e,), r1),
        call_ensures(AddSub::eval, (e,), r2),
    ensures
        r1 == r2,
{
}

impl AddSub {
    /// Fold the tree into its integer value. The tree is only read; the result
    /// is a function of the tree alone.
    pub fn eval(&self) -> (r: Result<i64, EvalError>)
        ensures
            r == sp_eval_add_sub(*self),
        decreases *self,
    {
        let m = match self.md.eval() {
            Ok(m) => m,
            Err(er) => {
                return Err(er);
            },
        };
        match &self.asp {
            Some(p) => p.eval(m),
            None => Ok(m),
        }
    }
}

impl AddSubP {
    /// Apply this chain to the accumulator `n`, head first, then the rest of
    /// the chain on the result.
    pub fn eval(&self, n: i64) -> (r: Result<i64, EvalError>)
        ensures
            r == sp_eval_add_sub_p(*self, n),
        decreases *self,
    {
        let m = match self.md.eval() {
            Ok(m) => m,
            Err(er) => {
                return Err(er);
            },
        };
        let v = if self.is_add {
            match n.checked_add(m) {
                Some(v) => v,
                None => {
                    return Err(EvalError::Overflow);
                },
            }
        } else {
            match n.checked_sub(m) {
                Some(v) => v,
                None => {
                    return Err(EvalError::Overflow);
                },
            }
        };
        match &self.asp {
            Some(q) => q.eval(v),
            None => Ok(v),
        }
    }
}

impl MulDiv {
    /// Fold the term into its integer value.
    pub fn eval(&self) -> (r: Result<i64, EvalError>)
        ensures
            r == sp_eval_mul_div(*self),
        decreases *self,
    {
        let m = match self.f.eval() {
            Ok(m) => m,
            Err(er) => {
                return Err(er);
            },
        };
        match &self.mdp {
            Some(p) => p.eval(m),
            None => Ok(m),
        }
    }
}

impl MulDivP {
    /// Apply this chain to the accumulator `n`, head first, then the rest of
    /// the chain on the result.
    pub fn eval(&self, n: i64) -> (r: Result<i64, EvalError>)
        ensures
            r == sp_eval_mul_div_p(*self, n),
        decreases *self,
    {
        let m = match self.f.eval() {
            Ok(m) => m,
            Err(er) => {
                return Err(er);
            },
        };
        let v = if self.is_mul {
            match n.checked_mul(m) {
                Some(v) => v,
                None => {
                    return Err(EvalError::Overflow);
                },
            }
        } else {
            if m == 0 {
                return Err(EvalError::DivisionByZero);
            }
            match n.checked_div(m) {
                Some(v) => v,
                None => {
                    return Err(EvalError::Overflow);
                },
            }
        };
        match &self.mdp {
            Some(q) => q.eval(v),
            None => Ok(v),
        }
    }
}

impl Factor {
    /// The literal value, or the value of the nested expression.
    pub fn eval(&self) -> (r: Result<i64, EvalError>)
        ensures
            r == sp_eval_factor(*self),
        decreases *self,
    {
        match self {
            Factor::Num(i) => Ok(*i),
            Factor::Expr(e) => e.eval(),
        }
    }
}

} // verus!
