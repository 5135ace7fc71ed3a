//! The `an+b` positional expressions of `:nth-child` and their
//! evaluator: does a given 1-based sibling position satisfy the
//! expression?

use vstd::prelude::*;
use vstd::arithmetic::div_mod::{
    lemma_div_pos_is_pos, lemma_fundamental_div_mod, lemma_mod_multiples_basic,
};
use vstd::arithmetic::mul::{lemma_mul_is_commutative, lemma_mul_unary_negation};

verus! {

/// The sign of the offset in an `an+b` expression.
#[derive(Clone, Copy, Debug, PartialEq, Eq)]
pub enum NthExprOp {
    Add,
    Subtract,
}

/// A positional expression: either one exact position, or the linear
/// family `a*k + b` over nonnegative integers `k`.
#[derive(Clone, Copy, Debug, PartialEq, Eq)]
pub enum NthExpr {
    A(i64),
    AnOpB(i64, Option<NthExprOp>, i64),
}

/// The signed offset of an `an+b` expression: `b`, `-b`, or `0` when no
/// operator was written.
pub open spec fn nth_offset(op: Option<NthExprOp>, b: i64) -> int {
    match op {
        Some(NthExprOp::Add) => b as int,
        Some(NthExprOp::Subtract) => -(b as int),
        None => 0,
    }
}

/// Whether a 1-based position satisfies the expression.  `A(n)` accepts
/// exactly position `n`; `AnOpB(a, op, b)` accepts the positions
/// `a*k + offset` for nonnegative integers `k`.
pub open spec fn nth_accepts(e: NthExpr, pos: int) -> bool {
    match e {
        NthExpr::A(n) => pos == n as int,
        NthExpr::AnOpB(a, op, b) => {
            let s = nth_offset(op, b);
            if a == 0 {
                pos == s
            } else {
                exists|k: int| 0 <= k && pos == #[trigger] ((a as int) * k) + s
            }
        },
    }
}

/// Whether `d` is a nonnegative multiple of `m`.
fn divides_nonneg(d: u128, m: u128) -> (r: bool)
    requires
        1 <= m,
    ensures
        r == exists|k: int| 0 <= k && d as int == #[trigger] ((m as int) * k),
{
    let rem: u128 = d % m;
    proof {
        if rem == 0 {
            lemma_fundamental_div_mod(d as int, m as int);
            lemma_div_pos_is_pos(d as int, m as int);
            let q = (d as int) / (m as int);
            assert(0 <= q && d as int == (m as int) * q);
        } else {
            assert forall|k: int| 0 <= k implies d as int != #[trigger] ((m as int) * k) by {
                if d as int == (m as int) * k {
                    lemma_mul_is_commutative(m as int, k);
                    lemma_mod_multiples_basic(k, m as int);
                    assert((d as int) % (m as int) == 0);
                }
            }
        }
    }
    rem == 0
}

impl NthExpr {
    /// Evaluates the expression at a 1-based position, with exact
    /// integer arithmetic: a position off the expression's family is
    /// simply rejected.
    pub fn matches(&self, pos: usize) -> (r: bool)
        requires
            1 <= pos,
        ensures
            r == nth_accepts(*self, pos as int),
    {
        match *self {
            NthExpr::A(n) => (pos as i128) == (n as i128),
            NthExpr::AnOpB(a, op, b) => {
                let s: i128 = match op {
                    Some(NthExprOp::Add) => b as i128,
                    Some(NthExprOp::Subtract) => -(b as i128),
                    None => 0,
                };
                proof {
                    assert(s as int == nth_offset(op, b));
                }
                let p: i128 = pos as i128;
                if a == 0 {
                    p == s
                } else if a > 0 {
                    if p < s {
                        proof {
                            assert forall|k: int| 0 <= k implies pos as int != #[trigger] ((a as int) * k) + nth_offset(op, b) by {
                                assert((a as int) * k >= 0) by (nonlinear_arith)
                                    requires
                                        a > 0,
                                        0 <= k,
                                ;
                            }
                        }
                        false
                    } else {
                        let d: u128 = (p - s) as u128;
                        let m: u128 = a as u128;
                        let r = divides_nonneg(d, m);
                        proof {
                            if r {
                                let k = choose|k: int| 0 <= k && d as int == #[trigger] ((m as int) * k);
                                assert(0 <= k && pos as int == (a as int) * k + nth_offset(op, b));
                            } else {
                                assert forall|k: int| 0 <= k implies pos as int != #[trigger] ((a as int) * k) + nth_offset(op, b) by {
                                    if pos as int == (a as int) * k + nth_offset(op, b) {
                                        assert(d as int == (m as int) * k);
                                    }
                                }
                            }
                        }
                        r
                    }
                } else {
                    if p > s {
                        proof {
                            assert forall|k: int| 0 <= k implies pos as int != #[trigger] ((a as int) * k) + nth_offset(op, b) by {
                                assert((a as int) * k <= 0) by (nonlinear_arith)
                                    requires
                                        a < 0,
                                        0 <= k,
                                ;
                            }
                        }
                        false
                    } else {
                        let d: u128 = (s - p) as u128;
                        let m: u128 = (-(a as i128)) as u128;
                        let r = divides_nonneg(d, m);
                        proof {
                            if r {
                                let k = choose|k: int| 0 <= k && d as int == #[trigger] ((m as int) * k);
                                lemma_mul_unary_negation(a as int, k);
                                assert(0 <= k && pos as int == (a as int) * k + nth_offset(op, b));
                            } else {
                                assert forall|k: int| 0 <= k implies pos as int != #[trigger] ((a as int) * k) + nth_offset(op, b) by {
                                    if pos as int == (a as int) * k + nth_offset(op, b) {
                                        lemma_mul_unary_negation(a as int, k);
                                        assert(d as int == (m as int) * k);
                                    }
                                }
                            }
                        }
                        r
                    }
                }
            },
        }
    }
}

} // verus!
