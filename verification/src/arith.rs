//! 64-bit arithmetic of the language: every operator wraps in two's
//! complement, division truncates toward zero, and only a zero divisor
//! has no result.

use vstd::prelude::*;
use vstd::arithmetic::div_mod::{lemma_fundamental_div_mod, lemma_mod_bound};

verus! {

/// The four arithmetic operators of the language.
#[derive(Debug, Clone, Copy, PartialEq, Eq, Structural)]
pub enum BinOp {
    Add,
    Sub,
    Mul,
    Div,
}

/// The 64-bit two's-complement value that the integer `v` wraps to.
pub open spec fn wrap(v: int) -> i64 {
    let r = v % 0x1_0000_0000_0000_0000;
    if r > i64::MAX {
        (r - 0x1_0000_0000_0000_0000) as i64
    } else {
        r as i64
    }
}

/// The quotient of `a` by `b` rounded toward zero.
pub open spec fn truncated_quotient(a: int, b: int) -> int
    recommends
        b != 0,
{
    if a >= 0 && b > 0 {
        a / b
    } else if a < 0 && b < 0 {
        (-a) / (-b)
    } else if a < 0 {
        -((-a) / b)
    } else {
        -(a / (-b))
    }
}

/// The result of `a op b`, or `None` for a division by zero.
pub open spec fn apply(op: BinOp, a: i64, b: i64) -> Option<i64> {
    match op {
        BinOp::Add => Some(wrap(a + b)),
        BinOp::Sub => Some(wrap(a - b)),
        BinOp::Mul => Some(wrap(a * b)),
        BinOp::Div => if b == 0 {
            None
        } else {
            Some(wrap(truncated_quotient(a as int, b as int)))
        },
    }
}

/// The truncated quotient `q` of `a` by `b` leaves a remainder
/// `a - q * b` that is smaller than `b` in magnitude and has the sign of
/// `a`: it is the quotient rounded toward zero. It is no larger than `a`
/// in magnitude.
pub proof fn lemma_truncated_quotient(a: int, b: int)
    requires
        b != 0,
    ensures
        ({
            let q = truncated_quotient(a, b);
            let r = a - q * b;
            &&& a >= 0 ==> 0 <= r
            &&& a <= 0 ==> r <= 0
            &&& b > 0 ==> -b < r < b
            &&& b < 0 ==> b < r < -b
            &&& a >= 0 ==> -a <= q <= a
            &&& a <= 0 ==> a <= q <= -a
            &&& (b >= 2 || b <= -2) ==> -a <= 2 * q <= a || a <= 2 * q <= -a
        }),
{
    let x = if a >= 0 {
        a
    } else {
        -a
    };
    let d = if b > 0 {
        b
    } else {
        -b
    };
    let n = x / d;
    let m = x % d;
    lemma_fundamental_div_mod(x, d);
    lemma_mod_bound(x, d);
    assert(0 <= n <= x) by (nonlinear_arith)
        requires
            x == d * n + m,
            0 <= m < d,
            0 <= x,
    ;
    assert(d >= 2 ==> 2 * n <= x) by (nonlinear_arith)
        requires
            x == d * n + m,
            0 <= m < d,
            0 <= n,
    ;
    let q = truncated_quotient(a, b);
    assert(q == n || q == -n);
    assert(q * b == d * n || q * b == -(d * n)) by (nonlinear_arith)
        requires
            q == n || q == -n,
            b == d || b == -d,
    ;
    assert(a >= 0 ==> q * b == d * n) by (nonlinear_arith)
        requires
            (a >= 0 && b > 0) ==> q == n && b == d,
            (a >= 0 && b < 0) ==> q == -n && b == -d,
            b != 0,
    ;
    assert(a < 0 ==> q * b == -(d * n)) by (nonlinear_arith)
        requires
            (a < 0 && b > 0) ==> q == -n && b == d,
            (a < 0 && b < 0) ==> q == n && b == -d,
            b != 0,
    ;
}

/// Where the exact result fits in 64 bits, `+`, `-` and `*` give it
/// unchanged, and `/` by a divisor other than zero gives the quotient
/// rounded toward zero. Only `i64::MIN / -1` does not fit.
pub proof fn lemma_apply_matches_native(op: BinOp, a: i64, b: i64)
    ensures
        op == BinOp::Add && i64::MIN <= a + b <= i64::MAX ==> apply(op, a, b) == Some(
            (a + b) as i64,
        ),
        op == BinOp::Sub && i64::MIN <= a - b <= i64::MAX ==> apply(op, a, b) == Some(
            (a - b) as i64,
        ),
        op == BinOp::Mul && i64::MIN <= a * b <= i64::MAX ==> apply(op, a, b) == Some(
            (a * b) as i64,
        ),
        op == BinOp::Div && b != 0 && !(a == i64::MIN && b == -1) ==> {
            &&& i64::MIN <= truncated_quotient(a as int, b as int) <= i64::MAX
            &&& apply(op, a, b) == Some(truncated_quotient(a as int, b as int) as i64)
        },
        apply(op, a, b) is None <==> op == BinOp::Div && b == 0,
{
    if op == BinOp::Div && b != 0 {
        lemma_truncated_quotient(a as int, b as int);
    }
}

impl BinOp {
    /// Computes `a op b` with wrapping arithmetic; `None` exactly when
    /// the operator is a division and `b` is zero.
    pub fn apply(self, a: i64, b: i64) -> (r: Option<i64>)
        ensures
            r == apply(self, a, b),
    {
        match self {
            BinOp::Add => Some(a.wrapping_add(b)),
            BinOp::Sub => Some(a.wrapping_sub(b)),
            BinOp::Mul => Some(a.wrapping_mul(b)),
            BinOp::Div => {
                if b == 0 {
                    None
                } else {
                    match a.checked_div(b) {
                        Some(q) => Some(q),
                        None => Some(i64::MIN),
                    }
                }
            },
        }
    }
}

} // verus!
