//! The formula evaluator: turns one candidate index and the evaluation
//! parameter into one exactly-computed big integer, by one of three
//! strategies.

use vstd::prelude::*;
use vstd::arithmetic::power::pow;
use vstd::arithmetic::power::lemma_pow_positive;
use malachite::Integer;
use crate::bigint::{int_value, int_add, int_pow, int_from_i64, int_div_trunc, int_is_zero, trunc_div};
use crate::poly::{Polynomial, poly_add_s, poly_eval, frac_eval_from};
use crate::chebyshev::{cheb_t, cheb_u, lemma_cheb_t_len, lemma_cheb_u_len};
use crate::fraction::Fraction;

verus! {

/// The three interchangeable numeric strategies.
#[derive(Clone, Copy, Debug, PartialEq, Eq, Structural)]
pub enum Strategy {
    /// value = Σ_{s=0}^{n−2} xˢ.
    PowerSum,
    /// Chebyshev quotient evaluated at the integer-truncated half of x.
    IntegerChebyshev,
    /// Chebyshev quotient evaluated at the exact fraction x/2.
    ExactFractionChebyshev,
}

/// Why a candidate's value could not be computed.
#[derive(Clone, Copy, Debug, PartialEq, Eq, Structural)]
pub enum EvalError {
    /// The divisor polynomial evaluation came out zero.
    ZeroDivisor,
}

/// Σ_{s=0}^{m−1} x^s, the power sum of the first `m` powers of `x`.
pub open spec fn geom_sum(x: int, m: nat) -> int
    decreases m,
{
    if m == 0 {
        0
    } else {
        geom_sum(x, (m - 1) as nat) + pow(x, (m - 1) as nat)
    }
}

/// k = (n − 1) / 2, the index pair used by the Chebyshev strategies.
pub open spec fn candidate_k(n: nat) -> nat {
    ((n - 1) / 2) as nat
}

/// The combined polynomial U_{k−1} + U_k.
pub open spec fn cheb_pair(k: nat) -> Seq<int>
    recommends
        k >= 1,
{
    poly_add_s(cheb_u((k - 1) as nat), cheb_u(k))
}

/// Numerator of the integer-truncated Chebyshev strategy:
/// (U_{k−1} + U_k) evaluated at T_4(⌊x/2⌋).
pub open spec fn int_cheb_num(n: nat, x: int) -> int {
    poly_eval(cheb_pair(candidate_k(n)), poly_eval(cheb_t(4), trunc_div(x, 2)))
}

/// Denominator of the integer-truncated Chebyshev strategy:
/// (U_{k−1} + U_k) evaluated at T_2(⌊x/2⌋).
pub open spec fn int_cheb_den(n: nat, x: int) -> int {
    poly_eval(cheb_pair(candidate_k(n)), poly_eval(cheb_t(2), trunc_div(x, 2)))
}

/// The exact-fraction strategy's numerator value, reduced to an integer:
/// (U_{k−1} + U_k) evaluated exactly at T_4(x/2), then truncated.
/// T_4(x/2) is the exact fraction `frac_eval_from(T_4, x, 2, 0) / 2⁴`, and
/// the outer evaluation has common denominator `(2⁴)^k`.
pub open spec fn frac_cheb_num(n: nat, x: int) -> int {
    trunc_div(
        frac_eval_from(cheb_pair(candidate_k(n)), frac_eval_from(cheb_t(4), x, 2, 0), pow(2, 4), 0),
        pow(pow(2, 4), candidate_k(n)),
    )
}

/// The exact-fraction strategy's denominator value, reduced to an integer:
/// (U_{k−1} + U_k) evaluated exactly at T_2(x/2), then truncated.
pub open spec fn frac_cheb_den(n: nat, x: int) -> int {
    trunc_div(
        frac_eval_from(cheb_pair(candidate_k(n)), frac_eval_from(cheb_t(2), x, 2, 0), pow(2, 2), 0),
        pow(pow(2, 2), candidate_k(n)),
    )
}

/// The truncated half of `x`, rounded towards zero.
pub fn half_toward_zero(x: i64) -> (r: i64)
    requires
        x > i64::MIN,
    ensures
        r as int == trunc_div(x as int, 2),
{
    if x >= 0 {
        let u: u64 = x as u64;
        (u / 2) as i64
    } else {
        let u: u64 = (-x) as u64;
        -((u / 2) as i64)
    }
}

/// The power-sum strategy: value = Σ_{s=0}^{n−2} xˢ, each power computed
/// by big-integer exponentiation and the terms summed.
pub fn power_sum(n: u64, x: i64) -> (r: Integer)
    requires
        n >= 1,
    ensures
        int_value(r) == geom_sum(x as int, (n - 1) as nat),
{
    let xb = int_from_i64(x);
    let m = n - 1;
    let mut value = int_from_i64(0);
    let mut s: u64 = 0;
    while s < m
        invariant
            s <= m,
            int_value(xb) == x as int,
            int_value(value) == geom_sum(x as int, s as nat),
        decreases m - s,
    {
        let t = int_pow(&xb, s);
        value = int_add(&value, &t);
        s += 1;
    }
    value
}

/// The integer-truncated Chebyshev strategy: with k = (n−1)/2, build
/// U_{k−1} + U_k, evaluate it at T_4(⌊x/2⌋) and at T_2(⌊x/2⌋), and divide
/// the first value by the second, truncating. The division fails exactly
/// when the divisor evaluation is zero.
pub fn integer_chebyshev_value(n: u64, x: i64) -> (r: Result<Integer, EvalError>)
    requires
        n >= 3,
        n <= usize::MAX,
        x > i64::MIN,
    ensures
        match r {
            Ok(v) => int_cheb_den(n as nat, x as int) != 0
                && int_value(v) == trunc_div(
                    int_cheb_num(n as nat, x as int),
                    int_cheb_den(n as nat, x as int),
                ),
            Err(e) => int_cheb_den(n as nat, x as int) == 0 && e == EvalError::ZeroDivisor,
        },
{
    let xh = half_toward_zero(x);
    let xb = int_from_i64(xh);
    let t2_poly = Polynomial::chebyshev_t(2);
    let t4_poly = Polynomial::chebyshev_t(4);
    let t2v = t2_poly.eval(&xb);
    let t4v = t4_poly.eval(&xb);
    let k64 = (n - 1) / 2;
    proof {
        assert(k64 >= 1);
        assert(k64 as nat == candidate_k(n as nat));
    }
    let k = k64 as usize;
    let u_km1 = Polynomial::chebyshev_u(k - 1);
    let u_k = Polynomial::chebyshev_u(k);
    let pair = u_km1.add(&u_k);
    proof {
        assert(pair@ == cheb_pair(candidate_k(n as nat)));
    }
    let v0 = pair.eval(&t4v);
    let v1 = pair.eval(&t2v);
    if int_is_zero(&v1) {
        Err(EvalError::ZeroDivisor)
    } else {
        Ok(int_div_trunc(&v0, &v1))
    }
}

/// The exact-fraction Chebyshev strategy: the same construction, but x/2
/// is kept as an exact fraction; both polynomial evaluations are reduced
/// to integers (truncating) only at the very end, then divided. The
/// division fails exactly when the reduced divisor is zero.
pub fn fraction_chebyshev_value(n: u64, x: i64) -> (r: Result<Integer, EvalError>)
    requires
        n >= 3,
        n <= usize::MAX,
    ensures
        match r {
            Ok(v) => frac_cheb_den(n as nat, x as int) != 0
                && int_value(v) == trunc_div(
                    frac_cheb_num(n as nat, x as int),
                    frac_cheb_den(n as nat, x as int),
                ),
            Err(e) => frac_cheb_den(n as nat, x as int) == 0 && e == EvalError::ZeroDivisor,
        },
{
    let xf = Fraction::new(x, 2);
    let xf1 = Fraction::new(x, 2);
    let t2_poly = Polynomial::chebyshev_t(2);
    let t4_poly = Polynomial::chebyshev_t(4);
    proof {
        lemma_cheb_t_len(2);
        lemma_cheb_t_len(4);
    }
    let t2f = t2_poly.eval_frac(&xf);
    let t4f = t4_poly.eval_frac(&xf1);
    proof {
        lemma_pow_positive(2, 2);
        lemma_pow_positive(2, 4);
        assert(t2f.den_v() == pow(2, 2) && t4f.den_v() == pow(2, 4));
    }
    let k64 = (n - 1) / 2;
    proof {
        assert(k64 >= 1);
        assert(k64 as nat == candidate_k(n as nat));
    }
    let k = k64 as usize;
    let u_km1 = Polynomial::chebyshev_u(k - 1);
    let u_k = Polynomial::chebyshev_u(k);
    let pair = u_km1.add(&u_k);
    proof {
        assert(pair@ == cheb_pair(candidate_k(n as nat)));
        lemma_cheb_u_len((k - 1) as nat);
        lemma_cheb_u_len(k as nat);
        assert(pair@.len() == k + 1);
        lemma_pow_positive(2, 2);
        lemma_pow_positive(2, 4);
        lemma_pow_positive(pow(2, 2), k as nat);
        lemma_pow_positive(pow(2, 4), k as nat);
    }
    let v0f = pair.eval_frac(&t4f);
    let v1f = pair.eval_frac(&t2f);
    let v0 = v0f.reduce_to_integer();
    let v1 = v1f.reduce_to_integer();
    if int_is_zero(&v1) {
        Err(EvalError::ZeroDivisor)
    } else {
        Ok(int_div_trunc(&v0, &v1))
    }
}

/// The strategy-selected target value for one candidate.
pub fn evaluate_candidate(strategy: Strategy, n: u64, x: i64) -> (r: Result<Integer, EvalError>)
    requires
        n >= 1,
        strategy != Strategy::PowerSum ==> n >= 3,
        n <= usize::MAX,
        x > i64::MIN,
    ensures
        strategy == Strategy::PowerSum ==> match r {
            Ok(v) => int_value(v) == geom_sum(x as int, (n - 1) as nat),
            Err(_) => false,
        },
        strategy == Strategy::IntegerChebyshev ==> match r {
            Ok(v) => int_cheb_den(n as nat, x as int) != 0
                && int_value(v) == trunc_div(
                    int_cheb_num(n as nat, x as int),
                    int_cheb_den(n as nat, x as int),
                ),
            Err(e) => int_cheb_den(n as nat, x as int) == 0 && e == EvalError::ZeroDivisor,
        },
        strategy == Strategy::ExactFractionChebyshev ==> match r {
            Ok(v) => frac_cheb_den(n as nat, x as int) != 0
                && int_value(v) == trunc_div(
                    frac_cheb_num(n as nat, x as int),
                    frac_cheb_den(n as nat, x as int),
                ),
            Err(e) => frac_cheb_den(n as nat, x as int) == 0 && e == EvalError::ZeroDivisor,
        },
{
    match strategy {
        Strategy::PowerSum => Ok(power_sum(n, x)),
        Strategy::IntegerChebyshev => integer_chebyshev_value(n, x),
        Strategy::ExactFractionChebyshev => fraction_chebyshev_value(n, x),
    }
}

/// The modulus scale that a collision report carries: n for the power-sum
/// strategy, 4n for the Chebyshev strategies.
pub open spec fn spec_modulus_scale(strategy: Strategy, n: nat) -> nat {
    if strategy == Strategy::PowerSum {
        n
    } else {
        4 * n
    }
}

/// The modulus scale reported for a candidate under a strategy.
pub fn modulus_scale(strategy: Strategy, n: u64) -> (r: u64)
    requires
        4 * n <= u64::MAX,
    ensures
        r as nat == spec_modulus_scale(strategy, n as nat),
{
    match strategy {
        Strategy::PowerSum => n,
        Strategy::IntegerChebyshev => 4 * n,
        Strategy::ExactFractionChebyshev => 4 * n,
    }
}

} // verus!
