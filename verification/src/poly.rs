//! Exact polynomials with arbitrary-precision integer coefficients.
//!
//! A polynomial is an ordered coefficient sequence, index = degree,
//! index 0 = constant term. The view of a `Polynomial` is the sequence of
//! the mathematical values of its coefficients; all contracts are stated
//! over that model.

use vstd::prelude::*;
use vstd::arithmetic::power::pow;
use vstd::arithmetic::power::lemma_pow_adds;
use vstd::arithmetic::power::lemma_pow_positive;
use malachite::Integer;
use crate::bigint::{
    int_value, int_add, int_sub, int_neg, int_mul, int_clone, int_from_i64, int_pow,
    int_div_trunc, int_is_zero, trunc_div, abs, nat_pow,
};
use crate::fraction::Fraction;

verus! {

/// Coefficient of degree `i`, with missing high-degree terms read as zero.
pub open spec fn coef_at(c: Seq<int>, i: int) -> int {
    if 0 <= i < c.len() {
        c[i]
    } else {
        0
    }
}

/// Coefficient-wise sum; the result length is the longer of the two.
pub open spec fn poly_add_s(a: Seq<int>, b: Seq<int>) -> Seq<int> {
    Seq::new(if a.len() >= b.len() { a.len() } else { b.len() },
        |i: int| coef_at(a, i) + coef_at(b, i))
}

/// Coefficient-wise difference; the result length is the longer of the two.
pub open spec fn poly_sub_s(a: Seq<int>, b: Seq<int>) -> Seq<int> {
    Seq::new(if a.len() >= b.len() { a.len() } else { b.len() },
        |i: int| coef_at(a, i) - coef_at(b, i))
}

/// One term of the convolution sum for degree `k`: `a[j] * b[k - j]`,
/// zero when `k - j` falls outside `b`.
pub open spec fn conv_term(a: Seq<int>, b: Seq<int>, k: int, j: int) -> int {
    if 0 <= k - j < b.len() {
        a[j] * b[k - j]
    } else {
        0
    }
}

/// Partial convolution sum for degree `k` over the first `i` coefficients
/// of `a`.
pub open spec fn conv_sum(a: Seq<int>, b: Seq<int>, k: int, i: nat) -> int
    decreases i,
{
    if i == 0 {
        0
    } else {
        conv_sum(a, b, k, (i - 1) as nat) + conv_term(a, b, k, i - 1)
    }
}

/// Full convolution: the product polynomial, of degree
/// `deg(a) + deg(b)`.
pub open spec fn poly_mul_s(a: Seq<int>, b: Seq<int>) -> Seq<int>
    recommends
        a.len() >= 1,
        b.len() >= 1,
{
    Seq::new((a.len() + b.len() - 1) as nat, |k: int| conv_sum(a, b, k, a.len()))
}

/// Sum of the terms `c[j] * x^j` for `j >= s`.
pub open spec fn eval_from(c: Seq<int>, x: int, s: int) -> int
    decreases c.len() - s,
{
    if s < 0 || s >= c.len() {
        0
    } else {
        c[s] * pow(x, s as nat) + eval_from(c, x, s + 1)
    }
}

/// The value of the polynomial `c` at the integer point `x`:
/// the sum of `c[j] * x^j` over all coefficients.
pub open spec fn poly_eval(c: Seq<int>, x: int) -> int {
    eval_from(c, x, 0)
}

/// Sum of the terms `c[j] * xn^j * xd^(deg − j)` for `j >= s`, where
/// `deg = c.len() − 1`: the value of `c` at the rational point `xn / xd`,
/// scaled by the common denominator `xd^deg`.
pub open spec fn frac_eval_from(c: Seq<int>, xn: int, xd: int, s: int) -> int
    decreases c.len() - s,
{
    if s < 0 || s >= c.len() {
        0
    } else {
        c[s] * pow(xn, s as nat) * pow(xd, (c.len() - 1 - s) as nat)
            + frac_eval_from(c, xn, xd, s + 1)
    }
}

/// True when every coefficient of `c` is zero.
pub open spec fn all_zero(c: Seq<int>) -> bool {
    forall|k: int| 0 <= k < c.len() ==> c[k] == 0
}

/// The quotient coefficient that synthetic division extracts at index `i`:
/// the remainder's coefficient of degree `deg(b) + i`, divided (rounding
/// towards zero, as big-integer division does) by `b`'s leading coefficient.
pub open spec fn sdiv_coef(rem: Seq<int>, b: Seq<int>, i: int) -> int {
    trunc_div(rem[b.len() - 1 + i], b[b.len() - 1])
}

/// One synthetic-division step: subtract `q` times `b`, shifted up by `i`,
/// from the working remainder.
pub open spec fn sdiv_rem_step(rem: Seq<int>, b: Seq<int>, i: int, q: int) -> Seq<int> {
    Seq::new(rem.len(), |k: int|
        if i <= k < i + b.len() {
            rem[k] - b[k - i] * q
        } else {
            rem[k]
        })
}

/// The working remainder of the synthetic division of `a` by `b` after `t`
/// steps; step number `t` processes quotient index `a.len() − b.len() − t + 1`
/// (the indices run from the quotient degree down to zero).
pub open spec fn sdiv_rem(a: Seq<int>, b: Seq<int>, t: nat) -> Seq<int>
    recommends
        b.len() >= 1,
        a.len() >= b.len(),
    decreases t,
{
    if t == 0 {
        a
    } else {
        let prev = sdiv_rem(a, b, (t - 1) as nat);
        let i = a.len() - b.len() - (t - 1);
        sdiv_rem_step(prev, b, i, sdiv_coef(prev, b, i))
    }
}

/// The quotient coefficient at index `i` of the synthetic division of `a`
/// by `b`: extracted from the remainder after the higher indices were
/// processed.
pub open spec fn sdiv_quot_at(a: Seq<int>, b: Seq<int>, i: int) -> int {
    sdiv_coef(sdiv_rem(a, b, (a.len() - b.len() - i) as nat), b, i)
}

/// The full quotient of the synthetic division of `a` by `b`.
pub open spec fn sdiv_quot(a: Seq<int>, b: Seq<int>) -> Seq<int> {
    Seq::new((a.len() - b.len() + 1) as nat, |i: int| sdiv_quot_at(a, b, i))
}

/// The remainder left after the whole synthetic division of `a` by `b`.
pub open spec fn sdiv_final_rem(a: Seq<int>, b: Seq<int>) -> Seq<int> {
    sdiv_rem(a, b, (a.len() - b.len() + 1) as nat)
}

/// An exact polynomial: arbitrary-precision coefficients, index = degree.
///
/// The invariant `wf` asks for at least one coefficient, so that the degree
/// (length − 1) is defined. A leading zero coefficient is allowed but makes
/// the reported degree inflated; callers must not rely on normalization.
pub struct Polynomial {
    pub coef: Vec<Integer>,
}

impl View for Polynomial {
    type V = Seq<int>;

    open spec fn view(&self) -> Seq<int> {
        self.coef@.map_values(|c: Integer| int_value(c))
    }
}

impl Polynomial {
    /// Well-formedness: the coefficient sequence is never empty.
    pub open spec fn wf(&self) -> bool {
        self.coef.len() >= 1
    }

    /// The degree reported by the representation: length − 1.
    pub fn degree(&self) -> (r: usize)
        requires
            self.wf(),
        ensures
            r == self@.len() - 1,
    {
        self.coef.len() - 1
    }

    /// The constant zero polynomial.
    pub fn zero() -> (r: Polynomial)
        ensures
            r.wf(),
            r@ == seq![0int],
    {
        let mut coef: Vec<Integer> = Vec::new();
        coef.push(int_from_i64(0));
        let r = Polynomial { coef };
        proof {
            assert(r@ =~= seq![0int]);
        }
        r
    }

    /// Coefficient-wise addition; missing high-degree terms are zero.
    pub fn add(&self, rhs: &Polynomial) -> (r: Polynomial)
        requires
            self.wf(),
            rhs.wf(),
        ensures
            r.wf(),
            r@ == poly_add_s(self@, rhs@),
    {
        let alen = self.coef.len();
        let blen = rhs.coef.len();
        let n = if alen >= blen { alen } else { blen };
        let mut coef: Vec<Integer> = Vec::new();
        let mut i: usize = 0;
        while i < n
            invariant
                i <= n,
                n == if alen >= blen { alen } else { blen },
                alen == self@.len(),
                blen == rhs@.len(),
                coef@.map_values(|c: Integer| int_value(c)).len() == i,
                forall|k: int| 0 <= k < i
                    ==> coef@.map_values(|c: Integer| int_value(c))[k]
                        == coef_at(self@, k) + coef_at(rhs@, k),
            decreases n - i,
        {
            let v = if i < alen && i < blen {
                int_add(&self.coef[i], &rhs.coef[i])
            } else if i < alen {
                int_clone(&self.coef[i])
            } else {
                int_clone(&rhs.coef[i])
            };
            coef.push(v);
            i += 1;
        }
        let r = Polynomial { coef };
        proof {
            assert(r@ =~= poly_add_s(self@, rhs@));
        }
        r
    }

    /// Coefficient-wise subtraction; missing high-degree terms are zero.
    pub fn sub(&self, rhs: &Polynomial) -> (r: Polynomial)
        requires
            self.wf(),
            rhs.wf(),
        ensures
            r.wf(),
            r@ == poly_sub_s(self@, rhs@),
    {
        let alen = self.coef.len();
        let blen = rhs.coef.len();
        let n = if alen >= blen { alen } else { blen };
        let mut coef: Vec<Integer> = Vec::new();
        let mut i: usize = 0;
        while i < n
            invariant
                i <= n,
                n == if alen >= blen { alen } else { blen },
                alen == self@.len(),
                blen == rhs@.len(),
                coef@.map_values(|c: Integer| int_value(c)).len() == i,
                forall|k: int| 0 <= k < i
                    ==> coef@.map_values(|c: Integer| int_value(c))[k]
                        == coef_at(self@, k) - coef_at(rhs@, k),
            decreases n - i,
        {
            let v = if i < alen && i < blen {
                int_sub(&self.coef[i], &rhs.coef[i])
            } else if i < alen {
                int_clone(&self.coef[i])
            } else {
                int_neg(&rhs.coef[i])
            };
            coef.push(v);
            i += 1;
        }
        let r = Polynomial { coef };
        proof {
            assert(r@ =~= poly_sub_s(self@, rhs@));
        }
        r
    }

    /// Full convolution product, accumulating sums of coefficient products.
    pub fn mul(&self, rhs: &Polynomial) -> (r: Polynomial)
        requires
            self.wf(),
            rhs.wf(),
            self@.len() + rhs@.len() <= usize::MAX,
        ensures
            r.wf(),
            r@ == poly_mul_s(self@, rhs@),
            r@.len() == self@.len() + rhs@.len() - 1,
    {
        let alen = self.coef.len();
        let blen = rhs.coef.len();
        let n = alen + blen - 1;
        let mut coef: Vec<Integer> = Vec::new();
        while coef.len() < n
            invariant
                coef@.len() <= n,
                forall|k: int| 0 <= k < coef@.len() ==> int_value(#[trigger] coef@[k]) == 0,
            decreases n - coef@.len(),
        {
            coef.push(int_from_i64(0));
        }
        let mut i: usize = 0;
        while i < alen
            invariant
                i <= alen,
                alen == self@.len(),
                blen == rhs@.len(),
                alen + blen <= usize::MAX,
                n == alen + blen - 1,
                coef@.len() == n,
                forall|k: int| 0 <= k < n
                    ==> int_value(#[trigger] coef@[k]) == conv_sum(self@, rhs@, k, i as nat),
            decreases alen - i,
        {
            let mut j: usize = 0;
            while j < blen
                invariant
                    i < alen,
                    j <= blen,
                    alen == self@.len(),
                    blen == rhs@.len(),
                    alen + blen <= usize::MAX,
                    n == alen + blen - 1,
                    coef@.len() == n,
                    forall|k: int| 0 <= k < n
                        ==> int_value(#[trigger] coef@[k]) == conv_sum(self@, rhs@, k, i as nat)
                            + (if i <= k < i + j { self@[i as int] * rhs@[k - i] } else { 0 }),
                decreases blen - j,
            {
                let t = int_mul(&self.coef[i], &rhs.coef[j]);
                let v = int_add(&coef[i + j], &t);
                coef[i + j] = v;
                j += 1;
            }
            proof {
                assert(forall|k: int| 0 <= k < n
                    ==> conv_sum(self@, rhs@, k, i as nat) + conv_term(self@, rhs@, k, i as int)
                        == conv_sum(self@, rhs@, k, (i + 1) as nat));
            }
            i += 1;
        }
        let r = Polynomial { coef };
        proof {
            assert(r@ =~= poly_mul_s(self@, rhs@));
        }
        r
    }

    /// The value at an integer point: each term is computed independently
    /// as coefficient × xᵈᵉᵍʳᵉᵉ and the terms are summed.
    pub fn eval(&self, x: &Integer) -> (r: Integer)
        requires
            self.wf(),
        ensures
            int_value(r) == poly_eval(self@, int_value(*x)),
    {
        let mut s: usize = self.coef.len();
        let mut value = int_from_i64(0);
        while s > 0
            invariant
                s <= self@.len(),
                int_value(value) == eval_from(self@, int_value(*x), s as int),
            decreases s,
        {
            s -= 1;
            let xp = int_pow(x, s as u64);
            let t = int_mul(&self.coef[s], &xp);
            value = int_add(&value, &t);
        }
        value
    }

    /// The value at an exact rational point `x.num / x.denom`: each term is
    /// `coefficient × num^degree` over `denom^degree`, and the terms are
    /// accumulated with exact `Fraction` addition.
    ///
    /// The result is pinned exactly: its denominator is `denom^deg`, the
    /// common denominator of all the terms, and its numerator is the sum of
    /// the scaled terms `c[j] * num^j * denom^(deg − j)`.
    pub fn eval_frac(&self, x: &Fraction) -> (r: Fraction)
        requires
            self.wf(),
            x.den_v() > 0,
        ensures
            r.den_v() == pow(x.den_v() as int, (self@.len() - 1) as nat),
            r.num_v() == frac_eval_from(self@, x.num_v(), x.den_v() as int, 0),
    {
        let len = self.coef.len();
        let mut s: usize = len;
        let mut value = Fraction::new(0, 0);
        while s > 0
            invariant
                self.wf(),
                x.den_v() > 0,
                s <= len,
                len == self@.len(),
                s == len ==> value.num_v() == 0 && value.den_v() == 0,
                s < len ==> value.den_v() == pow(x.den_v() as int, (len - 1) as nat)
                    && value.num_v() == frac_eval_from(self@, x.num_v(), x.den_v() as int, s as int),
            decreases s,
        {
            s -= 1;
            let ghost d = x.den_v() as int;
            let ghost nn = x.num_v();
            let ghost bigd = pow(d, (len - 1) as nat);
            let ghost cj = self@[s as int];
            let ghost cterm = cj * pow(nn, s as nat) * pow(d, (len - 1 - s) as nat);
            let xp = int_pow(&x.num, s as u64);
            let tnum = int_mul(&self.coef[s], &xp);
            let tden = nat_pow(&x.denom, s as u64);
            let term = Fraction { num: tnum, denom: tden };
            proof {
                lemma_pow_positive(d, s as nat);
                lemma_pow_positive(d, (len - 1) as nat);
                lemma_pow_adds(d, (len - 1 - s) as nat, s as nat);
                assert(term.num_v() * bigd == cterm * term.den_v()) by (nonlinear_arith)
                    requires
                        term.num_v() == cj * pow(nn, s as nat),
                        term.den_v() == pow(d, s as nat),
                        bigd == pow(d, (len - 1 - s) as nat) * pow(d, s as nat),
                        cterm == cj * pow(nn, s as nat) * pow(d, (len - 1 - s) as nat),
                {}
            }
            let new_value = value.add(&term);
            proof {
                let fs1 = frac_eval_from(self@, nn, d, s + 1);
                assert(frac_eval_from(self@, nn, d, s as int) == cterm + fs1);
                if s + 1 == len {
                    assert(fs1 == 0);
                    assert((len - 1 - s) as nat == 0nat);
                    vstd::arithmetic::power::lemma_pow0(d);
                    assert(new_value.num_v() == term.num_v()
                        && new_value.den_v() == term.den_v());
                    assert(new_value.num_v() == cterm) by (nonlinear_arith)
                        requires
                            new_value.num_v() == cj * pow(nn, s as nat),
                            cterm == cj * pow(nn, s as nat) * pow(d, (len - 1 - s) as nat),
                            pow(d, (len - 1 - s) as nat) == 1,
                    {}
                } else {
                    // The common multiple of the running denominator d^(len−1)
                    // and the term denominator d^s is d^(len−1) itself.
                    let vd = value.den_v();
                    let td = term.den_v();
                    let rd = new_value.den_v();
                    assert(bigd == pow(d, (len - 1 - s) as nat) * td);
                    vstd::arithmetic::div_mod::lemma_mod_multiples_basic(
                        pow(d, (len - 1 - s) as nat), td as int);
                    assert(vd % vd == 0) by {
                        vstd::arithmetic::div_mod::lemma_mod_self_0(vd as int);
                    }
                    assert(vd > 0 && (vd as int) % (vd as int) == 0 && (vd as int) % (td as int) == 0);
                    assert(rd <= vd);
                    lemma_positive_multiple_ge(rd, vd);
                    assert(rd == vd);
                    lemma_accum_step(
                        value.num_v(), vd as int, term.num_v(), td as int,
                        new_value.num_v(), rd as int, cterm,
                    );
                    assert(new_value.num_v() == cterm + fs1);
                }
            }
            value = new_value;
        }
        value
    }

    /// Synthetic (long) division, made fallible: the quotient is computed
    /// from high degree to low with exact big-integer truncating division by
    /// the divisor's leading coefficient, and the call succeeds exactly when
    /// the remainder left at the end is zero everywhere. When the divisor's
    /// degree exceeds the dividend's, the quotient is the zero polynomial,
    /// which is exact only for a zero dividend.
    pub fn div(&self, rhs: &Polynomial) -> (r: Result<Polynomial, PolyDivError>)
        requires
            self.wf(),
            rhs.wf(),
            rhs@.last() != 0,
        ensures
            rhs@.len() > self@.len() ==> match r {
                Ok(q) => q.wf() && q@ == seq![0int] && all_zero(self@),
                Err(_) => !all_zero(self@),
            },
            rhs@.len() <= self@.len() ==> match r {
                Ok(q) => {
                    &&& q.wf()
                    &&& q@ == sdiv_quot(self@, rhs@)
                    &&& all_zero(sdiv_final_rem(self@, rhs@))
                    &&& self@ == poly_mul_s(rhs@, q@)
                },
                Err(_) => !all_zero(sdiv_final_rem(self@, rhs@)),
            },
    {
        let alen = self.coef.len();
        let blen = rhs.coef.len();
        if blen > alen {
            if self.all_coefficients_zero() {
                Ok(Polynomial::zero())
            } else {
                Err(PolyDivError::NonZeroRemainder)
            }
        } else {
            let qd = alen - blen;
            let mut rem: Vec<Integer> = Vec::new();
            let mut k: usize = 0;
            while k < alen
                invariant
                    k <= alen,
                    alen == self@.len(),
                    rem@.len() == k,
                    forall|m: int| 0 <= m < k
                        ==> int_value(#[trigger] rem@[m]) == self@[m],
                decreases alen - k,
            {
                rem.push(int_clone(&self.coef[k]));
                k += 1;
            }
            let qlen = qd + 1;
            let mut quot: Vec<Integer> = Vec::new();
            while quot.len() < qlen
                invariant
                    quot@.len() <= qlen,
                decreases qlen - quot@.len(),
            {
                quot.push(int_from_i64(0));
            }
            proof {
                assert(rem@.map_values(|c: Integer| int_value(c))
                    =~= sdiv_rem(self@, rhs@, 0));
            }
            let mut t: usize = 0;
            while t <= qd
                invariant
                    t <= qd + 1,
                    alen == self@.len(),
                    blen == rhs@.len(),
                    self.wf(),
                    rhs.wf(),
                    rhs@.last() != 0,
                    qd == alen - blen,
                    rem@.len() == alen,
                    quot@.len() == qd + 1,
                    rem@.map_values(|c: Integer| int_value(c)) == sdiv_rem(self@, rhs@, t as nat),
                    forall|i: int| qd - t < i <= qd
                        ==> int_value(#[trigger] quot@[i]) == sdiv_quot_at(self@, rhs@, i),
                decreases qd + 1 - t,
            {
                let i = qd - t;
                let ghost prev = rem@.map_values(|c: Integer| int_value(c));
                let q = int_div_trunc(&rem[blen - 1 + i], &rhs.coef[blen - 1]);
                proof {
                    assert(int_value(q) == sdiv_coef(prev, rhs@, i as int));
                    assert(int_value(q) == sdiv_quot_at(self@, rhs@, i as int));
                }
                quot[i] = int_clone(&q);
                let mut j: usize = 0;
                while j < blen
                    invariant
                        j <= blen,
                        i + blen <= alen,
                        alen == self@.len(),
                        blen == rhs@.len(),
                        rhs.wf(),
                        rem@.len() == alen,
                        int_value(q) == sdiv_coef(prev, rhs@, i as int),
                        forall|m: int| 0 <= m < alen
                            ==> int_value(#[trigger] rem@[m])
                                == (if i <= m < i + j {
                                        prev[m] - rhs@[m - i] * int_value(q)
                                    } else {
                                        prev[m]
                                    }),
                    decreases blen - j,
                {
                    let p = int_mul(&rhs.coef[j], &q);
                    let v = int_sub(&rem[j + i], &p);
                    rem[j + i] = v;
                    j += 1;
                }
                proof {
                    assert(rem@.map_values(|c: Integer| int_value(c))
                        =~= sdiv_rem_step(prev, rhs@, i as int, sdiv_coef(prev, rhs@, i as int)));
                    assert(rem@.map_values(|c: Integer| int_value(c))
                        == sdiv_rem(self@, rhs@, (t + 1) as nat));
                }
                t += 1;
            }
            let mut ok = true;
            let mut m: usize = 0;
            while m < alen
                invariant
                    m <= alen,
                    alen == rem@.len(),
                    rem@.map_values(|c: Integer| int_value(c))
                        == sdiv_final_rem(self@, rhs@),
                    ok <==> (forall|u: int| 0 <= u < m
                        ==> int_value(#[trigger] rem@[u]) == 0),
                decreases alen - m,
            {
                if !int_is_zero(&rem[m]) {
                    ok = false;
                }
                m += 1;
            }
            proof {
                assert(forall|u: int| 0 <= u < alen
                    ==> #[trigger] sdiv_final_rem(self@, rhs@)[u] == int_value(rem@[u]));
            }
            if ok {
                let r = Polynomial { coef: quot };
                proof {
                    assert(r@ =~= sdiv_quot(self@, rhs@));
                    assert(all_zero(sdiv_final_rem(self@, rhs@)));
                    lemma_sdiv_exact(self@, rhs@);
                }
                Ok(r)
            } else {
                proof {
                    assert(exists|u: int| 0 <= u < alen && int_value(#[trigger] rem@[u]) != 0);
                    let u = choose|u: int| 0 <= u < alen && int_value(#[trigger] rem@[u]) != 0;
                    assert(sdiv_final_rem(self@, rhs@)[u] != 0);
                    assert(!all_zero(sdiv_final_rem(self@, rhs@)));
                }
                Err(PolyDivError::NonZeroRemainder)
            }
        }
    }

    /// Build a polynomial from small literal coefficients.
    pub fn from_small(vals: &[i64]) -> (r: Polynomial)
        requires
            vals@.len() >= 1,
        ensures
            r.wf(),
            r@ == vals@.map_values(|v: i64| v as int),
    {
        let mut coef: Vec<Integer> = Vec::new();
        let mut i: usize = 0;
        while i < vals.len()
            invariant
                i <= vals@.len(),
                coef@.len() == i,
                forall|k: int| 0 <= k < i
                    ==> int_value(#[trigger] coef@[k]) == vals@[k] as int,
            decreases vals@.len() - i,
        {
            coef.push(int_from_i64(vals[i]));
            i += 1;
        }
        let r = Polynomial { coef };
        proof {
            assert(r@ =~= vals@.map_values(|v: i64| v as int));
        }
        r
    }

    /// An identical copy.
    pub fn clone_val(&self) -> (r: Polynomial)
        requires
            self.wf(),
        ensures
            r.wf(),
            r@ == self@,
    {
        let mut coef: Vec<Integer> = Vec::new();
        let mut i: usize = 0;
        while i < self.coef.len()
            invariant
                i <= self@.len(),
                self@.len() == self.coef.len(),
                coef@.len() == i,
                forall|k: int| 0 <= k < i
                    ==> int_value(#[trigger] coef@[k]) == self@[k],
            decreases self@.len() - i,
        {
            coef.push(int_clone(&self.coef[i]));
            i += 1;
        }
        let r = Polynomial { coef };
        proof {
            assert(r@ =~= self@);
        }
        r
    }

    /// True when every coefficient is zero.
    pub fn all_coefficients_zero(&self) -> (r: bool)
        ensures
            r <==> all_zero(self@),
    {
        let mut k: usize = 0;
        let mut ok = true;
        while k < self.coef.len()
            invariant
                k <= self@.len(),
                self@.len() == self.coef.len(),
                ok <==> (forall|u: int| 0 <= u < k ==> self@[u] == 0),
            decreases self@.len() - k,
        {
            proof {
                assert(self@[k as int] == int_value(self.coef@[k as int]));
            }
            if !int_is_zero(&self.coef[k]) {
                ok = false;
            }
            k += 1;
        }
        ok
    }
}

/// The error of an inexact polynomial division: the synthetic division left
/// a remainder that is not zero everywhere.
#[derive(Debug)]
pub enum PolyDivError {
    NonZeroRemainder,
}

/// The evaluation of a coefficient-wise difference is the difference of
/// the evaluations.
pub proof fn lemma_eval_sub(a: Seq<int>, b: Seq<int>, x: int, s: int)
    ensures
        eval_from(poly_sub_s(a, b), x, s) == eval_from(a, x, s) - eval_from(b, x, s),
    decreases poly_sub_s(a, b).len() - s + 1,
{
    let c = poly_sub_s(a, b);
    if s < 0 || s >= c.len() {
    } else {
        lemma_eval_sub(a, b, x, s + 1);
        assert(c[s] == coef_at(a, s) - coef_at(b, s));
        assert((coef_at(a, s) - coef_at(b, s)) * pow(x, s as nat)
            == coef_at(a, s) * pow(x, s as nat) - coef_at(b, s) * pow(x, s as nat))
            by (nonlinear_arith)
        {}
    }
}

/// The evaluation of a coefficient-wise sum is the sum of the evaluations.
pub proof fn lemma_eval_add(a: Seq<int>, b: Seq<int>, x: int, s: int)
    ensures
        eval_from(poly_add_s(a, b), x, s) == eval_from(a, x, s) + eval_from(b, x, s),
    decreases poly_add_s(a, b).len() - s + 1,
{
    let c = poly_add_s(a, b);
    if s < 0 || s >= c.len() {
    } else {
        lemma_eval_add(a, b, x, s + 1);
        assert(c[s] == coef_at(a, s) + coef_at(b, s));
        assert((coef_at(a, s) + coef_at(b, s)) * pow(x, s as nat)
            == coef_at(a, s) * pow(x, s as nat) + coef_at(b, s) * pow(x, s as nat))
            by (nonlinear_arith)
        {}
    }
}

/// A convolution sum at a negative degree is zero.
proof fn lemma_conv_sum_neg(a: Seq<int>, b: Seq<int>, k: int, i: nat)
    requires
        k < 0,
    ensures
        conv_sum(a, b, k, i) == 0,
    decreases i,
{
    if i > 0 {
        lemma_conv_sum_neg(a, b, k, (i - 1) as nat);
    }
}

/// Peeling the first coefficient of `a` out of a convolution sum: the sum
/// is `a[0]`'s term plus the convolution of the tail of `a` at degree
/// `k − 1`.
proof fn lemma_conv_shift(a: Seq<int>, b: Seq<int>, k: int, i: nat)
    requires
        a.len() >= 2,
        1 <= i <= a.len(),
    ensures
        conv_sum(a, b, k, i)
            == conv_term(a, b, k, 0)
                + conv_sum(a.subrange(1, a.len() as int), b, k - 1, (i - 1) as nat),
    decreases i,
{
    let t = a.subrange(1, a.len() as int);
    if i == 1 {
        assert(conv_sum(a, b, k, 1) == conv_sum(a, b, k, 0) + conv_term(a, b, k, 0));
        assert(conv_sum(a, b, k, 0) == 0);
        assert(conv_sum(t, b, k - 1, 0) == 0);
    } else {
        lemma_conv_shift(a, b, k, (i - 1) as nat);
        assert(conv_term(a, b, k, i - 1) == conv_term(t, b, k - 1, i - 2));
        assert(conv_sum(a, b, k, i) == conv_sum(a, b, k, (i - 1) as nat) + conv_term(a, b, k, i - 1));
        assert(conv_sum(t, b, k - 1, (i - 1) as nat)
            == conv_sum(t, b, k - 1, (i - 2) as nat) + conv_term(t, b, k - 1, i - 2));
    }
}

/// Evaluating a coefficient-wise scaling of `b` scales the evaluation.
proof fn lemma_eval_scale(c: Seq<int>, g: int, b: Seq<int>, x: int, s: int)
    requires
        c.len() == b.len(),
        forall|k: int| 0 <= k < b.len() ==> c[k] == g * b[k],
    ensures
        eval_from(c, x, s) == g * eval_from(b, x, s),
    decreases c.len() - s + 1,
{
    if s < 0 || s >= c.len() {
    } else {
        lemma_eval_scale(c, g, b, x, s + 1);
        assert((g * b[s]) * pow(x, s as nat) == g * (b[s] * pow(x, s as nat)))
            by (nonlinear_arith)
        {}
        assert(g * (b[s] * pow(x, s as nat)) + g * eval_from(b, x, s + 1)
            == g * (b[s] * pow(x, s as nat) + eval_from(b, x, s + 1)))
            by (nonlinear_arith)
        {}
    }
}

/// Evaluating a sequence shifted up by one degree multiplies the
/// evaluation of the unshifted sequence by `x`.
proof fn lemma_eval_shift(d: Seq<int>, c: Seq<int>, x: int, s: int)
    requires
        d.len() == c.len() + 1,
        forall|j: int| 1 <= j < d.len() ==> d[j] == c[j - 1],
        s >= 1,
    ensures
        eval_from(d, x, s) == x * eval_from(c, x, s - 1),
    decreases d.len() - s + 1,
{
    if s >= d.len() {
    } else {
        lemma_eval_shift(d, c, x, s + 1);
        assert(pow(x, s as nat) == x * pow(x, (s - 1) as nat)) by {
            lemma_pow_adds(x, 1, (s - 1) as nat);
            vstd::arithmetic::power::lemma_pow1(x);
        }
        assert(c[s - 1] * (x * pow(x, (s - 1) as nat)) == x * (c[s - 1] * pow(x, (s - 1) as nat)))
            by (nonlinear_arith)
        {}
        assert(x * (c[s - 1] * pow(x, (s - 1) as nat)) + x * eval_from(c, x, s)
            == x * (c[s - 1] * pow(x, (s - 1) as nat) + eval_from(c, x, s)))
            by (nonlinear_arith)
        {}
    }
}

/// Law: polynomial evaluation is a ring homomorphism for products — the
/// value of the convolution product at `x` is the product of the values.
pub proof fn lemma_eval_mul(a: Seq<int>, b: Seq<int>, x: int)
    requires
        a.len() >= 1,
        b.len() >= 1,
    ensures
        poly_eval(poly_mul_s(a, b), x) == poly_eval(a, x) * poly_eval(b, x),
    decreases a.len(),
{
    let m = poly_mul_s(a, b);
    vstd::arithmetic::power::lemma_pow0(x);
    if a.len() == 1 {
        assert(forall|k: int| 0 <= k < m.len() ==> #[trigger] m[k] == a[0] * b[k]) by {
            assert(forall|k: int| 0 <= k < m.len()
                ==> #[trigger] conv_sum(a, b, k, 1)
                    == conv_sum(a, b, k, 0) + conv_term(a, b, k, 0));
        }
        lemma_eval_scale(m, a[0], b, x, 0);
        assert(eval_from(a, x, 1) == 0);
        assert(poly_eval(a, x) == a[0]);
    } else {
        let t = a.subrange(1, a.len() as int);
        lemma_eval_mul(t, b, x);
        let mt = poly_mul_s(t, b);
        let sc = Seq::new(b.len(), |k: int| a[0] * b[k]);
        let sh = Seq::new(mt.len() + 1, |k: int| if k == 0 { 0int } else { mt[k - 1] });
        assert(m =~= poly_add_s(sc, sh)) by {
            assert forall|k: int| 0 <= k < m.len() implies
                #[trigger] m[k] == coef_at(sc, k) + coef_at(sh, k) by {
                lemma_conv_shift(a, b, k, a.len() as nat);
                if k == 0 {
                    lemma_conv_sum_neg(t, b, -1, (a.len() - 1) as nat);
                }
            }
        }
        lemma_eval_add(sc, sh, x, 0);
        lemma_eval_scale(sc, a[0], b, x, 0);
        lemma_eval_shift(sh, mt, x, 1);
        assert(poly_eval(sh, x) == 0 * pow(x, 0) + eval_from(sh, x, 1));
        lemma_eval_shift(a, t, x, 1);
        assert(poly_eval(a, x) == a[0] * pow(x, 0) + eval_from(a, x, 1));
        assert(poly_eval(m, x) == a[0] * poly_eval(b, x) + x * (poly_eval(t, x) * poly_eval(b, x)));
        assert(a[0] * poly_eval(b, x) + x * (poly_eval(t, x) * poly_eval(b, x))
            == (a[0] + x * poly_eval(t, x)) * poly_eval(b, x)) by (nonlinear_arith)
        {}
    }
}

/// A convolution sum against an all-zero sequence is zero.
proof fn lemma_conv_zero(b: Seq<int>, z: Seq<int>, k: int, m: nat)
    requires
        forall|j: int| 0 <= j < z.len() ==> z[j] == 0,
    ensures
        conv_sum(b, z, k, m) == 0,
    decreases m,
{
    if m > 0 {
        lemma_conv_zero(b, z, k, (m - 1) as nat);
    }
}

/// Updating one zero entry of the right operand adds exactly one term to a
/// convolution sum.
proof fn lemma_conv_update(b: Seq<int>, qp: Seq<int>, k: int, i: int, v: int, m: nat)
    requires
        0 <= i < qp.len(),
        qp[i] == 0,
        m <= b.len(),
    ensures
        conv_sum(b, qp.update(i, v), k, m)
            == conv_sum(b, qp, k, m) + (if 0 <= k - i < m { b[k - i] * v } else { 0 }),
    decreases m,
{
    if m > 0 {
        lemma_conv_update(b, qp, k, i, v, (m - 1) as nat);
        let j = m - 1;
        if k - j == i {
            assert(conv_term(b, qp.update(i, v), k, j) == b[j] * v);
            assert(conv_term(b, qp, k, j) == 0);
        } else {
            assert(conv_term(b, qp.update(i, v), k, j) == conv_term(b, qp, k, j));
        }
    }
}

/// A convolution sum distributes over a coefficient-wise difference of the
/// right operand.
proof fn lemma_conv_sub_right(b: Seq<int>, u: Seq<int>, v: Seq<int>, k: int, m: nat)
    requires
        u.len() == v.len(),
    ensures
        conv_sum(b, poly_sub_s(u, v), k, m) == conv_sum(b, u, k, m) - conv_sum(b, v, k, m),
    decreases m,
{
    if m > 0 {
        lemma_conv_sub_right(b, u, v, k, (m - 1) as nat);
        let j = m - 1;
        let w = poly_sub_s(u, v);
        if 0 <= k - j < w.len() {
            assert(w[k - j] == u[k - j] - v[k - j]);
            assert(b[j] * (u[k - j] - v[k - j]) == b[j] * u[k - j] - b[j] * v[k - j])
                by (nonlinear_arith)
            {}
        }
    }
}

/// When the right operand is zero above index `i`, the convolution at
/// degree `deg(b) + i` reduces to the single term of `b`'s leading
/// coefficient.
proof fn lemma_conv_top(b: Seq<int>, d: Seq<int>, i: int, m: nat)
    requires
        b.len() >= 1,
        0 <= i < d.len(),
        m <= b.len(),
        forall|j: int| i < j < d.len() ==> d[j] == 0,
    ensures
        conv_sum(b, d, b.len() - 1 + i, m)
            == if m == b.len() { b[b.len() - 1] * d[i] } else { 0 },
    decreases m,
{
    if m > 0 {
        lemma_conv_top(b, d, i, (m - 1) as nat);
        let k = b.len() - 1 + i;
        let j = m - 1;
        if m == b.len() {
            assert(conv_term(b, d, k, j) == b[j] * d[i]);
        } else {
            assert(k - j > i);
            if 0 <= k - j < d.len() {
                assert(d[k - j] == 0);
            }
            assert(conv_term(b, d, k, j) == 0);
        }
    }
}

/// |q·d| == |q|·|d|.
proof fn lemma_abs_mul(q: int, d: int)
    ensures
        abs(q * d) == abs(q) * abs(d),
{
    if q >= 0 && d >= 0 {
        assert(q * d >= 0) by (nonlinear_arith)
            requires
                q >= 0,
                d >= 0,
        {}
    } else if q >= 0 && d < 0 {
        assert(q * d <= 0 && q * (-d) == -(q * d)) by (nonlinear_arith)
            requires
                q >= 0,
                d < 0,
        {}
    } else if q < 0 && d >= 0 {
        assert(q * d <= 0 && (-q) * d == -(q * d)) by (nonlinear_arith)
            requires
                q < 0,
                d >= 0,
        {}
    } else {
        assert(q * d >= 0 && (-q) * (-d) == q * d) by (nonlinear_arith)
            requires
                q < 0,
                d < 0,
        {}
    }
}

/// Truncating division is exact on exact multiples: (q·d) / d == q.
proof fn lemma_trunc_div_exact(q: int, d: int)
    requires
        d != 0,
    ensures
        trunc_div(q * d, d) == q,
{
    lemma_abs_mul(q, d);
    assert(abs(q) * abs(d) == abs(d) * abs(q)) by (nonlinear_arith)
    {}
    vstd::arithmetic::div_mod::lemma_div_multiples_vanish(abs(q) as int, abs(d) as int);
    assert(abs(q * d) as int / abs(d) as int == abs(q));
    if q > 0 {
        if d > 0 {
            assert(q * d > 0) by (nonlinear_arith)
                requires
                    q > 0,
                    d > 0,
            {}
        } else {
            assert(q * d < 0) by (nonlinear_arith)
                requires
                    q > 0,
                    d < 0,
            {}
        }
    } else if q < 0 {
        if d > 0 {
            assert(q * d < 0) by (nonlinear_arith)
                requires
                    q < 0,
                    d > 0,
            {}
        } else {
            assert(q * d > 0) by (nonlinear_arith)
                requires
                    q < 0,
                    d < 0,
            {}
        }
    } else {
        assert(q * d == 0) by (nonlinear_arith)
            requires
                q == 0,
        {}
    }
}

/// The indices of the quotient that the first `t` steps of the synthetic
/// division have filled in, zero below.
pub open spec fn qpart(a: Seq<int>, b: Seq<int>, t: nat) -> Seq<int> {
    Seq::new((a.len() - b.len() + 1) as nat, |i: int|
        if i > a.len() - b.len() - t {
            sdiv_quot_at(a, b, i)
        } else {
            0
        })
}

/// After `t` steps the working remainder of the synthetic division is the
/// dividend minus the divisor times the quotient part filled in so far.
proof fn lemma_sdiv_partial(a: Seq<int>, b: Seq<int>, t: nat)
    requires
        b.len() >= 1,
        a.len() >= b.len(),
        t <= a.len() - b.len() + 1,
    ensures
        sdiv_rem(a, b, t).len() == a.len(),
        forall|k: int| 0 <= k < a.len()
            ==> #[trigger] sdiv_rem(a, b, t)[k]
                == a[k] - conv_sum(b, qpart(a, b, t), k, b.len() as nat),
    decreases t,
{
    if t == 0 {
        assert forall|k: int| 0 <= k < a.len() implies
            #[trigger] sdiv_rem(a, b, 0)[k]
                == a[k] - conv_sum(b, qpart(a, b, 0), k, b.len() as nat) by {
            lemma_conv_zero(b, qpart(a, b, 0), k, b.len() as nat);
        }
    } else {
        let tt = (t - 1) as nat;
        lemma_sdiv_partial(a, b, tt);
        let prev = sdiv_rem(a, b, tt);
        let i0 = a.len() - b.len() - tt;
        let qc = sdiv_coef(prev, b, i0);
        assert(sdiv_quot_at(a, b, i0) == qc);
        assert(qpart(a, b, t) =~= qpart(a, b, tt).update(i0, qc));
        assert forall|k: int| 0 <= k < a.len() implies
            #[trigger] sdiv_rem(a, b, t)[k]
                == a[k] - conv_sum(b, qpart(a, b, t), k, b.len() as nat) by {
            lemma_conv_update(b, qpart(a, b, tt), k, i0, qc, b.len() as nat);
            assert(sdiv_rem(a, b, t)[k]
                == (if i0 <= k < i0 + b.len() { prev[k] - b[k - i0] * qc } else { prev[k] }));
        }
    }
}

/// Law (soundness of division): when the synthetic division of `a` by `b`
/// leaves a zero remainder, the quotient times `b` gives back `a` exactly.
pub proof fn lemma_sdiv_exact(a: Seq<int>, b: Seq<int>)
    requires
        b.len() >= 1,
        a.len() >= b.len(),
        all_zero(sdiv_final_rem(a, b)),
    ensures
        a == poly_mul_s(b, sdiv_quot(a, b)),
{
    let t = (a.len() - b.len() + 1) as nat;
    lemma_sdiv_partial(a, b, t);
    assert(qpart(a, b, t) =~= sdiv_quot(a, b));
    let m = poly_mul_s(b, sdiv_quot(a, b));
    assert forall|k: int| 0 <= k < a.len() implies a[k] == #[trigger] m[k] by {
        assert(sdiv_final_rem(a, b)[k] == 0);
        assert(sdiv_final_rem(a, b)[k]
            == a[k] - conv_sum(b, qpart(a, b, t), k, b.len() as nat));
        assert(m[k] == conv_sum(b, sdiv_quot(a, b), k, b.len() as nat));
    }
    assert(a =~= m);
}

/// The synthetic division of `b × c` by `b` extracts, from the top down,
/// exactly the coefficients of `c`.
proof fn lemma_sdiv_quot_matches(b: Seq<int>, c: Seq<int>, t: nat)
    requires
        b.len() >= 1,
        c.len() >= 1,
        b[b.len() - 1] != 0,
        t <= c.len(),
    ensures
        forall|i: int| c.len() - t <= i < c.len()
            ==> #[trigger] sdiv_quot_at(poly_mul_s(b, c), b, i) == c[i],
    decreases t,
{
    if t > 0 {
        lemma_sdiv_quot_matches(b, c, (t - 1) as nat);
        let a = poly_mul_s(b, c);
        let tt = (t - 1) as nat;
        let i = c.len() - t;
        lemma_sdiv_partial(a, b, tt);
        let qp = qpart(a, b, tt);
        let rem = sdiv_rem(a, b, tt);
        let d = poly_sub_s(c, qp);
        assert(forall|j: int| i < j < d.len() ==> #[trigger] d[j] == 0);
        let k0 = b.len() - 1 + i;
        assert(rem[k0] == conv_sum(b, d, k0, b.len() as nat)) by {
            lemma_conv_sub_right(b, c, qp, k0, b.len() as nat);
            assert(a[k0] == conv_sum(b, c, k0, b.len() as nat));
        }
        lemma_conv_top(b, d, i, b.len() as nat);
        assert(d[i] == c[i]);
        assert(rem[k0] == b[b.len() - 1] * d[i]);
        assert(b[b.len() - 1] * c[i] == c[i] * b[b.len() - 1]) by (nonlinear_arith)
        {}
        lemma_trunc_div_exact(c[i], b[b.len() - 1]);
        assert(sdiv_quot_at(a, b, i) == sdiv_coef(rem, b, i));
        assert(sdiv_quot_at(a, b, i) == c[i]);
    }
}

/// Law (completeness of division): for a dividend built as the exact
/// product `b × c`, the synthetic division by `b` recovers `c` exactly,
/// coefficient by coefficient, and the remainder it leaves is zero
/// everywhere — so `div` on such inputs returns the factor `c`.
pub proof fn lemma_div_recovers_factor(b: Seq<int>, c: Seq<int>)
    requires
        b.len() >= 1,
        c.len() >= 1,
        b[b.len() - 1] != 0,
    ensures
        sdiv_quot(poly_mul_s(b, c), b) == c,
        all_zero(sdiv_final_rem(poly_mul_s(b, c), b)),
{
    let a = poly_mul_s(b, c);
    lemma_sdiv_quot_matches(b, c, c.len());
    assert(sdiv_quot(a, b) =~= c);
    let t = (a.len() - b.len() + 1) as nat;
    lemma_sdiv_partial(a, b, t);
    assert(qpart(a, b, t) =~= c);
    assert forall|k: int| 0 <= k < sdiv_final_rem(a, b).len() implies
        #[trigger] sdiv_final_rem(a, b)[k] == 0 by {
        assert(a[k] == conv_sum(b, c, k, b.len() as nat));
    }
}

/// Law: adding `b` and then subtracting `b` recovers `a` exactly, for
/// arbitrary coefficient sequences (negative and zero values included),
/// whenever `a` has at least as many coefficients as `b`; in general the
/// recovery is exact up to zero-padding to `b`'s length.
pub proof fn lemma_add_then_sub(a: Seq<int>, b: Seq<int>)
    ensures
        poly_sub_s(poly_add_s(a, b), b)
            == Seq::new(if a.len() >= b.len() { a.len() } else { b.len() },
                |i: int| coef_at(a, i)),
        a.len() >= b.len() ==> poly_sub_s(poly_add_s(a, b), b) == a,
{
    assert(poly_sub_s(poly_add_s(a, b), b)
        =~= Seq::new(if a.len() >= b.len() { a.len() } else { b.len() },
            |i: int| coef_at(a, i)));
    if a.len() >= b.len() {
        assert(poly_sub_s(poly_add_s(a, b), b) =~= a);
    }
}

/// A positive multiple of `m` is at least `m`.
proof fn lemma_positive_multiple_ge(x: nat, m: nat)
    requires
        m > 0,
        x > 0,
        x % m == 0,
    ensures
        x >= m,
{
    vstd::arithmetic::div_mod::lemma_fundamental_div_mod(x as int, m as int);
    assert(x == m * (x as int / m as int));
    let q = x as int / m as int;
    assert(q >= 1) by (nonlinear_arith)
        requires
            x == m * q,
            x > 0,
            m > 0,
    {}
    assert(x >= m) by (nonlinear_arith)
        requires
            x == m * q,
            q >= 1,
            m > 0,
    {}
}

/// One accumulation step of `eval_frac`: adding the term `tn / td` to the
/// running value `vn / vd` keeps the denominator (`rd == vd`), and the new
/// numerator grows by exactly the scaled term `cterm`.
proof fn lemma_accum_step(
    vn: int, vd: int, tn: int, td: int, rn: int, rd: int, cterm: int,
)
    requires
        vd > 0,
        td > 0,
        rd == vd,
        rn * (vd * td) == (vn * td + tn * vd) * rd,
        tn * vd == cterm * td,
    ensures
        rn == vn + cterm,
{
    assert((vn * td + tn * vd) * rd == (vn + cterm) * (vd * td)) by (nonlinear_arith)
        requires
            tn * vd == cterm * td,
            rd == vd,
    {}
    assert(vd * td > 0) by (nonlinear_arith)
        requires
            vd > 0,
            td > 0,
    {}
    assert(rn == vn + cterm) by (nonlinear_arith)
        requires
            vd * td > 0,
            rn * (vd * td) == (vn + cterm) * (vd * td),
    {}
}

} // verus!
