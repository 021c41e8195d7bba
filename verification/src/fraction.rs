//! Exact rational values: an arbitrary-precision signed numerator over an
//! arbitrary-precision unsigned denominator.
//!
//! A denominator of zero is not an error: it is the additive-identity
//! sentinel ("no value yet"). Adding or subtracting a zero-denominator
//! fraction returns the other operand unchanged. Fractions are never
//! reduced to lowest terms; exactness rests on arbitrary precision alone,
//! so the contracts state the value of a result by cross-multiplication.

use vstd::prelude::*;
use malachite::Integer;
use malachite::Natural;
use crate::bigint::{
    int_value, nat_value, int_add, int_sub, int_mul, int_clone, int_from_i64, int_from_nat,
    int_div_trunc, trunc_div, nat_clone, nat_from_u64, nat_is_zero, nat_lcm, nat_div_floor,
    nat_mul,
};

verus! {

/// An exact rational value; `denom == 0` is the additive-identity sentinel.
pub struct Fraction {
    pub num: Integer,
    pub denom: Natural,
}

impl Fraction {
    /// The mathematical value of the numerator.
    pub open spec fn num_v(&self) -> int {
        int_value(self.num)
    }

    /// The mathematical value of the denominator.
    pub open spec fn den_v(&self) -> nat {
        nat_value(self.denom)
    }

    /// Build a fraction from primitive parts.
    pub fn new(num: i64, denom: u64) -> (r: Fraction)
        ensures
            r.num_v() == num as int,
            r.den_v() == denom as nat,
    {
        Fraction { num: int_from_i64(num), denom: nat_from_u64(denom) }
    }

    /// An identical copy.
    pub fn clone_val(&self) -> (r: Fraction)
        ensures
            r.num_v() == self.num_v(),
            r.den_v() == self.den_v(),
    {
        Fraction { num: int_clone(&self.num), denom: nat_clone(&self.denom) }
    }

    /// Exact addition over the least common denominator.
    ///
    /// A zero-denominator operand is the additive identity: the other
    /// operand is returned unchanged. For two real operands the result
    /// denominator is the least common multiple of the operand
    /// denominators and the value is the exact rational sum, stated by
    /// cross-multiplication.
    pub fn add(&self, rhs: &Fraction) -> (r: Fraction)
        ensures
            self.den_v() == 0 && rhs.den_v() == 0 ==> r.num_v() == 0 && r.den_v() == 0,
            self.den_v() == 0 && rhs.den_v() != 0
                ==> r.num_v() == rhs.num_v() && r.den_v() == rhs.den_v(),
            self.den_v() != 0 && rhs.den_v() == 0
                ==> r.num_v() == self.num_v() && r.den_v() == self.den_v(),
            self.den_v() != 0 && rhs.den_v() != 0 ==> {
                &&& r.den_v() > 0
                &&& r.den_v() % self.den_v() == 0
                &&& r.den_v() % rhs.den_v() == 0
                &&& forall|m: nat|
                    m > 0 && #[trigger] (m % self.den_v()) == 0 && m % rhs.den_v() == 0
                        ==> r.den_v() <= m
                &&& r.num_v() * (self.den_v() * rhs.den_v())
                    == (self.num_v() * rhs.den_v() + rhs.num_v() * self.den_v()) * r.den_v()
            },
    {
        let self_zero = nat_is_zero(&self.denom);
        let rhs_zero = nat_is_zero(&rhs.denom);
        if self_zero && rhs_zero {
            Fraction { num: int_from_i64(0), denom: nat_from_u64(0) }
        } else if self_zero {
            rhs.clone_val()
        } else if rhs_zero {
            self.clone_val()
        } else {
            let lcd = nat_lcm(&self.denom, &rhs.denom);
            let mul_1 = nat_div_floor(&lcd, &self.denom);
            let mul_2 = nat_div_floor(&lcd, &rhs.denom);
            let t1 = int_mul(&self.num, &int_from_nat(&mul_1));
            let t2 = int_mul(&rhs.num, &int_from_nat(&mul_2));
            let num = int_add(&t1, &t2);
            let r = Fraction { num, denom: lcd };
            proof {
                lemma_common_denominator(
                    self.num_v(), self.den_v(), rhs.num_v(), rhs.den_v(),
                    nat_value(lcd), r.num_v(), true,
                );
            }
            r
        }
    }

    /// Exact subtraction over the least common denominator.
    ///
    /// The sentinel cases mirror `add`: a zero-denominator operand makes
    /// the call return the other operand unchanged (note: unchanged, not
    /// negated, also when the left operand is the sentinel).
    pub fn sub(&self, rhs: &Fraction) -> (r: Fraction)
        ensures
            self.den_v() == 0 && rhs.den_v() == 0 ==> r.num_v() == 0 && r.den_v() == 0,
            self.den_v() == 0 && rhs.den_v() != 0
                ==> r.num_v() == rhs.num_v() && r.den_v() == rhs.den_v(),
            self.den_v() != 0 && rhs.den_v() == 0
                ==> r.num_v() == self.num_v() && r.den_v() == self.den_v(),
            self.den_v() != 0 && rhs.den_v() != 0 ==> {
                &&& r.den_v() > 0
                &&& r.den_v() % self.den_v() == 0
                &&& r.den_v() % rhs.den_v() == 0
                &&& forall|m: nat|
                    m > 0 && #[trigger] (m % self.den_v()) == 0 && m % rhs.den_v() == 0
                        ==> r.den_v() <= m
                &&& r.num_v() * (self.den_v() * rhs.den_v())
                    == (self.num_v() * rhs.den_v() - rhs.num_v() * self.den_v()) * r.den_v()
            },
    {
        let self_zero = nat_is_zero(&self.denom);
        let rhs_zero = nat_is_zero(&rhs.denom);
        if self_zero && rhs_zero {
            Fraction { num: int_from_i64(0), denom: nat_from_u64(0) }
        } else if self_zero {
            rhs.clone_val()
        } else if rhs_zero {
            self.clone_val()
        } else {
            let lcd = nat_lcm(&self.denom, &rhs.denom);
            let mul_1 = nat_div_floor(&lcd, &self.denom);
            let mul_2 = nat_div_floor(&lcd, &rhs.denom);
            let t1 = int_mul(&self.num, &int_from_nat(&mul_1));
            let t2 = int_mul(&rhs.num, &int_from_nat(&mul_2));
            let num = int_sub(&t1, &t2);
            let r = Fraction { num, denom: lcd };
            proof {
                lemma_common_denominator(
                    self.num_v(), self.den_v(), rhs.num_v(), rhs.den_v(),
                    nat_value(lcd), r.num_v(), false,
                );
            }
            r
        }
    }

    /// Exact multiplication: numerator × numerator over
    /// denominator × denominator, with no reduction to lowest terms.
    pub fn mul(&self, rhs: &Fraction) -> (r: Fraction)
        ensures
            r.num_v() == self.num_v() * rhs.num_v(),
            r.den_v() == self.den_v() * rhs.den_v(),
    {
        Fraction {
            num: int_mul(&self.num, &rhs.num),
            denom: nat_mul(&self.denom, &rhs.denom),
        }
    }

    /// The numerator divided by the denominator, rounded towards zero.
    /// A genuinely zero denominator is out of the modeled domain.
    pub fn reduce_to_integer(&self) -> (r: Integer)
        requires
            self.den_v() > 0,
        ensures
            int_value(r) == trunc_div(self.num_v(), self.den_v() as int),
    {
        let d = int_from_nat(&self.denom);
        int_div_trunc(&self.num, &d)
    }
}

/// Law: subtracting a fraction from itself and reducing to an integer
/// gives zero. The hypotheses are exactly what `sub` ensures of
/// `r = f.sub(&f)` for a fraction `f` with a positive denominator (the
/// zero-denominator sentinel is the one input left out: reducing it is out
/// of the modeled domain).
pub proof fn lemma_sub_self_reduces_to_zero(f_num: int, f_den: nat, r_num: int, r_den: nat)
    requires
        f_den > 0,
        r_den > 0,
        r_num * (f_den * f_den) == (f_num * f_den - f_num * f_den) * r_den,
    ensures
        r_num == 0,
        trunc_div(r_num, r_den as int) == 0,
{
    assert(r_num == 0) by (nonlinear_arith)
        requires
            f_den > 0,
            r_num * (f_den * f_den) == 0,
    {}
    assert(trunc_div(0, r_den as int) == 0) by {
        vstd::arithmetic::div_mod::lemma_div_of0(r_den as int);
    }
}

/// With `l` a positive common multiple of the positive denominators `d1`
/// and `d2`, the numerator built from the scaled operand numerators gives
/// the exact rational sum (or difference), stated by cross-multiplication.
proof fn lemma_common_denominator(
    n1: int, d1: nat, n2: int, d2: nat, l: nat, rnum: int, plus: bool,
)
    requires
        d1 > 0,
        d2 > 0,
        l > 0,
        l % d1 == 0,
        l % d2 == 0,
        plus ==> rnum == n1 * ((l / d1) as int) + n2 * ((l / d2) as int),
        !plus ==> rnum == n1 * ((l / d1) as int) - n2 * ((l / d2) as int),
    ensures
        plus ==> rnum * (d1 * d2) == (n1 * d2 + n2 * d1) * l,
        !plus ==> rnum * (d1 * d2) == (n1 * d2 - n2 * d1) * l,
{
    let m1 = (l / d1) as int;
    let m2 = (l / d2) as int;
    assert(l == d1 * (l / d1)) by {
        vstd::arithmetic::div_mod::lemma_fundamental_div_mod(l as int, d1 as int);
    }
    assert(l == d2 * (l / d2)) by {
        vstd::arithmetic::div_mod::lemma_fundamental_div_mod(l as int, d2 as int);
    }
    if plus {
        assert((n1 * m1 + n2 * m2) * (d1 * d2) == (n1 * d2 + n2 * d1) * l)
            by (nonlinear_arith)
            requires
                l == d1 * m1,
                l == d2 * m2,
        {}
    } else {
        assert((n1 * m1 - n2 * m2) * (d1 * d2) == (n1 * d2 - n2 * d1) * l)
            by (nonlinear_arith)
            requires
                l == d1 * m1,
                l == d2 * m2,
        {}
    }
}

} // verus!
