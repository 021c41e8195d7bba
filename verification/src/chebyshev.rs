//! Chebyshev polynomials of the first and second kind, built from the
//! polynomial ring by linear recurrences.

use vstd::prelude::*;
use vstd::arithmetic::power::lemma1_pow;
use crate::poly::{
    Polynomial, poly_mul_s, poly_sub_s, poly_eval, eval_from, lemma_eval_sub, lemma_eval_mul,
};

verus! {

/// Coefficients of the first-kind Chebyshev polynomial T_n, from the
/// three-term recurrence T_0 = 1, T_1 = x, T_n = 2x·T_{n−1} − T_{n−2}.
pub open spec fn cheb_t(n: nat) -> Seq<int>
    decreases n,
{
    if n == 0 {
        seq![1int]
    } else if n == 1 {
        seq![0int, 1int]
    } else {
        poly_sub_s(poly_mul_s(seq![0int, 2int], cheb_t((n - 1) as nat)), cheb_t((n - 2) as nat))
    }
}

/// Coefficients of the second-kind Chebyshev polynomial U_n: closed forms
/// up to n = 4, then the argument-doubling recurrence
/// U_n = U_{n−2}·(4x² − 2) − U_{n−4}.
pub open spec fn cheb_u(n: nat) -> Seq<int>
    decreases n,
{
    if n == 0 {
        seq![1int]
    } else if n == 1 {
        seq![0int, 2int]
    } else if n == 2 {
        seq![-1int, 0int, 4int]
    } else if n == 3 {
        seq![0int, -4int, 0int, 8int]
    } else if n == 4 {
        seq![1int, 0int, -12int, 0int, 16int]
    } else {
        poly_sub_s(
            poly_mul_s(cheb_u((n - 2) as nat), seq![-2int, 0int, 4int]),
            cheb_u((n - 4) as nat),
        )
    }
}

/// T_n has exactly n + 1 coefficients.
pub proof fn lemma_cheb_t_len(n: nat)
    ensures
        cheb_t(n).len() == n + 1,
    decreases n,
{
    if n >= 2 {
        lemma_cheb_t_len((n - 1) as nat);
        lemma_cheb_t_len((n - 2) as nat);
    }
}

/// U_n has exactly n + 1 coefficients.
pub proof fn lemma_cheb_u_len(n: nat)
    ensures
        cheb_u(n).len() == n + 1,
    decreases n,
{
    if n >= 5 {
        lemma_cheb_u_len((n - 2) as nat);
        lemma_cheb_u_len((n - 4) as nat);
    }
}

/// The sum of the coefficients of `c` from index `s` on.
pub open spec fn coef_sum_from(c: Seq<int>, s: int) -> int
    decreases c.len() - s,
{
    if s < 0 || s >= c.len() {
        0
    } else {
        c[s] + coef_sum_from(c, s + 1)
    }
}

/// At the point 1 a polynomial evaluates to the sum of its coefficients.
proof fn lemma_eval_at_one(c: Seq<int>, s: int)
    ensures
        eval_from(c, 1, s) == coef_sum_from(c, s),
    decreases c.len() - s + 1,
{
    if s < 0 || s >= c.len() {
    } else {
        lemma_eval_at_one(c, s + 1);
        lemma1_pow(s as nat);
    }
}

/// Law: the first-kind Chebyshev polynomial evaluated at 1 is always 1,
/// i.e. T_n(1) == 1 for every n ≥ 0.
pub proof fn lemma_cheb_t_at_one(n: nat)
    ensures
        poly_eval(cheb_t(n), 1) == 1,
    decreases n,
{
    reveal_with_fuel(coef_sum_from, 4);
    if n == 0 {
        lemma_eval_at_one(cheb_t(0), 0);
    } else if n == 1 {
        lemma_eval_at_one(cheb_t(1), 0);
    } else {
        lemma_cheb_t_at_one((n - 1) as nat);
        lemma_cheb_t_at_one((n - 2) as nat);
        lemma_cheb_t_len((n - 1) as nat);
        lemma_cheb_t_len((n - 2) as nat);
        let two_x = seq![0int, 2int];
        let prod = poly_mul_s(two_x, cheb_t((n - 1) as nat));
        lemma_eval_sub(prod, cheb_t((n - 2) as nat), 1, 0);
        lemma_eval_mul(two_x, cheb_t((n - 1) as nat), 1);
        lemma_eval_at_one(two_x, 0);
        assert(coef_sum_from(two_x, 0) == 2);
    }
}

/// Law: the second-kind Chebyshev polynomial evaluated at 1 counts its own
/// index, i.e. U_n(1) == n + 1 for every n ≥ 0.
pub proof fn lemma_cheb_u_at_one(n: nat)
    ensures
        poly_eval(cheb_u(n), 1) == n + 1,
    decreases n,
{
    reveal_with_fuel(coef_sum_from, 7);
    if n == 0 {
        lemma_eval_at_one(cheb_u(0), 0);
        assert(poly_eval(cheb_u(0), 1) == 1);
    } else if n == 1 {
        lemma_eval_at_one(cheb_u(1), 0);
        assert(poly_eval(cheb_u(1), 1) == 2);
    } else if n == 2 {
        lemma_eval_at_one(cheb_u(2), 0);
        assert(poly_eval(cheb_u(2), 1) == 3);
    } else if n == 3 {
        lemma_eval_at_one(cheb_u(3), 0);
        assert(poly_eval(cheb_u(3), 1) == 4);
    } else if n == 4 {
        lemma_eval_at_one(cheb_u(4), 0);
        assert(poly_eval(cheb_u(4), 1) == 5);
    } else {
        lemma_cheb_u_at_one((n - 2) as nat);
        lemma_cheb_u_at_one((n - 4) as nat);
        lemma_cheb_u_len((n - 2) as nat);
        lemma_cheb_u_len((n - 4) as nat);
        let quad = seq![-2int, 0int, 4int];
        let prod = poly_mul_s(cheb_u((n - 2) as nat), quad);
        lemma_eval_sub(prod, cheb_u((n - 4) as nat), 1, 0);
        lemma_eval_mul(cheb_u((n - 2) as nat), quad, 1);
        lemma_eval_at_one(quad, 0);
        assert(coef_sum_from(quad, 0) == 2);
        assert(poly_eval(quad, 1) == 2);
        assert(poly_eval(prod, 1) == poly_eval(cheb_u((n - 2) as nat), 1) * 2);
        assert(poly_eval(prod, 1) == (n - 1) * 2);
        assert(cheb_u(n) == poly_sub_s(prod, cheb_u((n - 4) as nat)));
        assert(poly_eval(cheb_u(n), 1) == (n - 1) * 2 - (n - 3));
    }
}

impl Polynomial {
    /// The first-kind Chebyshev polynomial T_n, built iteratively from the
    /// three-term recurrence.
    pub fn chebyshev_t(n: u32) -> (r: Polynomial)
        requires
            n + 3 <= usize::MAX,
        ensures
            r.wf(),
            r@ == cheb_t(n as nat),
    {
        let t0 = Polynomial::from_small(&[1]);
        proof {
            assert(t0@ =~= cheb_t(0));
        }
        if n == 0 {
            return t0;
        }
        let t1 = Polynomial::from_small(&[0, 1]);
        proof {
            assert(t1@ =~= cheb_t(1));
        }
        let mut prev = t0;
        let mut cur = t1;
        let mut k: u32 = 1;
        while k < n
            invariant
                1 <= k <= n,
                n + 3 <= usize::MAX,
                prev.wf(),
                cur.wf(),
                prev@ == cheb_t((k - 1) as nat),
                cur@ == cheb_t(k as nat),
            decreases n - k,
        {
            proof {
                lemma_cheb_t_len((k - 1) as nat);
                lemma_cheb_t_len(k as nat);
            }
            let two_x = Polynomial::from_small(&[0, 2]);
            proof {
                assert(two_x@ =~= seq![0int, 2int]);
            }
            let next = two_x.mul(&cur).sub(&prev);
            prev = cur;
            cur = next;
            k += 1;
        }
        cur
    }

    /// The second-kind Chebyshev polynomial U_n: a table of the closed
    /// forms up to U_4, extended bottom-up with the argument-doubling
    /// recurrence.
    pub fn chebyshev_u(n: usize) -> (r: Polynomial)
        requires
            n + 3 <= usize::MAX,
        ensures
            r.wf(),
            r@ == cheb_u(n as nat),
    {
        let mut table: Vec<Polynomial> = Vec::new();
        table.push(Polynomial::from_small(&[1]));
        table.push(Polynomial::from_small(&[0, 2]));
        table.push(Polynomial::from_small(&[-1, 0, 4]));
        table.push(Polynomial::from_small(&[0, -4, 0, 8]));
        table.push(Polynomial::from_small(&[1, 0, -12, 0, 16]));
        proof {
            assert(table@[0]@ =~= cheb_u(0));
            assert(table@[1]@ =~= cheb_u(1));
            assert(table@[2]@ =~= cheb_u(2));
            assert(table@[3]@ =~= cheb_u(3));
            assert(table@[4]@ =~= cheb_u(4));
        }
        let mut k: usize = 5;
        while k <= n
            invariant
                5 <= k,
                n >= 5 ==> k <= n + 1,
                n < 5 ==> k == 5,
                n + 3 <= usize::MAX,
                table@.len() == k,
                forall|j: int| 0 <= j < k
                    ==> (#[trigger] table@[j]).wf() && table@[j]@ == cheb_u(j as nat),
            decreases n + 1 - k,
        {
            proof {
                lemma_cheb_u_len((k - 2) as nat);
                lemma_cheb_u_len((k - 4) as nat);
            }
            let quad = Polynomial::from_small(&[-2, 0, 4]);
            proof {
                assert(quad@ =~= seq![-2int, 0int, 4int]);
            }
            let next = table[k - 2].mul(&quad).sub(&table[k - 4]);
            table.push(next);
            k += 1;
        }
        table[n].clone_val()
    }
}

} // verus!
