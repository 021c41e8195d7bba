use malachite::Integer;
use collision_search::bigint::{int_from_i64, int_to_decimal};
use collision_search::fraction::Fraction;
use collision_search::poly::{Polynomial, PolyDivError};
use collision_search::evaluator::{
    Strategy, EvalError, power_sum, integer_chebyshev_value, fraction_chebyshev_value,
    evaluate_candidate, modulus_scale,
};
use collision_search::scanner::{ScanEvent, sieve_new, sieve_is_prime, scan_candidate, run_candidate};

fn poly(vals: &[i64]) -> Polynomial {
    Polynomial::from_small(vals)
}

fn coeffs(p: &Polynomial) -> Vec<Integer> {
    p.coef.iter().cloned().collect()
}

fn ints(vals: &[i64]) -> Vec<Integer> {
    vals.iter().map(|v| Integer::from(*v)).collect()
}

#[test]
fn fraction_zero_denominator_is_additive_identity() {
    let f = Fraction::new(3, 4);
    let sentinel = Fraction::new(0, 0);
    let left = sentinel.add(&f);
    assert_eq!(left.num, Integer::from(3));
    assert_eq!(left.denom, malachite::Natural::from(4u32));
    let right = f.add(&sentinel);
    assert_eq!(right.num, Integer::from(3));
    assert_eq!(right.denom, malachite::Natural::from(4u32));
    let both = sentinel.add(&Fraction::new(0, 0));
    assert_eq!(both.num, Integer::from(0));
    assert_eq!(both.denom, malachite::Natural::from(0u32));
}

#[test]
fn fraction_sub_self_reduces_to_zero() {
    let f = Fraction::new(7, 3);
    let d = f.sub(&f);
    assert_eq!(d.reduce_to_integer(), Integer::from(0));
    let g = Fraction::new(-9, 5);
    assert_eq!(g.sub(&g).reduce_to_integer(), Integer::from(0));
}

#[test]
fn fraction_add_uses_least_common_denominator() {
    let a = Fraction::new(1, 2);
    let b = Fraction::new(1, 3);
    let s = a.add(&b);
    assert_eq!(s.num, Integer::from(5));
    assert_eq!(s.denom, malachite::Natural::from(6u32));
}

#[test]
fn fraction_mul_multiplies_parts() {
    let a = Fraction::new(2, 3);
    let b = Fraction::new(5, 7);
    let p = a.mul(&b);
    assert_eq!(p.num, Integer::from(10));
    assert_eq!(p.denom, malachite::Natural::from(21u32));
}

#[test]
fn fraction_reduce_truncates_toward_zero() {
    assert_eq!(Fraction::new(-7, 2).reduce_to_integer(), Integer::from(-3));
    assert_eq!(Fraction::new(7, 2).reduce_to_integer(), Integer::from(3));
}

#[test]
fn poly_add_then_sub_recovers_left_operand() {
    let a = poly(&[1, -2, 0, 5]);
    let b = poly(&[3, 4]);
    let back = a.add(&b).sub(&b);
    assert_eq!(coeffs(&back), ints(&[1, -2, 0, 5]));
}

#[test]
fn poly_mul_convolves() {
    let a = poly(&[1, 1]);
    let b = poly(&[1, -1]);
    assert_eq!(coeffs(&a.mul(&b)), ints(&[1, 0, -1]));
}

#[test]
fn poly_div_recovers_exact_factor() {
    let b = poly(&[1, 2]);
    let c = poly(&[3, 0, 1]);
    let a = b.mul(&c);
    let q = a.div(&b).expect("exact division must succeed");
    assert_eq!(coeffs(&q), ints(&[3, 0, 1]));
}

#[test]
fn poly_div_reports_nonzero_remainder() {
    let a = poly(&[1, 1]);
    let b = poly(&[2]);
    match a.div(&b) {
        Err(PolyDivError::NonZeroRemainder) => {}
        Ok(_) => panic!("inexact division must be reported"),
    }
}

#[test]
fn poly_eval_sums_terms() {
    let p = poly(&[1, 2, 3]);
    assert_eq!(p.eval(&Integer::from(2)), Integer::from(17));
    assert_eq!(p.eval(&Integer::from(-1)), Integer::from(2));
}

#[test]
fn poly_degree_is_length_minus_one() {
    assert_eq!(poly(&[1, 2, 3]).degree(), 2);
    assert_eq!(poly(&[7]).degree(), 0);
}

#[test]
fn poly_eval_frac_is_exact() {
    let p = poly(&[1, 2]);
    let x = Fraction::new(3, 2);
    let v = p.eval_frac(&x);
    assert_eq!(v.num, Integer::from(8));
    assert_eq!(v.denom, malachite::Natural::from(2u32));
}

#[test]
fn chebyshev_t_small_coefficients() {
    assert_eq!(coeffs(&Polynomial::chebyshev_t(0)), ints(&[1]));
    assert_eq!(coeffs(&Polynomial::chebyshev_t(1)), ints(&[0, 1]));
    assert_eq!(coeffs(&Polynomial::chebyshev_t(2)), ints(&[-1, 0, 2]));
    assert_eq!(coeffs(&Polynomial::chebyshev_t(3)), ints(&[0, -3, 0, 4]));
    assert_eq!(coeffs(&Polynomial::chebyshev_t(4)), ints(&[1, 0, -8, 0, 8]));
}

#[test]
fn chebyshev_u_small_coefficients() {
    assert_eq!(coeffs(&Polynomial::chebyshev_u(0)), ints(&[1]));
    assert_eq!(coeffs(&Polynomial::chebyshev_u(1)), ints(&[0, 2]));
    assert_eq!(coeffs(&Polynomial::chebyshev_u(4)), ints(&[1, 0, -12, 0, 16]));
    assert_eq!(coeffs(&Polynomial::chebyshev_u(5)), ints(&[0, 6, 0, -32, 0, 32]));
}

#[test]
fn chebyshev_t_at_one_is_one() {
    for n in [0u32, 1, 2, 3, 7, 12] {
        let t = Polynomial::chebyshev_t(n);
        assert_eq!(t.eval(&Integer::from(1)), Integer::from(1));
    }
}

#[test]
fn chebyshev_u_at_one_counts_index() {
    for n in [0usize, 1, 2, 3, 4, 5, 9, 12] {
        let u = Polynomial::chebyshev_u(n);
        assert_eq!(u.eval(&Integer::from(1)), Integer::from(n as i64 + 1));
    }
}

#[test]
fn power_sum_alternating() {
    assert_eq!(power_sum(5, -3), Integer::from(-20));
    assert_eq!(power_sum(1, 10), Integer::from(0));
    assert_eq!(power_sum(3, 2), Integer::from(3));
}

#[test]
fn strategies_diverge_on_odd_x() {
    let int_value = integer_chebyshev_value(5, 3).expect("integer strategy");
    let frac_value = fraction_chebyshev_value(5, 3).expect("fraction strategy");
    assert_ne!(int_value.to_string(), frac_value.to_string());
    assert_eq!(int_value, Integer::from(1));
    assert_eq!(frac_value, Integer::from(41));
}

#[test]
fn strategies_dispatch() {
    let p = evaluate_candidate(Strategy::PowerSum, 5, -3).expect("power sum");
    assert_eq!(p, Integer::from(-20));
    let i = evaluate_candidate(Strategy::IntegerChebyshev, 5, 3).expect("integer");
    assert_eq!(i, Integer::from(1));
}

#[test]
fn fraction_strategy_zero_divisor_is_reported() {
    match fraction_chebyshev_value(3, 1) {
        Err(EvalError::ZeroDivisor) => {}
        Ok(v) => panic!("expected a zero divisor, got {}", v),
    }
}

#[test]
fn modulus_scale_per_strategy() {
    assert_eq!(modulus_scale(Strategy::PowerSum, 5), 5);
    assert_eq!(modulus_scale(Strategy::IntegerChebyshev, 5), 20);
    assert_eq!(modulus_scale(Strategy::ExactFractionChebyshev, 7), 28);
}

#[test]
fn decimal_rendering_is_canonical() {
    assert_eq!(int_to_decimal(&int_from_i64(-20)), "-20");
    assert_eq!(int_to_decimal(&int_from_i64(0)), "0");
    assert_eq!(int_to_decimal(&int_from_i64(1048576)), "1048576");
}

#[test]
fn sieve_answers_primality() {
    let sieve = sieve_new(100);
    assert!(sieve_is_prime(&sieve, 2));
    assert!(sieve_is_prime(&sieve, 97));
    assert!(!sieve_is_prime(&sieve, 1));
    assert!(!sieve_is_prime(&sieve, 91));
}

#[test]
fn scan_reports_collisions_in_order() {
    let sieve = sieve_new(40);
    let value = Integer::from(17 * 23);
    let events = scan_candidate(&value, 16, 40, &sieve, 9, -3);
    assert_eq!(
        events,
        vec![
            ScanEvent::Started { scale: 9 },
            ScanEvent::Collision { prime: 17, scale: 9, x: -3 },
            ScanEvent::Collision { prime: 23, scale: 9, x: -3 },
        ]
    );
}

#[test]
fn scan_without_primes_is_silent() {
    let sieve = sieve_new(30);
    let value = Integer::from(20);
    let events = scan_candidate(&value, 24, 28, &sieve, 5, -3);
    assert!(events.is_empty());
}

#[test]
fn power_sum_candidate_end_to_end() {
    let sieve = sieve_new(30);
    let events = run_candidate(Strategy::PowerSum, 5, -3, 30, &sieve).expect("power sum");
    assert_eq!(events, vec![ScanEvent::Started { scale: 5 }]);
}
