//! The divisibility scanner: for one candidate, walk every prime from the
//! scan lower bound q = (n−1)² up to the configured upper bound, in
//! ascending order, and report an event stream: a start marker at the first
//! prime examined, a heartbeat every `HEARTBEAT_INTERVAL`-th prime
//! examined, and a collision for every prime that divides the candidate's
//! target value.

use vstd::prelude::*;
use malachite::Integer;
use primal_sieve::Sieve;
use crate::bigint::{int_value, int_from_u64, int_divisible_by};
use crate::evaluator::{
    Strategy, EvalError, evaluate_candidate, modulus_scale, spec_modulus_scale, geom_sum,
    int_cheb_num, int_cheb_den, frac_cheb_num, frac_cheb_den,
};
use crate::bigint::trunc_div;

verus! {

/// Every this-many primes examined, a progress heartbeat is emitted.
pub const HEARTBEAT_INTERVAL: u64 = 1000000000;

/// Mathematical primality.
pub open spec fn is_prime(p: int) -> bool {
    p >= 2 && forall|d: int| 2 <= d < p ==> #[trigger] (p % d) != 0
}

#[verifier::external_type_specification]
#[verifier::external_body]
pub struct ExSieve(Sieve);

/// The bound a sieve was constructed with: primality queries up to this
/// value are answered exactly.
pub uninterp spec fn sieve_limit(s: Sieve) -> nat;

/// Relies on `primal_sieve::Sieve::new`: sieves out all the primes up to
/// `limit`; `upper_bound()` is then at least `limit`.
#[verifier::external_body]
pub fn sieve_new(limit: u64) -> (r: Sieve)
    ensures
        sieve_limit(r) == limit as nat,
{
    Sieve::new(limit as usize)
}

/// Relies on `primal_sieve::Sieve::is_prime`: exact primality for any
/// number within the sieve's bound (it panics past `upper_bound()`, which
/// the construction bound rules out here).
#[verifier::external_body]
pub fn sieve_is_prime(s: &Sieve, n: u64) -> (r: bool)
    requires
        n as nat <= sieve_limit(*s),
    ensures
        r <==> is_prime(n as int),
{
    s.is_prime(n as usize)
}

/// One observation of the scan.
#[derive(Clone, Copy, Debug, PartialEq, Eq, Structural)]
pub enum ScanEvent {
    /// The first prime for this candidate is being examined.
    Started { scale: u64 },
    /// A fixed-interval heartbeat, emitted every `HEARTBEAT_INTERVAL`-th
    /// prime examined (not a true percentage).
    Progress { scale: u64 },
    /// The candidate's value is divisible by `prime`.
    Collision { prime: u64, scale: u64, x: i64 },
}

/// The events emitted while examining the prime `p` as the `c`-th prime of
/// the scan (`c` counts from 1): a start marker for the first, a heartbeat
/// for every `HEARTBEAT_INTERVAL`-th, and a collision whenever `p` divides
/// the value `v`.
pub open spec fn events_at(v: int, p: u64, c: nat, scale: u64, x: i64) -> Seq<ScanEvent> {
    let marker: Seq<ScanEvent> = if c == 1 {
        seq![ScanEvent::Started { scale }]
    } else if c % (HEARTBEAT_INTERVAL as nat) == 0 {
        seq![ScanEvent::Progress { scale }]
    } else {
        Seq::empty()
    };
    let collision: Seq<ScanEvent> = if v % (p as int) == 0 {
        seq![ScanEvent::Collision { prime: p, scale, x }]
    } else {
        Seq::empty()
    };
    marker + collision
}

/// The number of primes p with `lo <= p < k`.
pub open spec fn prime_count(lo: int, k: int) -> nat
    decreases k - lo,
{
    if k <= lo {
        0
    } else {
        prime_count(lo, k - 1) + (if is_prime(k - 1) { 1nat } else { 0nat })
    }
}

/// The whole event stream of scanning the value `v` against every prime p
/// with `lo <= p < k`, in ascending order.
pub open spec fn scan_events(v: int, lo: int, k: int, scale: u64, x: i64) -> Seq<ScanEvent>
    decreases k - lo,
{
    if k <= lo {
        Seq::empty()
    } else {
        scan_events(v, lo, k - 1, scale, x)
            + (if is_prime(k - 1) {
                events_at(v, (k - 1) as u64, prime_count(lo, k - 1) + 1, scale, x)
            } else {
                Seq::empty()
            })
    }
}

/// Scan one candidate's value against every prime in `[q, ub]`, ascending,
/// and return the full event stream. A found collision does not stop the
/// scan.
pub fn scan_candidate(value: &Integer, q: u64, ub: u64, sieve: &Sieve, scale: u64, x: i64)
    -> (events: Vec<ScanEvent>)
    requires
        ub < u64::MAX,
        sieve_limit(*sieve) >= ub as nat,
    ensures
        events@ == scan_events(int_value(*value), q as int, ub as int + 1, scale, x),
{
    let mut events: Vec<ScanEvent> = Vec::new();
    let mut count: u64 = 0;
    let mut p: u64 = q;
    if q > ub {
        return events;
    }
    while p <= ub
        invariant
            q <= p <= ub + 1,
            ub < u64::MAX,
            sieve_limit(*sieve) >= ub as nat,
            count == prime_count(q as int, p as int),
            count <= p - q,
            events@ == scan_events(int_value(*value), q as int, p as int, scale, x),
        decreases ub + 1 - p,
    {
        let ghost old_events = events@;
        if sieve_is_prime(sieve, p) {
            proof {
                assert(is_prime(p as int));
            }
            count = count + 1;
            if count == 1 {
                events.push(ScanEvent::Started { scale });
            } else if count % HEARTBEAT_INTERVAL == 0 {
                events.push(ScanEvent::Progress { scale });
            }
            let pb = int_from_u64(p);
            if int_divisible_by(value, &pb) {
                events.push(ScanEvent::Collision { prime: p, scale, x });
            }
            proof {
                assert(events@ =~= old_events
                    + events_at(int_value(*value), p, count as nat, scale, x));
            }
        }
        proof {
            assert(scan_events(int_value(*value), q as int, p as int + 1, scale, x)
                == scan_events(int_value(*value), q as int, p as int, scale, x)
                    + (if is_prime(p as int) {
                        events_at(int_value(*value), p, prime_count(q as int, p as int) + 1,
                            scale, x)
                    } else {
                        Seq::<ScanEvent>::empty()
                    }));
            if !is_prime(p as int) {
                assert(events@ =~= scan_events(int_value(*value), q as int, p as int + 1,
                    scale, x));
            }
        }
        p = p + 1;
    }
    events
}

/// The number of progress heartbeats in an event stream.
pub open spec fn count_progress(s: Seq<ScanEvent>) -> nat
    decreases s.len(),
{
    if s.len() == 0 {
        0
    } else {
        count_progress(s.drop_last()) + (if s.last() is Progress { 1nat } else { 0nat })
    }
}

proof fn lemma_count_progress_concat(s: Seq<ScanEvent>, t: Seq<ScanEvent>)
    ensures
        count_progress(s + t) == count_progress(s) + count_progress(t),
    decreases t.len(),
{
    if t.len() == 0 {
        assert(s + t =~= s);
    } else {
        assert((s + t).drop_last() =~= s + t.drop_last());
        assert((s + t).last() == t.last());
        lemma_count_progress_concat(s, t.drop_last());
    }
}

proof fn lemma_count_progress_events_at(v: int, p: u64, c: nat, scale: u64, x: i64)
    ensures
        count_progress(events_at(v, p, c, scale, x))
            == if c != 1 && c % (HEARTBEAT_INTERVAL as nat) == 0 { 1nat } else { 0nat },
{
    let marker: Seq<ScanEvent> = if c == 1 {
        seq![ScanEvent::Started { scale }]
    } else if c % (HEARTBEAT_INTERVAL as nat) == 0 {
        seq![ScanEvent::Progress { scale }]
    } else {
        Seq::empty()
    };
    let collision: Seq<ScanEvent> = if v % (p as int) == 0 {
        seq![ScanEvent::Collision { prime: p, scale, x }]
    } else {
        Seq::empty()
    };
    lemma_count_progress_concat(marker, collision);
    assert(count_progress(Seq::<ScanEvent>::empty()) == 0);
    assert(count_progress(collision) == 0) by {
        if collision.len() != 0 {
            assert(collision.drop_last() =~= Seq::<ScanEvent>::empty());
            assert(count_progress(collision)
                == count_progress(Seq::<ScanEvent>::empty())
                    + (if collision.last() is Progress { 1nat } else { 0nat }));
        }
    }
    assert(count_progress(marker)
        == if c != 1 && c % (HEARTBEAT_INTERVAL as nat) == 0 { 1nat } else { 0nat }) by {
        if marker.len() != 0 {
            assert(marker.drop_last() =~= Seq::<ScanEvent>::empty());
            assert(count_progress(marker)
                == count_progress(Seq::<ScanEvent>::empty())
                    + (if marker.last() is Progress { 1nat } else { 0nat }));
        }
    }
}

/// Incrementing a count crosses a heartbeat boundary exactly when the new
/// count is a multiple of the interval.
proof fn lemma_count_step(m: nat, h: nat)
    requires
        h >= 2,
    ensures
        (m + 1) as int / h as int
            == m as int / h as int + (if ((m + 1) as int % h as int) == 0 { 1int } else { 0int }),
{
    let hi = h as int;
    let mi = m as int;
    vstd::arithmetic::div_mod::lemma_fundamental_div_mod(mi, hi);
    let q = mi / hi;
    let r = mi % hi;
    vstd::arithmetic::div_mod::lemma_mod_bound(mi, hi);
    if r < hi - 1 {
        vstd::arithmetic::div_mod::lemma_fundamental_div_mod_converse(mi + 1, hi, q, r + 1);
    } else {
        assert(mi + 1 == (q + 1) * hi + 0) by (nonlinear_arith)
            requires
                mi == q * hi + r,
                r == hi - 1,
        {}
        vstd::arithmetic::div_mod::lemma_fundamental_div_mod_converse(mi + 1, hi, q + 1, 0);
    }
}

/// Law: the number of progress heartbeats in a scan over `[lo, k)` is the
/// number of primes examined, divided (flooring) by the heartbeat
/// interval: one heartbeat for every full interval, none before the
/// interval is reached.
pub proof fn lemma_progress_count(v: int, lo: int, k: int, scale: u64, x: i64)
    ensures
        count_progress(scan_events(v, lo, k, scale, x))
            == prime_count(lo, k) as int / (HEARTBEAT_INTERVAL as int),
    decreases k - lo,
{
    let h = HEARTBEAT_INTERVAL as int;
    if k <= lo {
        assert(prime_count(lo, k) as int / h == 0) by {
            vstd::arithmetic::div_mod::lemma_basic_div(0, h);
        }
    } else {
        lemma_progress_count(v, lo, k - 1, scale, x);
        let m = prime_count(lo, k - 1);
        let prev = scan_events(v, lo, k - 1, scale, x);
        if is_prime(k - 1) {
            let added = events_at(v, (k - 1) as u64, m + 1, scale, x);
            lemma_count_progress_concat(prev, added);
            lemma_count_progress_events_at(v, (k - 1) as u64, m + 1, scale, x);
            lemma_count_step(m, HEARTBEAT_INTERVAL as nat);
            if (m + 1) as int % h == 0 {
                assert(m + 1 != 1) by {
                    vstd::arithmetic::div_mod::lemma_small_mod(1, h as nat);
                }
            }
        } else {
            assert(scan_events(v, lo, k, scale, x) =~= prev + Seq::<ScanEvent>::empty());
            lemma_count_progress_concat(prev, Seq::empty());
        }
    }
}

/// Law: a scan that examines exactly `HEARTBEAT_INTERVAL` primes emits
/// exactly one progress heartbeat (at the last prime examined, by
/// `events_at`), not zero and not more.
pub proof fn lemma_heartbeat_once(v: int, lo: int, k: int, scale: u64, x: i64)
    requires
        prime_count(lo, k) == HEARTBEAT_INTERVAL as nat,
    ensures
        count_progress(scan_events(v, lo, k, scale, x)) == 1,
{
    lemma_progress_count(v, lo, k, scale, x);
    vstd::arithmetic::div_mod::lemma_div_by_self(HEARTBEAT_INTERVAL as int);
}

/// Whether a candidate's value can be computed: the power sum always can;
/// a Chebyshev strategy fails exactly when its divisor evaluation is zero.
pub open spec fn spec_value_ok(strategy: Strategy, n: nat, x: int) -> bool {
    match strategy {
        Strategy::PowerSum => true,
        Strategy::IntegerChebyshev => int_cheb_den(n, x) != 0,
        Strategy::ExactFractionChebyshev => frac_cheb_den(n, x) != 0,
    }
}

/// The strategy-selected target value of a candidate (meaningful when
/// `spec_value_ok` holds).
pub open spec fn spec_candidate_value(strategy: Strategy, n: nat, x: int) -> int {
    match strategy {
        Strategy::PowerSum => geom_sum(x, (n - 1) as nat),
        Strategy::IntegerChebyshev => trunc_div(int_cheb_num(n, x), int_cheb_den(n, x)),
        Strategy::ExactFractionChebyshev => trunc_div(frac_cheb_num(n, x), frac_cheb_den(n, x)),
    }
}

/// The full pipeline for one candidate: compute the target value by the
/// selected strategy, then scan it against every prime in
/// `[(n−1)², ub]`. A candidate whose divisor evaluation is zero reports an
/// error instead of crashing the batch.
pub fn run_candidate(strategy: Strategy, n: u64, x: i64, ub: u64, sieve: &Sieve)
    -> (r: Result<Vec<ScanEvent>, EvalError>)
    requires
        n >= 1,
        strategy != Strategy::PowerSum ==> n >= 3,
        n <= usize::MAX,
        (n - 1) * (n - 1) <= u64::MAX,
        4 * n <= u64::MAX,
        x > i64::MIN,
        ub < u64::MAX,
        sieve_limit(*sieve) >= ub as nat,
    ensures
        r is Ok <==> spec_value_ok(strategy, n as nat, x as int),
        match r {
            Ok(events) => events@ == scan_events(
                spec_candidate_value(strategy, n as nat, x as int),
                ((n - 1) * (n - 1)) as int,
                ub as int + 1,
                (spec_modulus_scale(strategy, n as nat)) as u64,
                x,
            ),
            Err(e) => e == EvalError::ZeroDivisor,
        },
{
    let value = match evaluate_candidate(strategy, n, x) {
        Ok(v) => v,
        Err(e) => {
            return Err(e);
        },
    };
    let q = (n - 1) * (n - 1);
    let scale = modulus_scale(strategy, n);
    Ok(scan_candidate(&value, q, ub, sieve, scale, x))
}

} // verus!
