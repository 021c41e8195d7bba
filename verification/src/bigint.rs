//! Arbitrary-precision integer arithmetic.
//!
//! The coefficients and values of this library are `malachite::Integer` and
//! `malachite::Natural`. Verus sees those types as opaque, so their
//! mathematical content is given a name — `int_value` and `nat_value` — and
//! every operation used by the library is a wrapper whose contract states
//! exactly how the value of its result relates to the values of its
//! arguments.

use vstd::prelude::*;
use vstd::arithmetic::power::pow;
use malachite::Integer;
use malachite::Natural;
use malachite::base::num::arithmetic::traits::Pow;
use malachite::base::num::arithmetic::traits::Lcm;
use malachite::base::num::arithmetic::traits::DivisibleBy;

verus! {

#[verifier::external_type_specification]
#[verifier::external_body]
pub struct ExInteger(Integer);

#[verifier::external_type_specification]
#[verifier::external_body]
pub struct ExNatural(Natural);

/// The mathematical value held by a `malachite::Integer`.
pub uninterp spec fn int_value(x: Integer) -> int;

/// The mathematical value held by a `malachite::Natural`.
pub uninterp spec fn nat_value(x: Natural) -> nat;

/// Absolute value of a mathematical integer.
pub open spec fn abs(x: int) -> nat {
    if x >= 0 {
        x as nat
    } else {
        (-x) as nat
    }
}

/// Quotient rounded towards zero, as big-integer division computes it.
/// (The spec-mode `/` on `int` is Euclidean, so truncation is spelled out.)
pub open spec fn trunc_div(a: int, b: int) -> int {
    if (a >= 0) == (b >= 0) {
        abs(a) as int / abs(b) as int
    } else {
        -(abs(a) as int / abs(b) as int)
    }
}

/// The decimal digit for a value in 0..=9.
pub open spec fn dec_digit(d: int) -> char {
    if d == 0 { '0' }
    else if d == 1 { '1' }
    else if d == 2 { '2' }
    else if d == 3 { '3' }
    else if d == 4 { '4' }
    else if d == 5 { '5' }
    else if d == 6 { '6' }
    else if d == 7 { '7' }
    else if d == 8 { '8' }
    else { '9' }
}

/// Canonical decimal form of a natural number: no leading zeros,
/// most significant digit first.
pub open spec fn dec_nat(n: nat) -> Seq<char>
    decreases n,
{
    if n < 10 {
        seq![dec_digit(n as int)]
    } else {
        dec_nat(n / 10).push(dec_digit((n % 10) as int))
    }
}

/// Canonical decimal form of a mathematical integer, with a leading
/// minus sign for negative values.
pub open spec fn dec_int(n: int) -> Seq<char> {
    if n < 0 {
        seq!['-'] + dec_nat(abs(n))
    } else {
        dec_nat(n as nat)
    }
}

/// Relies on `malachite::Integer::from(i64)`: exact conversion.
#[verifier::external_body]
pub fn int_from_i64(x: i64) -> (r: Integer)
    ensures
        int_value(r) == x as int,
{
    Integer::from(x)
}

/// Relies on `malachite::Integer::from(u64)`: exact conversion.
#[verifier::external_body]
pub fn int_from_u64(x: u64) -> (r: Integer)
    ensures
        int_value(r) == x as int,
{
    Integer::from(x)
}

/// Relies on `malachite::Integer::from(&Natural)`: exact conversion.
#[verifier::external_body]
pub fn int_from_nat(n: &Natural) -> (r: Integer)
    ensures
        int_value(r) == nat_value(*n) as int,
{
    Integer::from(n)
}

/// Relies on `Clone for malachite::Integer`: the copy has the same value.
#[verifier::external_body]
pub fn int_clone(x: &Integer) -> (r: Integer)
    ensures
        int_value(r) == int_value(*x),
{
    x.clone()
}

/// Relies on `Add for &malachite::Integer`: exact sum.
#[verifier::external_body]
pub fn int_add(a: &Integer, b: &Integer) -> (r: Integer)
    ensures
        int_value(r) == int_value(*a) + int_value(*b),
{
    a + b
}

/// Relies on `Sub for &malachite::Integer`: exact difference.
#[verifier::external_body]
pub fn int_sub(a: &Integer, b: &Integer) -> (r: Integer)
    ensures
        int_value(r) == int_value(*a) - int_value(*b),
{
    a - b
}

/// Relies on `Neg for &malachite::Integer`: exact negation.
#[verifier::external_body]
pub fn int_neg(a: &Integer) -> (r: Integer)
    ensures
        int_value(r) == -int_value(*a),
{
    -a
}

/// Relies on `Mul for &malachite::Integer`: exact product.
#[verifier::external_body]
pub fn int_mul(a: &Integer, b: &Integer) -> (r: Integer)
    ensures
        int_value(r) == int_value(*a) * int_value(*b),
{
    a * b
}

/// Relies on `Div for &malachite::Integer`: the quotient is rounded towards
/// zero; division by zero panics, so it is ruled out here.
#[verifier::external_body]
pub fn int_div_trunc(a: &Integer, b: &Integer) -> (r: Integer)
    requires
        int_value(*b) != 0,
    ensures
        int_value(r) == trunc_div(int_value(*a), int_value(*b)),
{
    a / b
}

/// Relies on `DivisibleBy for &malachite::Integer`: zero is divisible by
/// every integer including zero; a nonzero integer is never divisible by
/// zero.
#[verifier::external_body]
pub fn int_divisible_by(a: &Integer, b: &Integer) -> (r: bool)
    ensures
        r <==> (if int_value(*b) == 0 {
            int_value(*a) == 0
        } else {
            int_value(*a) % int_value(*b) == 0
        }),
{
    a.divisible_by(b)
}

/// Relies on `Pow<u64> for &malachite::Integer`: exact exponentiation.
#[verifier::external_body]
pub fn int_pow(a: &Integer, e: u64) -> (r: Integer)
    ensures
        int_value(r) == pow(int_value(*a), e as nat),
{
    a.pow(e)
}

/// Relies on `PartialEq for malachite::Integer`: value equality.
#[verifier::external_body]
pub fn int_is_zero(a: &Integer) -> (r: bool)
    ensures
        r <==> int_value(*a) == 0,
{
    *a == Integer::from(0i32)
}

/// Relies on `Display for malachite::Integer`: the canonical decimal form,
/// minus sign first for negative values, no leading zeros.
#[verifier::external_body]
pub fn int_to_decimal(a: &Integer) -> (r: String)
    ensures
        r@ == dec_int(int_value(*a)),
{
    a.to_string()
}

/// Relies on `malachite::Natural::from(u64)`: exact conversion.
#[verifier::external_body]
pub fn nat_from_u64(x: u64) -> (r: Natural)
    ensures
        nat_value(r) == x as nat,
{
    Natural::from(x)
}

/// Relies on `Clone for malachite::Natural`: the copy has the same value.
#[verifier::external_body]
pub fn nat_clone(x: &Natural) -> (r: Natural)
    ensures
        nat_value(r) == nat_value(*x),
{
    x.clone()
}

/// Relies on `Mul for &malachite::Natural`: exact product.
#[verifier::external_body]
pub fn nat_mul(a: &Natural, b: &Natural) -> (r: Natural)
    ensures
        nat_value(r) == nat_value(*a) * nat_value(*b),
{
    a * b
}

/// Relies on `Div for &malachite::Natural`: the quotient is rounded towards
/// negative infinity (Euclidean, for naturals); division by zero panics, so
/// it is ruled out here.
#[verifier::external_body]
pub fn nat_div_floor(a: &Natural, b: &Natural) -> (r: Natural)
    requires
        nat_value(*b) != 0,
    ensures
        nat_value(r) == nat_value(*a) / nat_value(*b),
{
    a / b
}

/// Relies on `Lcm for &malachite::Natural`: the least common multiple.
#[verifier::external_body]
pub fn nat_lcm(a: &Natural, b: &Natural) -> (r: Natural)
    ensures
        nat_value(*a) > 0 && nat_value(*b) > 0 ==> {
            &&& nat_value(r) > 0
            &&& nat_value(r) % nat_value(*a) == 0
            &&& nat_value(r) % nat_value(*b) == 0
            &&& forall|m: nat|
                m > 0 && #[trigger] (m % nat_value(*a)) == 0 && m % nat_value(*b) == 0
                    ==> nat_value(r) <= m
        },
        nat_value(*a) == 0 || nat_value(*b) == 0 ==> nat_value(r) == 0,
{
    a.lcm(b)
}

/// Relies on `Pow<u64> for &malachite::Natural`: exact exponentiation.
#[verifier::external_body]
pub fn nat_pow(a: &Natural, e: u64) -> (r: Natural)
    ensures
        nat_value(r) == pow(nat_value(*a) as int, e as nat),
{
    a.pow(e)
}

/// Relies on `PartialEq for malachite::Natural`: value equality.
#[verifier::external_body]
pub fn nat_is_zero(a: &Natural) -> (r: bool)
    ensures
        r <==> nat_value(*a) == 0,
{
    *a == Natural::from(0u32)
}

} // verus!
