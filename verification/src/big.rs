//! Trusted bridge to the arbitrary-precision arithmetic of the `num-bigint`
//! and `num-rational` crates.
//!
//! Every contract of the library speaks of a big integer through its
//! mathematical value `big_int_value`, and of a rational through the value of
//! its reduced numerator and denominator, `ratio_numer` and `ratio_denom`.

use vstd::prelude::*;

verus! {

#[verifier::external_type_specification]
#[verifier::external_body]
pub struct ExBigInt(num_bigint::BigInt);

#[verifier::external_type_specification]
#[verifier::external_body]
#[verifier::reject_recursive_types(T)]
pub struct ExRatio<T>(num_rational::Ratio<T>);

/// The mathematical integer that a `BigInt` holds.
pub uninterp spec fn big_int_value(z: num_bigint::BigInt) -> int;

/// The numerator of the reduced fraction that a `Ratio<BigInt>` holds.
pub uninterp spec fn ratio_numer(q: num_rational::Ratio<num_bigint::BigInt>) -> int;

/// The denominator of the reduced fraction that a `Ratio<BigInt>` holds.
pub uninterp spec fn ratio_denom(q: num_rational::Ratio<num_bigint::BigInt>) -> int;

/// The magnitude of an integer.
pub open spec fn abs_val(a: int) -> int {
    if a >= 0 {
        a
    } else {
        -a
    }
}

/// Euclid's greatest common divisor.
pub open spec fn gcd_nat(a: nat, b: nat) -> nat
    decreases b,
{
    if b == 0 {
        a
    } else {
        gcd_nat(b, a % b)
    }
}

/// Two integers with no common factor beyond 1.
pub open spec fn coprime(a: int, b: int) -> bool {
    gcd_nat(abs_val(a) as nat, abs_val(b) as nat) == 1
}

/// Bezout's identity: some integer combination of `a` and `b` reaches their
/// greatest common divisor.
pub proof fn lemma_bezout(a: nat, b: nat) -> (r: (int, int))
    ensures
        (a as int) * r.0 + (b as int) * r.1 == gcd_nat(a, b) as int,
    decreases b,
{
    if b == 0 {
        (1int, 0int)
    } else {
        let (x, y) = lemma_bezout(b, a % b);
        vstd::arithmetic::div_mod::lemma_fundamental_div_mod(a as int, b as int);
        let q = (a as int) / (b as int);
        assert((a as int) * y + (b as int) * (x - q * y) == (b as int) * x + ((a as int) - q * (
        b as int)) * y) by (nonlinear_arith);
        assert((a as int) - q * (b as int) == (a % b) as int);
        (y, x - q * y)
    }
}

/// Euclid's lemma, in divisibility form: if `b > 0` is coprime to `a` and
/// divides `a * c` (with quotient `k`), then `b` divides `c`; the quotient is
/// returned.
pub proof fn lemma_coprime_divides(a: int, b: int, c: int, k: int) -> (m: int)
    requires
        b > 0,
        coprime(a, b),
        a * c == b * k,
    ensures
        c == b * m,
{
    let (x, y) = lemma_bezout(abs_val(a) as nat, b as nat);
    assert(abs_val(a) * x + b * y == 1);
    if a >= 0 {
        let m = k * x + c * y;
        assert(c == b * m) by (nonlinear_arith)
            requires
                a * x + b * y == 1,
                a * c == b * k,
                m == k * x + c * y,
        ;
        m
    } else {
        let m = -k * x + c * y;
        assert(c == b * m) by (nonlinear_arith)
            requires
                (-a) * x + b * y == 1,
                a * c == b * k,
                m == -k * x + c * y,
        ;
        m
    }
}

/// Two equal rationals in reduced, positive-denominator form have the same
/// numerator and the same denominator.
pub proof fn lemma_reduced_forms_equal(n1: int, d1: int, n2: int, d2: int)
    requires
        d1 > 0,
        d2 > 0,
        coprime(n1, d1),
        coprime(n2, d2),
        n1 * d2 == n2 * d1,
    ensures
        n1 == n2,
        d1 == d2,
{
    assert(n1 * d2 == d1 * n2 && n2 * d1 == d2 * n1) by (nonlinear_arith)
        requires
            n1 * d2 == n2 * d1,
    ;
    let k1 = lemma_coprime_divides(n1, d1, d2, n2);
    let k2 = lemma_coprime_divides(n2, d2, d1, n1);
    assert(k1 * k2 == 1 && k1 > 0 && k2 > 0) by (nonlinear_arith)
        requires
            d2 == d1 * k1,
            d1 == d2 * k2,
            d1 > 0,
            d2 > 0,
    ;
    assert(k1 == 1) by (nonlinear_arith)
        requires
            k1 * k2 == 1,
            k1 > 0,
            k2 > 0,
    ;
    assert(n1 == n2) by (nonlinear_arith)
        requires
            n1 * d2 == n2 * d1,
            d1 == d2,
            d1 > 0,
    ;
}

/// Relies on num_bigint's `From<u64>`: the result holds exactly `v`.
#[verifier::external_body]
pub(crate) fn big_from_u64(v: u64) -> (r: num_bigint::BigInt)
    ensures
        big_int_value(r) == v as int,
{
    num_bigint::BigInt::from(v)
}

/// Relies on num_bigint's `Clone`: the copy holds the same integer.
#[verifier::external_body]
pub(crate) fn big_clone(z: &num_bigint::BigInt) -> (r: num_bigint::BigInt)
    ensures
        big_int_value(r) == big_int_value(*z),
{
    z.clone()
}

/// Relies on num_bigint's `Add` for `&BigInt`: exact integer addition.
#[verifier::external_body]
pub(crate) fn big_add(a: &num_bigint::BigInt, b: &num_bigint::BigInt) -> (r: num_bigint::BigInt)
    ensures
        big_int_value(r) == big_int_value(*a) + big_int_value(*b),
{
    a + b
}

/// Relies on num_bigint's `Sub` for `&BigInt`: exact integer subtraction.
#[verifier::external_body]
pub(crate) fn big_sub(a: &num_bigint::BigInt, b: &num_bigint::BigInt) -> (r: num_bigint::BigInt)
    ensures
        big_int_value(r) == big_int_value(*a) - big_int_value(*b),
{
    a - b
}

/// Relies on num_bigint's `Mul` for `&BigInt`: exact integer multiplication.
#[verifier::external_body]
pub(crate) fn big_mul(a: &num_bigint::BigInt, b: &num_bigint::BigInt) -> (r: num_bigint::BigInt)
    ensures
        big_int_value(r) == big_int_value(*a) * big_int_value(*b),
{
    a * b
}

/// Relies on num_bigint's `Neg` for `&BigInt`: exact negation.
#[verifier::external_body]
pub(crate) fn big_neg(a: &num_bigint::BigInt) -> (r: num_bigint::BigInt)
    ensures
        big_int_value(r) == -big_int_value(*a),
{
    -a
}

/// Relies on num_bigint's `PartialOrd`: comparison agrees with the values held.
#[verifier::external_body]
pub(crate) fn big_ge(a: &num_bigint::BigInt, b: &num_bigint::BigInt) -> (r: bool)
    ensures
        r == (big_int_value(*a) >= big_int_value(*b)),
{
    a >= b
}

/// Relies on num_bigint's `PartialOrd`: comparison agrees with the values held.
#[verifier::external_body]
pub(crate) fn big_gt(a: &num_bigint::BigInt, b: &num_bigint::BigInt) -> (r: bool)
    ensures
        r == (big_int_value(*a) > big_int_value(*b)),
{
    a > b
}

/// Relies on num_bigint's `PartialEq`: equality agrees with the values held.
#[verifier::external_body]
pub(crate) fn big_eq(a: &num_bigint::BigInt, b: &num_bigint::BigInt) -> (r: bool)
    ensures
        r == (big_int_value(*a) == big_int_value(*b)),
{
    a == b
}

/// Relies on num_rational's `Ratio::new`, which reduces the fraction by the
/// greatest common divisor and keeps the denominator positive: the result is
/// the canonical form of `n / d`.
#[verifier::external_body]
pub(crate) fn rat_new(n: num_bigint::BigInt, d: num_bigint::BigInt) -> (r: num_rational::Ratio<
    num_bigint::BigInt,
>)
    requires
        big_int_value(d) != 0,
    ensures
        ratio_denom(r) > 0,
        ratio_numer(r) * big_int_value(d) == big_int_value(n) * ratio_denom(r),
        coprime(ratio_numer(r), ratio_denom(r)),
{
    num_rational::Ratio::new(n, d)
}

} // verus!
