//! The even-indexed Bernoulli numbers `B0, B2, B4, ...` as exact rationals,
//! derived from the zigzag numbers: the term with index `n >= 1` is the
//! reduced form of `i * z / (4^n - 16^n)`, where `i` is the alternating index
//! `(-1)^n * 2n` and `z` is the zigzag number of index `2n - 1`.

use vstd::prelude::*;

use crate::big::{
    big_add, big_clone, big_eq, big_from_u64, big_ge, big_int_value, big_mul, big_neg, big_sub,
    coprime, rat_new, ratio_denom, ratio_numer,
};
use crate::zigzag::{zigzag, EulerUpDown};

verus! {

/// `4^n`.
pub open spec fn pow4(n: nat) -> int
    decreases n,
{
    if n == 0 {
        1
    } else {
        4 * pow4((n - 1) as nat)
    }
}

/// The alternating index `0, -2, 4, -6, 8, ...`: the value the index counter
/// holds just before the term with index `n` is produced.
pub open spec fn bern_index(n: nat) -> int {
    if n % 2 == 0 {
        2 * (n as int)
    } else {
        -2 * (n as int)
    }
}

/// The numerator of the fraction behind the `n`-th even Bernoulli term,
/// before reduction.
pub open spec fn bern_num(n: nat) -> int {
    if n == 0 {
        1
    } else {
        bern_index(n) * zigzag((2 * n - 1) as nat)
    }
}

/// The denominator of the fraction behind the `n`-th even Bernoulli term,
/// before reduction: `4^n - 16^n`.
pub open spec fn bern_den(n: nat) -> int {
    if n == 0 {
        1
    } else {
        pow4(n) - pow4(n) * pow4(n)
    }
}

/// `4^n` is positive, and at least 4 once `n >= 1`.
pub proof fn lemma_pow4_bounds(n: nat)
    ensures
        pow4(n) >= 1,
        n >= 1 ==> pow4(n) >= 4,
    decreases n,
{
    if n >= 1 {
        lemma_pow4_bounds((n - 1) as nat);
    }
}

/// The denominator is never zero: it is 1 for `B0` and negative afterwards.
pub proof fn lemma_bern_den_nonzero(n: nat)
    ensures
        n == 0 ==> bern_den(n) == 1,
        n >= 1 ==> bern_den(n) < 0,
{
    if n >= 1 {
        lemma_pow4_bounds(n);
        let p = pow4(n);
        assert(p * p > p) by (nonlinear_arith)
            requires
                p >= 4,
        ;
    }
}

/// A resumable, conceptually infinite generator of the even-indexed
/// Bernoulli numbers, combining a growing power of 4 with every other term
/// of an owned zigzag generator.
pub struct EvenBernoulli {
    i: num_bigint::BigInt,
    power: num_bigint::BigInt,
    zs: EulerUpDown,
}

impl EvenBernoulli {
    /// How many terms this generator has produced so far, read off the
    /// alternating index counter.
    pub closed spec fn count(self) -> nat {
        (crate::big::abs_val(big_int_value(self.i)) / 2) as nat
    }

    /// Between calls: the index counter holds the alternating index for the
    /// next term, the power accumulator holds the power of 4 used for the
    /// previous term, and the zigzag source is two terms behind per term
    /// produced after the first.
    pub closed spec fn inv(self) -> bool {
        &&& self.zs.inv()
        &&& big_int_value(self.i) == bern_index(self.count())
        &&& big_int_value(self.power) == (if self.count() == 0 {
            1int
        } else {
            pow4((self.count() - 1) as nat)
        })
        &&& self.zs.count() == (if self.count() == 0 {
            0nat
        } else {
            (2 * (self.count() - 1)) as nat
        })
    }

    /// Produce the next even Bernoulli number, in canonical reduced form.
    /// The sequence never runs out, so the result is always `Some`.
    pub fn next(&mut self) -> (r: Option<num_rational::Ratio<num_bigint::BigInt>>)
        requires
            old(self).inv(),
        ensures
            final(self).inv(),
            final(self).count() == old(self).count() + 1,
            r matches Some(q) && ratio_denom(q) > 0 && ratio_numer(q) * bern_den(
                old(self).count(),
            ) == bern_num(old(self).count()) * ratio_denom(q) && coprime(
                ratio_numer(q),
                ratio_denom(q),
            ),
    {
        let ghost n = old(self).count();
        let zero = big_from_u64(0);
        let two = big_from_u64(2);
        let i_cur = big_clone(&self.i);
        let shifted = if big_ge(&i_cur, &zero) {
            big_add(&i_cur, &two)
        } else {
            big_sub(&i_cur, &two)
        };
        self.i = big_neg(&shifted);
        proof {
            lemma_index_magnitude(n);
            lemma_index_magnitude((n + 1) as nat);
            assert(big_int_value(self.i) == bern_index(n + 1));
        }
        if big_eq(&i_cur, &zero) {
            // Only true on the very first call: emit B0 = 1 without touching
            // the zigzag source.
            let q = rat_new(big_from_u64(1), big_from_u64(1));
            Some(q)
        } else {
            // Discard one zigzag term and take the next: the derivation uses
            // every other term of the source.
            let _skipped = self.zs.next();
            let taken = self.zs.next();
            let z = match taken {
                Some(z) => z,
                None => {
                    return None;
                },
            };
            proof {
                assert(n >= 1);
                assert(big_int_value(z) == zigzag((2 * n - 1) as nat));
            }
            let four = big_from_u64(4);
            self.power = big_mul(&self.power, &four);
            let b = big_mul(&self.power, &self.power);
            let d = big_sub(&self.power, &b);
            let numerator = big_mul(&i_cur, &z);
            proof {
                assert(big_int_value(self.power) == pow4(n));
                assert(big_int_value(d) == bern_den(n));
                lemma_bern_den_nonzero(n);
            }
            let q = rat_new(numerator, d);
            Some(q)
        }
    }

    /// Produce the next `count` terms as an ordered list; the bulk form of
    /// repeated single-term production.
    #[verifier::loop_isolation(false)]
    pub fn next_terms(&mut self, count: usize) -> (r: Vec<
        num_rational::Ratio<num_bigint::BigInt>,
    >)
        requires
            old(self).inv(),
        ensures
            final(self).inv(),
            final(self).count() == old(self).count() + count,
            r@.len() == count,
            forall|j: int|
                0 <= j < count ==> ratio_denom(r@[j]) > 0 && ratio_numer(r@[j]) * bern_den(
                    (old(self).count() + j) as nat,
                ) == bern_num((old(self).count() + j) as nat) * ratio_denom(r@[j]) && coprime(
                    ratio_numer(r@[j]),
                    ratio_denom(r@[j]),
                ),
    {
        let ghost start = old(self).count();
        let mut out: Vec<num_rational::Ratio<num_bigint::BigInt>> = Vec::new();
        let mut produced: usize = 0;
        while produced < count
            invariant
                produced <= count,
                self.inv(),
                self.count() == start + produced,
                out@.len() == produced,
                forall|j: int|
                    0 <= j < produced ==> ratio_denom(out@[j]) > 0 && ratio_numer(out@[j])
                        * bern_den((start + j) as nat) == bern_num((start + j) as nat)
                        * ratio_denom(out@[j]) && coprime(ratio_numer(out@[j]), ratio_denom(out@[j])),
            decreases count - produced,
        {
            let q = self.next().unwrap();
            out.push(q);
            produced = produced + 1;
        }
        out
    }
}

impl Default for EvenBernoulli {
    /// A fresh generator that has produced nothing: index counter 0, power
    /// accumulator 1, and a fresh zigzag source.
    fn default() -> (r: Self)
        ensures
            r.inv(),
            r.count() == 0,
    {
        EvenBernoulli { i: big_from_u64(0), power: big_from_u64(1), zs: EulerUpDown::default() }
    }
}

/// The alternating index for term `n` has magnitude exactly `2n`, so the
/// number of produced terms can be read back off the counter.
proof fn lemma_index_magnitude(n: nat)
    ensures
        crate::big::abs_val(bern_index(n)) == 2 * n,
        (crate::big::abs_val(bern_index(n)) / 2) as nat == n,
{
    let m = n as int;
    assert((2 * m) / 2 == m) by (nonlinear_arith);
}

/// Determinism and exactness: the contract of `next` pins each term's value.
/// Any two rationals in positive-denominator form that both satisfy it for
/// the same index are equal as rationals.
pub proof fn law_bernoulli_value_unique(n: nat, n1: int, d1: int, n2: int, d2: int)
    requires
        d1 > 0,
        d2 > 0,
        n1 * bern_den(n) == bern_num(n) * d1,
        n2 * bern_den(n) == bern_num(n) * d2,
    ensures
        n1 * d2 == n2 * d1,
{
    lemma_bern_den_nonzero(n);
    let dd = bern_den(n);
    let nn = bern_num(n);
    assert(n1 * d2 == n2 * d1) by (nonlinear_arith)
        requires
            n1 * dd == nn * d1,
            n2 * dd == nn * d2,
            dd != 0,
    ;
}

/// Determinism down to the representation: two terms for the same index that
/// both satisfy the full contract of `next` — positive denominator, the right
/// value, and reduced form — have identical numerators and denominators.
pub proof fn law_bernoulli_representation_unique(n: nat, n1: int, d1: int, n2: int, d2: int)
    requires
        d1 > 0,
        d2 > 0,
        n1 * bern_den(n) == bern_num(n) * d1,
        n2 * bern_den(n) == bern_num(n) * d2,
        coprime(n1, d1),
        coprime(n2, d2),
    ensures
        n1 == n2,
        d1 == d2,
{
    law_bernoulli_value_unique(n, n1, d1, n2, d2);
    crate::big::lemma_reduced_forms_equal(n1, d1, n2, d2);
}

/// Determinism for whole runs: two sequences of terms, each in
/// positive-denominator form and each satisfying the contract of `next` for
/// its index, agree term by term as rationals.
pub proof fn law_bernoulli_deterministic(a: Seq<(int, int)>, b: Seq<(int, int)>, n: nat)
    requires
        a.len() == n,
        b.len() == n,
        forall|j: int|
            0 <= j < n ==> a[j].1 > 0 && #[trigger] a[j].0 * bern_den(j as nat) == bern_num(
                j as nat,
            ) * a[j].1,
        forall|j: int|
            0 <= j < n ==> b[j].1 > 0 && #[trigger] b[j].0 * bern_den(j as nat) == bern_num(
                j as nat,
            ) * b[j].1,
    ensures
        forall|j: int| 0 <= j < n ==> #[trigger] (a[j].0 * b[j].1) == b[j].0 * a[j].1,
{
    assert forall|j: int| 0 <= j < n implies #[trigger] (a[j].0 * b[j].1) == b[j].0 * a[j].1 by {
        law_bernoulli_value_unique(j as nat, a[j].0, a[j].1, b[j].0, b[j].1);
    }
}

/// Sign alternation: for `n >= 1`, the defining numerators of consecutive
/// terms are non-zero and of opposite sign.
pub proof fn law_sign_alternation(n: nat)
    requires
        n >= 1,
    ensures
        bern_num(n) * bern_num(n + 1) < 0,
{
    let i1 = bern_index(n);
    let i2 = bern_index((n + 1) as nat);
    let z1 = zigzag((2 * n - 1) as nat);
    let z2 = zigzag((2 * (n + 1) - 1) as nat);
    crate::zigzag::lemma_zigzag_positive((2 * n - 1) as nat);
    crate::zigzag::lemma_zigzag_positive((2 * (n + 1) - 1) as nat);
    assert(i1 * i2 < 0) by (nonlinear_arith)
        requires
            (i1 > 0 && i2 < 0) || (i1 < 0 && i2 > 0),
    ;
    assert((i1 * z1) * (i2 * z2) < 0) by (nonlinear_arith)
        requires
            z1 >= 1,
            z2 >= 1,
            i1 * i2 < 0,
    ;
}

} // verus!

