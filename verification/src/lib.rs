//! Exact generators for the Euler up/down ("zigzag") numbers and the
//! even-indexed Bernoulli numbers, over arbitrary-precision arithmetic.

use vstd::prelude::*;

pub mod bernoulli;
pub mod big;
pub mod zigzag;

pub use crate::bernoulli::EvenBernoulli;
pub use crate::zigzag::EulerUpDown;

use crate::big::{big_clone, big_from_u64, big_gt, big_int_value, big_mul, big_sub};

verus! {

/// `n!` for `n >= 0` (and 1 below that, vacuously).
pub open spec fn fact(n: int) -> int
    decreases n,
{
    if n <= 1 {
        1
    } else {
        n * fact(n - 1)
    }
}

/// Calculates the factorial of a non-negative exact integer.
#[verifier::loop_isolation(false)]
pub fn factorial(n: &num_bigint::BigInt) -> (r: num_bigint::BigInt)
    requires
        big_int_value(*n) >= 0,
    ensures
        big_int_value(r) == fact(big_int_value(*n)),
{
    let one = big_from_u64(1);
    let mut m = big_clone(n);
    let mut r = big_from_u64(1);
    while big_gt(&m, &one)
        invariant
            big_int_value(m) >= 0,
            big_int_value(r) * fact(big_int_value(m)) == fact(big_int_value(*n)),
        decreases big_int_value(m),
    {
        proof {
            let mv = big_int_value(m);
            let rv = big_int_value(r);
            assert(fact(mv) == mv * fact(mv - 1));
            assert((rv * mv) * fact(mv - 1) == rv * (mv * fact(mv - 1))) by (nonlinear_arith);
        }
        r = big_mul(&r, &m);
        m = big_sub(&m, &one);
    }
    r
}

} // verus!
