//! Arbitrary-precision amounts.
//!
//! Amounts are `num_bigint::BigUint` values. The verifier cannot look inside
//! one, so this module names what it holds and states, for each arithmetic
//! operation that the verdicts use, what `num_bigint` computes. Nothing in
//! this module is proved: it is the boundary to the outside arithmetic.

use num_bigint::BigUint;
use vstd::prelude::*;

verus! {

/// `num_bigint::BigUint`, taken as it is: the verifier sees nothing inside a
/// value and learns about it only through [`digits_of`].
#[verifier::external_type_specification]
#[verifier::external_body]
pub struct ExBigUint(num_bigint::BigUint);

/// The base 2^32 digits of `n`, least significant first, as
/// `BigUint::to_u32_digits` reports them.
pub uninterp spec fn digits_of(n: BigUint) -> Seq<u32>;

/// The natural number written by little-endian base 2^32 `digits`.
pub open spec fn magnitude(digits: Seq<u32>) -> nat
    decreases digits.len(),
{
    if digits.len() == 0 {
        0
    } else {
        digits[0] as nat + 0x1_0000_0000 * magnitude(digits.skip(1))
    }
}

/// The natural number that `n` holds.
pub open spec fn amount(n: BigUint) -> nat {
    magnitude(digits_of(n))
}

/// `BigUint::from(u32)`: the amount of the result is `n`.
#[verifier::external_body]
pub(crate) fn from_u32(n: u32) -> (r: BigUint)
    ensures
        magnitude(digits_of(r)) == n,
{
    BigUint::from(n)
}

/// `BigUint + &BigUint`: the amount of the result is the sum of the two
/// amounts.
#[verifier::external_body]
pub(crate) fn plus(a: BigUint, b: &BigUint) -> (r: BigUint)
    ensures
        magnitude(digits_of(r)) == magnitude(digits_of(a)) + magnitude(digits_of(*b)),
{
    a + b
}

/// `BigUint * u32`: the amount of the result is the amount of `a` times `k`.
#[verifier::external_body]
pub(crate) fn times(a: BigUint, k: u32) -> (r: BigUint)
    ensures
        magnitude(digits_of(r)) == magnitude(digits_of(a)) * k,
{
    a * k
}

/// `BigUint / BigUint`, which panics on a zero divisor: the amount of the
/// result is the quotient of the two amounts, rounded down.
#[verifier::external_body]
pub(crate) fn quotient(a: BigUint, b: BigUint) -> (r: BigUint)
    requires
        magnitude(digits_of(b)) > 0,
    ensures
        magnitude(digits_of(r)) == magnitude(digits_of(a)) / magnitude(digits_of(b)),
{
    a / b
}

/// `>=` on `BigUint`: compares the two amounts.
#[verifier::external_body]
pub(crate) fn at_least(a: &BigUint, b: &BigUint) -> (r: bool)
    ensures
        r == (magnitude(digits_of(*a)) >= magnitude(digits_of(*b))),
{
    a >= b
}

} // verus!
