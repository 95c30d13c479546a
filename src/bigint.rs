//! Arbitrary-precision integers, provided by `num_bigint`.
//!
//! `BigInt` is opaque to the verifier; `int_of` names the mathematical integer
//! that a value stands for, and each operation used by the library is a small
//! trusted wrapper whose contract is stated over `int_of`.
use num_bigint::{BigInt, RandBigInt};
use num_traits::Zero;
use vstd::prelude::*;

verus! {

#[verifier::external_type_specification]
#[verifier::external_body]
pub struct ExBigInt(BigInt);

/// The integer that a `BigInt` value denotes.
pub uninterp spec fn int_of(x: BigInt) -> int;

/// Relies on `num_traits::Zero::zero` for `BigInt`: the value zero.
#[verifier::external_body]
pub(crate) fn big_zero() -> (r: BigInt)
    ensures
        int_of(r) == 0,
{
    BigInt::zero()
}

/// Relies on `From<u8> for BigInt`: the same integer.
#[verifier::external_body]
pub(crate) fn big_from_u8(x: u8) -> (r: BigInt)
    ensures
        int_of(r) == x as int,
{
    BigInt::from(x)
}

/// Relies on `Clone for BigInt`: a copy denoting the same integer.
#[verifier::external_body]
pub(crate) fn big_clone(x: &BigInt) -> (r: BigInt)
    ensures
        int_of(r) == int_of(*x),
{
    x.clone()
}

/// Relies on `Add<&BigInt> for &BigInt`: the exact sum.
#[verifier::external_body]
pub(crate) fn big_add(a: &BigInt, b: &BigInt) -> (r: BigInt)
    ensures
        int_of(r) == int_of(*a) + int_of(*b),
{
    a + b
}

/// Relies on `Sub<&BigInt> for &BigInt`: the exact difference.
#[verifier::external_body]
pub(crate) fn big_sub(a: &BigInt, b: &BigInt) -> (r: BigInt)
    ensures
        int_of(r) == int_of(*a) - int_of(*b),
{
    a - b
}

/// Relies on `Mul<&BigInt> for &BigInt`: the exact product.
#[verifier::external_body]
pub(crate) fn big_mul(a: &BigInt, b: &BigInt) -> (r: BigInt)
    ensures
        int_of(r) == int_of(*a) * int_of(*b),
{
    a * b
}

/// Relies on `BigInt::pow`: `x` raised to the second power.
#[verifier::external_body]
pub(crate) fn big_square(x: &BigInt) -> (r: BigInt)
    ensures
        int_of(r) == int_of(*x) * int_of(*x),
{
    x.pow(2)
}

/// Relies on `Rem<&BigInt> for &BigInt`: the remainder of truncating
/// division, which takes the sign of the dividend. It panics on a zero divisor.
#[verifier::external_body]
pub(crate) fn big_rem(a: &BigInt, m: &BigInt) -> (r: BigInt)
    requires
        int_of(*m) > 0,
    ensures
        int_of(*a) >= 0 ==> int_of(r) == int_of(*a) % int_of(*m),
        int_of(*a) < 0 ==> int_of(r) == -((-int_of(*a)) % int_of(*m)),
{
    a % m
}

/// Relies on `Div<u32> for &BigInt`: truncating division, which for a
/// non-negative dividend is the floor of the quotient.
#[verifier::external_body]
pub(crate) fn big_div_small(a: &BigInt, d: u32) -> (r: BigInt)
    requires
        d > 0,
    ensures
        int_of(*a) >= 0 ==> int_of(r) == int_of(*a) / (d as int),
{
    a / d
}

/// Relies on `PartialOrd for BigInt`: the numeric order.
#[verifier::external_body]
pub(crate) fn big_le(a: &BigInt, b: &BigInt) -> (r: bool)
    ensures
        r == (int_of(*a) <= int_of(*b)),
{
    a <= b
}

/// Relies on `num_bigint::RandBigInt::gen_bigint_range` over `rand`'s thread
/// generator: a random integer in `[0, bound)`. The range assertion there
/// needs `0 < bound`.
#[verifier::external_body]
pub(crate) fn random_below(bound: &BigInt) -> (r: BigInt)
    requires
        int_of(*bound) > 0,
    ensures
        0 <= int_of(r) < int_of(*bound),
{
    rand::thread_rng().gen_bigint_range(&BigInt::ZERO, bound)
}

} // verus!
