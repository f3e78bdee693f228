//! Trusted declarations for the arbitrary-precision integers of `num_bigint`.
//!
//! The library never inspects a `BigInt` directly: every verified statement
//! about one goes through `big_value`, the mathematical integer it holds, and
//! the small arithmetic wrappers below, whose contracts mirror what the
//! crate's source shows for each operation.

use vstd::prelude::*;
use num_bigint::BigInt;
use num_traits::Zero;
use num_traits::cast::ToPrimitive;

verus! {

#[verifier::external_type_specification]
#[verifier::external_body]
pub struct ExBigInt(BigInt);

/// The mathematical integer that a `BigInt` holds.
pub uninterp spec fn big_value(n: BigInt) -> int;

/// Relies on `BigInt: From<u32>`: conversion of zero yields the integer zero.
#[verifier::external_body]
pub(crate) fn big_zero() -> (r: BigInt)
    ensures
        big_value(r) == 0,
{
    BigInt::from(0u32)
}

/// Relies on `Mul<u64> for &BigInt`: exact multiplication by a machine word.
#[verifier::external_body]
pub(crate) fn big_mul_u64(n: &BigInt, m: u64) -> (r: BigInt)
    ensures
        big_value(r) == big_value(*n) * m,
{
    n * m
}

/// Relies on `Add<u64> for &BigInt`: exact addition of a machine word.
#[verifier::external_body]
pub(crate) fn big_add_u64(n: &BigInt, m: u64) -> (r: BigInt)
    ensures
        big_value(r) == big_value(*n) + m,
{
    n + m
}

/// Relies on `Div<u64> for &BigInt`: for a non-negative dividend the quotient
/// is rounded toward zero, which agrees with floor division.
#[verifier::external_body]
pub(crate) fn big_div_u64(n: &BigInt, d: u64) -> (r: BigInt)
    requires
        big_value(*n) >= 0,
        d > 0,
    ensures
        big_value(r) == big_value(*n) / (d as int),
{
    n / d
}

/// Relies on `Rem<u64> for &BigInt`: for a non-negative dividend the remainder
/// is the non-negative Euclidean remainder.
#[verifier::external_body]
pub(crate) fn big_rem_u64(n: &BigInt, d: u64) -> (r: BigInt)
    requires
        big_value(*n) >= 0,
        d > 0,
    ensures
        big_value(r) == big_value(*n) % (d as int),
{
    n % d
}

/// Relies on `num_traits::Zero::is_zero`: a `BigInt` is zero exactly when its
/// sign is absent.
#[verifier::external_body]
pub(crate) fn big_is_zero(n: &BigInt) -> (r: bool)
    ensures
        r == (big_value(*n) == 0),
{
    n.is_zero()
}

/// Relies on `num_traits::ToPrimitive::to_u64`: the conversion succeeds
/// exactly when the value fits in a `u64`, and is then exact.
#[verifier::external_body]
pub(crate) fn big_to_u64(n: &BigInt) -> (r: Option<u64>)
    ensures
        match r {
            Some(v) => v == big_value(*n),
            None => big_value(*n) < 0 || big_value(*n) > u64::MAX,
        },
{
    n.to_u64()
}

} // verus!
